use mystic_update::managers::{ManagerId, MANAGER_COUNT};

#[test]
fn every_manager_has_its_place() {
    let all = ManagerId::all();
    assert_eq!(all.len(), MANAGER_COUNT);
    for (i, id) in all.iter().enumerate() {
        assert_eq!(id.place(), i);
    }
    let mut sorted = all.clone();
    sorted.sort();
    assert_eq!(all, sorted);
}

#[test]
fn managers_know_their_commands() {
    let apt = ManagerId::Apt.spec();
    assert_eq!((apt.label, apt.command_name, apt.requires_privilege), ("APT", "apt-get", true));
    assert_eq!(apt.commands.len(), 2);
    assert_eq!(apt.commands[1].args, vec!["upgrade", "-y"]);
    assert!(apt.commands[1].requires_privilege);
    assert_eq!(apt.check_commands[0].program, "apt");
    assert_eq!(apt.check_commands[0].args, vec!["list", "--upgradable"]);
    let flatpak = ManagerId::Flatpak.spec();
    assert!(!flatpak.commands[0].requires_privilege);
    assert!(flatpak.commands[1].requires_privilege);
    assert_eq!(flatpak.check_commands.len(), 2);
    assert!(!ManagerId::Brew.spec().requires_privilege);
    assert!(!ManagerId::NixEnv.spec().requires_privilege);
    assert_eq!(ManagerId::NixEnv.spec().check_commands[0].args, vec!["-u", "*", "--dry-run"]);
}
