use mystic_update::flatpak_list::{
    flatpak_app_id_from_ref, normalize_flatpak_value, parse_flatpak_updates, parse_install_scope,
    short_commit,
};
use mystic_update::managers::ManagerId;
use mystic_update::parse::{
    apt_has_updates, has_non_empty_payload, has_updates, is_rpm_arch, parse_apt_updates,
    parse_dnf_yum_updates, parse_updates, split_rpm_name_arch,
};
use mystic_update::updates::{InstallScope, UpdateEntry};

fn chars(text: &str) -> Vec<char> {
    text.chars().collect()
}

fn entry(
    manager: ManagerId,
    id: &str,
    name: &str,
    current: Option<&str>,
    new: Option<&str>,
    scope: Option<InstallScope>,
) -> UpdateEntry {
    UpdateEntry {
        manager,
        id: id.to_string(),
        name: name.to_string(),
        current_version: current.map(str::to_string),
        new_version: new.map(str::to_string),
        scope,
    }
}

fn show(list: &[UpdateEntry]) -> String {
    format!("{list:?}")
}

#[test]
fn apt_list_is_read() {
    let output = "$ apt list --upgradable\n\
        Listing... Done\n\
        WARNING: apt does not have a stable CLI interface.\n\
        \n\
        bash/stable 5.2-2 amd64 [upgradable from: 5.1-6 ]\n\
        odd\n\
        vim/stable,now 9.1 amd64 [upgradable from: 9.0";
    assert_eq!(
        show(&parse_apt_updates(output)),
        show(&[
            entry(ManagerId::Apt, "bash", "bash", Some("5.1-6"), Some("5.2-2"), None),
            entry(ManagerId::Apt, "odd", "odd", None, None, None),
            entry(ManagerId::Apt, "vim", "vim", Some("9.0"), Some("9.1"), None),
        ])
    );
    assert!(parse_apt_updates("$ apt list --upgradable\nListing...\n").is_empty());
}

#[test]
fn rpm_list_is_read() {
    let output = "$ dnf check-update\n\
        Last metadata expiration check: 0:01 ago\n\
        Updating and loading repositories:\n\
        Repositories loaded.\n\
        \n\
        kernel.x86_64   6.9.1-1.fc40   updates\n\
        python3.11.noarch 3.11.9 updates\n\
        nodots 1.0 updates\n\
        glibc.sparc 2.39 updates\n\
        lonely.x86_64\n\
        Obsoleting Packages\n";
    for id in [ManagerId::Dnf, ManagerId::Yum] {
        assert_eq!(
            show(&parse_dnf_yum_updates(id, output)),
            show(&[
                entry(id, "kernel.x86_64", "kernel", None, Some("6.9.1-1.fc40"), None),
                entry(id, "python3.11.noarch", "python3.11", None, Some("3.11.9"), None),
            ])
        );
    }
}

#[test]
fn rpm_names_are_split_at_the_architecture() {
    let package = chars("a.b.i686");
    let (name, arch) = split_rpm_name_arch(&package).unwrap();
    assert_eq!((name.to_vec(), arch.to_vec()), (chars("a.b"), chars("i686")));
    assert!(split_rpm_name_arch(&chars("noarch")).is_none());
    assert!(split_rpm_name_arch(&chars("a.src")).is_none());
    for arch in ["noarch", "x86_64", "aarch64", "armv7hnl", "ppc64le", "s390x", "riscv64"] {
        assert!(is_rpm_arch(&chars(arch)));
    }
    assert!(!is_rpm_arch(&chars("X86_64")));
}

#[test]
fn flatpak_lists_are_matched() {
    let output = "$ flatpak list --columns=application,ref,version,installation\n\
        Application ID\tRef\tVersion\tInstallation\n\
        org.a.App\torg.a.App/x86_64/stable\t1.0\tuser\n\
        org.b.App\tapp/org.b.App/x86_64/stable\t2.0\t-\tsystem\n\
        org.c.App\tapp/org.c.App/x86_64/stable\t3.0\taaaaaaaaaaaaaaaa\tsystem\n\
        short\trow\n\
        $ flatpak remote-ls --updates --columns=application,ref,version,commit\n\
        error: something\n\
        org.a.App\torg.a.App/x86_64/stable\t1.1\tffff\n\
        other\tapp/org.b.App/x86_64/beta\t2.1\n\
        org.c.App\tapp/org.c.App/x86_64/stable\t3.0\tbbbbbbbbbbbbbbbb\n\
        org.d.App app/org.d.App/x86_64/stable 4.0\n\
        $ flatpak history\n\
        org.e.App\tapp/org.e.App/x86_64/stable\t5.0\n";
    let flatpak = ManagerId::Flatpak;
    let (user, system) = (Some(InstallScope::User), Some(InstallScope::System));
    assert_eq!(
        show(&parse_flatpak_updates(output)),
        show(&[
            entry(flatpak, "org.a.App/x86_64/stable", "org.a.App", Some("1.0"), Some("1.1"), user),
            entry(flatpak, "app/org.b.App/x86_64/beta", "other", Some("2.0"), Some("2.1"), system),
            entry(
                flatpak,
                "app/org.c.App/x86_64/stable",
                "org.c.App",
                Some("3.0 (aaaaaaaaaaaa)"),
                Some("3.0 (bbbbbbbbbbbb)"),
                system
            ),
            entry(flatpak, "app/org.d.App/x86_64/stable", "org.d.App", None, Some("4.0"), None),
        ])
    );
}

#[test]
fn flatpak_columns_are_read() {
    assert_eq!(normalize_flatpak_value(&chars(" x ")).as_deref(), Some("x"));
    assert_eq!(normalize_flatpak_value(&chars(" - ")), None);
    assert_eq!(normalize_flatpak_value(&chars("  ")), None);
    assert_eq!(short_commit("0123456789abcdef"), "0123456789ab");
    assert_eq!(short_commit("0123"), "0123");
    assert_eq!(flatpak_app_id_from_ref(&chars("app/org.x/y")).as_deref(), Some("org.x"));
    assert_eq!(flatpak_app_id_from_ref(&chars("runtime/org.x/y")), None);
    assert_eq!(flatpak_app_id_from_ref(&chars("app")), None);
    assert_eq!(parse_install_scope(&chars("user")), Some(InstallScope::User));
    assert_eq!(parse_install_scope(&chars("system")), Some(InstallScope::System));
    assert_eq!(parse_install_scope(&chars("User")), None);
}

#[test]
fn upgraded_packages_are_counted() {
    assert!(apt_has_updates("x\n3 upgraded, 0 newly installed\n"));
    assert!(!apt_has_updates("0 upgraded, 2 newly installed\n9 upgraded, 0\n"));
    assert!(apt_has_updates("many upgraded, 0\n 1  upgraded\n"));
    assert!(!apt_has_updates("1 package upgraded\n"));
    assert!(!apt_has_updates("4294967296 upgraded\n"));
    assert!(!apt_has_updates(""));
}

#[test]
fn checks_tell_of_updates() {
    let apt = "$ apt list --upgradable\nbash/stable 5.2 amd64\n";
    assert!(has_updates(ManagerId::Apt, apt, 0));
    assert!(!has_updates(ManagerId::Apt, apt, 1));
    assert!(!has_updates(ManagerId::Apt, "$ apt list\nListing...\n", 0));
    let flatpak = "$ flatpak remote-ls --updates\na b c\n";
    assert!(has_updates(ManagerId::Flatpak, flatpak, 0));
    assert!(!has_updates(ManagerId::Flatpak, flatpak, 3));
    assert!(!has_updates(ManagerId::Snap, "All snaps up to date.\n", 0));
    assert!(has_updates(ManagerId::Snap, "Name Version\n", 0));
    assert!(has_updates(ManagerId::Dnf, "", 100));
    assert!(!has_updates(ManagerId::Yum, "x", 0));
    assert!(has_updates(ManagerId::Pacman, "$ pacman -Qu\nlinux 6.8 -> 6.9\n", 1));
    assert!(!has_updates(ManagerId::Brew, "$ brew outdated\n\n", 0));
    assert!(has_updates(ManagerId::Zypper, "a | b\n", 0));
    assert!(!has_updates(ManagerId::Zypper, "No updates found.\n", 0));
    assert!(has_updates(ManagerId::Emerge, "[ebuild U ] x\n", 0));
    assert!(has_updates(ManagerId::NixEnv, "x would be upgraded\n", 0));
    assert!(!has_updates(ManagerId::NixEnv, "", 0));
}

#[test]
fn payload_is_more_than_command_lines() {
    assert!(has_non_empty_payload("$ x\ny\n"));
    assert!(!has_non_empty_payload(" $ x\nNo updates\nNothing to do.\n"));
    assert!(!has_non_empty_payload(""));
}

#[test]
fn updates_belong_to_their_manager() {
    assert_eq!(parse_updates(ManagerId::Apt, "a/b 1\n")[0].manager, ManagerId::Apt);
    assert_eq!(parse_updates(ManagerId::Yum, "a.noarch 1\n")[0].manager, ManagerId::Yum);
    let list = "$ flatpak remote-ls\na b c\n";
    assert_eq!(parse_updates(ManagerId::Flatpak, list)[0].manager, ManagerId::Flatpak);
    assert!(parse_updates(ManagerId::Snap, "a.noarch 1\n").is_empty());
}
