//! The package managers that the updater knows, and the commands it runs for each.

use vstd::prelude::*;

verus! {

/// A package manager.
#[derive(Clone, Copy, Debug, PartialEq, Eq, Hash, PartialOrd, Ord, Structural)]
pub enum ManagerId {
    Flatpak,
    Snap,
    Dnf,
    Yum,
    Pacman,
    Zypper,
    Emerge,
    NixEnv,
    Brew,
    Apt,
}

/// One command line of a manager.
#[derive(Clone, Debug)]
pub struct CommandSpec {
    pub program: &'static str,
    pub args: Vec<&'static str>,
    pub requires_privilege: bool,
}

/// What is fixed about a manager.
#[derive(Clone, Debug)]
pub struct ManagerSpec {
    pub label: &'static str,
    pub command_name: &'static str,
    pub requires_privilege: bool,
    pub commands: Vec<CommandSpec>,
    pub check_commands: Vec<CommandSpec>,
}

/// A command line, as characters.
#[verifier::ext_equal]
pub struct CommandModel {
    pub program: Seq<char>,
    pub args: Seq<Seq<char>>,
    pub requires_privilege: bool,
}

/// What is fixed about a manager, as characters.
#[verifier::ext_equal]
pub struct ManagerModel {
    pub label: Seq<char>,
    pub command_name: Seq<char>,
    pub requires_privilege: bool,
    pub commands: Seq<CommandModel>,
    pub check_commands: Seq<CommandModel>,
}

/// The characters of `v`, one sequence for each slice.
pub open spec fn literals(v: Seq<&'static str>) -> Seq<Seq<char>> {
    Seq::new(v.len(), |i: int| v[i]@)
}

/// The commands of `v`, as characters.
pub open spec fn commands(v: Seq<CommandSpec>) -> Seq<CommandModel> {
    Seq::new(v.len(), |i: int| v[i]@)
}

impl View for CommandSpec {
    type V = CommandModel;

    open spec fn view(&self) -> CommandModel {
        CommandModel {
            program: self.program@,
            args: literals(self.args@),
            requires_privilege: self.requires_privilege,
        }
    }
}

impl View for ManagerSpec {
    type V = ManagerModel;

    open spec fn view(&self) -> ManagerModel {
        ManagerModel {
            label: self.label@,
            command_name: self.command_name@,
            requires_privilege: self.requires_privilege,
            commands: commands(self.commands@),
            check_commands: commands(self.check_commands@),
        }
    }
}

/// A command line with these parts.
pub open spec fn command(
    program: Seq<char>,
    args: Seq<Seq<char>>,
    requires_privilege: bool,
) -> CommandModel {
    CommandModel { program, args, requires_privilege }
}

/// How many managers there are.
pub const MANAGER_COUNT: usize = 10;

/// Every manager, in the order in which they are shown and run.
pub open spec fn all_managers() -> Seq<ManagerId> {
    seq![
        ManagerId::Flatpak,
        ManagerId::Snap,
        ManagerId::Dnf,
        ManagerId::Yum,
        ManagerId::Pacman,
        ManagerId::Zypper,
        ManagerId::Emerge,
        ManagerId::NixEnv,
        ManagerId::Brew,
        ManagerId::Apt,
    ]
}

/// The place of `id` among all managers.
pub open spec fn place_of(id: ManagerId) -> int {
    match id {
        ManagerId::Flatpak => 0,
        ManagerId::Snap => 1,
        ManagerId::Dnf => 2,
        ManagerId::Yum => 3,
        ManagerId::Pacman => 4,
        ManagerId::Zypper => 5,
        ManagerId::Emerge => 6,
        ManagerId::NixEnv => 7,
        ManagerId::Brew => 8,
        ManagerId::Apt => 9,
    }
}

/// The label of a manager.
pub open spec fn label_of(id: ManagerId) -> Seq<char> {
    match id {
        ManagerId::Flatpak => "Flatpak"@,
        ManagerId::Snap => "Snap"@,
        ManagerId::Dnf => "DNF"@,
        ManagerId::Yum => "YUM"@,
        ManagerId::Pacman => "Pacman"@,
        ManagerId::Zypper => "Zypper"@,
        ManagerId::Emerge => "Emerge"@,
        ManagerId::NixEnv => "Nix"@,
        ManagerId::Brew => "Homebrew"@,
        ManagerId::Apt => "APT"@,
    }
}

/// The program whose presence tells that a manager is there.
pub open spec fn command_name_of(id: ManagerId) -> Seq<char> {
    match id {
        ManagerId::Flatpak => "flatpak"@,
        ManagerId::Snap => "snap"@,
        ManagerId::Dnf => "dnf"@,
        ManagerId::Yum => "yum"@,
        ManagerId::Pacman => "pacman"@,
        ManagerId::Zypper => "zypper"@,
        ManagerId::Emerge => "emerge"@,
        ManagerId::NixEnv => "nix-env"@,
        ManagerId::Brew => "brew"@,
        ManagerId::Apt => "apt-get"@,
    }
}

/// Whether updates through a manager need privilege.
pub open spec fn needs_privilege(id: ManagerId) -> bool {
    id != ManagerId::NixEnv && id != ManagerId::Brew
}

/// The commands that update everything that a manager holds.
pub open spec fn update_commands_of(id: ManagerId) -> Seq<CommandModel> {
    match id {
        ManagerId::Flatpak => seq![
            command("flatpak"@, seq!["update"@, "-y"@], false),
            command("flatpak"@, seq!["update"@, "--system"@, "-y"@], true),
        ],
        ManagerId::Snap => seq![command("snap"@, seq!["refresh"@], true)],
        ManagerId::Dnf => seq![command("dnf"@, seq!["update"@, "-y"@], true)],
        ManagerId::Yum => seq![command("yum"@, seq!["update"@, "-y"@], true)],
        ManagerId::Pacman => seq![command("pacman"@, seq!["-Syu"@, "--noconfirm"@], true)],
        ManagerId::Zypper => seq![
            command("zypper"@, seq!["refresh"@], true),
            command("zypper"@, seq!["update"@, "-y"@], true),
        ],
        ManagerId::Emerge => seq![
            command("emerge"@, seq!["--update"@, "--deep"@, "@world"@], true),
        ],
        ManagerId::NixEnv => seq![command("nix-env"@, seq!["-u"@, "*"@], false)],
        ManagerId::Brew => seq![
            command("brew"@, seq!["update"@], false),
            command("brew"@, seq!["upgrade"@], false),
        ],
        ManagerId::Apt => seq![
            command("apt-get"@, seq!["update"@], true),
            command("apt-get"@, seq!["upgrade"@, "-y"@], true),
        ],
    }
}

/// The commands that tell which updates a manager has.
pub open spec fn check_commands_of(id: ManagerId) -> Seq<CommandModel> {
    match id {
        ManagerId::Flatpak => seq![
            command(
                "flatpak"@,
                seq!["list"@, "--columns=application,ref,version,installation"@],
                false,
            ),
            command(
                "flatpak"@,
                seq![
                    "remote-ls"@,
                    "--updates"@,
                    "--columns=application,ref,version,commit"@,
                ],
                false,
            ),
        ],
        ManagerId::Snap => seq![command("snap"@, seq!["refresh"@, "--list"@], false)],
        ManagerId::Dnf => seq![command("dnf"@, seq!["check-update"@], false)],
        ManagerId::Yum => seq![command("yum"@, seq!["check-update"@], false)],
        ManagerId::Pacman => seq![command("pacman"@, seq!["-Qu"@], false)],
        ManagerId::Zypper => seq![command("zypper"@, seq!["list-updates"@], false)],
        ManagerId::Emerge => seq![
            command(
                "emerge"@,
                seq!["--pretend"@, "--update"@, "--deep"@, "@world"@],
                false,
            ),
        ],
        ManagerId::NixEnv => seq![
            command("nix-env"@, seq!["-u"@, "*"@, "--dry-run"@], false),
        ],
        ManagerId::Brew => seq![command("brew"@, seq!["outdated"@], false)],
        ManagerId::Apt => seq![command("apt"@, seq!["list"@, "--upgradable"@], false)],
    }
}

/// What is fixed about a manager.
pub open spec fn manager_of(id: ManagerId) -> ManagerModel {
    ManagerModel {
        label: label_of(id),
        command_name: command_name_of(id),
        requires_privilege: needs_privilege(id),
        commands: update_commands_of(id),
        check_commands: check_commands_of(id),
    }
}

/// The command line of one program with no argument or more.
fn one(program: &'static str, args: Vec<&'static str>, requires_privilege: bool) -> (r: CommandSpec)
    ensures
        r@ == command(program@, literals(args@), requires_privilege),
{
    CommandSpec { program, args, requires_privilege }
}

impl ManagerId {
    /// Every manager, in the order in which they are shown and run.
    pub fn all() -> (r: Vec<ManagerId>)
        ensures
            r@ == all_managers(),
    {
        vec![
            ManagerId::Flatpak,
            ManagerId::Snap,
            ManagerId::Dnf,
            ManagerId::Yum,
            ManagerId::Pacman,
            ManagerId::Zypper,
            ManagerId::Emerge,
            ManagerId::NixEnv,
            ManagerId::Brew,
            ManagerId::Apt,
        ]
    }

    /// The place of this manager among all managers.
    pub fn place(self) -> (r: usize)
        ensures
            r == place_of(self),
            r < MANAGER_COUNT,
            all_managers()[r as int] == self,
    {
        match self {
            ManagerId::Flatpak => 0,
            ManagerId::Snap => 1,
            ManagerId::Dnf => 2,
            ManagerId::Yum => 3,
            ManagerId::Pacman => 4,
            ManagerId::Zypper => 5,
            ManagerId::Emerge => 6,
            ManagerId::NixEnv => 7,
            ManagerId::Brew => 8,
            ManagerId::Apt => 9,
        }
    }

    /// What is fixed about this manager.
    pub fn spec(self) -> (r: ManagerSpec)
        ensures
            r@ == manager_of(self),
    {
        let r = ManagerSpec {
            label: self.label(),
            command_name: self.command_name(),
            requires_privilege: self != ManagerId::NixEnv && self != ManagerId::Brew,
            commands: self.update_commands(),
            check_commands: self.check_commands(),
        };
        r
    }

    /// The name under which this manager is shown.
    fn label(self) -> (r: &'static str)
        ensures
            r@ == label_of(self),
    {
        match self {
            ManagerId::Flatpak => "Flatpak",
            ManagerId::Snap => "Snap",
            ManagerId::Dnf => "DNF",
            ManagerId::Yum => "YUM",
            ManagerId::Pacman => "Pacman",
            ManagerId::Zypper => "Zypper",
            ManagerId::Emerge => "Emerge",
            ManagerId::NixEnv => "Nix",
            ManagerId::Brew => "Homebrew",
            ManagerId::Apt => "APT",
        }
    }

    /// The program whose presence tells that this manager is there.
    fn command_name(self) -> (r: &'static str)
        ensures
            r@ == command_name_of(self),
    {
        match self {
            ManagerId::Flatpak => "flatpak",
            ManagerId::Snap => "snap",
            ManagerId::Dnf => "dnf",
            ManagerId::Yum => "yum",
            ManagerId::Pacman => "pacman",
            ManagerId::Zypper => "zypper",
            ManagerId::Emerge => "emerge",
            ManagerId::NixEnv => "nix-env",
            ManagerId::Brew => "brew",
            ManagerId::Apt => "apt-get",
        }
    }

    /// The commands that update everything that this manager holds.
    fn update_commands(self) -> (r: Vec<CommandSpec>)
        ensures
            commands(r@) == update_commands_of(self),
    {
        let r = match self {
            ManagerId::Flatpak => vec![
                one("flatpak", vec!["update", "-y"], false),
                one("flatpak", vec!["update", "--system", "-y"], true),
            ],
            ManagerId::Snap => vec![one("snap", vec!["refresh"], true)],
            ManagerId::Dnf => vec![one("dnf", vec!["update", "-y"], true)],
            ManagerId::Yum => vec![one("yum", vec!["update", "-y"], true)],
            ManagerId::Pacman => vec![one("pacman", vec!["-Syu", "--noconfirm"], true)],
            ManagerId::Zypper => vec![
                one("zypper", vec!["refresh"], true),
                one("zypper", vec!["update", "-y"], true),
            ],
            ManagerId::Emerge => vec![
                one("emerge", vec!["--update", "--deep", "@world"], true),
            ],
            ManagerId::NixEnv => vec![one("nix-env", vec!["-u", "*"], false)],
            ManagerId::Brew => vec![
                one("brew", vec!["update"], false),
                one("brew", vec!["upgrade"], false),
            ],
            ManagerId::Apt => vec![
                one("apt-get", vec!["update"], true),
                one("apt-get", vec!["upgrade", "-y"], true),
            ],
        };
        assert(commands(r@) =~~= update_commands_of(self));
        r
    }

    /// The commands that tell which updates this manager has.
    fn check_commands(self) -> (r: Vec<CommandSpec>)
        ensures
            commands(r@) == check_commands_of(self),
    {
        let r = match self {
            ManagerId::Flatpak => vec![
                one(
                    "flatpak",
                    vec!["list", "--columns=application,ref,version,installation"],
                    false,
                ),
                one(
                    "flatpak",
                    vec![
                        "remote-ls",
                        "--updates",
                        "--columns=application,ref,version,commit",
                    ],
                    false,
                ),
            ],
            ManagerId::Snap => vec![one("snap", vec!["refresh", "--list"], false)],
            ManagerId::Dnf => vec![one("dnf", vec!["check-update"], false)],
            ManagerId::Yum => vec![one("yum", vec!["check-update"], false)],
            ManagerId::Pacman => vec![one("pacman", vec!["-Qu"], false)],
            ManagerId::Zypper => vec![one("zypper", vec!["list-updates"], false)],
            ManagerId::Emerge => vec![
                one("emerge", vec!["--pretend", "--update", "--deep", "@world"], false),
            ],
            ManagerId::NixEnv => vec![one("nix-env", vec!["-u", "*", "--dry-run"], false)],
            ManagerId::Brew => vec![one("brew", vec!["outdated"], false)],
            ManagerId::Apt => vec![one("apt", vec!["list", "--upgradable"], false)],
        };
        assert(commands(r@) =~~= check_commands_of(self));
        r
    }
}

} // verus!
