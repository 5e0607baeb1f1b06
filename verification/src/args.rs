//! The arguments of the telephone program.
use crate::text::{char_at, chars_of, same_text};
use vstd::prelude::*;

verus! {

/// What the program is asked to do.
#[derive(Debug)]
pub struct Args {
    pub list_devices: bool,
    pub config: Option<String>,
    pub rnsconfig: Option<String>,
    pub service: bool,
    pub systemd: bool,
    pub version: bool,
    pub verbose: u8,
    pub help: bool,
}

/// What the program is asked to do, as a mathematical value.
#[verifier::ext_equal]
pub struct ArgsModel {
    pub list_devices: bool,
    pub config: Option<Seq<char>>,
    pub rnsconfig: Option<Seq<char>>,
    pub service: bool,
    pub systemd: bool,
    pub version: bool,
    pub verbose: u8,
    pub help: bool,
}

impl View for Args {
    type V = ArgsModel;

    open spec fn view(&self) -> ArgsModel {
        ArgsModel {
            list_devices: self.list_devices,
            config: crate::config::text_view(self.config),
            rnsconfig: crate::config::text_view(self.rnsconfig),
            service: self.service,
            systemd: self.systemd,
            version: self.version,
            verbose: self.verbose,
            help: self.help,
        }
    }
}

/// How often a character stands in some text.
pub open spec fn count_of(text: Seq<char>, ch: char) -> nat
    decreases text.len(),
{
    if text.len() == 0 {
        0
    } else {
        count_of(text.drop_last(), ch) + if text.last() == ch {
            1nat
        } else {
            0nat
        }
    }
}

/// Whether an argument is made of dashes and the letter v alone, with a dash first.
pub open spec fn is_verbosity(text: Seq<char>) -> bool {
    &&& text.len() > 0
    &&& text[0] == '-'
    &&& forall|i: int| 0 <= i < text.len() ==> #[trigger] text[i] == '-' || text[i] == 'v'
}

impl ArgsModel {
    /// What the program is asked to do without arguments.
    pub open spec fn none() -> ArgsModel {
        ArgsModel {
            list_devices: false,
            config: None,
            rnsconfig: None,
            service: false,
            systemd: false,
            version: false,
            verbose: 0,
            help: false,
        }
    }

    /// The verbosity raised, as far as it goes.
    pub open spec fn louder(self, by: u8) -> ArgsModel {
        ArgsModel {
            verbose: if self.verbose + by > u8::MAX {
                u8::MAX
            } else {
                (self.verbose + by) as u8
            },
            ..self
        }
    }

    /// What the program is asked to do by arguments more, or what is said of the first one that
    /// is wrong.
    pub open spec fn with_args(self, args: Seq<Seq<char>>) -> Result<ArgsModel, Seq<char>>
        decreases args.len(),
    {
        if args.len() == 0 {
            Ok(self)
        } else {
            let first = args[0];
            let rest = args.skip(1);
            if first == "-l"@ || first == "--list-devices"@ {
                (ArgsModel { list_devices: true, ..self }).with_args(rest)
            } else if first == "--config"@ {
                if args.len() < 2 {
                    Err("--config requires a path"@)
                } else {
                    (ArgsModel { config: Some(args[1]), ..self }).with_args(args.skip(2))
                }
            } else if first == "--rnsconfig"@ {
                if args.len() < 2 {
                    Err("--rnsconfig requires a path"@)
                } else {
                    (ArgsModel { rnsconfig: Some(args[1]), ..self }).with_args(args.skip(2))
                }
            } else if first == "-s"@ || first == "--service"@ {
                (ArgsModel { service: true, ..self }).with_args(rest)
            } else if first == "--systemd"@ {
                (ArgsModel { systemd: true, ..self }).with_args(rest)
            } else if first == "--version"@ {
                (ArgsModel { version: true, ..self }).with_args(rest)
            } else if first == "-v"@ || first == "--verbose"@ {
                self.louder(1).with_args(rest)
            } else if first == "-h"@ || first == "--help"@ {
                (ArgsModel { help: true, ..self }).with_args(rest)
            } else if is_verbosity(first) {
                self.louder(count_of(first, 'v') as u8).with_args(rest)
            } else {
                Err("unknown argument "@ + first)
            }
        }
    }
}

/// Arguments as mathematical values.
pub open spec fn arg_views(args: Seq<String>) -> Seq<Seq<char>> {
    args.map_values(|arg: String| arg@)
}

/// How much louder an argument of dashes and the letter v makes the program.
fn verbosity(arg: &str) -> (by: Option<u8>)
    ensures
        match by {
            Some(by) => is_verbosity(arg@) && by == count_of(arg@, 'v') as u8,
            None => !is_verbosity(arg@),
        },
{
    let chars = chars_of(arg);
    if chars.len() == 0 || char_at(&chars, 0) != '-' {
        return None;
    }
    let mut count: usize = 0;
    let mut i: usize = 0;
    while i < chars.len()
        invariant
            i <= chars@.len(),
            chars@ == arg@,
            count <= i,
            count == count_of(chars@.take(i as int), 'v'),
            forall|j: int| 0 <= j < i ==> #[trigger] chars@[j] == '-' || chars@[j] == 'v',
        decreases chars.len() - i,
    {
        let ch = char_at(&chars, i);
        assert(chars@.take(i + 1).drop_last() =~= chars@.take(i as int));
        assert(chars@.take(i + 1).last() == ch);
        if ch == 'v' {
            count += 1;
        } else if ch != '-' {
            assert(chars@[i as int] != '-' && chars@[i as int] != 'v');
            return None;
        }
        i += 1;
    }
    assert(chars@.take(i as int) =~= chars@);
    #[verifier::truncate]
    let by: u8 = count as u8;
    Some(by)
}

impl Args {
    fn raise(&mut self, by: u8)
        ensures
            final(self)@ == old(self)@.louder(by),
    {
        self.verbose = if self.verbose > 255 - by {
            255
        } else {
            self.verbose + by
        };
    }

    /// Reads the arguments.
    pub fn parse(args: &[String]) -> (parsed: Result<Self, String>)
        ensures
            match parsed {
                Ok(parsed) => ArgsModel::none().with_args(arg_views(args@)) == Ok::<
                    ArgsModel,
                    Seq<char>,
                >(parsed@),
                Err(error) => ArgsModel::none().with_args(arg_views(args@)) == Err::<
                    ArgsModel,
                    Seq<char>,
                >(error@),
            },
    {
        let ghost all = arg_views(args@);
        let mut parsed = Args {
            list_devices: false,
            config: None,
            rnsconfig: None,
            service: false,
            systemd: false,
            version: false,
            verbose: 0,
            help: false,
        };
        let mut i: usize = 0;
        assert(all.skip(0) =~= all);
        while i < args.len()
            invariant
                i <= args@.len(),
                all == arg_views(args@),
                ArgsModel::none().with_args(all) == parsed@.with_args(all.skip(i as int)),
            decreases args.len() - i,
        {
            let arg = args[i].as_str();
            let ghost rest = all.skip(i as int);
            proof {
                assert(rest[0] == arg@);
                assert(rest.skip(1) =~= all.skip(i + 1));
                if i + 1 < args@.len() {
                    assert(rest[1] == args@[i + 1]@);
                    assert(rest.skip(2) =~= all.skip(i + 2));
                }
            }
            if same_text(arg, "-l") || same_text(arg, "--list-devices") {
                parsed.list_devices = true;
            } else if same_text(arg, "--config") {
                i += 1;
                if i >= args.len() {
                    return Err("--config requires a path".to_owned());
                }
                parsed.config = Some(args[i].clone());
            } else if same_text(arg, "--rnsconfig") {
                i += 1;
                if i >= args.len() {
                    return Err("--rnsconfig requires a path".to_owned());
                }
                parsed.rnsconfig = Some(args[i].clone());
            } else if same_text(arg, "-s") || same_text(arg, "--service") {
                parsed.service = true;
            } else if same_text(arg, "--systemd") {
                parsed.systemd = true;
            } else if same_text(arg, "--version") {
                parsed.version = true;
            } else if same_text(arg, "-v") || same_text(arg, "--verbose") {
                parsed.raise(1);
            } else if same_text(arg, "-h") || same_text(arg, "--help") {
                parsed.help = true;
            } else {
                match verbosity(arg) {
                    Some(by) => parsed.raise(by),
                    None => return Err("unknown argument ".to_owned().concat(arg)),
                }
            }
            i += 1;
        }
        Ok(parsed)
    }
}

/// What the program does first.
#[derive(Debug, Clone, Copy, PartialEq, Eq, Structural)]
pub enum Task {
    Help,
    Version,
    Systemd,
    ListDevices,
    Run,
}

impl Args {
    /// What the program does: the first of these that is asked for, else it runs.
    pub fn task(&self) -> (task: Task)
        ensures
            task == (if self@.help {
                Task::Help
            } else if self@.version {
                Task::Version
            } else if self@.systemd {
                Task::Systemd
            } else if self@.list_devices {
                Task::ListDevices
            } else {
                Task::Run
            }),
    {
        if self.help {
            Task::Help
        } else if self.version {
            Task::Version
        } else if self.systemd {
            Task::Systemd
        } else if self.list_devices {
            Task::ListDevices
        } else {
            Task::Run
        }
    }
}

/// A unit that runs the program as a service of a user.
pub open spec fn unit_text(user: Seq<char>) -> Seq<char> {
    "# This systemd unit allows installing rnphone as a system service on Linux-based devices\n[Unit]\nDescription=Reticulum Telephone Service\nAfter=sound.target\n\n[Service]\nExecStartPre=/bin/sleep 30\nType=simple\nEnvironment=\"DISPLAY=:0\"\nEnvironment=\"XAUTHORITY=/home/"@
        + user + "/.Xauthority\"\nEnvironment=\"XDG_RUNTIME_DIR=/run/user/1000\"\nRestart=always\nRestartSec=5\nUser="@
        + user + "\nExecStart=/home/"@ + user
        + "/.local/bin/rnphone --service -vvv\n\n[Install]\nWantedBy=graphical.target\n"@
}

/// A unit that runs the program as a service of a user.
pub fn systemd_unit(user: &str) -> (unit: String)
    ensures
        unit@ == unit_text(user@),
{
    "# This systemd unit allows installing rnphone as a system service on Linux-based devices\n[Unit]\nDescription=Reticulum Telephone Service\nAfter=sound.target\n\n[Service]\nExecStartPre=/bin/sleep 30\nType=simple\nEnvironment=\"DISPLAY=:0\"\nEnvironment=\"XAUTHORITY=/home/".to_owned().concat(
        user,
    ).concat(
        "/.Xauthority\"\nEnvironment=\"XDG_RUNTIME_DIR=/run/user/1000\"\nRestart=always\nRestartSec=5\nUser=",
    ).concat(user).concat("\nExecStart=/home/").concat(user).concat(
        "/.local/bin/rnphone --service -vvv\n\n[Install]\nWantedBy=graphical.target\n",
    )
}

/// Asking for more news adds to what was asked for before, up to the largest count.
pub proof fn law_verbosity_adds_up(args: ArgsModel, by: u8)
    ensures
        args.verbose + by <= 255 ==> args.louder(by).verbose == args.verbose + by,
        args.verbose + by > 255 ==> args.louder(by).verbose == 255,
        (ArgsModel { verbose: args.verbose, ..args.louder(by) }) == args,
{
}

/// A letter is counted as often as it stands in a text.
pub proof fn law_letters_are_counted(left: Seq<char>, right: Seq<char>, letter: char, other: char)
    ensures
        count_of(Seq::empty(), letter) == 0,
        count_of(left.push(letter), letter) == count_of(left, letter) + 1,
        other != letter ==> count_of(left.push(other), letter) == count_of(left, letter),
        count_of(left + right, letter) == count_of(left, letter) + count_of(right, letter),
    decreases right.len(),
{
    assert(left.push(letter).drop_last() =~= left);
    assert(left.push(other).drop_last() =~= left);
    if right.len() == 0 {
        assert(left + right =~= left);
    } else {
        law_letters_are_counted(left, right.drop_last(), letter, other);
        assert((left + right).drop_last() =~= left + right.drop_last());
        assert((left + right).last() == right.last());
    }
}

proof fn lemma_options_differ()
    ensures
        "-l"@ != "--config"@,
        "--list-devices"@ != "--config"@,
        "-l"@ != "--rnsconfig"@,
        "--list-devices"@ != "--rnsconfig"@,
        "--config"@ != "--rnsconfig"@,
        ({
            let names = seq![
                "-l"@,
                "--list-devices"@,
                "--config"@,
                "--rnsconfig"@,
                "-s"@,
                "--service"@,
                "--systemd"@,
                "--version"@,
                "-v"@,
                "--verbose"@,
                "-h"@,
                "--help"@,
            ];
            forall|i: int, j: int|
                0 <= i < j < names.len() ==> #[trigger] names[i] != #[trigger] names[j]
        }),
{
    reveal_strlit("-l");
    reveal_strlit("--list-devices");
    reveal_strlit("--config");
    reveal_strlit("--rnsconfig");
    reveal_strlit("-s");
    reveal_strlit("--service");
    reveal_strlit("--systemd");
    reveal_strlit("--version");
    reveal_strlit("-v");
    reveal_strlit("--verbose");
    reveal_strlit("-h");
    reveal_strlit("--help");
    assert("-l"@[1] == 'l' && "-s"@[1] == 's' && "-v"@[1] == 'v' && "-h"@[1] == 'h');
    assert("--list-devices"@.len() == 14 && "--rnsconfig"@.len() == 11);
    assert("--config"@.len() == 8 && "--help"@.len() == 6);
    assert("--service"@.len() == 9 && "--systemd"@.len() == 9 && "--version"@.len() == 9
        && "--verbose"@.len() == 9);
    assert("--service"@[3] == 'e' && "--systemd"@[3] == 'y');
    assert("--version"@[2] == 'v' && "--verbose"@[2] == 'v' && "--service"@[2] == 's');
    assert("--version"@[5] == 's' && "--verbose"@[5] == 'b');
}

/// An option sets what it names and nothing else, and what follows is read as it is.
pub proof fn law_options_set_what_they_name(args: ArgsModel, rest: Seq<Seq<char>>)
    ensures
        args.with_args(seq!["-l"@] + rest) == (ArgsModel { list_devices: true, ..args }).with_args(
            rest,
        ),
        args.with_args(seq!["--list-devices"@] + rest) == (ArgsModel {
            list_devices: true,
            ..args
        }).with_args(rest),
        args.with_args(seq!["-s"@] + rest) == (ArgsModel { service: true, ..args }).with_args(rest),
        args.with_args(seq!["--service"@] + rest) == (ArgsModel { service: true, ..args }).with_args(
            rest,
        ),
        args.with_args(seq!["--systemd"@] + rest) == (ArgsModel { systemd: true, ..args }).with_args(
            rest,
        ),
        args.with_args(seq!["--version"@] + rest) == (ArgsModel { version: true, ..args }).with_args(
            rest,
        ),
        args.with_args(seq!["-h"@] + rest) == (ArgsModel { help: true, ..args }).with_args(rest),
        args.with_args(seq!["--help"@] + rest) == (ArgsModel { help: true, ..args }).with_args(
            rest,
        ),
        args.with_args(seq!["-v"@] + rest) == args.louder(1).with_args(rest),
        args.with_args(seq!["--verbose"@] + rest) == args.louder(1).with_args(rest),
        args.with_args(Seq::empty()) == Ok::<ArgsModel, Seq<char>>(args),
{
    lemma_options_differ();
    let names = seq![
        "-l"@,
        "--list-devices"@,
        "--config"@,
        "--rnsconfig"@,
        "-s"@,
        "--service"@,
        "--systemd"@,
        "--version"@,
        "-v"@,
        "--verbose"@,
        "-h"@,
        "--help"@,
    ];
    assert forall|i: int, j: int| 0 <= i < j < 12 implies #[trigger] names[i] != #[trigger] names[j] by {}
    assert forall|name: Seq<char>|
        (#[trigger] (seq![name] + rest)).skip(1) == rest && (seq![name] + rest)[0] == name by {
        assert((seq![name] + rest).skip(1) =~= rest);
    }
    assert(names[0] == "-l"@ && names[1] == "--list-devices"@ && names[2] == "--config"@ && names[3]
        == "--rnsconfig"@ && names[4] == "-s"@ && names[5] == "--service"@ && names[6]
        == "--systemd"@ && names[7] == "--version"@ && names[8] == "-v"@ && names[9]
        == "--verbose"@ && names[10] == "-h"@ && names[11] == "--help"@);
}

/// The paths are what follows their options, whatever it looks like; without it the option is
/// refused.
pub proof fn law_paths_follow_their_options(args: ArgsModel, path: Seq<char>, rest: Seq<Seq<char>>)
    ensures
        args.with_args(seq!["--config"@, path] + rest) == (ArgsModel {
            config: Some(path),
            ..args
        }).with_args(rest),
        args.with_args(seq!["--rnsconfig"@, path] + rest) == (ArgsModel {
            rnsconfig: Some(path),
            ..args
        }).with_args(rest),
        args.with_args(seq!["--config"@]) is Err,
        args.with_args(seq!["--rnsconfig"@]) is Err,
{
    lemma_options_differ();
    let config = seq!["--config"@, path] + rest;
    assert(config.skip(2) =~= rest);
    assert(config[0] == "--config"@ && config[1] == path);
    let rnsconfig = seq!["--rnsconfig"@, path] + rest;
    assert(rnsconfig.skip(2) =~= rest);
    assert(rnsconfig[0] == "--rnsconfig"@ && rnsconfig[1] == path);
}

} // verus!
