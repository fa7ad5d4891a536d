//! The command line: which command the arguments name, and with which options.

use vstd::prelude::*;
use crate::storage::opt_text;
use crate::text::text_eq;

verus! {

/// What is to be done with the stored credentials.
#[derive(Debug)]
pub enum CredentialAction {
    List { username: String },
    Delete { id: String },
    Update { id: String, name: String },
    Cleanup,
}

pub enum CredentialActionView {
    List { username: Seq<char> },
    Delete { id: Seq<char> },
    Update { id: Seq<char>, name: Seq<char> },
    Cleanup,
}

impl View for CredentialAction {
    type V = CredentialActionView;

    open spec fn view(&self) -> CredentialActionView {
        match self {
            CredentialAction::List { username } => CredentialActionView::List { username: username@ },
            CredentialAction::Delete { id } => CredentialActionView::Delete { id: id@ },
            CredentialAction::Update { id, name } => CredentialActionView::Update { id: id@, name: name@ },
            CredentialAction::Cleanup => CredentialActionView::Cleanup,
        }
    }
}

/// The commands.
#[derive(Debug)]
pub enum Commands {
    RegisterBegin { username: String, rp_id: String, user_verification: String },
    RegisterFinish { challenge_id: String, origin: String, device_name: String },
    LoginBegin { username: String, rp_id: String },
    LoginFinish { challenge_id: String, origin: String },
    CredentialManage { action: CredentialAction },
    HealthCheck,
}

pub enum CommandsView {
    RegisterBegin { username: Seq<char>, rp_id: Seq<char>, user_verification: Seq<char> },
    RegisterFinish { challenge_id: Seq<char>, origin: Seq<char>, device_name: Seq<char> },
    LoginBegin { username: Seq<char>, rp_id: Seq<char> },
    LoginFinish { challenge_id: Seq<char>, origin: Seq<char> },
    CredentialManage { action: CredentialActionView },
    HealthCheck,
}

impl View for Commands {
    type V = CommandsView;

    open spec fn view(&self) -> CommandsView {
        match self {
            Commands::RegisterBegin { username, rp_id, user_verification } => CommandsView::RegisterBegin {
                username: username@,
                rp_id: rp_id@,
                user_verification: user_verification@,
            },
            Commands::RegisterFinish { challenge_id, origin, device_name } => CommandsView::RegisterFinish {
                challenge_id: challenge_id@,
                origin: origin@,
                device_name: device_name@,
            },
            Commands::LoginBegin { username, rp_id } => CommandsView::LoginBegin {
                username: username@,
                rp_id: rp_id@,
            },
            Commands::LoginFinish { challenge_id, origin } => CommandsView::LoginFinish {
                challenge_id: challenge_id@,
                origin: origin@,
            },
            Commands::CredentialManage { action } => CommandsView::CredentialManage { action: action@ },
            Commands::HealthCheck => CommandsView::HealthCheck,
        }
    }
}

/// A parsed command line.
#[derive(Debug)]
pub struct Cli {
    pub command: Commands,
}

/// Why a command line names no command to run.
#[derive(Debug)]
pub enum CliError {
    /// There is no argument at all.
    NoSubcommand,
    /// Help was asked for.
    HelpRequested,
    /// The version was asked for.
    VersionRequested,
    /// A required option is not given, or is given last and without a value.
    MissingArgument(String),
    /// The first argument is no command.
    UnrecognizedSubcommand(String),
    /// The management of credentials was named without saying what to do.
    NoCredentialSubcommand,
}

pub enum CliErrorView {
    NoSubcommand,
    HelpRequested,
    VersionRequested,
    MissingArgument(Seq<char>),
    UnrecognizedSubcommand(Seq<char>),
    NoCredentialSubcommand,
}

impl View for CliError {
    type V = CliErrorView;

    open spec fn view(&self) -> CliErrorView {
        match self {
            CliError::NoSubcommand => CliErrorView::NoSubcommand,
            CliError::HelpRequested => CliErrorView::HelpRequested,
            CliError::VersionRequested => CliErrorView::VersionRequested,
            CliError::MissingArgument(name) => CliErrorView::MissingArgument(name@),
            CliError::UnrecognizedSubcommand(name) => CliErrorView::UnrecognizedSubcommand(name@),
            CliError::NoCredentialSubcommand => CliErrorView::NoCredentialSubcommand,
        }
    }
}

impl CliError {
    /// The code with which the process ends: success where help or the version was
    /// asked for, a usage error otherwise.
    pub fn exit_code(&self) -> (code: u8)
        ensures
            code == if self@ is HelpRequested || self@ is VersionRequested {
                0u8
            } else {
                2u8
            },
    {
        match self {
            CliError::HelpRequested | CliError::VersionRequested => 0,
            _ => 2,
        }
    }
}

/// The views of a sequence of arguments.
pub open spec fn arg_views(args: Seq<String>) -> Seq<Seq<char>> {
    args.map_values(|a: String| a@)
}

/// The value of an option: the argument that follows the first argument that is the
/// option's name. `None` where the name is not among the arguments or is the last.
pub open spec fn option_value(args: Seq<Seq<char>>, name: Seq<char>) -> Option<Seq<char>> {
    match args.index_of_first(name) {
        Some(at) => if at + 1 < args.len() {
            Some(args[at + 1])
        } else {
            None
        },
        None => None,
    }
}

/// The arguments without the first argument that is the option's name and without the
/// value that follows it.
pub open spec fn without_option(args: Seq<Seq<char>>, name: Seq<char>) -> Seq<Seq<char>> {
    match args.index_of_first(name) {
        Some(at) => if at + 1 < args.len() {
            args.remove(at).remove(at)
        } else {
            args.remove(at)
        },
        None => args,
    }
}

/// Where the first argument that is `name` stands.
fn position_of(args: &Vec<String>, name: &str) -> (found: Option<usize>)
    ensures
        match found {
            Some(at) => at < args.len() && arg_views(args@).index_of_first(name@) == Some(at as int),
            None => arg_views(args@).index_of_first(name@) is None,
        },
{
    let ghost views = arg_views(args@);
    let mut i: usize = 0;
    while i < args.len()
        invariant
            i <= args.len(),
            views == arg_views(args@),
            forall|k: int| 0 <= k < i ==> views[k] != name@,
        decreases args.len() - i,
    {
        if text_eq(args[i].as_str(), name) {
            proof {
                views.index_of_first_ensures(name@);
                assert(views[i as int] == name@);
                assert(views.contains(name@));
            }
            return Some(i);
        }
        i += 1;
    }
    proof {
        views.index_of_first_ensures(name@);
        if views.contains(name@) {
            let k = choose|k: int| 0 <= k < views.len() && views[k] == name@;
            assert(views[k] != name@);
        }
    }
    None
}

/// Takes an option and its value out of the arguments and returns the value.
pub fn take_option(args: &mut Vec<String>, name: &str) -> (value: Option<String>)
    ensures
        opt_text(value) == option_value(arg_views(old(args)@), name@),
        arg_views(final(args)@) == without_option(arg_views(old(args)@), name@),
{
    let ghost before = arg_views(args@);
    match position_of(args, name) {
        Some(at) => {
            args.remove(at);
            assert(arg_views(args@) =~= before.remove(at as int));
            if at < args.len() {
                let value = args.remove(at);
                assert(arg_views(args@) =~= before.remove(at as int).remove(at as int));
                assert(value@ == before[at + 1]);
                Some(value)
            } else {
                None
            }
        },
        None => None,
    }
}

/// Takes an option that must be given out of the arguments and returns its value.
pub fn require_option(args: &mut Vec<String>, name: &str) -> (value: Result<String, CliError>)
    ensures
        match value {
            Ok(v) => option_value(arg_views(old(args)@), name@) == Some(v@),
            Err(e) => option_value(arg_views(old(args)@), name@) is None && e@ == CliErrorView::MissingArgument(name@),
        },
        arg_views(final(args)@) == without_option(arg_views(old(args)@), name@),
{
    match take_option(args, name) {
        Some(v) => Ok(v),
        None => Err(CliError::MissingArgument(name.to_owned())),
    }
}

/// What the arguments after `credential-manage` say is to be done.
pub open spec fn parsed_credential_action(args: Seq<Seq<char>>) -> Result<CredentialActionView, CliErrorView> {
    if args.len() == 0 {
        Err(CliErrorView::NoCredentialSubcommand)
    } else {
        let sub = args[0];
        let rest = args.remove(0);
        if sub == "list"@ {
            match option_value(rest, "--username"@) {
                Some(username) => Ok(CredentialActionView::List { username }),
                None => Err(CliErrorView::MissingArgument("--username"@)),
            }
        } else if sub == "delete"@ {
            match option_value(rest, "--id"@) {
                Some(id) => Ok(CredentialActionView::Delete { id }),
                None => Err(CliErrorView::MissingArgument("--id"@)),
            }
        } else if sub == "update"@ {
            match option_value(rest, "--id"@) {
                Some(id) => match option_value(without_option(rest, "--id"@), "--name"@) {
                    Some(name) => Ok(CredentialActionView::Update { id, name }),
                    None => Err(CliErrorView::MissingArgument("--name"@)),
                },
                None => Err(CliErrorView::MissingArgument("--id"@)),
            }
        } else if sub == "cleanup"@ {
            Ok(CredentialActionView::Cleanup)
        } else {
            Err(CliErrorView::UnrecognizedSubcommand(sub))
        }
    }
}

/// Reads what is to be done with the stored credentials from the arguments after
/// `credential-manage`.
pub fn parse_credential_manage(args: &mut Vec<String>) -> (r: Result<CredentialAction, CliError>)
    ensures
        match r {
            Ok(action) => parsed_credential_action(arg_views(old(args)@)) == Ok::<
                CredentialActionView,
                CliErrorView,
            >(action@),
            Err(e) => parsed_credential_action(arg_views(old(args)@)) == Err::<CredentialActionView, CliErrorView>(
                e@,
            ),
        },
{
    if args.len() == 0 {
        return Err(CliError::NoCredentialSubcommand);
    }
    let ghost before = arg_views(args@);
    let sub = args.remove(0);
    assert(arg_views(args@) =~= before.remove(0));
    assert(sub@ == before[0]);
    if text_eq(sub.as_str(), "list") {
        let username = require_option(args, "--username")?;
        Ok(CredentialAction::List { username })
    } else if text_eq(sub.as_str(), "delete") {
        let id = require_option(args, "--id")?;
        Ok(CredentialAction::Delete { id })
    } else if text_eq(sub.as_str(), "update") {
        let id = require_option(args, "--id")?;
        let name = require_option(args, "--name")?;
        Ok(CredentialAction::Update { id, name })
    } else if text_eq(sub.as_str(), "cleanup") {
        Ok(CredentialAction::Cleanup)
    } else {
        Err(CliError::UnrecognizedSubcommand(sub))
    }
}

/// The command that the first argument `sub` and the arguments `rest` after it name.
pub open spec fn parsed_command(sub: Seq<char>, rest: Seq<Seq<char>>) -> Result<CommandsView, CliErrorView> {
    if sub == "register-begin"@ {
        match option_value(rest, "--username"@) {
            None => Err(CliErrorView::MissingArgument("--username"@)),
            Some(username) => {
                let rest1 = without_option(rest, "--username"@);
                match option_value(rest1, "--rp-id"@) {
                    None => Err(CliErrorView::MissingArgument("--rp-id"@)),
                    Some(rp_id) => {
                        let rest2 = without_option(rest1, "--rp-id"@);
                        Ok(
                            CommandsView::RegisterBegin {
                                username,
                                rp_id,
                                user_verification: match option_value(rest2, "--user-verification"@) {
                                    Some(policy) => policy,
                                    None => "preferred"@,
                                },
                            },
                        )
                    },
                }
            },
        }
    } else if sub == "register-finish"@ {
        match option_value(rest, "--challenge-id"@) {
            None => Err(CliErrorView::MissingArgument("--challenge-id"@)),
            Some(challenge_id) => {
                let rest1 = without_option(rest, "--challenge-id"@);
                match option_value(rest1, "--origin"@) {
                    None => Err(CliErrorView::MissingArgument("--origin"@)),
                    Some(origin) => {
                        let rest2 = without_option(rest1, "--origin"@);
                        match option_value(rest2, "--device-name"@) {
                            None => Err(CliErrorView::MissingArgument("--device-name"@)),
                            Some(device_name) => Ok(
                                CommandsView::RegisterFinish { challenge_id, origin, device_name },
                            ),
                        }
                    },
                }
            },
        }
    } else if sub == "login-begin"@ {
        match option_value(rest, "--username"@) {
            None => Err(CliErrorView::MissingArgument("--username"@)),
            Some(username) => match option_value(without_option(rest, "--username"@), "--rp-id"@) {
                None => Err(CliErrorView::MissingArgument("--rp-id"@)),
                Some(rp_id) => Ok(CommandsView::LoginBegin { username, rp_id }),
            },
        }
    } else if sub == "login-finish"@ {
        match option_value(rest, "--challenge-id"@) {
            None => Err(CliErrorView::MissingArgument("--challenge-id"@)),
            Some(challenge_id) => match option_value(without_option(rest, "--challenge-id"@), "--origin"@) {
                None => Err(CliErrorView::MissingArgument("--origin"@)),
                Some(origin) => Ok(CommandsView::LoginFinish { challenge_id, origin }),
            },
        }
    } else if sub == "credential-manage"@ {
        match parsed_credential_action(rest) {
            Ok(action) => Ok(CommandsView::CredentialManage { action }),
            Err(e) => Err(e),
        }
    } else if sub == "health-check"@ {
        Ok(CommandsView::HealthCheck)
    } else {
        Err(CliErrorView::UnrecognizedSubcommand(sub))
    }
}

/// What a command line comes to. Asking for help goes before asking for the version,
/// and both go before anything else, wherever they stand.
pub open spec fn parsed(args: Seq<Seq<char>>) -> Result<CommandsView, CliErrorView> {
    if args.len() == 0 {
        Err(CliErrorView::NoSubcommand)
    } else if args.contains("--help"@) || args.contains("-h"@) {
        Err(CliErrorView::HelpRequested)
    } else if args.contains("--version"@) || args.contains("-V"@) {
        Err(CliErrorView::VersionRequested)
    } else {
        parsed_command(args[0], args.remove(0))
    }
}

/// Whether `name` is among the arguments.
fn has_flag(args: &Vec<String>, name: &str) -> (b: bool)
    ensures
        b == arg_views(args@).contains(name@),
{
    let found = position_of(args, name);
    proof {
        arg_views(args@).index_of_first_ensures(name@);
    }
    found.is_some()
}

impl Cli {
    /// Reads the command from the arguments of the process, the program's name left
    /// out.
    pub fn parse(args: Vec<String>) -> (r: Result<Cli, CliError>)
        ensures
            match r {
                Ok(cli) => parsed(arg_views(args@)) == Ok::<CommandsView, CliErrorView>(cli.command@),
                Err(e) => parsed(arg_views(args@)) == Err::<CommandsView, CliErrorView>(e@),
            },
    {
        let mut args = args;
        let ghost all = arg_views(args@);
        if args.len() == 0 {
            return Err(CliError::NoSubcommand);
        }
        if has_flag(&args, "--help") || has_flag(&args, "-h") {
            return Err(CliError::HelpRequested);
        }
        if has_flag(&args, "--version") || has_flag(&args, "-V") {
            return Err(CliError::VersionRequested);
        }
        let sub = args.remove(0);
        assert(arg_views(args@) =~= all.remove(0));
        assert(sub@ == all[0]);
        let command = if text_eq(sub.as_str(), "register-begin") {
            let username = require_option(&mut args, "--username")?;
            let rp_id = require_option(&mut args, "--rp-id")?;
            let user_verification = match take_option(&mut args, "--user-verification") {
                Some(policy) => policy,
                None => "preferred".to_owned(),
            };
            Commands::RegisterBegin { username, rp_id, user_verification }
        } else if text_eq(sub.as_str(), "register-finish") {
            let challenge_id = require_option(&mut args, "--challenge-id")?;
            let origin = require_option(&mut args, "--origin")?;
            let device_name = require_option(&mut args, "--device-name")?;
            Commands::RegisterFinish { challenge_id, origin, device_name }
        } else if text_eq(sub.as_str(), "login-begin") {
            let username = require_option(&mut args, "--username")?;
            let rp_id = require_option(&mut args, "--rp-id")?;
            Commands::LoginBegin { username, rp_id }
        } else if text_eq(sub.as_str(), "login-finish") {
            let challenge_id = require_option(&mut args, "--challenge-id")?;
            let origin = require_option(&mut args, "--origin")?;
            Commands::LoginFinish { challenge_id, origin }
        } else if text_eq(sub.as_str(), "credential-manage") {
            let action = parse_credential_manage(&mut args)?;
            Commands::CredentialManage { action }
        } else if text_eq(sub.as_str(), "health-check") {
            Commands::HealthCheck
        } else {
            return Err(CliError::UnrecognizedSubcommand(sub));
        };
        Ok(Cli { command })
    }
}

} // verus!
