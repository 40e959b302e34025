//! The commands of the command line.
use vstd::prelude::*;
use crate::errors::{ErrorKind, ErrorModel, KujavError};
use crate::text::str_eq;

verus! {

/// A command.
#[derive(Debug)]
pub enum Commands {
    New { project: String },
    Build,
    Run,
    Check,
    Install,
    Update,
    Publish,
    Clean,
}

/// A command as a mathematical value.
pub enum CommandModel {
    New { project: Seq<char> },
    Build,
    Run,
    Check,
    Install,
    Update,
    Publish,
    Clean,
}

impl View for Commands {
    type V = CommandModel;

    open spec fn view(&self) -> CommandModel {
        match self {
            Commands::New { project } => CommandModel::New { project: project@ },
            Commands::Build => CommandModel::Build,
            Commands::Run => CommandModel::Run,
            Commands::Check => CommandModel::Check,
            Commands::Install => CommandModel::Install,
            Commands::Update => CommandModel::Update,
            Commands::Publish => CommandModel::Publish,
            Commands::Clean => CommandModel::Clean,
        }
    }
}

/// What the command line asked for.
#[derive(Debug)]
pub struct Cli {
    pub command: Commands,
}

/// The error for a command line that names no command.
pub open spec fn usage_error() -> ErrorModel {
    ErrorModel {
        kind: ErrorKind::Io,
        message: "usage: kujav <new|build|run|check|install|update|publish|clean>"@,
    }
}

/// The error for `new` without the name of a project.
pub open spec fn new_usage_error() -> ErrorModel {
    ErrorModel { kind: ErrorKind::Io, message: "usage: kujav new <project>"@ }
}

/// The command that the arguments name: the first argument is the
/// command, and `new` takes the name of the project from the second.
/// Arguments behind those are ignored.
pub open spec fn command_of(args: Seq<Seq<char>>) -> Result<CommandModel, ErrorModel> {
    if args.len() == 0 {
        Err(usage_error())
    } else if args[0] == "new"@ {
        if args.len() < 2 {
            Err(new_usage_error())
        } else {
            Ok(CommandModel::New { project: args[1] })
        }
    } else if args[0] == "build"@ {
        Ok(CommandModel::Build)
    } else if args[0] == "run"@ {
        Ok(CommandModel::Run)
    } else if args[0] == "check"@ {
        Ok(CommandModel::Check)
    } else if args[0] == "install"@ {
        Ok(CommandModel::Install)
    } else if args[0] == "update"@ {
        Ok(CommandModel::Update)
    } else if args[0] == "publish"@ {
        Ok(CommandModel::Publish)
    } else if args[0] == "clean"@ {
        Ok(CommandModel::Clean)
    } else {
        Err(usage_error())
    }
}

/// The characters of each argument.
pub open spec fn args_model(args: Seq<String>) -> Seq<Seq<char>> {
    Seq::new(args.len(), |i: int| args[i]@)
}

impl Cli {
    /// Reads the command from the arguments, which are those behind the
    /// program's name.
    pub fn parse(args: &[String]) -> (r: Result<Cli, KujavError>)
        ensures
            match r {
                Ok(cli) => command_of(args_model(args@)) == Ok::<CommandModel, ErrorModel>(
                    cli.command@,
                ),
                Err(e) => command_of(args_model(args@)) == Err::<CommandModel, ErrorModel>(e@),
            },
    {
        if args.len() == 0 {
            return Err(
                KujavError::io("usage: kujav <new|build|run|check|install|update|publish|clean>"),
            );
        }
        assert(args_model(args@)[0] == args@[0]@);
        let first = args[0].as_str();
        let command = if str_eq(first, "new") {
            if args.len() < 2 {
                return Err(KujavError::io("usage: kujav new <project>"));
            }
            assert(args_model(args@)[1] == args@[1]@);
            Commands::New { project: args[1].clone() }
        } else if str_eq(first, "build") {
            Commands::Build
        } else if str_eq(first, "run") {
            Commands::Run
        } else if str_eq(first, "check") {
            Commands::Check
        } else if str_eq(first, "install") {
            Commands::Install
        } else if str_eq(first, "update") {
            Commands::Update
        } else if str_eq(first, "publish") {
            Commands::Publish
        } else if str_eq(first, "clean") {
            Commands::Clean
        } else {
            return Err(
                KujavError::io("usage: kujav <new|build|run|check|install|update|publish|clean>"),
            );
        };
        Ok(Cli { command })
    }
}

} // verus!
