//! The command line of the program.

use vstd::prelude::*;
use vstd::string::{StrSliceExecFns, StringExecFns};

use crate::lidar::{model_named, LidarModel, UnsupportedLidar};
use crate::text::{same_text, starts_with, starts_with_spec};

verus! {

/// What the command line asks for.
#[derive(Clone, Copy, Debug, PartialEq, Eq, Structural)]
pub enum CommandLineAction {
    Run(LidarModel),
    Help,
}

/// Why a command line is refused.
#[derive(Debug)]
pub enum CommandLineError {
    /// An argument is not UTF-8.
    NotUtf8,
    /// `--lidar` is the last argument.
    MissingModel,
    /// The argument after `--lidar` is not UTF-8.
    ModelNotUtf8,
    Unsupported(UnsupportedLidar),
    Unknown(String),
}

/// What a command line comes to, with texts as their characters.
pub ghost enum Reading {
    Run(LidarModel),
    Help,
    NotUtf8,
    MissingModel,
    ModelNotUtf8,
    Unsupported(Seq<char>),
    Unknown(Seq<char>),
}

/// What reading the arguments from `i` on comes to, with `model` chosen before.
///
/// A later choice of a model takes the place of an earlier one, and the first argument
/// that asks for help or is refused ends the reading.
pub open spec fn reading(args: Seq<Option<Seq<char>>>, i: int, model: LidarModel) -> Reading
    decreases args.len() - i,
{
    if i < 0 || i >= args.len() {
        Reading::Run(model)
    } else {
        match args[i] {
            None => Reading::NotUtf8,
            Some(argument) => if argument == "-h"@ || argument == "--help"@ {
                Reading::Help
            } else if argument == "--lidar"@ {
                if i + 1 >= args.len() {
                    Reading::MissingModel
                } else {
                    match args[i + 1] {
                        None => Reading::ModelNotUtf8,
                        Some(value) => match model_named(value) {
                            None => Reading::Unsupported(value),
                            Some(chosen) => reading(args, i + 2, chosen),
                        },
                    }
                }
            } else if starts_with_spec(argument, "--lidar="@) {
                let value = argument.skip(8);
                match model_named(value) {
                    None => Reading::Unsupported(value),
                    Some(chosen) => reading(args, i + 1, chosen),
                }
            } else {
                Reading::Unknown(argument)
            },
        }
    }
}

/// The characters of the arguments that are UTF-8.
pub open spec fn characters(args: Seq<Option<String>>) -> Seq<Option<Seq<char>>> {
    args.map_values(
        |arg: Option<String>|
            match arg {
                Some(s) => Some(s@),
                None => None,
            },
    )
}

/// A result with texts as their characters.
pub open spec fn as_reading(r: Result<CommandLineAction, CommandLineError>) -> Reading {
    match r {
        Ok(CommandLineAction::Run(model)) => Reading::Run(model),
        Ok(CommandLineAction::Help) => Reading::Help,
        Err(CommandLineError::NotUtf8) => Reading::NotUtf8,
        Err(CommandLineError::MissingModel) => Reading::MissingModel,
        Err(CommandLineError::ModelNotUtf8) => Reading::ModelNotUtf8,
        Err(CommandLineError::Unsupported(e)) => Reading::Unsupported(e.value@),
        Err(CommandLineError::Unknown(argument)) => Reading::Unknown(argument@),
    }
}

/// Reads the arguments after the program's name, `None` standing for one that is not
/// UTF-8. Without an argument the sensor is the Mid-70.
pub fn parse_command_line(args: &[Option<String>]) -> (r: Result<
    CommandLineAction,
    CommandLineError,
>)
    ensures
        as_reading(r) == reading(characters(args@), 0, LidarModel::Mid70),
{
    let ghost texts = characters(args@);
    let mut model = LidarModel::Mid70;
    let mut i: usize = 0;
    while i < args.len()
        invariant
            i <= args.len(),
            texts == characters(args@),
            reading(texts, 0, LidarModel::Mid70) == reading(texts, i as int, model),
        decreases args.len() - i,
    {
        proof {
            reveal_strlit("--lidar=");
        }
        let argument: &String = match &args[i] {
            None => {
                return Err(CommandLineError::NotUtf8);
            },
            Some(argument) => argument,
        };
        let text: &str = argument.as_str();
        if same_text(text, "-h") || same_text(text, "--help") {
            return Ok(CommandLineAction::Help);
        }
        if same_text(text, "--lidar") {
            if args.len() - i < 2 {
                return Err(CommandLineError::MissingModel);
            }
            let value: &String = match &args[i + 1] {
                None => {
                    return Err(CommandLineError::ModelNotUtf8);
                },
                Some(value) => value,
            };
            match LidarModel::parse(value.as_str()) {
                Ok(chosen) => {
                    model = chosen;
                },
                Err(e) => {
                    return Err(CommandLineError::Unsupported(e));
                },
            }
            i += 2;
        } else if starts_with(text, "--lidar=") {
            let value: &str = text.substring_char(8, text.unicode_len());
            assert(value@ =~= text@.skip(8));
            match LidarModel::parse(value) {
                Ok(chosen) => {
                    model = chosen;
                },
                Err(e) => {
                    return Err(CommandLineError::Unsupported(e));
                },
            }
            i += 1;
        } else {
            return Err(CommandLineError::Unknown(text.to_owned()));
        }
    }
    Ok(CommandLineAction::Run(model))
}

impl CommandLineError {
    pub open spec fn message_spec(self) -> Seq<char> {
        match self {
            CommandLineError::NotUtf8 => "command-line arguments must be valid UTF-8"@,
            CommandLineError::MissingModel => "--lidar requires 'mid70', 'airy96', or 'avia'"@,
            CommandLineError::ModelNotUtf8 => "LiDAR model must be valid UTF-8"@,
            CommandLineError::Unsupported(e) => e.message_spec(),
            CommandLineError::Unknown(argument) => "unknown argument '"@ + argument@
                + "'; use --help for usage"@,
        }
    }

    pub fn message(&self) -> (r: String)
        ensures
            r@ == self.message_spec(),
    {
        match self {
            CommandLineError::NotUtf8 => "command-line arguments must be valid UTF-8".to_owned(),
            CommandLineError::MissingModel =>
                "--lidar requires 'mid70', 'airy96', or 'avia'".to_owned(),
            CommandLineError::ModelNotUtf8 => "LiDAR model must be valid UTF-8".to_owned(),
            CommandLineError::Unsupported(e) => e.message(),
            CommandLineError::Unknown(argument) => {
                let mut r = String::new();
                r.append("unknown argument '");
                r.append(argument.as_str());
                r.append("'; use --help for usage");
                assert(r@ =~= self.message_spec());
                r
            },
        }
    }
}

/// A model is chosen alike by an argument of its own and behind an equals sign, and the
/// last choice decides.
pub proof fn models_are_chosen_in_both_ways(
    before: Seq<Option<Seq<char>>>,
    name: Seq<char>,
    model: LidarModel,
)
    ensures
        ({
            let apart = before + seq![Some("--lidar"@), Some(name)];
            let joined = before + seq![Some("--lidar="@ + name)];
            let at = before.len() as int;
            &&& reading(apart, at, model) == reading(joined, at, model)
            &&& model_named(name) matches Some(chosen) ==> reading(apart, at, model)
                == Reading::Run(chosen)
            &&& model_named(name) is None ==> reading(apart, at, model) == Reading::Unsupported(
                name,
            )
        }),
        ({
            let at = before.len() as int;
            &&& reading(before, at, model) == Reading::Run(model)
            &&& reading(before.push(Some("--lidar"@)), at, model) == Reading::MissingModel
            &&& reading(before.push(Some("--help"@)), at, model) == Reading::Help
            &&& reading(before.push(Some("-h"@)), at, model) == Reading::Help
            &&& reading(before.push(None), at, model) == Reading::NotUtf8
            &&& reading(before.push(Some("--lidar"@)).push(None), at, model)
                == Reading::ModelNotUtf8
        }),
{
    reveal_strlit("--lidar");
    reveal_strlit("--lidar=");
    reveal_strlit("--help");
    reveal_strlit("-h");
    reveal_with_fuel(reading, 2);
    let apart = before + seq![Some("--lidar"@), Some(name)];
    let argument = "--lidar="@ + name;
    let joined = before + seq![Some(argument)];
    let at = before.len() as int;
    assert(apart[at] == Some("--lidar"@) && apart[at + 1] == Some(name));
    assert(joined[at] == Some(argument));
    assert("--lidar"@[2] != "--help"@[2]);
    assert("--lidar"@.len() != "-h"@.len());
    assert(argument.len() >= 8);
    assert(argument[2] == 'l' && "--help"@[2] == 'h');
    assert(argument.take(8) =~= "--lidar="@);
    assert(argument.skip(8) =~= name);
    let alone = before.push(Some("--lidar"@));
    assert(alone[at] == Some("--lidar"@));
    assert(alone.push(None)[at] == Some("--lidar"@) && alone.push(None)[at + 1] == None::<
        Seq<char>,
    >);
}

} // verus!
