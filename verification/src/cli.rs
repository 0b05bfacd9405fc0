//! The commands of the runtime controller. The program parses its command
//! line into these.

use vstd::prelude::*;

verus! {

/// A parsed command line.
#[derive(Debug)]
pub struct Cli {
    pub command: Command,
}

#[derive(Debug)]
pub enum Command {
    Doctor { json: bool },
    Runtime { command: RuntimeCommand },
    Inspect { executable: String, json: bool },
    Prefix { command: PrefixCommand },
    Steam { command: SteamCommand },
    Launch { game_id: String, executable: String, json: bool },
    Stop { game_id: String },
}

#[derive(Debug)]
pub enum RuntimeCommand {
    Status { json: bool },
    Install { archive: String, json: bool },
    Remove { json: bool },
}

#[derive(Debug)]
pub enum PrefixCommand {
    Create { game_id: String },
    Reset { game_id: String },
}

#[derive(Debug)]
pub enum SteamCommand {
    Status { json: bool },
    Install { installer: Option<String>, json: bool },
    Games { json: bool },
    Diagnostics { json: bool },
    Start { json: bool },
    Restart { json: bool },
    Run { app_id: u32, json: bool },
    Profile { command: SteamProfileCommand },
    Stop,
    Reset,
}

#[derive(Debug)]
pub enum SteamProfileCommand {
    Show { app_id: u32, json: bool },
    Update { app_id: u32, executable: Option<String>, launch_arguments: Vec<String>, json: bool },
    Reset { app_id: u32, json: bool },
}

/// Whether a command asks for JSON output.
pub open spec fn wants_json(c: Command) -> bool {
    match c {
        Command::Doctor { json } => json,
        Command::Runtime { command } => match command {
            RuntimeCommand::Status { json } => json,
            RuntimeCommand::Install { json, .. } => json,
            RuntimeCommand::Remove { json } => json,
        },
        Command::Inspect { json, .. } => json,
        Command::Prefix { .. } => false,
        Command::Steam { command } => match command {
            SteamCommand::Status { json } => json,
            SteamCommand::Install { json, .. } => json,
            SteamCommand::Games { json } => json,
            SteamCommand::Diagnostics { json } => json,
            SteamCommand::Start { json } => json,
            SteamCommand::Restart { json } => json,
            SteamCommand::Run { json, .. } => json,
            SteamCommand::Profile { command } => match command {
                SteamProfileCommand::Show { json, .. } => json,
                SteamProfileCommand::Update { json, .. } => json,
                SteamProfileCommand::Reset { json, .. } => json,
            },
            SteamCommand::Stop => false,
            SteamCommand::Reset => false,
        },
        Command::Launch { json, .. } => json,
        Command::Stop { .. } => false,
    }
}

impl Command {
    /// Whether the command reports in JSON.
    pub fn json(&self) -> (r: bool)
        ensures
            r == wants_json(*self),
    {
        match self {
            Command::Doctor { json } => *json,
            Command::Runtime { command } => match command {
                RuntimeCommand::Status { json } => *json,
                RuntimeCommand::Install { json, .. } => *json,
                RuntimeCommand::Remove { json } => *json,
            },
            Command::Inspect { json, .. } => *json,
            Command::Prefix { .. } => false,
            Command::Steam { command } => match command {
                SteamCommand::Status { json } => *json,
                SteamCommand::Install { json, .. } => *json,
                SteamCommand::Games { json } => *json,
                SteamCommand::Diagnostics { json } => *json,
                SteamCommand::Start { json } => *json,
                SteamCommand::Restart { json } => *json,
                SteamCommand::Run { json, .. } => *json,
                SteamCommand::Profile { command } => match command {
                    SteamProfileCommand::Show { json, .. } => *json,
                    SteamProfileCommand::Update { json, .. } => *json,
                    SteamProfileCommand::Reset { json, .. } => *json,
                },
                SteamCommand::Stop => false,
                SteamCommand::Reset => false,
            },
            Command::Launch { json, .. } => *json,
            Command::Stop { .. } => false,
        }
    }
}

} // verus!
