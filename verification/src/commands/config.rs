//! The config command: printing, locating and updating the stored editor
//! and theme preferences. The decisions live here; reading and writing the
//! configuration file stays with the caller.

use vstd::prelude::*;

use crate::theme::ThemeName;

verus! {

/// The stored preferences: an optional editor command and a theme.
pub struct Config {
    pub editor: Option<String>,
    pub theme: ThemeName,
}

/// The formats the configuration can be printed in.
#[derive(Clone, Copy, Debug, PartialEq, Eq, Structural)]
pub enum PrintFormats {
    Yaml,
    Json,
}

/// The arguments of a `set` invocation.
pub struct SetArgs {
    pub editor: Option<String>,
    pub theme: Option<ThemeName>,
    pub clear_editor: bool,
}

/// The config subcommands.
pub enum Subcommands {
    Print(PrintFormats),
    Path,
    Update(SetArgs),
}

/// The config command's arguments.
pub struct ConfigCommand {
    pub command: Option<Subcommands>,
}

/// What the config command decides to do: print in a format, show the
/// configuration path, or apply a settings update.
pub enum ConfigAction {
    Print(PrintFormats),
    ShowPath,
    Apply(SetArgs),
}

/// Dispatches a config invocation to its action.
pub fn entry(cmd: ConfigCommand) -> (r: ConfigAction)
    requires
        cmd.command is Some,
    ensures
        match cmd.command {
            Some(Subcommands::Print(f)) => r == ConfigAction::Print(f),
            Some(Subcommands::Path) => r == ConfigAction::ShowPath,
            Some(Subcommands::Update(args)) => r matches ConfigAction::Apply(a) && a == args,
            None => false,
        },
{
    match cmd.command {
        Some(Subcommands::Print(f)) => ConfigAction::Print(f),
        Some(Subcommands::Path) => ConfigAction::ShowPath,
        Some(Subcommands::Update(args)) => ConfigAction::Apply(args),
        None => ConfigAction::ShowPath,
    }
}

/// Applies a `set` invocation to the stored preferences: with nothing to
/// change it reports so; otherwise the editor is cleared or replaced and the
/// theme replaced as asked, and the updated configuration is handed back to
/// be written.
pub fn set(args: SetArgs, config: Config) -> (r: (Option<Config>, String))
    ensures
        (args.editor is None && args.theme is None && !args.clear_editor) ==> (r.0 is None && r.1@
            == "Nothing to update"@),
        !(args.editor is None && args.theme is None && !args.clear_editor) ==> {
            &&& r.0 matches Some(c) && {
                &&& c.editor == (if args.clear_editor {
                    None::<String>
                } else {
                    match args.editor {
                        Some(e) => Some(e),
                        None => config.editor,
                    }
                })
                &&& c.theme == (match args.theme {
                    Some(t) => t,
                    None => config.theme,
                })
            }
            &&& r.1@ == "Configuration updated"@
        },
{
    if args.editor.is_none() && args.theme.is_none() && !args.clear_editor {
        return (None, String::from_str("Nothing to update"));
    }
    let editor = if args.clear_editor {
        None
    } else {
        match args.editor {
            Some(e) => Some(e),
            None => config.editor,
        }
    };
    let theme = match args.theme {
        Some(t) => t,
        None => config.theme,
    };
    (Some(Config { editor, theme }), String::from_str("Configuration updated"))
}

} // verus!
