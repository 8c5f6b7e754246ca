//! The browse command: opens the interactive browser on a vault, but only
//! inside an interactive terminal.

use vstd::prelude::*;

verus! {

/// The browse command's arguments: an optional vault-name override.
pub struct BrowseCommand {
    pub vault: Option<String>,
}

/// What the browse command decides to do.
pub enum BrowseDecision {
    /// Start the browser, resolving this vault override.
    Launch(Option<String>),
    /// Refuse, with the message to report.
    Reject(String),
}

/// Decides whether a browse invocation may start: an interactive terminal
/// launches the browser with the command's vault override; anything else is
/// rejected.
pub fn entry(cmd: &BrowseCommand, interactive: bool) -> (r: BrowseDecision)
    ensures
        interactive ==> (r matches BrowseDecision::Launch(v) && {
            match cmd.vault {
                Some(s) => v matches Some(vs) && vs@ == s@,
                None => v is None,
            }
        }),
        !interactive ==> (r matches BrowseDecision::Reject(m) && m@
            == "browse requires an interactive terminal"@),
{
    if !interactive {
        return BrowseDecision::Reject(
            String::from_str("browse requires an interactive terminal"),
        );
    }
    let v = match &cmd.vault {
        Some(s) => Some(s.clone()),
        None => None,
    };
    BrowseDecision::Launch(v)
}

} // verus!
