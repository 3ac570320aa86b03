//! What a line typed by the user asks for.
use vstd::prelude::*;

use crate::text::same_text;

verus! {

/// The kinds of line a user can type.
#[derive(Debug, PartialEq, Eq, Clone, Copy)]
pub enum UICommandType {
    /// Leave the client.
    Quit,
    /// Text to send.
    Text,
}

/// A typed line and what it asks for.
pub struct UICommand {
    pub command_type: UICommandType,
    pub text: String,
}

impl UICommand {
    /// Classifies a typed line: exactly `/quit` asks to leave, anything else
    /// is text. The line is kept as it was.
    pub fn parse(text: String) -> (r: UICommand)
        ensures
            r.command_type == UICommandType::Quit <==> text@ == "/quit"@,
            r.text@ == text@,
    {
        if same_text(text.as_str(), "/quit") {
            return UICommand { command_type: UICommandType::Quit, text: text };
        }
        UICommand { command_type: UICommandType::Text, text: text }
    }
}

} // verus!
