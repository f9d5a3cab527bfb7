use vstd::prelude::*;

verus! {

/// An action the client performs when the text is clicked.
///
/// MiniMessage can express more actions than this; the variants here are the ones a
/// limbo server has any use for, since it runs no commands and holds no books.
#[derive(Debug, Clone, PartialEq, Eq)]
pub enum ClickEvent {
    OpenUrl { url: String },
    RunCommand { command: String },
    SuggestCommand { command: String },
    CopyToClipboard { text: String },
}

/// The `action` value written in JSON.
pub open spec fn click_action_name(event: ClickEvent) -> Seq<char> {
    match event {
        ClickEvent::OpenUrl { .. } => "open_url"@,
        ClickEvent::RunCommand { .. } => "run_command"@,
        ClickEvent::SuggestCommand { .. } => "suggest_command"@,
        ClickEvent::CopyToClipboard { .. } => "copy_to_clipboard"@,
    }
}

/// The payload written alongside the action.
pub open spec fn click_payload(event: ClickEvent) -> Seq<char> {
    match event {
        ClickEvent::OpenUrl { url } => url@,
        ClickEvent::RunCommand { command } => command@,
        ClickEvent::SuggestCommand { command } => command@,
        ClickEvent::CopyToClipboard { text } => text@,
    }
}

impl ClickEvent {
    /// The `action` value written in JSON.
    pub fn action(&self) -> (action: &'static str)
        ensures
            action@ == click_action_name(*self),
    {
        match self {
            ClickEvent::OpenUrl { .. } => "open_url",
            ClickEvent::RunCommand { .. } => "run_command",
            ClickEvent::SuggestCommand { .. } => "suggest_command",
            ClickEvent::CopyToClipboard { .. } => "copy_to_clipboard",
        }
    }

    /// The payload written alongside the action.
    pub fn value(&self) -> (value: &str)
        ensures
            value@ == click_payload(*self),
    {
        match self {
            ClickEvent::OpenUrl { url } => url.as_str(),
            ClickEvent::RunCommand { command } => command.as_str(),
            ClickEvent::SuggestCommand { command } => command.as_str(),
            ClickEvent::CopyToClipboard { text } => text.as_str(),
        }
    }
}

} // verus!
