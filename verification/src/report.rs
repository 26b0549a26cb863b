//! What the commands print.
use vstd::prelude::*;
use vstd::string::*;

use crate::sessions::{
    message_views, summaries, MessageModel, SessionMessage, SessionSummary, SummaryModel,
};
use crate::target::{describe_session, session_text};
use crate::text::{concat3, owned, views};

verus! {

/// The lines, or the one line that says that there are none.
pub open spec fn lines_or_notice(lines: Seq<Seq<char>>, notice: Seq<char>) -> Seq<Seq<char>> {
    if lines.len() == 0 {
        seq![notice]
    } else {
        lines
    }
}

/// The lines that list input devices.
pub fn device_lines(devices: Vec<String>) -> (lines: Vec<String>)
    ensures
        views(lines@) == lines_or_notice(views(devices@), "No input devices found."@),
{
    if devices.len() == 0 {
        let mut lines: Vec<String> = Vec::new();
        lines.push(owned("No input devices found."));
        assert(views(lines@) =~= seq!["No input devices found."@]);
        return lines;
    }
    devices
}

/// The lines that list sessions.
pub fn session_lines(sessions: &Vec<SessionSummary>) -> (lines: Vec<String>)
    ensures
        views(lines@) == lines_or_notice(
            summaries(sessions@).map_values(|s: SummaryModel| session_text(s)),
            "No sessions found."@,
        ),
{
    let mut lines: Vec<String> = Vec::new();
    if sessions.len() == 0 {
        lines.push(owned("No sessions found."));
        assert(views(lines@) =~= seq!["No sessions found."@]);
        return lines;
    }
    let mut i: usize = 0;
    while i < sessions.len()
        invariant
            i <= sessions@.len(),
            lines@.len() == i,
            forall|k: int| 0 <= k < i ==> (#[trigger] lines@[k])@ == session_text(sessions@[k]@),
        decreases sessions@.len() - i,
    {
        lines.push(describe_session(&sessions[i]));
        i += 1;
    }
    assert(views(lines@) =~= summaries(sessions@).map_values(|s: SummaryModel| session_text(s)));
    lines
}

/// The line for a message of a session.
pub open spec fn history_text(message: MessageModel) -> Seq<char> {
    "["@ + (match message.role {
        Some(role) => role,
        None => "unknown"@,
    }) + "] "@ + (match message.text {
        Some(text) => if text.len() > 0 {
            text
        } else {
            "<non-text message>"@
        },
        None => "<non-text message>"@,
    })
}

/// The line for a message of a session.
pub fn history_line(message: &SessionMessage) -> (line: String)
    ensures
        line@ == history_text(message@),
{
    let role = match &message.role {
        Some(role) => role.as_str(),
        None => "unknown",
    };
    let mut line = concat3("[", role, "] ");
    match &message.text {
        Some(text) => {
            if text.as_str().is_empty() {
                line.append("<non-text message>");
            } else {
                line.append(text.as_str());
            }
        },
        None => {
            line.append("<non-text message>");
        },
    }
    line
}

/// The lines for the messages of a session.
pub fn history_lines(messages: &Vec<SessionMessage>) -> (lines: Vec<String>)
    ensures
        views(lines@) == message_views(messages@).map_values(|m: MessageModel| history_text(m)),
{
    let mut lines: Vec<String> = Vec::new();
    let mut i: usize = 0;
    while i < messages.len()
        invariant
            i <= messages@.len(),
            lines@.len() == i,
            forall|k: int| 0 <= k < i ==> (#[trigger] lines@[k])@ == history_text(messages@[k]@),
        decreases messages@.len() - i,
    {
        lines.push(history_line(&messages[i]));
        i += 1;
    }
    assert(views(lines@) =~= message_views(messages@).map_values(
        |m: MessageModel| history_text(m),
    ));
    lines
}

// ---------------------------------------------------------------------------
// Laws
// ---------------------------------------------------------------------------
/// What there is is listed line by line, and only where there is nothing a notice stands
/// in its place.
pub proof fn notice_stands_for_nothing(lines: Seq<Seq<char>>, notice: Seq<char>)
    ensures
        lines.len() > 0 ==> lines_or_notice(lines, notice) == lines,
        lines.len() == 0 ==> lines_or_notice(lines, notice) == seq![notice],
{
}

/// The line for a message opens with its role in square brackets and ends with its text,
/// as both stand; a message without role is of an unknown one, and one without text is
/// marked as such.
pub proof fn history_shows_role_and_text(message: MessageModel)
    ensures
        ({
            let role = if message.role is Some {
                message.role->Some_0
            } else {
                "unknown"@
            };
            let text = if message.text is Some && message.text->Some_0.len() > 0 {
                message.text->Some_0
            } else {
                "<non-text message>"@
            };
            let line = history_text(message);
            &&& line.len() == role.len() + text.len() + 3
            &&& line.take(role.len() as int + 3) == seq!['['] + role + seq![']', ' ']
            &&& line.skip(role.len() as int + 3) == text
        }),
{
    reveal_strlit("[");
    reveal_strlit("] ");
    let role = if message.role is Some {
        message.role->Some_0
    } else {
        "unknown"@
    };
    let text = if message.text is Some && message.text->Some_0.len() > 0 {
        message.text->Some_0
    } else {
        "<non-text message>"@
    };
    let line = history_text(message);
    assert(line == "["@ + role + "] "@ + text);
    assert(line.take(role.len() as int + 3) =~= seq!['['] + role + seq![']', ' ']);
    assert(line.skip(role.len() as int + 3) =~= text);
}

} // verus!
