//! Messages of the shell hooks.

use crate::event::{opt_raw, Event, EventView};
use crate::text::{contains, has, has_prefix, opt_view, starts_with, trim, trimmed};
use vstd::prelude::*;

verus! {

/// A message of a shell hook.
#[derive(Debug, Clone)]
pub struct TermMessage {
    pub command: String,
    pub exit_code: Option<i32>,
    pub cwd: Option<String>,
    pub timestamp: Option<u64>,
    pub phase: Option<String>,
}

/// A trimmed command that the shell hooks or the terminal's own shell
/// integration run, or none at all.
pub open spec fn internal(command: Seq<char>) -> bool {
    ||| starts_with(command, "_am_"@)
    ||| starts_with(command, "PROMPT_COMMAND"@)
    ||| starts_with(command, "[["@)
    ||| command.len() == 0
    ||| contains(command, "_ksi_"@)
    ||| starts_with(command, "builtin "@)
    ||| starts_with(command, "case :$SHELLOPTS"@)
    ||| starts_with(command, "[ \"${BASH_VERSINFO"@)
}

/// Whether a trimmed command is internal hook noise. (Kitty's bash
/// shell-integration script re-sources itself and fires several internal
/// helper commands on every prompt.)
pub fn is_internal_command(command: &str) -> (r: bool)
    ensures
        r == internal(command@),
{
    has_prefix(command, "_am_") || has_prefix(command, "PROMPT_COMMAND") || has_prefix(
        command,
        "[[",
    ) || command.is_empty() || has(command, "_ksi_") || has_prefix(command, "builtin ")
        || has_prefix(command, "case :$SHELLOPTS") || has_prefix(command, "[ \"${BASH_VERSINFO")
}

/// Whether a line of the hooks' stream holds no message.
pub fn is_blank(line: &str) -> (r: bool)
    ensures
        r == (trimmed(line@).len() == 0),
{
    trim(line).as_str().is_empty()
}

/// The event of a message: none for an internal command, and with the
/// current time where the message gives none.
pub open spec fn message_event(msg: TermMessage, now: u64) -> Option<EventView> {
    if internal(trimmed(msg.command@)) {
        None
    } else {
        Some(
            EventView::Terminal {
                command: msg.command@,
                exit_code: msg.exit_code,
                cwd: opt_view(msg.cwd),
                phase: opt_view(msg.phase),
                timestamp: msg.timestamp.unwrap_or(now),
            },
        )
    }
}

/// The event of a message of a shell hook, received at `now`.
pub fn terminal_event(msg: TermMessage, now: u64) -> (r: Option<Event>)
    ensures
        opt_raw(r) == message_event(msg, now),
{
    let command = trim(msg.command.as_str());
    if is_internal_command(command.as_str()) {
        return None;
    }
    let timestamp = msg.timestamp.unwrap_or(now);
    Some(
        Event::Terminal {
            command: msg.command,
            exit_code: msg.exit_code,
            cwd: msg.cwd,
            phase: msg.phase,
            timestamp,
        },
    )
}

} // verus!
