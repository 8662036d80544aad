//! What the daemon answers, and what it forwards to its clients.

use crate::json::Json;
use crate::number::{number, parse_number};
use crate::text::opt_str_view;
use vstd::prelude::*;

verus! {

/// How many rows a query without a limit gets.
pub const DEFAULT_LIMIT: u64 = 20;

/// The limit of a query: that of its `limit` parameter, if it is a number.
pub open spec fn limit_in(parameter: Option<Seq<char>>) -> nat {
    match parameter {
        Some(text) => match number(text, 10, u64::MAX as nat) {
            Some(n) => n,
            None => DEFAULT_LIMIT as nat,
        },
        None => DEFAULT_LIMIT as nat,
    }
}

/// The limit of a query.
pub fn query_limit(parameter: Option<&str>) -> (r: u64)
    ensures
        r == limit_in(opt_str_view(parameter)),
{
    match parameter {
        Some(text) => match parse_number(text, 10, u64::MAX) {
            Some(n) => n,
            None => DEFAULT_LIMIT,
        },
        None => DEFAULT_LIMIT,
    }
}

/// Whether a feedback request accepts the recommendation.
pub fn feedback_accepted(body: &Json) -> (r: bool)
    ensures
        r == (body.boolean_at("accepted"@) == Some(true)),
{
    match body.get_boolean("accepted") {
        Some(accepted) => accepted,
        None => false,
    }
}

/// The streams that are forwarded to clients.
#[derive(Debug, Clone, Copy)]
pub enum Channel {
    Normalized,
    Immediate,
    Session,
    Profile,
    Recommendation,
}

/// What came out of a stream.
#[derive(Debug, Clone, Copy)]
pub enum Received {
    Value,
    /// The client was too slow, and messages were dropped.
    Lagged,
    Closed,
}

/// What to do about it.
#[derive(Debug, Clone, Copy)]
pub enum Forward {
    /// Send the value, as `{"type": ..., "data": ...}`.
    Send,
    Skip,
    /// End the connection.
    Stop,
}

/// How clients are told the stream that a message is from.
pub open spec fn channel_type(channel: Channel) -> Seq<char> {
    match channel {
        Channel::Normalized => "normalized"@,
        Channel::Immediate => "immediate"@,
        Channel::Session => "session"@,
        Channel::Profile => "profile"@,
        Channel::Recommendation => "recommendation"@,
    }
}

pub fn channel_name(channel: Channel) -> (r: &'static str)
    ensures
        r@ == channel_type(channel),
{
    match channel {
        Channel::Normalized => "normalized",
        Channel::Immediate => "immediate",
        Channel::Session => "session",
        Channel::Profile => "profile",
        Channel::Recommendation => "recommendation",
    }
}

/// A value is sent; a lag is skipped, and so is the end of a stream, unless
/// it is that of the normalized events, which ends the connection.
pub open spec fn forwarded(channel: Channel, received: Received) -> Forward {
    match received {
        Received::Value => Forward::Send,
        Received::Lagged => Forward::Skip,
        Received::Closed => match channel {
            Channel::Normalized => Forward::Stop,
            _ => Forward::Skip,
        },
    }
}

/// What to do about what came out of a stream.
pub fn forward(channel: Channel, received: Received) -> (r: Forward)
    ensures
        r == forwarded(channel, received),
{
    match received {
        Received::Value => Forward::Send,
        Received::Lagged => Forward::Skip,
        Received::Closed => match channel {
            Channel::Normalized => Forward::Stop,
            _ => Forward::Skip,
        },
    }
}

} // verus!
