//! Log levels and message formatting.
//!
//! Every message carries a type whose documented prefix (`[Ok]`, `[Error]`,
//! `[Unsure]`, `[Warning]`, `[Info]`, `[Critical]`) is put in front of the
//! text.  A logger holds a level and decides which messages pass.

use vstd::prelude::*;

verus! {

use vstd::string::StringExecFns;

/// Logging level.
#[derive(Clone, Copy, PartialEq, Eq, Structural, Debug)]
pub enum LogLevel {
    /// Brief logging: components and check results.
    Brief,
    /// Normal logging: brief logs and checker states.
    Normal,
    /// Verbose logging: normal logs and detailed component messages.
    Verbose,
}

/// The rank of a level: higher ranks show more.
pub open spec fn level_rank(l: LogLevel) -> int {
    match l {
        LogLevel::Brief => 0,
        LogLevel::Normal => 1,
        LogLevel::Verbose => 2,
    }
}

impl LogLevel {
    /// Parse a level name; anything unknown reads as `Normal`.
    pub fn parse(s: &str) -> (r: LogLevel)
        ensures
            crate::config::lower_seq(s@) == "brief"@ ==> r == LogLevel::Brief,
            crate::config::lower_seq(s@) == "verbose"@ ==> r == LogLevel::Verbose,
            crate::config::lower_seq(s@) != "brief"@ && crate::config::lower_seq(s@)
                != "verbose"@ ==> r == LogLevel::Normal,
    {
        proof {
            reveal_strlit("brief");
            reveal_strlit("verbose");
            assert("brief"@.len() != "verbose"@.len());
            assert("brief"@ != "verbose"@);
        }
        let lowered = crate::config::ascii_lowercase(s);
        if crate::text::str_eq(lowered.as_str(), "brief") {
            LogLevel::Brief
        } else if crate::text::str_eq(lowered.as_str(), "verbose") {
            LogLevel::Verbose
        } else {
            LogLevel::Normal
        }
    }
}

/// Message type.
#[derive(Clone, Copy, PartialEq, Eq, Structural, Debug)]
pub enum MessageType {
    /// A plain message without a prefix.
    Simple,
    /// Informational message.
    Info,
    /// Critical information message.
    Critical,
    /// Warning message.
    Warning,
    /// Unsure check result, usually from a formal component.
    Unsure,
    /// Error message.
    Error,
    /// Passed-check message.
    Passed,
}

/// The documented prefix of each message type.
pub open spec fn prefix_of(t: MessageType) -> Seq<char> {
    match t {
        MessageType::Simple => Seq::empty(),
        MessageType::Info => "[Info] "@,
        MessageType::Critical => "[Critical] "@,
        MessageType::Warning => "[Warning] "@,
        MessageType::Unsure => "[Unsure] "@,
        MessageType::Error => "[Error] "@,
        MessageType::Passed => "[Ok] "@,
    }
}

/// The logger: a level deciding which messages pass.
pub struct Logger {
    /// The logger's level.
    pub level: LogLevel,
}

impl Logger {
    /// Create a new logger.
    pub fn new(level: LogLevel) -> (r: Logger)
        ensures
            r.level == level,
    {
        Logger { level }
    }

    /// Put the documented prefix for the message type in front of the text.
    pub fn format_msg(&self, msg_type: MessageType, msg: &str) -> (r: String)
        ensures
            r@ == prefix_of(msg_type) + msg@,
    {
        let mut r = String::new();
        match msg_type {
            MessageType::Simple => {},
            MessageType::Info => r.append("[Info] "),
            MessageType::Critical => r.append("[Critical] "),
            MessageType::Warning => r.append("[Warning] "),
            MessageType::Unsure => r.append("[Unsure] "),
            MessageType::Error => r.append("[Error] "),
            MessageType::Passed => r.append("[Ok] "),
        }
        r.append(msg);
        proof {
            assert(r@ =~= prefix_of(msg_type) + msg@);
        }
        r
    }

    /// The formatted message when the logger's level admits it, and nothing
    /// otherwise.
    pub fn log(&self, level: LogLevel, msg_type: MessageType, msg: &str) -> (r: Option<String>)
        ensures
            r is Some <==> level_rank(self.level) >= level_rank(level),
            r is Some ==> r->0@ == prefix_of(msg_type) + msg@,
    {
        let mine: u8 = match self.level {
            LogLevel::Brief => 0,
            LogLevel::Normal => 1,
            LogLevel::Verbose => 2,
        };
        let theirs: u8 = match level {
            LogLevel::Brief => 0,
            LogLevel::Normal => 1,
            LogLevel::Verbose => 2,
        };
        if mine >= theirs {
            Some(self.format_msg(msg_type, msg))
        } else {
            None
        }
    }
}

} // verus!
