//! The watcher's error vocabulary and the text shown for each error. The
//! causes that come from the operating system or the configuration parser
//! are carried as the text they display.
use vstd::prelude::*;

use crate::stdout::{BLUE, RESET};
use crate::text::{extend_chars, from_chars, to_chars};

verus! {

/// The kind of an input/output failure, as far as hints depend on it.
#[derive(Clone, Copy, Debug, PartialEq, Eq, Structural)]
pub enum IoFailureKind {
    NotFound,
    PermissionDenied,
    Other,
}

/// An input/output failure: its kind and the text it displays.
#[derive(Clone, Debug, PartialEq, Eq)]
pub struct IoFailure {
    pub kind: IoFailureKind,
    pub reason: String,
}

#[derive(Clone, Debug, PartialEq, Eq)]
pub enum FzzError {
    /// A configuration file could not be read or written.
    IoConfigError(String, Option<IoFailure>),
    /// Standard input could not be read; with an optional hint.
    IoStdinError(String, Option<String>),
    /// The configuration is invalid; with the parser's reason and a hint.
    InvalidConfigError(String, Option<String>, Option<String>),
    /// A path could not be used; with the cause and a hint.
    PathError(String, Option<String>, Option<String>),
    /// A path pattern is invalid; with a hint.
    PathPatternError(String, Option<String>),
    GenericError(String),
}

/// A hint line.
pub open spec fn hint_text(hint: Seq<char>) -> Seq<char> {
    BLUE@ + "Hint"@ + RESET@ + ": "@ + hint
}

/// `text`, followed by the hint on a line of its own when there is one.
pub open spec fn with_hint(text: Seq<char>, hint: Option<Seq<char>>) -> Seq<char> {
    match hint {
        Some(h) => text + "\n"@ + hint_text(h),
        None => text,
    }
}

pub open spec fn opt_text(o: Option<String>) -> Option<Seq<char>> {
    match o {
        Some(s) => Some(s@),
        None => None,
    }
}

/// The hint given for a failed configuration file access.
pub open spec fn io_config_hint(kind: IoFailureKind) -> Option<Seq<char>> {
    match kind {
        IoFailureKind::NotFound => Some(
            "Check if the file exists and if the path is correct. Try `fzz init` to create a new configuration file"@,
        ),
        IoFailureKind::PermissionDenied => Some(
            "Check if you have permission to write in the current folder"@,
        ),
        IoFailureKind::Other => None,
    }
}

/// The text shown for an error.
pub open spec fn error_text(e: FzzError) -> Seq<char> {
    match e {
        FzzError::IoConfigError(msg, Some(err)) => with_hint(
            msg@ + "\nReason: "@ + err.reason@,
            io_config_hint(err.kind),
        ),
        FzzError::IoConfigError(msg, None) => msg@,
        FzzError::IoStdinError(err, hint) => with_hint("Reason: "@ + err@, opt_text(hint)),
        FzzError::InvalidConfigError(msg, reason, hint) => with_hint(
            msg@ + match reason {
                Some(r) => "\nReason: "@ + r@,
                None => Seq::empty(),
            },
            opt_text(hint),
        ),
        FzzError::PathPatternError(msg, hint) => with_hint(msg@, opt_text(hint)),
        FzzError::PathError(msg, cause, hint) => with_hint(
            match cause {
                Some(c) => msg@ + "\nReason: "@ + c@,
                None => msg@,
            },
            opt_text(hint),
        ),
        FzzError::GenericError(e) => "Reason: "@ + e@,
    }
}

fn append_hint(out: &mut Vec<char>, hint: Option<&str>)
    ensures
        final(out)@ == with_hint(
            old(out)@,
            match hint {
                Some(h) => Some(h@),
                None => None,
            },
        ),
{
    match hint {
        Some(h) => {
            let ghost before = out@;
            extend_chars(out, &to_chars("\n"));
            extend_chars(out, &to_chars(BLUE));
            extend_chars(out, &to_chars("Hint"));
            extend_chars(out, &to_chars(RESET));
            extend_chars(out, &to_chars(": "));
            extend_chars(out, &to_chars(h));
            assert(out@ =~= before + "\n"@ + (BLUE@ + "Hint"@ + RESET@ + ": "@ + h@));
        },
        None => {},
    }
}

fn opt_str(o: &Option<String>) -> (r: Option<&str>)
    ensures
        match r {
            Some(s) => opt_text(*o) == Some(s@),
            None => opt_text(*o) is None,
        },
{
    match o {
        Some(s) => Some(s.as_str()),
        None => None,
    }
}

impl FzzError {
    /// The text shown for this error.
    pub fn message(&self) -> (r: String)
        ensures
            r@ == error_text(*self),
    {
        let mut out: Vec<char> = Vec::new();
        match self {
            FzzError::IoConfigError(msg, Some(err)) => {
                extend_chars(&mut out, &to_chars(msg.as_str()));
                extend_chars(&mut out, &to_chars("\nReason: "));
                extend_chars(&mut out, &to_chars(err.reason.as_str()));
                let hint = match err.kind {
                    IoFailureKind::NotFound => Some(
                        "Check if the file exists and if the path is correct. Try `fzz init` to create a new configuration file",
                    ),
                    IoFailureKind::PermissionDenied => Some(
                        "Check if you have permission to write in the current folder",
                    ),
                    IoFailureKind::Other => None,
                };
                assert(out@ =~= msg@ + "\nReason: "@ + err.reason@);
                append_hint(&mut out, hint);
            },
            FzzError::IoConfigError(msg, None) => {
                extend_chars(&mut out, &to_chars(msg.as_str()));
                assert(out@ =~= msg@);
            },
            FzzError::IoStdinError(err, hint) => {
                extend_chars(&mut out, &to_chars("Reason: "));
                extend_chars(&mut out, &to_chars(err.as_str()));
                assert(out@ =~= "Reason: "@ + err@);
                append_hint(&mut out, opt_str(hint));
            },
            FzzError::InvalidConfigError(msg, reason, hint) => {
                extend_chars(&mut out, &to_chars(msg.as_str()));
                match reason {
                    Some(r) => {
                        extend_chars(&mut out, &to_chars("\nReason: "));
                        extend_chars(&mut out, &to_chars(r.as_str()));
                        assert(out@ =~= msg@ + ("\nReason: "@ + r@));
                    },
                    None => {
                        assert(out@ =~= msg@ + Seq::<char>::empty());
                    },
                }
                append_hint(&mut out, opt_str(hint));
            },
            FzzError::PathPatternError(msg, hint) => {
                extend_chars(&mut out, &to_chars(msg.as_str()));
                assert(out@ =~= msg@);
                append_hint(&mut out, opt_str(hint));
            },
            FzzError::PathError(msg, cause, hint) => {
                extend_chars(&mut out, &to_chars(msg.as_str()));
                match cause {
                    Some(c) => {
                        extend_chars(&mut out, &to_chars("\nReason: "));
                        extend_chars(&mut out, &to_chars(c.as_str()));
                        assert(out@ =~= msg@ + "\nReason: "@ + c@);
                    },
                    None => {
                        assert(out@ =~= msg@);
                    },
                }
                append_hint(&mut out, opt_str(hint));
            },
            FzzError::GenericError(e) => {
                extend_chars(&mut out, &to_chars("Reason: "));
                extend_chars(&mut out, &to_chars(e.as_str()));
                assert(out@ =~= "Reason: "@ + e@);
            },
        }
        from_chars(&out)
    }
}

} // verus!
