//! Terminal runtime helpers for HTML-defined components.

use vstd::prelude::*;

use crate::strings::{chars_of, push_chars};

pub mod strings;
pub mod keys;
pub mod keymap;
pub mod text;
pub mod expand;
pub mod geometry;
pub mod dialog;
pub mod ansi;
pub mod worker;
pub mod rewrite_laws;
pub mod render;
pub mod qr;
pub mod lint;
pub mod dataset;
pub mod focus;
pub mod commit;
pub mod overlay;
pub mod calendar;
pub mod widget;
pub mod focus_tree;
pub mod css;
pub mod layout;

pub use keys::KeyStroke;

verus! {

#[verifier::external_type_specification]
#[verifier::external_body]
pub struct ExIoError(std::io::Error);

/// What can go wrong mounting and running a terminal app.
#[derive(Debug)]
pub enum Error {
    /// A tag no registered custom element serves.
    UnknownTag(String),
    /// A `data-tui` kind no widget serves.
    UnknownWidget(String),
    /// A date widget's pattern did not parse.
    Pattern(String),
    /// The terminal backend failed.
    Terminal(String),
    /// Terminal I/O failed.
    Io(std::io::Error),
}

/// `std::io::Error`'s `Display` text. Nothing is claimed of it: the text
/// comes from the operating system.
#[verifier::external_body]
fn io_error_text(err: &std::io::Error) -> String {
    err.to_string()
}

/// A fixed text followed by a payload and a closing text.
fn framed(lead: &str, payload: &str, close: &str) -> (text: String)
    ensures
        text@ == lead@ + payload@ + close@,
{
    let mut text = String::new();
    push_chars(&mut text, &chars_of(lead));
    push_chars(&mut text, &chars_of(payload));
    push_chars(&mut text, &chars_of(close));
    assert(Seq::<char>::empty() + lead@ + payload@ + close@ =~= lead@ + payload@ + close@);
    text
}

impl Error {
    /// The error's message, as it displays.
    pub fn message(&self) -> (text: String)
        ensures
            self matches Error::UnknownTag(tag) ==> text@ == "unknown custom element <"@ + tag@ + ">"@,
            self matches Error::UnknownWidget(kind) ==> text@ == "unsupported data-tui widget '"@ + kind@ + "'"@,
            self matches Error::Pattern(detail) ==> text@ == "date pattern: "@ + detail@,
            self matches Error::Terminal(detail) ==> text@ == "terminal: "@ + detail@,
    {
        proof {
            reveal_strlit("");
        }
        match self {
            Error::UnknownTag(tag) => framed("unknown custom element <", tag.as_str(), ">"),
            Error::UnknownWidget(kind) => framed("unsupported data-tui widget '", kind.as_str(), "'"),
            Error::Pattern(detail) => framed("date pattern: ", detail.as_str(), ""),
            Error::Terminal(detail) => framed("terminal: ", detail.as_str(), ""),
            Error::Io(err) => io_error_text(err),
        }
    }
}

impl From<std::io::Error> for Error {
    fn from(err: std::io::Error) -> (e: Self) {
        Error::Io(err)
    }
}

impl vstd::std_specs::convert::FromSpecImpl<std::io::Error> for Error {
    open spec fn obeys_from_spec() -> bool {
        true
    }

    open spec fn from_spec(v: std::io::Error) -> Self {
        Error::Io(v)
    }
}

/// Whether the event loop goes on after an event.
#[derive(Debug, Clone, Copy, PartialEq, Eq, Structural)]
pub enum Control {
    Continue,
    Quit,
}

/// What an overlay did with an event, for the host to act on.
#[derive(Debug, Clone, Copy, PartialEq, Eq, Structural)]
pub enum OverlayOutcome {
    /// The overlay consumed the event.
    Consumed,
    /// Not consumed: the global handling continues (Tab closes and falls
    /// through to commit-and-step, an outside press falls through to the
    /// hit test).
    Pass,
    /// The overlay closed over a pick: the host commits the widget.
    Commit,
}

} // verus!
