//! The YouTube Music and YouTube client (InnerTube): its profiles and locale, the catalogue's
//! filters, and the diagnosis of a refusal.
use vstd::prelude::*;
use crate::chars::{chars_of, string_of};

pub mod client;
pub mod music;
pub mod music_parsers;
pub mod nav;
pub mod parsers;
pub mod player;
pub mod web_parsers;

verus! {

/// The class of a failed request to YouTube: it chooses the screen's state text.
#[derive(Clone, Copy, Debug, PartialEq, Eq, Structural)]
pub enum ErrorKind {
    /// No connection to YouTube.
    Offline,
    /// A bot check or a block.
    Blocked,
    /// YouTube changed its page.
    Parser,
    Unknown,
}

#[derive(Debug)]
pub struct YouTubeError {
    pub kind: ErrorKind,
    pub message: String,
}

impl YouTubeError {
    pub fn new(kind: ErrorKind, message: &str) -> (r: Self)
        ensures
            r.kind == kind,
            r.message@ == message@,
    {
        YouTubeError { kind, message: string_of(&chars_of(message)) }
    }
}

} // verus!
