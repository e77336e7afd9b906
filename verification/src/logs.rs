//! The log: `logs/current.log` up to 2 MB; at start the previous one becomes `previous.log`; the
//! last crash is a file of its own, `last-crash.txt`.
use vstd::prelude::*;
use crate::paths::{join, join_path};

verus! {

/// A log file grows to 2 MB.
pub const MAX_BYTES: u64 = 2097152;

pub fn current_path(logs: &str) -> (r: String)
    ensures
        r@ == join_path(logs@, "current.log"@),
{
    join(logs, "current.log")
}

pub fn previous_path(logs: &str) -> (r: String)
    ensures
        r@ == join_path(logs@, "previous.log"@),
{
    join(logs, "previous.log")
}

pub fn crash_path(logs: &str) -> (r: String)
    ensures
        r@ == join_path(logs@, "last-crash.txt"@),
{
    join(logs, "last-crash.txt")
}

/// The log turns over before a write that would take a non-empty file past the limit: the file
/// never grows beyond it, and a line goes whole into the new one.
pub fn turns_over(written: u64, incoming: u64) -> (r: bool)
    ensures
        r == (written > 0 && written + incoming > MAX_BYTES),
{
    written > 0 && (incoming > MAX_BYTES || written > MAX_BYTES - incoming)
}

/// What a write leaves as the size of the current file: a fresh file after turning over.
pub open spec fn size_after(written: u64, incoming: u64) -> int {
    if written > 0 && written + incoming > MAX_BYTES { incoming as int } else { written + incoming }
}

/// A file that turned over held at most the limit; a file kept within the limit stays within it
/// after any write that fits the limit on its own.
pub proof fn law_log_stays_within_limit(written: u64, incoming: u64)
    requires
        written <= MAX_BYTES,
        incoming <= MAX_BYTES,
    ensures
        size_after(written, incoming) <= MAX_BYTES,
{
}

} // verus!
