//! The position arithmetic of a ZIP reader that shares one open file among
//! threads, each with its own position.
use crate::error::Error;
use vstd::prelude::*;

verus! {

/// Where a seek counts from, as `std::io::SeekFrom` says it.
#[derive(Debug, Clone, Copy)]
pub enum SeekFrom {
    Start(u64),
    Current(i64),
    End(i64),
}

/// The position that a seek asks for, before it is checked.
pub open spec fn seek_goal(position: u64, length: u64, from: SeekFrom) -> int {
    match from {
        SeekFrom::Start(n) => n as int,
        SeekFrom::Current(n) => position + n,
        SeekFrom::End(n) => length + n,
    }
}

/// The new position of a reader at `position` in a file of `length` bytes;
/// refuses a position below 0 or past what 64 bits hold.
pub fn seek_target(position: u64, length: u64, from: SeekFrom) -> (r: Result<u64, Error>)
    ensures
        0 <= seek_goal(position, length, from) <= u64::MAX ==> r == Ok::<u64, Error>(
            seek_goal(position, length, from) as u64,
        ),
        !(0 <= seek_goal(position, length, from) <= u64::MAX) ==> (r matches Err(
            Error::BadSeek,
        )),
{
    let goal: i128 = match from {
        SeekFrom::Start(n) => n as i128,
        SeekFrom::Current(n) => position as i128 + n as i128,
        SeekFrom::End(n) => length as i128 + n as i128,
    };
    if goal < 0 || goal > u64::MAX as i128 {
        Err(Error::BadSeek)
    } else {
        Ok(goal as u64)
    }
}

/// The position that a copy of a buffered reader starts at: the position of
/// the underlying reader less what is still buffered and unread.
pub fn clone_position(position: u64, buffered: usize) -> (r: u64)
    requires
        buffered <= position,
    ensures
        r == position - buffered,
{
    position - buffered as u64
}

} // verus!
