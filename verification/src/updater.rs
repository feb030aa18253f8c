//! What the update commands decide: what an available update is reported
//! as, and whether the update that the user agreed to is the one pending.
use crate::error::Error;
use crate::text::str_equal;
use vstd::prelude::*;

verus! {

/// An update that the feed offers, as shown to the user.
#[derive(Debug)]
pub struct AvailableUpdate {
    version: String,
    notes: String,
}

impl AvailableUpdate {
    pub closed spec fn spec_version(&self) -> Seq<char> {
        self.version@
    }

    pub closed spec fn spec_notes(&self) -> Seq<char> {
        self.notes@
    }

    /// The update of `version`, with its release notes, or none.
    pub fn new(version: String, body: Option<String>) -> (u: AvailableUpdate)
        ensures
            u.spec_version() == version@,
            u.spec_notes() == match body {
                Some(b) => b@,
                None => Seq::<char>::empty(),
            },
    {
        let notes = match body {
            Some(b) => b,
            None => String::new(),
        };
        AvailableUpdate { version, notes }
    }

    pub fn version(&self) -> (r: &str)
        ensures
            r@ == self.spec_version(),
    {
        self.version.as_str()
    }

    pub fn notes(&self) -> (r: &str)
        ensures
            r@ == self.spec_notes(),
    {
        self.notes.as_str()
    }
}

/// Only the version that the user agreed to is installed: refuses when no
/// update is pending or the pending one has another version.
pub fn check_pending(pending: Option<&str>, requested: &str) -> (r: Result<(), Error>)
    ensures
        (pending matches Some(v) && v@ == requested@) ==> r is Ok,
        !(pending matches Some(v) && v@ == requested@) ==> (r matches Err(Error::UpdateStale)),
{
    match pending {
        Some(v) => {
            if str_equal(v, requested) {
                Ok(())
            } else {
                Err(Error::UpdateStale)
            }
        },
        None => Err(Error::UpdateStale),
    }
}

} // verus!
