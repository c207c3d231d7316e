//! Minting a task's hash.
//!
//! A random hash is tried against the store's uniqueness rule. Each length has
//! a fixed number of tries before the next longer one.

use super::error::ServiceError;
use crate::model::error::PortError;
use crate::model::names::same_text;
use vstd::prelude::*;

verus! {

pub const MIN_HASH_LEN: usize = 3;

pub const MAX_HASH_LEN: usize = 8;

/// Tries at each length.
pub const RETRIES_AT_LENGTH: u32 = 8;

/// The state of a mint: the length to try next, and the tries at it that met a
/// taken hash.
#[derive(Clone, Copy, Debug, PartialEq, Eq, Structural)]
pub struct Mint {
    pub length: usize,
    pub attempts: u32,
}

/// The store refused the save because the hash is taken.
pub open spec fn hash_taken(e: PortError) -> bool {
    e matches PortError::Conflict { target } && target@ == "tasks.hash"@
}

impl Mint {
    pub open spec fn wf(self) -> bool {
        MIN_HASH_LEN <= self.length <= MAX_HASH_LEN && self.attempts < RETRIES_AT_LENGTH
    }

    /// The taken hashes met so far.
    pub open spec fn met(self) -> int {
        (self.length - MIN_HASH_LEN) * RETRIES_AT_LENGTH + self.attempts
    }

    /// Begin with the shortest hash.
    pub fn new() -> (out: Self)
        ensures
            out.wf(),
            out.length == MIN_HASH_LEN,
            out.met() == 0,
    {
        Mint { length: MIN_HASH_LEN, attempts: 0 }
    }

    /// A save failed. A taken hash is tried again until the longest length is
    /// used up; any other failure ends the mint.
    pub fn on_save_failed(&mut self, e: PortError) -> (out: Result<(), ServiceError>)
        requires
            old(self).wf(),
        ensures
            final(self).wf(),
            match out {
                Ok(_) => {
                    &&& hash_taken(e)
                    &&& final(self).met() == old(self).met() + 1
                    &&& final(self).length == MIN_HASH_LEN + (old(self).met() + 1)
                        / RETRIES_AT_LENGTH as int
                },
                Err(f) => {
                    &&& *final(self) == *old(self)
                    &&& if hash_taken(e) {
                        &&& old(self).met() + 1 == (MAX_HASH_LEN - MIN_HASH_LEN + 1)
                            * RETRIES_AT_LENGTH
                        &&& f matches ServiceError::Port(PortError::Backend(m)) && m@
                            == "could not mint unique task hash at any length up to 8"@
                    } else {
                        f == ServiceError::Port(e)
                    }
                },
            },
    {
        let taken: bool = match &e {
            PortError::Conflict { target } => same_text(target.as_str(), "tasks.hash"),
            _ => false,
        };
        if !taken {
            return Err(ServiceError::Port(e));
        }
        if self.attempts + 1 < RETRIES_AT_LENGTH {
            self.attempts = self.attempts + 1;
            return Ok(());
        }
        if self.length == MAX_HASH_LEN {
            return Err(
                ServiceError::Port(
                    PortError::Backend(
                        "could not mint unique task hash at any length up to 8".to_owned(),
                    ),
                ),
            );
        }
        self.length = self.length + 1;
        self.attempts = 0;
        Ok(())
    }
}

/// Every length from the shortest to the longest is tried equally often: after
/// `n` taken hashes the next try has the shortest length and one more for each
/// full round.
pub proof fn law_each_length_has_its_tries(m: Mint)
    requires
        m.wf(),
    ensures
        m.length == MIN_HASH_LEN + m.met() / RETRIES_AT_LENGTH as int,
        m.attempts == m.met() % RETRIES_AT_LENGTH as int,
        0 <= m.met() < (MAX_HASH_LEN - MIN_HASH_LEN + 1) * RETRIES_AT_LENGTH,
{
}

/// A hash has three to eight characters, and eight tries are made at each
/// length.
pub proof fn law_hashes_have_three_to_eight_characters(m: Mint)
    requires
        m.wf(),
    ensures
        3 <= m.length <= 8,
        m.attempts < 8,
        m.met() == (m.length - 3) * 8 + m.attempts,
{
}

/// Only a conflict on the task's hash means that the hash is taken.
pub proof fn law_taken_means_a_conflict_on_the_hash(e: PortError)
    ensures
        hash_taken(e) <==> e is Conflict && e->Conflict_target@ == "tasks.hash"@,
{
}

/// A mint begins with the shortest hash. A taken hash is tried again, at the next
/// length once it was taken eight times at one, until the longest is used up; any
/// other failure ends the mint as it is.
pub proof fn law_taken_hash_is_tried_again(
    new: Mint,
    m: &mut Mint,
    e: PortError,
    out: Result<(), ServiceError>,
)
    requires
        call_ensures(Mint::new, (), new),
        old(m).wf(),
        call_ensures(Mint::on_save_failed, (m, e), out),
    ensures
        new.length == 3,
        new.attempts == 0,
        ({
            let taken = e is Conflict && e->Conflict_target@ == "tasks.hash"@;
            &&& out is Ok <==> taken && !(old(m).length == 8 && old(m).attempts == 7)
            &&& !taken ==> out == Err::<(), ServiceError>(ServiceError::Port(e))
            &&& out is Ok && old(m).attempts < 7 ==> final(m).length == old(m).length && final(m).attempts == old(m).attempts + 1
            &&& out is Ok && old(m).attempts == 7 ==> final(m).length == old(m).length + 1
                && final(m).attempts == 0
            &&& out is Err ==> *final(m) == *old(m)
        }),
{
}

} // verus!
