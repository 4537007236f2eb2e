//! The dedup capability: a membership-test-and-insert gate plus persistence.

use vstd::prelude::*;

use crate::Error;
use crate::Spoiler;

pub mod empty;
pub mod file;

verus! {

/// A store of identity keys already seen. `is_new` reports (and records)
/// whether a spoiler's image URL was unknown so far; `persist` commits the
/// store, and for a store with nothing to commit it trivially succeeds.
pub trait Cache: Sized {
    /// The store's internal consistency; constructors establish it and
    /// every operation preserves it.
    spec fn wf(&self) -> bool;

    /// The keys this store will report as already seen.
    spec fn known(&self) -> Set<Seq<char>>;

    /// Whether `is_new` records the keys it is asked about. A store that
    /// does not remember treats every key as new, forever.
    spec fn remembers(&self) -> bool;

    /// Whether `persist` is guaranteed to succeed (true for stores that
    /// have no durable state to write).
    spec fn persists_trivially(&self) -> bool;

    /// Where the store persists to (empty for a store that persists
    /// nowhere). Membership tests must leave it alone: only `persist`
    /// ever touches durable storage.
    spec fn snapshot_path(&self) -> Seq<char>;

    fn is_new(&mut self, spoiler: &Spoiler) -> (r: bool)
        requires
            old(self).wf(),
        ensures
            final(self).wf(),
            r == !old(self).known().contains(spoiler.image@),
            final(self).known() == if old(self).remembers() {
                old(self).known().insert(spoiler.image@)
            } else {
                old(self).known()
            },
            final(self).remembers() == old(self).remembers(),
            final(self).persists_trivially() == old(self).persists_trivially(),
            final(self).snapshot_path() == old(self).snapshot_path(),
    ;

    fn persist(self) -> (r: Result<(), Error>)
        requires
            self.wf(),
        ensures
            self.persists_trivially() ==> r is Ok,
            r matches Err(e) ==> e is Io,
    ;
}

/// Idempotent dedup: by `is_new`'s contract on a remembering store, a key
/// not seen before is reported new exactly once — the first call answers
/// `true`, and a second call with the same key on the resulting store
/// answers `false`. `known0` is the store's key set before the first
/// call; `first` and `second` are what the two calls return.
pub proof fn lemma_is_new_idempotent(
    known0: Set<Seq<char>>,
    k: Seq<char>,
    first: bool,
    second: bool,
)
    requires
        !known0.contains(k),
        first == !known0.contains(k),
        second == !known0.insert(k).contains(k),
    ensures
        first,
        !second,
{
}


} // verus!
