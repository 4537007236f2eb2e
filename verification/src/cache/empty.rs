//! A no-op store: everything is new, nothing is kept across runs.

use vstd::prelude::*;

use super::Cache;
use crate::Error;
use crate::Spoiler;

verus! {

/// The one-shot store: `is_new` is unconditionally true and `persist`
/// succeeds without touching anything.
#[derive(Debug)]
pub struct Empty;

impl Cache for Empty {
    open spec fn wf(&self) -> bool {
        true
    }

    open spec fn known(&self) -> Set<Seq<char>> {
        Set::empty()
    }

    open spec fn remembers(&self) -> bool {
        false
    }

    open spec fn persists_trivially(&self) -> bool {
        true
    }

    open spec fn snapshot_path(&self) -> Seq<char> {
        Seq::empty()
    }

    fn is_new(&mut self, _spoiler: &Spoiler) -> (r: bool) {
        true
    }

    fn persist(self) -> (r: Result<(), Error>) {
        Ok(())
    }
}

} // verus!
