//! Series.

use vstd::prelude::*;

verus! {

/// A series of a provider's catalogue.
#[derive(Debug, PartialEq, Eq)]
pub struct SeriesItem {
    pub series_id: u64,
    pub name: String,
    pub cover: String,
}

impl Clone for SeriesItem {
    fn clone(&self) -> (r: SeriesItem)
        ensures
            r == *self,
    {
        SeriesItem { series_id: self.series_id, name: self.name.clone(), cover: self.cover.clone() }
    }
}

} // verus!
