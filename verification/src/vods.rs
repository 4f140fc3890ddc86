//! Films.

use vstd::prelude::*;

verus! {

/// A film of a provider's catalogue.
#[derive(Debug, PartialEq, Eq)]
pub struct VodStream {
    pub stream_id: u64,
    pub name: String,
    pub stream_icon: String,
}

impl Clone for VodStream {
    fn clone(&self) -> (r: VodStream)
        ensures
            r == *self,
    {
        VodStream {
            stream_id: self.stream_id,
            name: self.name.clone(),
            stream_icon: self.stream_icon.clone(),
        }
    }
}

} // verus!
