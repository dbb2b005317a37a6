//! Data for units.
use vstd::prelude::*;

verus! {

/// The data in units.
pub type Data = u32;

/// Provides the same data again and again.
pub struct DataProvider;

impl DataProvider {
    pub fn new() -> Self {
        DataProvider
    }

    /// The next piece of data.
    pub fn get_data(&mut self) -> (data: Data)
        ensures
            data == 0,
    {
        0
    }
}

} // verus!
