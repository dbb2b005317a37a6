//! Getting back to where we were from what has been saved.
pub mod injector;
pub mod laws;
pub mod loader;
pub mod saver;
