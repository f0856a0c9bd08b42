//! Extensions to the standard library: sequence adapters that intersperse a
//! separator, remember the last two elements, or drop repeated keys; string
//! joiners; and a plain error value.

pub mod error;
pub mod intersperse_iter;
pub mod memento_iter;
mod queue;
pub mod unique;
pub mod vec;

pub use error::GenericError;
pub use intersperse_iter::{IntersperseIter, IntersperseIterAdapter};
pub use memento_iter::{MementoIter, MementoIterAdapter};
pub use unique::{Unique, UniqueBy};
pub use vec::{Unlines, Unwords};
