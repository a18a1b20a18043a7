//! An insertion-ordered map: unique keys, hashed lookup, and iteration in the
//! order in which the keys were inserted.

mod error;
pub mod laws;
mod map;
mod model;
mod render;

pub use error::SeqMapError;
pub use map::SeqMap;
pub use model::{
    distinct_keys, entries_eq, extended, has_key, keys_of, lookup, obeys_key_laws, position_of,
    values_of,
};
pub use render::{decimal_string, render_debug, render_display};
