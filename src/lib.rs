//! Flattens a nested structured value into a flat map from path strings
//! (`$.field[0].key`) to numbers.

pub mod error;
pub mod value;
pub mod path;
pub mod flat;
pub mod model;
pub mod ser;
pub mod laws;

pub use error::{Error, Result};
pub use flat::FlatMap;
pub use ser::{key_string, to_hashmap, Serializer};
pub use value::{Number, Value};
