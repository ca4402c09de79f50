//! Small verified building blocks: value types, enumerations, slices,
//! strings and maps, each with a contract that pins its behaviour down.

pub mod coins;
pub mod collections;
pub mod messages;
pub mod numbers;
pub mod rectangles;
pub mod selection;
pub mod table;
pub mod text;
pub mod users;
