//! Growable builders for map columns.
//!
//! A map column stores, at every position, either a null or a collection of
//! child items. Physically it is a sequence of boundaries into one flat child
//! column, plus an optional validity bitmap. A growable assembles a new column
//! by copying ranges of entries out of existing columns of the same type, or
//! by appending nulls, and is then finished into a column.
//!
//! - [`column`] says what a column of each type holds, what appending to it
//!   means, and which laws hold of it.
//! - [`offset`] and [`bitmap`] hold the boundaries and the validity bits.
//! - [`array`] holds the finished columns that builders read and produce.
//! - [`growable`] holds the builders: [`growable::map::GrowableMap`] for map
//!   columns, over a builder of the child column.

pub mod array;
pub mod bitmap;
pub mod column;
pub mod error;
pub mod growable;
pub mod offset;
