//! Collection types with consistent ordering.

pub mod keyed;
pub mod map;
pub mod set;

pub use self::keyed::Keyed;
pub use self::map::OrderedMap;
pub use self::set::OrderedSet;
pub use self::keyed::dfind;
pub use self::keyed::dinsert;
pub use self::keyed::sfind;
pub use self::keyed::spush;
