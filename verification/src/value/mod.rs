//! Types that can be used to represent valid JSON API data.

pub mod collections;
pub mod fields;
pub mod number;
pub mod stringify;
pub mod value;

pub use self::collections::Keyed;
pub use self::collections::OrderedMap;
pub use self::collections::OrderedSet;
pub use self::fields::Key;
pub use self::fields::Path;
pub use self::fields::Segment;
pub use self::number::Number;
pub use self::stringify::Stringify;
pub use self::value::Value;
pub use self::value::ValueView;
pub use self::value::value_views;
pub use self::value::entry_value_views;
