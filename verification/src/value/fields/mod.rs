//! Member names and field paths.

mod key;
mod path;

pub use self::key::Key;
pub use self::key::is_reserved_char;
pub use self::key::is_separator_char;
pub use self::key::is_ascii_upper;
pub use self::key::lower_char;
pub use self::key::member_name_ok;
pub use self::key::kebab_step;
pub use self::key::kebab_from;
pub use self::key::kebab_case;
pub use self::key::key_parse;
pub use self::key::kebab_shaped;
pub use self::key::key_wf;
pub use self::key::lemma_kebab_case_wf;
pub use self::key::lemma_kebab_fixpoint;
pub use self::key::lemma_key_parse_idempotent;
pub use self::path::Path;
pub use self::path::path_join;
pub use self::path::path_join_from;
pub use self::path::find_char;
pub use self::path::split_char;
pub use self::path::split_char_exec;
pub use self::path::lemma_find_char_at;
pub use self::path::split_dots;
pub use self::path::path_parse;
pub use self::path::path_wf;
pub use self::path::seq_views;
pub use self::path::lemma_path_round_trip;
pub use self::path::Segment;
