//! Validated, normalized JSON API member names.
use vstd::prelude::*;

use crate::error::Error;
use crate::value::collections::keyed::Keyed;

verus! {

/// True for the characters that a member name may never contain: most ASCII
/// punctuation, the control characters, and the delete character.
pub open spec fn is_reserved_char(c: char) -> bool {
    ||| c == '+'
    ||| c == ','
    ||| c == '.'
    ||| c == '['
    ||| c == ']'
    ||| c == '!'
    ||| c == '"'
    ||| c == '#'
    ||| c == '$'
    ||| c == '%'
    ||| c == '&'
    ||| c == '\''
    ||| c == '('
    ||| c == ')'
    ||| c == '*'
    ||| c == '/'
    ||| c == ':'
    ||| c == ';'
    ||| c == '<'
    ||| c == '='
    ||| c == '>'
    ||| c == '?'
    ||| c == '@'
    ||| c == '\\'
    ||| c == '^'
    ||| c == '`'
    ||| c == '{'
    ||| c == '|'
    ||| c == '}'
    ||| c == '~'
    ||| c == '\u{7f}'
    ||| (c as u32) <= 0x1f
}

/// True for the characters that normalization treats as word separators.
pub open spec fn is_separator_char(c: char) -> bool {
    c == '-' || c == '_' || c == ' '
}

/// True for ASCII uppercase letters.
pub open spec fn is_ascii_upper(c: char) -> bool {
    'A' <= c && c <= 'Z'
}

/// The lowercase counterpart of an ASCII uppercase letter; other characters
/// are unchanged.
pub open spec fn lower_char(c: char) -> char {
    if is_ascii_upper(c) {
        ((c as u8 + 0x20) as u8) as char
    } else {
        c
    }
}

/// A member name may be parsed when it is non-empty, holds no reserved
/// character, and neither starts nor ends with a separator.
pub open spec fn member_name_ok(s: Seq<char>) -> bool {
    &&& s.len() > 0
    &&& forall|i: int| 0 <= i < s.len() ==> !is_reserved_char(#[trigger] s[i])
    &&& !is_separator_char(s[0])
    &&& !is_separator_char(s[s.len() - 1])
}

/// One step of kebab-case normalization: extends the output `acc` with the
/// normalization of `s[i]`.
///
/// A run of separators collapses to one `-`, dropped entirely when the run is
/// immediately followed by an uppercase letter (which inserts its own `-`).
/// An uppercase letter is lowercased, with a `-` inserted before it unless
/// the output is empty or already ends with `-`. Everything else is copied.
pub open spec fn kebab_step(acc: Seq<char>, s: Seq<char>, i: int) -> Seq<char> {
    let c = s[i];
    if is_separator_char(c) {
        if i + 1 < s.len() && (is_separator_char(s[i + 1]) || is_ascii_upper(s[i + 1])) {
            acc
        } else {
            acc.push('-')
        }
    } else if is_ascii_upper(c) {
        if acc.len() > 0 && acc[acc.len() - 1] != '-' {
            acc.push('-').push(lower_char(c))
        } else {
            acc.push(lower_char(c))
        }
    } else {
        acc.push(c)
    }
}

/// Kebab-case normalization of `s` from position `i` on, appended to `acc`.
pub open spec fn kebab_from(s: Seq<char>, i: int, acc: Seq<char>) -> Seq<char>
    decreases s.len() - i,
{
    if i < 0 || i >= s.len() {
        acc
    } else {
        kebab_from(s, i + 1, kebab_step(acc, s, i))
    }
}

/// Kebab-case normalization of a whole member name.
pub open spec fn kebab_case(s: Seq<char>) -> Seq<char> {
    kebab_from(s, 0, Seq::empty())
}

/// What parsing a member name returns: the normalized name on acceptable
/// input, nothing otherwise.
pub open spec fn key_parse(s: Seq<char>) -> Option<Seq<char>> {
    if member_name_ok(s) {
        Some(kebab_case(s))
    } else {
        None
    }
}

/// The shape of normalized output: no uppercase letters, no `_` or space, no
/// two adjacent `-`, and no `-` at either end.
pub open spec fn kebab_shaped(s: Seq<char>) -> bool {
    &&& forall|i: int|
        0 <= i < s.len() ==> !is_ascii_upper(#[trigger] s[i]) && s[i] != '_' && s[i] != ' '
    &&& forall|i: int| 0 <= i < s.len() - 1 ==> !(#[trigger] s[i] == '-' && s[i + 1] == '-')
    &&& (s.len() > 0 ==> s[0] != '-' && s[s.len() - 1] != '-')
}

/// A well-formed key: a member name that validation accepts and that
/// normalization leaves unchanged.
pub open spec fn key_wf(s: Seq<char>) -> bool {
    member_name_ok(s) && kebab_shaped(s)
}

/// A wrapper around `String` that enforces compliance with JSON API member
/// names: `Key::from_str` validates its input and normalizes it to
/// kebab-case.
#[derive(Debug, PartialEq, Eq, Hash)]
pub struct Key {
    inner: String,
}

impl View for Key {
    type V = Seq<char>;

    closed spec fn view(&self) -> Seq<char> {
        self.inner@
    }
}

impl Clone for Key {
    /// Cloning a key keeps its text.
    fn clone(&self) -> (r: Key)
        ensures
            r@ == self@,
    {
        proof {
            use_type_invariant(self);
        }
        Key { inner: self.inner.clone() }
    }
}

impl Key {
    /// A key is well formed when its text is a valid member name already in
    /// kebab-case. Every key this crate hands out satisfies this.
    #[verifier::type_invariant]
    pub open spec fn wf(&self) -> bool {
        key_wf(self@)
    }

    /// Parses a member name: rejects the empty name, reserved characters,
    /// and a leading or trailing separator, then normalizes to kebab-case.
    pub fn from_str(value: &str) -> (r: Result<Key, Error>)
        ensures
            r is Ok <==> member_name_ok(value@),
            r matches Ok(k) ==> k@ == kebab_case(value@) && k.wf(),
            r matches Err(e) ==> e matches Error::InvalidMemberName(n) && n@ == value@,
    {
        let n = value.unicode_len();
        if n == 0 {
            return Err(Error::InvalidMemberName(value.to_owned()));
        }
        let mut i: usize = 0;
        while i < n
            invariant
                n == value@.len(),
                0 < n,
                i <= n,
                forall|j: int| 0 <= j < i ==> !is_reserved_char(#[trigger] value@[j]),
                i > 0 ==> !is_separator_char(value@[0]),
                i == n ==> !is_separator_char(value@[n - 1]),
            decreases n - i,
        {
            let c = value.get_char(i);
            if exec_is_reserved(c) {
                return Err(Error::InvalidMemberName(value.to_owned()));
            }
            if (i == 0 || i == n - 1) && exec_is_separator(c) {
                return Err(Error::InvalidMemberName(value.to_owned()));
            }
            i = i + 1;
        }
        assert(member_name_ok(value@));
        let normalized = kebab_exec(value);
        proof {
            lemma_kebab_shape(value@, 0, Seq::empty());
        }
        Ok(Key { inner: normalized })
    }

    /// The text of the key.
    pub fn as_str(&self) -> (r: &str)
        ensures
            r@ == self@,
    {
        self.inner.as_str()
    }

    /// The number of characters in the key.
    pub fn char_len(&self) -> (r: usize)
        ensures
            r == self@.len(),
    {
        self.inner.as_str().unicode_len()
    }

    /// True when the two keys hold the same text.
    pub fn key_eq(&self, other: &Key) -> (r: bool)
        ensures
            r == (self@ == other@),
    {
        self.inner.eq(&other.inner)
    }
}

impl Keyed for Key {
    type Ident = Seq<char>;

    /// A key's identity is its text.
    open spec fn key_ident(&self) -> Seq<char> {
        self@
    }

    fn key_eq(&self, other: &Key) -> (r: bool) {
        self.inner.eq(&other.inner)
    }

    proof fn lemma_cloned_ident(a: &Key, b: &Key) {
        if a != b {
            assert(call_ensures(Key::clone, (a,), *b));
        }
    }
}

impl core::str::FromStr for Key {
    type Err = Error;

    fn from_str(value: &str) -> Result<Key, Error> {
        Key::from_str(value)
    }
}

/// True exactly on the reserved characters.
fn exec_is_reserved(c: char) -> (r: bool)
    ensures
        r == is_reserved_char(c),
{
    match c {
        '+' | ',' | '.' | '[' | ']' | '!' | '"' | '#' | '$' | '%' | '&' | '\'' | '(' | ')' | '*'
            | '/' | ':' | ';' | '<' | '=' | '>' | '?' | '@' | '\\' | '^' | '`' | '{' | '|' | '}'
            | '~' | '\u{7f}' => true,
        _ => (c as u32) <= 0x1f,
    }
}

/// True exactly on the separator characters.
fn exec_is_separator(c: char) -> (r: bool)
    ensures
        r == is_separator_char(c),
{
    c == '-' || c == '_' || c == ' '
}

/// True exactly on ASCII uppercase letters.
fn exec_is_upper(c: char) -> (r: bool)
    ensures
        r == is_ascii_upper(c),
{
    (c as u32) >= 0x41 && (c as u32) <= 0x5a
}

/// Builds the kebab-case normalization of an already validated member name.
fn kebab_exec(value: &str) -> (r: String)
    ensures
        r@ == kebab_case(value@),
{
    let n = value.unicode_len();
    let mut out = String::new();
    let mut last: Option<char> = None;
    let mut i: usize = 0;
    while i < n
        invariant
            n == value@.len(),
            i <= n,
            kebab_from(value@, i as int, out@) == kebab_case(value@),
            match last {
                Some(c) => out@.len() > 0 && out@[out@.len() - 1] == c,
                None => out@.len() == 0,
            },
        decreases n - i,
    {
        let c = value.get_char(i);
        if exec_is_separator(c) {
            let followed = if i + 1 < n {
                let d = value.get_char(i + 1);
                exec_is_separator(d) || exec_is_upper(d)
            } else {
                false
            };
            if !followed {
                out.push('-');
                last = Some('-');
            }
        } else if exec_is_upper(c) {
            let low = ((c as u8) + 0x20) as char;
            assert(low == lower_char(c));
            match last {
                Some(p) => {
                    if p != '-' {
                        out.push('-');
                    }
                },
                None => {},
            }
            out.push(low);
            last = Some(low);
        } else {
            out.push(c);
            last = Some(c);
        }
        i = i + 1;
    }
    out
}

/// The inductive heart of normalization: starting from a partially built
/// output that is kebab-shaped (allowing a trailing `-` only when the next
/// input character will not duplicate it), the rest of a valid member name
/// normalizes to a kebab-shaped, valid member name that extends the output.
proof fn lemma_kebab_shape(s: Seq<char>, i: int, acc: Seq<char>)
    requires
        member_name_ok(s),
        0 <= i <= s.len(),
        forall|j: int|
            0 <= j < acc.len() ==> !is_ascii_upper(#[trigger] acc[j]) && acc[j] != '_' && acc[j]
                != ' ' && !is_reserved_char(acc[j]),
        forall|j: int| 0 <= j < acc.len() - 1 ==> !(#[trigger] acc[j] == '-' && acc[j + 1] == '-'),
        acc.len() > 0 ==> acc[0] != '-',
        acc.len() > 0 && acc[acc.len() - 1] == '-' ==> i < s.len() && !is_separator_char(s[i])
            && !is_ascii_upper(s[i]),
        i > 0 ==> acc.len() > 0,
    ensures
        ({
            let r = kebab_from(s, i, acc);
            &&& r.len() >= acc.len()
            &&& i < s.len() || acc.len() > 0 ==> r.len() > 0
            &&& forall|j: int|
                0 <= j < r.len() ==> !is_ascii_upper(#[trigger] r[j]) && r[j] != '_' && r[j] != ' '
                    && !is_reserved_char(r[j])
            &&& forall|j: int| 0 <= j < r.len() - 1 ==> !(#[trigger] r[j] == '-' && r[j + 1] == '-')
            &&& r.len() > 0 ==> r[0] != '-' && r[r.len() - 1] != '-'
        }),
    decreases s.len() - i,
{
    if i < s.len() {
        let c = s[i];
        let next = kebab_step(acc, s, i);
        assert(!is_reserved_char(c));
        if is_ascii_upper(c) {
            assert(!is_reserved_char(lower_char(c))) by {
                assert(0x61 <= lower_char(c) as u32 <= 0x7a);
            }
            assert(!is_ascii_upper(lower_char(c)));
            assert(lower_char(c) != '_' && lower_char(c) != ' ' && lower_char(c) != '-') by {
                assert(0x61 <= lower_char(c) as u32 <= 0x7a);
            }
        }
        if is_separator_char(c) {
            assert(i < s.len() - 1) by {
                assert(!is_separator_char(s[s.len() - 1]));
            }
        }
        lemma_kebab_shape(s, i + 1, next);
    }
}

/// Normalizing a valid member name yields a valid, kebab-shaped member name.
pub proof fn lemma_kebab_case_wf(s: Seq<char>)
    requires
        member_name_ok(s),
    ensures
        key_wf(kebab_case(s)),
{
    lemma_kebab_shape(s, 0, Seq::empty());
}

/// Normalization leaves a kebab-shaped valid member name unchanged.
proof fn lemma_kebab_fixpoint_from(s: Seq<char>, i: int)
    requires
        member_name_ok(s),
        kebab_shaped(s),
        0 <= i <= s.len(),
    ensures
        kebab_from(s, i, s.take(i)) == s,
    decreases s.len() - i,
{
    if i < s.len() {
        let c = s[i];
        assert(!is_ascii_upper(c) && c != '_' && c != ' ');
        if c == '-' {
            assert(i < s.len() - 1) by {
                assert(s[s.len() - 1] != '-');
            }
            assert(s[i + 1] != '-');
            assert(!is_separator_char(s[i + 1]) && !is_ascii_upper(s[i + 1]));
        }
        assert(kebab_step(s.take(i), s, i) == s.take(i).push(c));
        assert(s.take(i).push(c) =~= s.take(i + 1));
        lemma_kebab_fixpoint_from(s, i + 1);
    } else {
        assert(s.take(i) =~= s);
    }
}

/// A well-formed key is its own normalization.
pub proof fn lemma_kebab_fixpoint(s: Seq<char>)
    requires
        key_wf(s),
    ensures
        kebab_case(s) == s,
{
    lemma_kebab_fixpoint_from(s, 0);
    assert(s.take(0) =~= Seq::<char>::empty());
}

/// Parsing is idempotent: parsing the text of a parsed key gives the same
/// key back.
pub proof fn lemma_key_parse_idempotent(s: Seq<char>)
    requires
        key_parse(s) is Some,
    ensures
        key_parse(key_parse(s).unwrap()) == key_parse(s),
{
    lemma_kebab_case_wf(s);
    lemma_kebab_fixpoint(kebab_case(s));
}

} // verus!
