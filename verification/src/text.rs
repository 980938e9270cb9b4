//! Text helpers: the standard library's string operations that the selection
//! logic relies on, each with what its documentation promises.

use vstd::prelude::*;

verus! {

/// ASCII lower case of a character: 'A'..='Z' map to 'a'..='z', every other
/// character is unchanged.
pub open spec fn ascii_lower_char(c: char) -> char {
    if 'A' <= c && c <= 'Z' {
        ((c as int) + 32) as char
    } else {
        c
    }
}

/// ASCII lower case of a string.
pub open spec fn ascii_lower(s: Seq<char>) -> Seq<char> {
    s.map_values(|c: char| ascii_lower_char(c))
}

/// Whether `needle` occurs in `hay` as a contiguous run of characters.
pub open spec fn has_substring(hay: Seq<char>, needle: Seq<char>) -> bool {
    exists|i: int|
        0 <= i && i + needle.len() <= hay.len() && #[trigger] hay.subrange(i, i + needle.len())
            == needle
}

/// Whether a character has the Unicode `White_Space` property.
pub open spec fn is_white_space(c: char) -> bool {
    ||| '\u{9}' <= c && c <= '\u{d}'
    ||| c == ' '
    ||| c == '\u{85}'
    ||| c == '\u{a0}'
    ||| c == '\u{1680}'
    ||| '\u{2000}' <= c && c <= '\u{200a}'
    ||| c == '\u{2028}'
    ||| c == '\u{2029}'
    ||| c == '\u{202f}'
    ||| c == '\u{205f}'
    ||| c == '\u{3000}'
}

/// `s` without its leading white space.
pub open spec fn trim_start_spec(s: Seq<char>) -> Seq<char>
    decreases s.len(),
{
    if s.len() > 0 && is_white_space(s[0]) {
        trim_start_spec(s.drop_first())
    } else {
        s
    }
}

/// `s` without its trailing white space.
pub open spec fn trim_end_spec(s: Seq<char>) -> Seq<char>
    decreases s.len(),
{
    if s.len() > 0 && is_white_space(s.last()) {
        trim_end_spec(s.drop_last())
    } else {
        s
    }
}

/// What `str::trim` returns for a string: the string without its leading and
/// trailing Unicode white space.
pub open spec fn trimmed(s: Seq<char>) -> Seq<char> {
    trim_end_spec(trim_start_spec(s))
}

/// What the `Debug` formatting of a string gives: the string in double quotes,
/// with quotes, backslashes and control characters escaped.
pub uninterp spec fn debug_quoted(s: Seq<char>) -> Seq<char>;

/// What `String::from_utf16_lossy` decodes from UTF-16 code units: a code
/// unit outside 0xD800..=0xDFFF is that character, a high surrogate followed
/// by a low surrogate is the supplementary character they encode, and every
/// other (unpaired) surrogate becomes U+FFFD.
pub open spec fn utf16_lossy(units: Seq<u16>) -> Seq<char>
    decreases units.len(),
{
    if units.len() == 0 {
        Seq::empty()
    } else if units[0] < 0xD800 || units[0] > 0xDFFF {
        seq![units[0] as char] + utf16_lossy(units.drop_first())
    } else if units[0] <= 0xDBFF && units.len() >= 2 && 0xDC00 <= units[1] && units[1] <= 0xDFFF {
        seq![(0x10000 + (units[0] - 0xD800) * 0x400 + (units[1] - 0xDC00)) as char] + utf16_lossy(
            units.subrange(2, units.len() as int),
        )
    } else {
        seq!['\u{FFFD}'] + utf16_lossy(units.drop_first())
    }
}

/// `str::to_ascii_lowercase`: a copy of `s` in which ASCII letters 'A' to 'Z'
/// are mapped to 'a' to 'z' and every other character is unchanged.
#[verifier::external_body]
pub(crate) fn to_ascii_lowercase(s: &str) -> (lower: String)
    ensures
        lower@ == ascii_lower(s@),
{
    s.to_ascii_lowercase()
}

/// `str::contains` with a string pattern: whether `needle` matches a
/// sub-slice of `hay`.
#[verifier::external_body]
pub(crate) fn str_contains(hay: &str, needle: &str) -> (found: bool)
    ensures
        found == has_substring(hay@, needle@),
{
    hay.contains(needle)
}

/// `==` on string slices: whether both hold the same characters.
#[verifier::external_body]
pub(crate) fn str_equals(a: &str, b: &str) -> (same: bool)
    ensures
        same == (a@ == b@),
{
    a == b
}

/// `str::trim`: `s` without leading and trailing white space (the Unicode
/// `White_Space` property).
#[verifier::external_body]
pub(crate) fn str_trim(s: &str) -> (t: &str)
    ensures
        t@ == trimmed(s@),
{
    s.trim()
}

/// `format!("{:?}", s)`: the `Debug` form of a string slice, named by
/// `debug_quoted`; the escaping rules are not written out.
#[verifier::external_body]
pub(crate) fn debug_string(s: &str) -> (d: String)
    ensures
        d@ == debug_quoted(s@),
{
    format!("{:?}", s)
}

/// `String::from_utf16_lossy`: decodes UTF-16 code units, replacing each
/// unpaired surrogate with U+FFFD.
#[verifier::external_body]
pub(crate) fn from_utf16_lossy(units: &[u16]) -> (s: String)
    ensures
        s@ == utf16_lossy(units@),
{
    String::from_utf16_lossy(units)
}

} // verus!

verus! {

/// Lower-casing twice is lower-casing once.
pub proof fn lemma_ascii_lower_idempotent(s: Seq<char>)
    ensures
        ascii_lower(ascii_lower(s)) == ascii_lower(s),
{
    assert(ascii_lower(ascii_lower(s)) =~= ascii_lower(s));
}

} // verus!

verus! {

/// The UTF-16 code units of one character: itself below 0x10000, else a
/// high surrogate and a low surrogate.
pub open spec fn utf16_units(c: char) -> Seq<u16> {
    let v = c as u32;
    if v < 0x10000 {
        seq![v as u16]
    } else {
        seq![(0xD800 + (v - 0x10000) / 0x400) as u16, (0xDC00 + (v - 0x10000) % 0x400) as u16]
    }
}

/// The UTF-16 encoding of a string (what `str::encode_utf16` yields).
pub open spec fn encode_utf16(s: Seq<char>) -> Seq<u16>
    decreases s.len(),
{
    if s.len() == 0 {
        Seq::empty()
    } else {
        utf16_units(s[0]) + encode_utf16(s.drop_first())
    }
}

/// Decoding the UTF-16 encoding of a string gives the string back.
pub proof fn lemma_utf16_roundtrip(s: Seq<char>)
    ensures
        utf16_lossy(encode_utf16(s)) == s,
    decreases s.len(),
{
    if s.len() > 0 {
        let c = s[0];
        let v = c as u32;
        let rest = encode_utf16(s.drop_first());
        let units = encode_utf16(s);
        lemma_utf16_roundtrip(s.drop_first());
        vstd::utf8::char_is_scalar(c);
        vstd::utf8::char_u32_cast(c, v);
        assert(v <= 0xD7FF || 0xE000 <= v <= 0x10FFFF);
        if v < 0x10000 {
            assert(units.drop_first() =~= rest);
            assert((v as u16) as u32 == v);
            assert((v as u16) as char == v as char);
        } else {
            let hi = 0xD800 + (v - 0x10000) / 0x400;
            let lo = 0xDC00 + (v - 0x10000) % 0x400;
            assert(0xD800 <= hi <= 0xDBFF);
            assert(0xDC00 <= lo <= 0xDFFF);
            assert(units[0] == hi as u16 && units[1] == lo as u16);
            assert(units.subrange(2, units.len() as int) =~= rest);
            assert(0x10000 + (hi - 0xD800) * 0x400 + (lo - 0xDC00) == v);
            assert((0x10000 + (hi - 0xD800) * 0x400 + (lo - 0xDC00)) as char == v as char);
        }
        assert(utf16_lossy(units) =~= s);
    }
}

/// The UTF-16 encoding of a string without NUL holds no 0 code unit.
pub proof fn lemma_utf16_no_nul(s: Seq<char>)
    requires
        forall|i: int| 0 <= i < s.len() ==> s[i] != '\0',
    ensures
        forall|i: int| 0 <= i < encode_utf16(s).len() ==> encode_utf16(s)[i] != 0,
    decreases s.len(),
{
    if s.len() > 0 {
        assert(s[0] != '\0');
        lemma_utf16_no_nul(s.drop_first());
        vstd::utf8::char_u32_cast(s[0], s[0] as u32);
        assert(s[0] as u32 != 0);
        let u = utf16_units(s[0]);
        assert(forall|i: int| 0 <= i < u.len() ==> u[i] != 0);
        assert forall|i: int| 0 <= i < encode_utf16(s).len() implies encode_utf16(s)[i] != 0 by {
            if i >= u.len() {
                assert(encode_utf16(s)[i] == encode_utf16(s.drop_first())[i - u.len()]);
            } else {
                assert(encode_utf16(s)[i] == u[i]);
            }
        }
    }
}

} // verus!
