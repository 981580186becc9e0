//! Character-level helpers on strings: UTF-16 decoding and encoding,
//! ASCII case folding, substring search and character filtering.

use vstd::prelude::*;

verus! {

/// Appends one character to a string (`String::push`).
#[verifier::external_body]
pub(crate) fn push_char(s: &mut String, c: char)
    ensures
        final(s)@ == old(s)@.push(c),
{
    s.push(c);
}

/// Whether `v` is a Unicode scalar value, i.e. a value that `char` can hold.
pub open spec fn is_scalar_value(v: u32) -> bool {
    v <= 0xD7FF || (0xE000 <= v && v <= 0x10FFFF)
}

/// `char::from_u32`: the character with code point `v`, if `v` is a scalar value.
#[verifier::external_body]
pub(crate) fn char_from_u32(v: u32) -> (r: Option<char>)
    ensures
        r == (if is_scalar_value(v) {
            Some(v as char)
        } else {
            None::<char>
        }),
{
    char::from_u32(v)
}

/// The characters of a string slice, in order.
pub fn chars_of(s: &str) -> (v: Vec<char>)
    ensures
        v@ == s@,
{
    let mut v: Vec<char> = Vec::new();
    for c in it: s.chars()
        invariant
            v@ == it.seq().take(it.index() as int),
    {
        v.push(c);
    }
    v
}

/// The string made of the given characters, in order.
pub fn string_from_chars(cs: &Vec<char>) -> (s: String)
    ensures
        s@ == cs@,
{
    let mut s = String::new();
    let mut i: usize = 0;
    while i < cs.len()
        invariant
            i <= cs@.len(),
            s@ == cs@.take(i as int),
        decreases cs@.len() - i,
    {
        push_char(&mut s, cs[i]);
        i = i + 1;
        assert(s@ =~= cs@.take(i as int));
    }
    assert(cs@.take(cs@.len() as int) =~= cs@);
    s
}

// ---------------------------------------------------------------- NUL removal

/// `s` with every NUL character removed.
pub open spec fn without_nul(s: Seq<char>) -> Seq<char>
    decreases s.len(),
{
    if s.len() == 0 {
        s
    } else if s.last() == '\0' {
        without_nul(s.drop_last())
    } else {
        without_nul(s.drop_last()).push(s.last())
    }
}

/// Removes every NUL character from a file name, keeping all others in order.
pub fn sanitize_filename(name: &str) -> (clean: String)
    ensures
        clean@ == without_nul(name@),
{
    let cs = chars_of(name);
    let mut out = String::new();
    let mut i: usize = 0;
    while i < cs.len()
        invariant
            i <= cs@.len(),
            cs@ == name@,
            out@ == without_nul(cs@.take(i as int)),
        decreases cs@.len() - i,
    {
        let c = cs[i];
        assert(cs@.take(i + 1).drop_last() =~= cs@.take(i as int));
        if c != '\0' {
            push_char(&mut out, c);
        }
        i = i + 1;
    }
    assert(cs@.take(cs@.len() as int) =~= cs@);
    out
}

/// Removing NULs leaves no NUL, never lengthens the name, and a second
/// removal changes nothing.
pub proof fn lemma_without_nul_has_no_nul(s: Seq<char>)
    ensures
        !without_nul(s).contains('\0'),
        without_nul(s).len() <= s.len(),
        without_nul(without_nul(s)) == without_nul(s),
    decreases s.len(),
{
    if s.len() > 0 {
        lemma_without_nul_has_no_nul(s.drop_last());
        let r = without_nul(s.drop_last());
        if s.last() != '\0' {
            assert(r.push(s.last()).drop_last() =~= r);
            assert forall|i: int| 0 <= i < r.push(s.last()).len() implies r.push(s.last())[i]
                != '\0' by {
                if i < r.len() {
                    assert(r.push(s.last())[i] == r[i]);
                    assert(r.contains(r[i]));
                }
            }
        }
    }
}

// ----------------------------------------------------------- ASCII case

/// The ASCII lowercase form of `c`; other characters are kept.
pub open spec fn ascii_lower(c: char) -> char {
    if 'A' <= c && c <= 'Z' {
        ((c as u32) + 32) as char
    } else {
        c
    }
}

/// The ASCII uppercase form of `c`; other characters are kept.
pub open spec fn ascii_upper(c: char) -> char {
    if 'a' <= c && c <= 'z' {
        ((c as u32) - 32) as char
    } else {
        c
    }
}

/// Whether two strings are equal once ASCII letters are folded to lowercase
/// (what `str::eq_ignore_ascii_case` decides).
pub open spec fn eq_ignore_ascii_case(a: Seq<char>, b: Seq<char>) -> bool {
    a.map_values(|c: char| ascii_lower(c)) == b.map_values(|c: char| ascii_lower(c))
}

fn lower_code(c: char) -> (r: u32)
    ensures
        r == ascii_lower(c) as u32,
{
    if c >= 'A' && c <= 'Z' {
        (c as u32) + 32
    } else {
        c as u32
    }
}

/// Compares two strings, ignoring the case of ASCII letters.
pub fn str_eq_ignore_ascii_case(a: &str, b: &str) -> (r: bool)
    ensures
        r == eq_ignore_ascii_case(a@, b@),
{
    let x = chars_of(a);
    let y = chars_of(b);
    if x.len() != y.len() {
        assert(a@.map_values(|c: char| ascii_lower(c)).len() != b@.map_values(
            |c: char| ascii_lower(c),
        ).len());
        return false;
    }
    let mut i: usize = 0;
    while i < x.len()
        invariant
            x@ == a@,
            y@ == b@,
            x@.len() == y@.len(),
            i <= x@.len(),
            forall|j: int| 0 <= j < i ==> ascii_lower(#[trigger] x@[j]) == ascii_lower(y@[j]),
        decreases x@.len() - i,
    {
        if lower_code(x[i]) != lower_code(y[i]) {
            assert(a@.map_values(|c: char| ascii_lower(c))[i as int] != b@.map_values(
                |c: char| ascii_lower(c),
            )[i as int]);
            return false;
        }
        i = i + 1;
    }
    assert(a@.map_values(|c: char| ascii_lower(c)) =~= b@.map_values(|c: char| ascii_lower(c)));
    true
}

/// `s` with its ASCII lowercase letters turned to uppercase.
pub fn to_ascii_uppercase(s: &str) -> (r: String)
    ensures
        r@ == s@.map_values(|c: char| ascii_upper(c)),
{
    let cs = chars_of(s);
    let mut out = String::new();
    let mut i: usize = 0;
    while i < cs.len()
        invariant
            cs@ == s@,
            i <= cs@.len(),
            out@ == cs@.take(i as int).map_values(|c: char| ascii_upper(c)),
        decreases cs@.len() - i,
    {
        let c = cs[i];
        let u = if c >= 'a' && c <= 'z' {
            match char_from_u32((c as u32) - 32) {
                Some(d) => d,
                None => c,
            }
        } else {
            c
        };
        push_char(&mut out, u);
        i = i + 1;
        assert(out@ =~= cs@.take(i as int).map_values(|c: char| ascii_upper(c)));
    }
    assert(cs@.take(cs@.len() as int) =~= cs@);
    out
}

// ----------------------------------------------------------- substrings

/// Whether `needle` occurs as a contiguous run of characters in `hay`.
pub open spec fn contains_seq(hay: Seq<char>, needle: Seq<char>) -> bool {
    exists|i: int|
        0 <= i && i + needle.len() <= hay.len() && #[trigger] hay.subrange(i, i + needle.len())
            == needle
}

/// Whether the run `needle` occurs in `hay` starting at position `at`.
fn occurs_at(hay: &Vec<char>, needle: &Vec<char>, at: usize) -> (r: bool)
    requires
        at + needle@.len() <= hay@.len(),
    ensures
        r == (hay@.subrange(at as int, at + needle@.len()) == needle@),
{
    let _len = hay.len();
    let mut k: usize = 0;
    while k < needle.len()
        invariant
            at + needle@.len() <= hay@.len(),
            _len == hay@.len(),
            k <= needle@.len(),
            forall|j: int| 0 <= j < k ==> hay@[at + j] == needle@[j],
        decreases needle@.len() - k,
    {
        if hay[at + k] != needle[k] {
            assert(hay@.subrange(at as int, at + needle@.len())[k as int] != needle@[k as int]);
            return false;
        }
        k = k + 1;
    }
    assert(hay@.subrange(at as int, at + needle@.len()) =~= needle@);
    true
}

/// Whether `needle` occurs in `hay` (what `str::contains` decides for a string pattern).
pub fn str_contains(hay: &str, needle: &str) -> (r: bool)
    ensures
        r == contains_seq(hay@, needle@),
{
    let h = chars_of(hay);
    let n = chars_of(needle);
    if n.len() > h.len() {
        return false;
    }
    let last = h.len() - n.len();
    let mut at: usize = 0;
    loop
        invariant
            h@ == hay@,
            n@ == needle@,
            last == h@.len() - n@.len(),
            at <= last,
            forall|i: int| 0 <= i < at ==> #[trigger] h@.subrange(i, i + n@.len()) != n@,
        decreases last - at,
    {
        if occurs_at(&h, &n, at) {
            assert(h@.subrange(at as int, at + n@.len()) == n@);
            return true;
        }
        if at == last {
            return false;
        }
        at = at + 1;
    }
}

/// Whether `prefix` is the beginning of `s`.
pub fn has_prefix(s: &Vec<char>, prefix: &Vec<char>) -> (r: bool)
    ensures
        r == prefix@.is_prefix_of(s@),
{
    if prefix.len() > s.len() {
        return false;
    }
    let b = occurs_at(s, prefix, 0);
    assert(s@.subrange(0, prefix@.len() as int) =~= s@.take(prefix@.len() as int));
    b
}

// ----------------------------------------------------------- UTF-16

pub open spec fn is_high_surrogate(u: u16) -> bool {
    0xD800 <= u && u <= 0xDBFF
}

pub open spec fn is_low_surrogate(u: u16) -> bool {
    0xDC00 <= u && u <= 0xDFFF
}

/// The code point that a high and a low surrogate stand for together.
pub open spec fn surrogate_pair_value(hi: u16, lo: u16) -> u32 {
    ((hi - 0xD800) * 0x400 + (lo - 0xDC00) + 0x10000) as u32
}

/// UTF-16 decoding in which every unpaired surrogate becomes U+FFFD
/// (what `String::from_utf16_lossy` computes).
pub open spec fn utf16_decode_lossy(u: Seq<u16>) -> Seq<char>
    decreases u.len(),
{
    if u.len() == 0 {
        Seq::empty()
    } else if is_high_surrogate(u[0]) && u.len() >= 2 && is_low_surrogate(u[1]) {
        seq![surrogate_pair_value(u[0], u[1]) as char] + utf16_decode_lossy(u.skip(2))
    } else if is_high_surrogate(u[0]) || is_low_surrogate(u[0]) {
        seq!['\u{FFFD}'] + utf16_decode_lossy(u.skip(1))
    } else {
        seq![(u[0] as u32) as char] + utf16_decode_lossy(u.skip(1))
    }
}

/// Decodes UTF-16 code units, replacing unpaired surrogates with U+FFFD.
pub fn decode_utf16_lossy(units: &[u16]) -> (s: String)
    ensures
        s@ == utf16_decode_lossy(units@),
{
    let n = units.len();
    let mut out = String::new();
    let mut i: usize = 0;
    assert(units@.skip(0) =~= units@);
    while i < n
        invariant
            n == units@.len(),
            i <= n,
            out@ + utf16_decode_lossy(units@.skip(i as int)) == utf16_decode_lossy(units@),
        decreases n - i,
    {
        let ghost rest = units@.skip(i as int);
        let u = units[i];
        assert(rest[0] == u);
        if u >= 0xD800 && u <= 0xDBFF && i + 1 < n && units[i + 1] >= 0xDC00 && units[i + 1]
            <= 0xDFFF {
            let lo = units[i + 1];
            assert(rest[1] == lo);
            let v: u32 = ((u - 0xD800) as u32) * 0x400 + ((lo - 0xDC00) as u32) + 0x10000;
            assert(v == surrogate_pair_value(u, lo));
            let c = match char_from_u32(v) {
                Some(c) => c,
                None => '\u{FFFD}',
            };
            assert(rest.skip(2) =~= units@.skip(i + 2));
            push_char(&mut out, c);
            assert(out@ + utf16_decode_lossy(units@.skip(i + 2)) =~= utf16_decode_lossy(units@));
            i = i + 2;
        } else if u >= 0xD800 && u <= 0xDFFF {
            assert(rest.skip(1) =~= units@.skip(i + 1));
            push_char(&mut out, '\u{FFFD}');
            assert(out@ + utf16_decode_lossy(units@.skip(i + 1)) =~= utf16_decode_lossy(units@));
            i = i + 1;
        } else {
            let c = match char_from_u32(u as u32) {
                Some(c) => c,
                None => '\u{FFFD}',
            };
            assert(rest.skip(1) =~= units@.skip(i + 1));
            push_char(&mut out, c);
            assert(out@ + utf16_decode_lossy(units@.skip(i + 1)) =~= utf16_decode_lossy(units@));
            i = i + 1;
        }
    }
    assert(units@.skip(n as int) =~= Seq::<u16>::empty());
    assert(out@ + Seq::<char>::empty() =~= out@);
    out
}

/// The UTF-16 code units of one character.
pub open spec fn utf16_of_char(c: char) -> Seq<u16> {
    let v = c as u32;
    if v < 0x10000 {
        seq![v as u16]
    } else {
        seq![(0xD800 + (v - 0x10000) / 0x400) as u16, (0xDC00 + (v - 0x10000) % 0x400) as u16]
    }
}

/// The UTF-16 encoding of a character sequence (what `str::encode_utf16` yields).
pub open spec fn utf16_encode(s: Seq<char>) -> Seq<u16>
    decreases s.len(),
{
    if s.len() == 0 {
        Seq::empty()
    } else {
        utf16_encode(s.drop_last()) + utf16_of_char(s.last())
    }
}

/// Appends the UTF-16 code units of `cs` to `out`.
pub fn push_utf16(out: &mut Vec<u16>, cs: &Vec<char>)
    ensures
        final(out)@ == old(out)@ + utf16_encode(cs@),
{
    let ghost start = out@;
    let mut i: usize = 0;
    while i < cs.len()
        invariant
            i <= cs@.len(),
            out@ == start + utf16_encode(cs@.take(i as int)),
        decreases cs@.len() - i,
    {
        let c = cs[i];
        let v = c as u32;
        assert(cs@.take(i + 1).drop_last() =~= cs@.take(i as int));
        if v < 0x10000 {
            out.push(v as u16);
        } else {
            let w = v - 0x10000;
            out.push((0xD800 + w / 0x400) as u16);
            out.push((0xDC00 + w % 0x400) as u16);
        }
        assert(out@ =~= start + utf16_encode(cs@.take(i + 1)));
        i = i + 1;
    }
    assert(cs@.take(cs@.len() as int) =~= cs@);
}

proof fn lemma_encode_append(a: Seq<char>, b: Seq<char>)
    ensures
        utf16_encode(a + b) == utf16_encode(a) + utf16_encode(b),
    decreases b.len(),
{
    if b.len() == 0 {
        assert(a + b =~= a);
        assert(utf16_encode(a) + utf16_encode(b) =~= utf16_encode(a));
    } else {
        assert((a + b).drop_last() =~= a + b.drop_last());
        lemma_encode_append(a, b.drop_last());
        assert(utf16_encode(a + b) =~= utf16_encode(a) + utf16_encode(b));
    }
}

proof fn lemma_decode_one_char(c: char, rest: Seq<u16>)
    ensures
        utf16_decode_lossy(utf16_of_char(c) + rest) == seq![c] + utf16_decode_lossy(rest),
{
    let v = c as u32;
    let u = utf16_of_char(c) + rest;
    if v < 0x10000 {
        assert(u[0] == v as u16);
        assert(u.skip(1) =~= rest);
        assert(((u[0] as u32) as char) == c);
    } else {
        let w = v - 0x10000;
        let q = w / 0x400;
        let r = w % 0x400;
        assert(w == q * 0x400 + r && 0 <= r < 0x400) by (nonlinear_arith)
            requires
                w >= 0,
                q == w / 0x400,
                r == w % 0x400,
        ;
        assert(q < 0x400) by (nonlinear_arith)
            requires
                w < 0x100000,
                q == w / 0x400,
        ;
        assert(u[0] == (0xD800 + q) as u16);
        assert(u[1] == (0xDC00 + r) as u16);
        assert(u.skip(2) =~= rest);
        assert(surrogate_pair_value(u[0], u[1]) == v);
        assert((v as char) == c);
    }
}

/// Decoding the UTF-16 encoding of a character sequence gives the sequence back.
pub proof fn lemma_utf16_roundtrip(s: Seq<char>)
    ensures
        utf16_decode_lossy(utf16_encode(s)) == s,
    decreases s.len(),
{
    if s.len() > 0 {
        let first = s[0];
        let tail = s.skip(1);
        assert(s =~= seq![first] + tail);
        lemma_encode_append(seq![first], tail);
        assert(seq![first].drop_last() =~= Seq::<char>::empty());
        assert(seq![first].last() == first);
        assert(utf16_encode(Seq::<char>::empty()) =~= Seq::<u16>::empty());
        assert(utf16_encode(seq![first]) =~= utf16_of_char(first));
        lemma_decode_one_char(first, utf16_encode(tail));
        lemma_utf16_roundtrip(tail);
    }
}

// ----------------------------------------------------------- trailing colons

/// `s` with every trailing `:` removed (what `str::trim_end_matches(':')` gives).
pub open spec fn trim_trailing_colons(s: Seq<char>) -> Seq<char>
    decreases s.len(),
{
    if s.len() > 0 && s.last() == ':' {
        trim_trailing_colons(s.drop_last())
    } else {
        s
    }
}

pub fn trim_colons(cs: &Vec<char>) -> (r: Vec<char>)
    ensures
        r@ == trim_trailing_colons(cs@),
{
    let mut end: usize = cs.len();
    assert(cs@.take(end as int) =~= cs@);
    while end > 0 && cs[end - 1] == ':'
        invariant
            end <= cs@.len(),
            trim_trailing_colons(cs@.take(end as int)) == trim_trailing_colons(cs@),
        decreases end,
    {
        assert(cs@.take(end as int).drop_last() =~= cs@.take(end - 1));
        end = end - 1;
    }
    let mut r: Vec<char> = Vec::new();
    let mut i: usize = 0;
    while i < end
        invariant
            end <= cs@.len(),
            i <= end,
            r@ == cs@.take(i as int),
        decreases end - i,
    {
        r.push(cs[i]);
        i = i + 1;
        assert(r@ =~= cs@.take(i as int));
    }
    assert(cs@.take(end as int) == r@);
    r
}

} // verus!
