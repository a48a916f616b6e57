//! Searching and trimming of byte strings and of text, and the two
//! operations on text that are left to the standard library: the case
//! mappings of Unicode.
//!
//! Mail is searched as bytes throughout. Every pattern looked for is ASCII, so
//! a match never falls inside a multi-byte character of UTF-8 text.

use vstd::prelude::*;
use vstd::std_specs::iter::IteratorSpec;
use vstd::string::*;
use vstd::utf8::{
    decode_utf8, encode_utf8, encode_utf8_decode_utf8, encode_utf8_valid_utf8, is_ascii_chars,
    is_ascii_chars_encode_utf8, is_char_boundary, is_char_boundary_iff_not_is_continuation_byte,
    is_char_boundary_start_end_of_seq, valid_utf8, valid_utf8_split,
};

verus! {

/// The bytes of a text: its UTF-8 encoding.
pub open spec fn text(s: Seq<char>) -> Seq<u8> {
    encode_utf8(s)
}

/// The text that `b` is the UTF-8 encoding of.
pub open spec fn chars_of(b: Seq<u8>) -> Seq<char> {
    decode_utf8(b)
}

/// The beginning of `s` up to the byte at `end`, which holds an ASCII character.
pub(crate) fn str_until(s: &str, end: usize) -> (r: &str)
    requires
        end < text(s@).len(),
        text(s@)[end as int] < 128,
    ensures
        text(r@) == text(s@).take(end as int),
        r@ == chars_of(text(s@).take(end as int)),
{
    proof {
        encode_utf8_valid_utf8(s@);
        is_char_boundary_iff_not_is_continuation_byte(s.spec_bytes(), end as int);
    }
    let (head, _) = s.split_at(end);
    proof {
        encode_utf8_decode_utf8(head@);
    }
    head
}

/// In UTF-8 text a character begins behind every ASCII character.
pub proof fn lemma_boundary_after_ascii(b: Seq<u8>, i: int)
    requires
        valid_utf8(b),
        0 <= i < b.len(),
        b[i] < 128,
    ensures
        is_char_boundary(b, i + 1),
{
    is_char_boundary_iff_not_is_continuation_byte(b, i);
    valid_utf8_split(b, i);
    let tail = b.subrange(i, b.len() as int);
    assert(tail[0] == b[i]);
    if i + 1 == b.len() {
        is_char_boundary_start_end_of_seq(b);
    } else {
        let rest = tail.subrange(1, tail.len() as int);
        assert(valid_utf8(rest));
        assert(rest[0] == b[i + 1]);
        is_char_boundary_iff_not_is_continuation_byte(b, i + 1);
    }
}

/// The part of `s` from the byte at `start` up to the byte at `end`, where
/// both are either an end of `s` or next to an ASCII character.
pub(crate) fn str_range(s: &str, start: usize, end: usize) -> (r: &str)
    requires
        start <= end <= text(s@).len(),
        start == 0 || text(s@)[start - 1] < 128,
        end == text(s@).len() || text(s@)[end as int] < 128,
    ensures
        text(r@) == text(s@).subrange(start as int, end as int),
        r@ == chars_of(text(s@).subrange(start as int, end as int)),
{
    let ghost all = text(s@);
    proof {
        encode_utf8_valid_utf8(s@);
        if end == all.len() {
            is_char_boundary_start_end_of_seq(all);
        } else {
            is_char_boundary_iff_not_is_continuation_byte(all, end as int);
        }
    }
    let (head, _) = s.split_at(end);
    proof {
        encode_utf8_valid_utf8(head@);
        assert(text(head@) == all.subrange(0, end as int));
        if start == 0 {
        } else {
            assert(text(head@)[start - 1] == all[start - 1]);
            lemma_boundary_after_ascii(text(head@), start - 1);
        }
    }
    let (_, tail) = head.split_at(start);
    assert(text(tail@) =~= all.subrange(start as int, end as int));
    proof {
        encode_utf8_decode_utf8(tail@);
    }
    tail
}

/// The bytes of two texts in a row are the bytes of the one and then of the other.
pub proof fn lemma_text_concat(a: Seq<char>, b: Seq<char>)
    ensures
        text(a + b) == text(a) + text(b),
    decreases a.len(),
{
    if a.len() == 0 {
        assert(a + b =~= b);
        assert(text(a) + text(b) =~= text(b));
    } else {
        assert((a + b)[0] == a[0]);
        assert((a + b).drop_first() =~= a.drop_first() + b);
        lemma_text_concat(a.drop_first(), b);
        assert(text(a + b) =~= text(a) + text(b));
    }
}

/// The bytes of a text of ASCII characters are its characters.
pub proof fn lemma_ascii_text(s: Seq<char>)
    requires
        is_ascii_chars(s),
    ensures
        text(s).len() == s.len(),
        forall|i: int| 0 <= i < s.len() ==> #[trigger] text(s)[i] == s[i] as u8,
{
    is_ascii_chars_encode_utf8(s);
}

/// The bytes of a string.
pub fn bytes(s: &String) -> (r: &[u8])
    ensures
        r@ == text(s@),
{
    s.as_str().as_bytes()
}

/// The lower case form of a text, by the case mapping of Unicode.
pub uninterp spec fn lowercased(s: Seq<char>) -> Seq<char>;

/// The upper case form of a text, by the case mapping of Unicode.
pub uninterp spec fn uppercased(s: Seq<char>) -> Seq<char>;

/// `str::to_lowercase` of the standard library. The result depends on the
/// text alone; the contract only gives it its name.
#[verifier::external_body]
pub(crate) fn to_lowercase(s: &str) -> (r: String)
    ensures
        r@ == lowercased(s@),
{
    s.to_lowercase()
}

/// `str::to_uppercase` of the standard library. The result depends on the
/// text alone; the contract only gives it its name.
#[verifier::external_body]
pub(crate) fn to_uppercase(s: &str) -> (r: String)
    ensures
        r@ == uppercased(s@),
{
    s.to_uppercase()
}

/// White space as Unicode defines it: the characters with the property
/// `White_Space`.
pub open spec fn is_white_space(c: char) -> bool {
    let u = c as u32;
    (0x09 <= u <= 0x0D) || u == 0x20 || u == 0x85 || u == 0xA0 || u == 0x1680 || (0x2000 <= u
        <= 0x200A) || u == 0x2028 || u == 0x2029 || u == 0x202F || u == 0x205F || u == 0x3000
}

/// `s` without leading white space.
pub open spec fn trim_chars_start(s: Seq<char>) -> Seq<char>
    decreases s.len(),
{
    if s.len() > 0 && is_white_space(s[0]) {
        trim_chars_start(s.skip(1))
    } else {
        s
    }
}

/// `s` without trailing white space.
pub open spec fn trim_chars_end(s: Seq<char>) -> Seq<char>
    decreases s.len(),
{
    if s.len() > 0 && is_white_space(s[s.len() - 1]) {
        trim_chars_end(s.take(s.len() - 1))
    } else {
        s
    }
}

/// `s` without white space at either end.
pub open spec fn trim_chars(s: Seq<char>) -> Seq<char> {
    trim_chars_end(trim_chars_start(s))
}

/// Whether `c` is white space as Unicode defines it.
pub fn is_whitespace(c: char) -> (r: bool)
    ensures
        r == is_white_space(c),
{
    let u = c as u32;
    (0x09 <= u && u <= 0x0D) || u == 0x20 || u == 0x85 || u == 0xA0 || u == 0x1680 || (0x2000 <= u
        && u <= 0x200A) || u == 0x2028 || u == 0x2029 || u == 0x202F || u == 0x205F || u == 0x3000
}

/// A text that begins with `from` characters of white space, and with no more,
/// is without them what it is without its leading white space.
proof fn lemma_trim_chars_start(s: Seq<char>, from: int)
    requires
        0 <= from <= s.len(),
        forall|i: int| 0 <= i < from ==> is_white_space(s[i]),
        from == s.len() || !is_white_space(s[from]),
    ensures
        trim_chars_start(s) == s.skip(from),
    decreases from,
{
    if from == 0 {
        assert(s.skip(0) =~= s);
    } else {
        lemma_trim_chars_start(s.skip(1), from - 1);
        assert(s.skip(1).skip(from - 1) =~= s.skip(from));
    }
}

/// A text that ends with white space from `to` on, and with no more, is up to
/// `to` what it is without its trailing white space.
proof fn lemma_trim_chars_end(s: Seq<char>, to: int)
    requires
        0 <= to <= s.len(),
        forall|i: int| to <= i < s.len() ==> is_white_space(s[i]),
        to == 0 || !is_white_space(s[to - 1]),
    ensures
        trim_chars_end(s) == s.take(to),
    decreases s.len() - to,
{
    if to == s.len() {
        assert(s.take(to) =~= s);
    } else {
        let init = s.take(s.len() - 1);
        lemma_trim_chars_end(init, to);
        assert(init.take(to) =~= s.take(to));
    }
}

/// `s` without white space, as Unicode defines it, at either end.
pub fn trim_str(s: &str) -> (r: &str)
    ensures
        r@ == trim_chars(s@),
{
    let n = s.unicode_len();
    let mut chars = s.chars();
    let mut read: usize = 0;
    // How many characters of white space the text begins with, and where its
    // last character that is no white space ends.
    let mut from: usize = 0;
    let mut to: usize = 0;
    assert(s@.skip(0) =~= s@);
    loop
        invariant_except_break
            chars.remaining() == s@.skip(read as int),
        invariant
            n == s@.len(),
            read <= n,
            chars.obeys_prophetic_iter_laws(),
            from <= read,
            to <= read,
            from <= to || to == 0,
            forall|i: int| 0 <= i < from ==> is_white_space(s@[i]),
            forall|i: int| to <= i < read ==> is_white_space(s@[i]),
            to == 0 || !is_white_space(s@[to - 1]),
            to == 0 ==> from == read,
            to > 0 ==> from < to && !is_white_space(s@[from as int]),
        ensures
            read == n,
        decreases n - read,
    {
        let ghost before = chars.remaining();
        match chars.next() {
            None => {
                assert(before.len() == 0);
                break ;
            },
            Some(c) => {
                assert(before.len() > 0);
                assert(c == s@[read as int]) by {
                    assert(s@.skip(read as int)[0] == s@[read as int]);
                }
                assert(s@.skip(read as int).drop_first() =~= s@.skip(read + 1));
                if is_whitespace(c) {
                    if to == 0 {
                        from = read + 1;
                    }
                } else {
                    to = read + 1;
                }
                read = read + 1;
            },
        }
    }
    proof {
        if to == 0 {
            lemma_trim_chars_start(s@, n as int);
            assert(s@.skip(n as int) =~= Seq::<char>::empty());
        } else {
            lemma_trim_chars_start(s@, from as int);
            let rest = s@.skip(from as int);
            lemma_trim_chars_end(rest, to - from);
            assert(rest.take(to - from) =~= s@.subrange(from as int, to as int));
        }
    }
    if to == 0 {
        let r = s.substring_char(n, n);
        assert(r@ =~= Seq::<char>::empty());
        r
    } else {
        s.substring_char(from, to)
    }
}

/// `pat` stands in `s` at position `i`.
pub open spec fn occurs_at(s: Seq<u8>, pat: Seq<u8>, i: int) -> bool {
    0 <= i && i + pat.len() <= s.len() && s.subrange(i, i + pat.len()) == pat
}

/// `i` is the leftmost position at which `pat` stands in `s`.
pub open spec fn is_first_occurrence(s: Seq<u8>, pat: Seq<u8>, i: int) -> bool {
    occurs_at(s, pat, i) && forall|j: int| 0 <= j < i ==> !occurs_at(s, pat, j)
}

/// The leftmost position at which `pat` stands in `s`, if there is one.
pub open spec fn first_occurrence(s: Seq<u8>, pat: Seq<u8>) -> Option<int> {
    if exists|i: int| occurs_at(s, pat, i) {
        Some(choose|i: int| is_first_occurrence(s, pat, i))
    } else {
        None
    }
}

/// `s` up to the end of the leftmost `pat` in it; all of `s` where there is none.
pub open spec fn through_first(s: Seq<u8>, pat: Seq<u8>) -> Seq<u8> {
    match first_occurrence(s, pat) {
        Some(i) => s.take(i + pat.len()),
        None => s,
    }
}

/// `s` without every leading repetition of `pat`.
pub open spec fn strip_leading(s: Seq<u8>, pat: Seq<u8>) -> Seq<u8>
    decreases s.len(),
{
    if pat.len() > 0 && pat.is_prefix_of(s) {
        strip_leading(s.skip(pat.len() as int), pat)
    } else {
        s
    }
}

/// `s` without every trailing repetition of `pat`.
pub open spec fn strip_trailing(s: Seq<u8>, pat: Seq<u8>) -> Seq<u8>
    decreases s.len(),
{
    if pat.len() > 0 && pat.is_suffix_of(s) {
        strip_trailing(s.take(s.len() - pat.len()), pat)
    } else {
        s
    }
}

/// Carriage return and line feed: the end of a line.
pub open spec fn crlf() -> Seq<u8> {
    text("\r\n"@)
}

/// The two bytes of a line end.
pub proof fn lemma_crlf()
    ensures
        crlf() == seq![13u8, 10u8],
{
    reveal_strlit("\r\n");
    let chars = "\r\n"@;
    assert(is_ascii_chars(chars));
    is_ascii_chars_encode_utf8(chars);
    assert(crlf() =~= seq![13u8, 10u8]);
}

/// Carriage return or line feed.
pub open spec fn is_line_break(b: u8) -> bool {
    b == 13 || b == 10
}

/// `s` without its line breaks.
pub open spec fn strip_line_breaks(s: Seq<u8>) -> Seq<u8> {
    s.filter(|b: u8| !is_line_break(b))
}

/// ASCII white space: tab, line feed, vertical tab, form feed, carriage
/// return and space.
pub open spec fn is_ascii_space(b: u8) -> bool {
    (9 <= b <= 13) || b == 32
}

/// `s` without leading ASCII white space.
pub open spec fn trim_start(s: Seq<u8>) -> Seq<u8>
    decreases s.len(),
{
    if s.len() > 0 && is_ascii_space(s[0]) {
        trim_start(s.skip(1))
    } else {
        s
    }
}

/// `s` without trailing ASCII white space.
pub open spec fn trim_end(s: Seq<u8>) -> Seq<u8>
    decreases s.len(),
{
    if s.len() > 0 && is_ascii_space(s[s.len() - 1]) {
        trim_end(s.take(s.len() - 1))
    } else {
        s
    }
}

/// `s` without ASCII white space at either end.
pub open spec fn trim(s: Seq<u8>) -> Seq<u8> {
    trim_end(trim_start(s))
}

/// The lower case form of an ASCII letter; any other byte unchanged.
pub open spec fn lower(b: u8) -> u8 {
    if 65 <= b <= 90 {
        (b + 32) as u8
    } else {
        b
    }
}

/// `s` with its ASCII letters in lower case.
pub open spec fn lowercase(s: Seq<u8>) -> Seq<u8> {
    s.map_values(|b: u8| lower(b))
}

/// Equality of byte strings up to the case of ASCII letters.
pub open spec fn eq_ignore_case(a: Seq<u8>, b: Seq<u8>) -> bool {
    lowercase(a) == lowercase(b)
}

/// Whether two byte strings are equal.
pub fn bytes_eq(a: &[u8], b: &[u8]) -> (r: bool)
    ensures
        r == (a@ == b@),
{
    if a.len() != b.len() {
        return false;
    }
    let mut i: usize = 0;
    while i < a.len()
        invariant
            a@.len() == b@.len(),
            i <= a@.len(),
            a@.take(i as int) == b@.take(i as int),
        decreases a@.len() - i,
    {
        if a[i] != b[i] {
            return false;
        }
        i += 1;
        assert(a@.take(i as int) =~= a@.take(i - 1).push(a@[i - 1]));
        assert(b@.take(i as int) =~= b@.take(i - 1).push(b@[i - 1]));
    }
    assert(a@ =~= a@.take(i as int));
    assert(b@ =~= b@.take(i as int));
    true
}

/// Whether two texts are equal.
pub fn str_eq(a: &str, b: &str) -> (r: bool)
    ensures
        r == (a@ == b@),
{
    proof {
        encode_utf8_decode_utf8(a@);
        encode_utf8_decode_utf8(b@);
    }
    bytes_eq(a.as_bytes(), b.as_bytes())
}

/// Whether `s` begins with `pat`.
pub fn starts_with(s: &[u8], pat: &[u8]) -> (r: bool)
    ensures
        r == pat@.is_prefix_of(s@),
{
    if pat.len() > s.len() {
        return false;
    }
    bytes_eq(&s[0..pat.len()], pat)
}

/// Whether `s` ends with `pat`.
pub fn ends_with(s: &[u8], pat: &[u8]) -> (r: bool)
    ensures
        r == pat@.is_suffix_of(s@),
{
    if pat.len() > s.len() {
        return false;
    }
    bytes_eq(&s[s.len() - pat.len()..s.len()], pat)
}

/// The leftmost position at which `pat` stands in `s`.
pub fn find(s: &[u8], pat: &[u8]) -> (r: Option<usize>)
    ensures
        r matches Some(i) ==> is_first_occurrence(s@, pat@, i as int),
        r is None ==> forall|j: int| !occurs_at(s@, pat@, j),
        match r {
            Some(i) => first_occurrence(s@, pat@) == Some(i as int),
            None => first_occurrence(s@, pat@) is None,
        },
{
    if pat.len() > s.len() {
        return None;
    }
    let last: usize = s.len() - pat.len();
    let mut i: usize = 0;
    loop
        invariant
            pat@.len() <= s@.len() <= usize::MAX,
            last == s@.len() - pat@.len(),
            i <= last,
            forall|j: int| 0 <= j < i ==> !occurs_at(s@, pat@, j),
        decreases last - i,
    {
        if bytes_eq(&s[i..i + pat.len()], pat) {
            assert(is_first_occurrence(s@, pat@, i as int));
            return Some(i);
        }
        if i == last {
            return None;
        }
        i += 1;
    }
}

/// The rightmost position at which the byte `b` stands in `s`.
pub fn rfind_byte(s: &[u8], b: u8) -> (r: Option<usize>)
    ensures
        match r {
            Some(i) => i < s@.len() && s@.index_of_last(b) == Some(i as int),
            None => s@.index_of_last(b) is None,
        },
{
    proof {
        s@.index_of_last_ensures(b);
    }
    let mut i: usize = s.len();
    while i > 0
        invariant
            i <= s@.len(),
            forall|j: int| i <= j < s@.len() ==> s@[j] != b,
        decreases i,
    {
        i -= 1;
        if s[i] == b {
            proof {
                s@.index_of_last_ensures(b);
            }
            return Some(i);
        }
    }
    None
}

/// Whether the byte `b` stands anywhere in `s`.
pub fn contains_byte(s: &[u8], b: u8) -> (r: bool)
    ensures
        r == s@.contains(b),
{
    proof {
        s@.index_of_last_ensures(b);
    }
    rfind_byte(s, b).is_some()
}

/// How often the byte `b` stands in `s`.
pub open spec fn count(s: Seq<u8>, b: u8) -> nat
    decreases s.len(),
{
    if s.len() == 0 {
        0
    } else if s.last() == b {
        count(s.drop_last(), b) + 1
    } else {
        count(s.drop_last(), b)
    }
}

/// How often the byte `b` stands in `s`.
pub fn count_byte(s: &[u8], b: u8) -> (r: usize)
    ensures
        r == count(s@, b),
{
    let mut found: usize = 0;
    let mut i: usize = 0;
    while i < s.len()
        invariant
            i <= s@.len(),
            found <= i,
            found == count(s@.take(i as int), b),
        decreases s@.len() - i,
    {
        assert(s@.take(i + 1).drop_last() =~= s@.take(i as int));
        if s[i] == b {
            found += 1;
        }
        i += 1;
    }
    assert(s@.take(i as int) =~= s@);
    found
}

/// What one more element adds to the filtered beginning of a sequence.
pub proof fn lemma_filter_step(s: Seq<u8>, pred: spec_fn(u8) -> bool, i: int)
    requires
        0 <= i < s.len(),
    ensures
        s.take(i + 1).filter(pred) == if pred(s[i]) {
            s.take(i).filter(pred).push(s[i])
        } else {
            s.take(i).filter(pred)
        },
{
    reveal(Seq::filter);
    assert(s.take(i + 1).drop_last() =~= s.take(i));
}

/// `s` without its line breaks.
pub fn without_line_breaks(s: &[u8]) -> (r: Vec<u8>)
    ensures
        r@ == strip_line_breaks(s@),
{
    let mut out: Vec<u8> = Vec::new();
    let mut i: usize = 0;
    while i < s.len()
        invariant
            i <= s@.len(),
            out@ == s@.take(i as int).filter(|b: u8| !is_line_break(b)),
        decreases s@.len() - i,
    {
        proof {
            lemma_filter_step(s@, |b: u8| !is_line_break(b), i as int);
        }
        let b = s[i];
        if b != 13 && b != 10 {
            out.push(b);
        }
        i += 1;
    }
    assert(s@.take(i as int) =~= s@);
    out
}

/// `s` without every leading repetition of `pat`.
pub fn skip_leading<'a>(s: &'a [u8], pat: &[u8]) -> (r: &'a [u8])
    ensures
        r@ == strip_leading(s@, pat@),
{
    if pat.len() == 0 {
        return s;
    }
    let mut start: usize = 0;
    assert(s@.skip(0) =~= s@);
    while s.len() - start >= pat.len() && bytes_eq(&s[start..start + pat.len()], pat)
        invariant
            pat@.len() > 0,
            start <= s@.len(),
            strip_leading(s@, pat@) == strip_leading(s@.skip(start as int), pat@),
        decreases s@.len() - start,
    {
        assert(s@.skip(start as int).subrange(0, pat@.len() as int) =~= s@.subrange(
            start as int,
            start + pat@.len(),
        ));
        assert(s@.skip(start as int).skip(pat@.len() as int) =~= s@.skip(start + pat@.len()));
        start += pat.len();
    }
    proof {
        if s@.len() - start >= pat@.len() {
            assert(s@.skip(start as int).subrange(0, pat@.len() as int) =~= s@.subrange(
                start as int,
                start + pat@.len(),
            ));
        }
    }
    &s[start..s.len()]
}

/// `s` without every trailing repetition of `pat`.
pub fn skip_trailing<'a>(s: &'a [u8], pat: &[u8]) -> (r: &'a [u8])
    ensures
        r@ == strip_trailing(s@, pat@),
{
    if pat.len() == 0 {
        return s;
    }
    let mut end: usize = s.len();
    assert(s@.take(s@.len() as int) =~= s@);
    while end >= pat.len() && bytes_eq(&s[end - pat.len()..end], pat)
        invariant
            pat@.len() > 0,
            end <= s@.len(),
            strip_trailing(s@, pat@) == strip_trailing(s@.take(end as int), pat@),
        decreases end,
    {
        assert(s@.take(end as int).subrange(end - pat@.len(), end as int) =~= s@.subrange(
            end - pat@.len(),
            end as int,
        ));
        assert(s@.take(end as int).take(end - pat@.len()) =~= s@.take(end - pat@.len()));
        end -= pat.len();
    }
    proof {
        assert(s@.take(s@.len() as int) =~= s@);
        if end >= pat@.len() {
            assert(s@.take(end as int).subrange(end - pat@.len(), end as int) =~= s@.subrange(
                end - pat@.len(),
                end as int,
            ));
        }
    }
    &s[0..end]
}

/// Whether `b` is ASCII white space.
pub fn is_space(b: u8) -> (r: bool)
    ensures
        r == is_ascii_space(b),
{
    (b >= 9 && b <= 13) || b == 32
}

/// `s` without ASCII white space at either end.
pub fn trimmed(s: &[u8]) -> (r: &[u8])
    ensures
        r@ == trim(s@),
{
    let mut start: usize = 0;
    assert(s@.skip(0) =~= s@);
    while start < s.len() && is_space(s[start])
        invariant
            start <= s@.len(),
            trim_start(s@) == trim_start(s@.skip(start as int)),
        decreases s@.len() - start,
    {
        assert(s@.skip(start as int).skip(1) =~= s@.skip(start + 1));
        start += 1;
    }
    let rest = &s[start..s.len()];
    assert(rest@ =~= s@.skip(start as int));
    let mut end: usize = rest.len();
    assert(rest@.take(rest@.len() as int) =~= rest@);
    while end > 0 && is_space(rest[end - 1])
        invariant
            end <= rest@.len(),
            trim_end(rest@) == trim_end(rest@.take(end as int)),
        decreases end,
    {
        assert(rest@.take(end as int).take(end - 1) =~= rest@.take(end - 1));
        end -= 1;
    }
    proof {
        assert(rest@.take(rest@.len() as int) =~= rest@);
    }
    &rest[0..end]
}

/// The lower case form of an ASCII letter; any other byte unchanged.
pub fn to_lower(b: u8) -> (r: u8)
    ensures
        r == lower(b),
{
    if b >= 65 && b <= 90 {
        b + 32
    } else {
        b
    }
}

/// Whether two byte strings are equal up to the case of ASCII letters.
pub fn eq_ignore_ascii_case(a: &[u8], b: &[u8]) -> (r: bool)
    ensures
        r == eq_ignore_case(a@, b@),
{
    if a.len() != b.len() {
        assert(lowercase(a@).len() != lowercase(b@).len());
        return false;
    }
    let mut i: usize = 0;
    while i < a.len()
        invariant
            a@.len() == b@.len(),
            i <= a@.len(),
            forall|j: int| 0 <= j < i ==> lower(a@[j]) == lower(b@[j]),
        decreases a@.len() - i,
    {
        if to_lower(a[i]) != to_lower(b[i]) {
            assert(lowercase(a@)[i as int] != lowercase(b@)[i as int]);
            return false;
        }
        i += 1;
    }
    assert(lowercase(a@) =~= lowercase(b@));
    true
}

} // verus!
