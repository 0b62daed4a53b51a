//! Text as bytes: classes of bytes, checked slicing, and small builders.

use vstd::prelude::*;
use vstd::string::StringExecFns;
use vstd::string::StringSliceAdditionalSpecFns;
use vstd::utf8::decode_utf8;
use vstd::utf8::is_char_boundary;
use vstd::utf8::valid_utf8;

verus! {

/// `b` is one of `0` to `9`.
pub open spec fn is_digit(b: u8) -> bool {
    0x30 <= b <= 0x39
}

/// `b` is an ASCII letter.
pub open spec fn is_alpha(b: u8) -> bool {
    (0x41 <= b <= 0x5a) || (0x61 <= b <= 0x7a)
}

/// `b` is an ASCII letter or digit.
pub open spec fn is_alnum(b: u8) -> bool {
    is_digit(b) || is_alpha(b)
}

/// `b` continues a character that began at an earlier byte.
pub open spec fn is_continuation(b: u8) -> bool {
    0x80 <= b <= 0xbf
}

pub fn byte_is_digit(b: u8) -> (r: bool)
    ensures
        r == is_digit(b),
{
    0x30 <= b && b <= 0x39
}

pub fn byte_is_alpha(b: u8) -> (r: bool)
    ensures
        r == is_alpha(b),
{
    (0x41 <= b && b <= 0x5a) || (0x61 <= b && b <= 0x7a)
}

pub fn byte_is_alnum(b: u8) -> (r: bool)
    ensures
        r == is_alnum(b),
{
    byte_is_digit(b) || byte_is_alpha(b)
}

pub fn byte_is_continuation(b: u8) -> (r: bool)
    ensures
        r == is_continuation(b),
{
    0x80 <= b && b <= 0xbf
}

/// The range `start..end` can be cut out of a text with the bytes `bytes`:
/// it lies inside the text and both ends fall between characters.
pub open spec fn can_slice(bytes: Seq<u8>, start: int, end: int) -> bool {
    &&& 0 <= start <= end <= bytes.len()
    &&& is_char_boundary(bytes, start)
    &&& is_char_boundary(bytes, end)
}

/// The characters that the bytes `start..end` of a text encode.
pub open spec fn chars_of(bytes: Seq<u8>, start: int, end: int) -> Seq<char> {
    decode_utf8(bytes.subrange(start, end))
}

/// A position between two characters of a text is also one of every prefix
/// of the text that reaches it.
pub proof fn lemma_boundary_in_prefix(bytes: Seq<u8>, start: int, end: int)
    requires
        valid_utf8(bytes),
        can_slice(bytes, start, end),
    ensures
        valid_utf8(bytes.subrange(0, end)),
        is_char_boundary(bytes.subrange(0, end), start),
{
    vstd::utf8::valid_utf8_split(bytes, end);
    let head = bytes.subrange(0, end);
    if start == end {
        vstd::utf8::is_char_boundary_start_end_of_seq(head);
    } else {
        vstd::utf8::is_char_boundary_iff_not_is_continuation_byte(bytes, start);
        vstd::utf8::is_char_boundary_iff_not_is_continuation_byte(head, start);
    }
}

/// The part `start..end` of `s`, or `None` where that range cannot be cut
/// out of `s`.
pub fn slice<'a>(s: &'a str, start: usize, end: usize) -> (r: Option<&'a str>)
    ensures
        r is Some <==> can_slice(s.spec_bytes(), start as int, end as int),
        r matches Some(p) ==> {
            &&& p.spec_bytes() == s.spec_bytes().subrange(start as int, end as int)
            &&& p@ == chars_of(s.spec_bytes(), start as int, end as int)
        },
{
    proof {
        vstd::utf8::encode_utf8_valid_utf8(s@);
    }
    let len = s.as_bytes().len();
    if start <= end && end <= len && s.is_char_boundary(start) && s.is_char_boundary(end) {
        proof {
            lemma_boundary_in_prefix(s.spec_bytes(), start as int, end as int);
        }
        let (head, _) = s.split_at(end);
        let (_, part) = head.split_at(start);
        proof {
            assert(part.spec_bytes() =~= s.spec_bytes().subrange(start as int, end as int));
            vstd::utf8::encode_utf8_decode_utf8(part@);
        }
        Some(part)
    } else {
        None
    }
}

/// The decimal digit `d` as a character.
pub open spec fn digit_char(d: int) -> char {
    if d == 0 {
        '0'
    } else if d == 1 {
        '1'
    } else if d == 2 {
        '2'
    } else if d == 3 {
        '3'
    } else if d == 4 {
        '4'
    } else if d == 5 {
        '5'
    } else if d == 6 {
        '6'
    } else if d == 7 {
        '7'
    } else if d == 8 {
        '8'
    } else {
        '9'
    }
}

/// The decimal numeral of a natural number, without leading zeros.
pub open spec fn decimal(n: nat) -> Seq<char>
    decreases n,
{
    if n < 10 {
        seq![digit_char(n as int)]
    } else {
        decimal(n / 10).push(digit_char((n % 10) as int))
    }
}

/// The decimal numeral of an integer: a minus sign before the numeral of a
/// negative one.
pub open spec fn signed_decimal(i: int) -> Seq<char> {
    if i < 0 {
        seq!['-'] + decimal((-i) as nat)
    } else {
        decimal(i as nat)
    }
}

/// `count` copies of the character `c`.
pub open spec fn repeated(c: char, count: nat) -> Seq<char> {
    Seq::new(count, |i: int| c)
}

fn digit_str(d: u8) -> (r: &'static str)
    requires
        d < 10,
    ensures
        r@ == seq![digit_char(d as int)],
{
    proof {
        reveal_strlit("0");
        reveal_strlit("1");
        reveal_strlit("2");
        reveal_strlit("3");
        reveal_strlit("4");
        reveal_strlit("5");
        reveal_strlit("6");
        reveal_strlit("7");
        reveal_strlit("8");
        reveal_strlit("9");
    }
    let r = if d == 0 {
        "0"
    } else if d == 1 {
        "1"
    } else if d == 2 {
        "2"
    } else if d == 3 {
        "3"
    } else if d == 4 {
        "4"
    } else if d == 5 {
        "5"
    } else if d == 6 {
        "6"
    } else if d == 7 {
        "7"
    } else if d == 8 {
        "8"
    } else {
        "9"
    };
    assert(r@ =~= seq![digit_char(d as int)]);
    r
}

/// Appends the decimal numeral of `n` to `out`.
pub fn push_decimal(out: &mut String, n: u64)
    ensures
        final(out)@ == old(out)@ + decimal(n as nat),
    decreases n,
{
    if n >= 10 {
        push_decimal(out, n / 10);
    }
    let d = digit_str((n % 10) as u8);
    out.append(d);
    proof {
        if n >= 10 {
            assert(final(out)@ =~= old(out)@ + decimal(n as nat));
        } else {
            assert(final(out)@ =~= old(out)@ + decimal(n as nat));
        }
    }
}

/// Appends the decimal numeral of `i` to `out`.
pub fn push_signed_decimal(out: &mut String, i: i64)
    ensures
        final(out)@ == old(out)@ + signed_decimal(i as int),
{
    if i < 0 {
        proof {
            reveal_strlit("-");
        }
        out.append("-");
        let magnitude: u64 = if i == i64::MIN {
            9223372036854775808u64
        } else {
            (-i) as u64
        };
        push_decimal(out, magnitude);
        assert(final(out)@ =~= old(out)@ + signed_decimal(i as int));
    } else {
        push_decimal(out, i as u64);
    }
}

/// Appends `count` copies of the one-character text `unit` to `out`.
pub fn push_repeated(out: &mut String, unit: &str, count: usize)
    requires
        unit@.len() == 1,
    ensures
        final(out)@ == old(out)@ + repeated(unit@[0], count as nat),
{
    let mut i: usize = 0;
    while i < count
        invariant
            i <= count,
            unit@.len() == 1,
            out@ == old(out)@ + repeated(unit@[0], i as nat),
        decreases count - i,
    {
        out.append(unit);
        i = i + 1;
        assert(out@ =~= old(out)@ + repeated(unit@[0], i as nat));
    }
}

/// `a` comes before `b` in the order of texts, compared from the byte at
/// `i` on: at the first byte in which they differ `a` has the smaller one,
/// or `a` ends there and `b` goes on.
pub open spec fn lex_lt_from(a: Seq<u8>, b: Seq<u8>, i: int) -> bool
    decreases a.len() - i,
{
    if i >= b.len() {
        false
    } else if i >= a.len() {
        true
    } else if a[i] != b[i] {
        a[i] < b[i]
    } else {
        lex_lt_from(a, b, i + 1)
    }
}

/// `a` comes before `b` in the lexicographic order of byte sequences, which
/// is the order of texts.
pub open spec fn lex_lt(a: Seq<u8>, b: Seq<u8>) -> bool {
    lex_lt_from(a, b, 0)
}

/// `q` is a prefix of `k`.
pub open spec fn is_prefix(q: Seq<u8>, k: Seq<u8>) -> bool {
    q.len() <= k.len() && k.subrange(0, q.len() as int) == q
}

pub proof fn lemma_lex_irreflexive(a: Seq<u8>, i: int)
    requires
        0 <= i,
    ensures
        !lex_lt_from(a, a, i),
    decreases a.len() - i,
{
    if i < a.len() {
        lemma_lex_irreflexive(a, i + 1);
    }
}

pub proof fn lemma_lex_transitive(a: Seq<u8>, b: Seq<u8>, c: Seq<u8>, i: int)
    requires
        0 <= i,
        lex_lt_from(a, b, i),
        lex_lt_from(b, c, i),
    ensures
        lex_lt_from(a, c, i),
    decreases a.len() - i,
{
    if i < a.len() && i < b.len() && i < c.len() && a[i] == b[i] && b[i] == c[i] {
        lemma_lex_transitive(a, b, c, i + 1);
    }
}

/// Two texts that agree before `i` are equal, or one comes before the other.
pub proof fn lemma_lex_total(a: Seq<u8>, b: Seq<u8>, i: int)
    requires
        0 <= i <= a.len(),
        i <= b.len(),
        forall|j: int| 0 <= j < i ==> a[j] == b[j],
    ensures
        a == b || lex_lt_from(a, b, i) || lex_lt_from(b, a, i),
    decreases a.len() - i,
{
    if i < a.len() && i < b.len() {
        if a[i] == b[i] {
            lemma_lex_total(a, b, i + 1);
        }
    } else if i == a.len() && i == b.len() {
        assert(a =~= b);
    }
}

/// A text does not come before any of its prefixes.
pub proof fn lemma_prefix_not_after(q: Seq<u8>, k: Seq<u8>, i: int)
    requires
        0 <= i,
        is_prefix(q, k),
    ensures
        !lex_lt_from(k, q, i),
    decreases q.len() - i,
{
    if i < q.len() {
        assert(k.subrange(0, q.len() as int)[i] == k[i]);
        lemma_prefix_not_after(q, k, i + 1);
    }
}

/// The texts with a given prefix lie together in the order: a text that does
/// not come before the prefix and comes before a text with the prefix has
/// the prefix too.
pub proof fn lemma_prefix_between(q: Seq<u8>, b: Seq<u8>, c: Seq<u8>, i: int)
    requires
        0 <= i <= q.len(),
        i <= b.len(),
        forall|j: int| 0 <= j < i ==> q[j] == b[j],
        !lex_lt_from(b, q, i),
        lex_lt_from(b, c, i),
        is_prefix(q, c),
    ensures
        is_prefix(q, b),
    decreases q.len() - i,
{
    if i < q.len() {
        assert(c.subrange(0, q.len() as int)[i] == c[i]);
        if i < b.len() && b[i] == q[i] {
            lemma_prefix_between(q, b, c, i + 1);
        }
    } else {
        assert(b.subrange(0, q.len() as int) =~= q);
    }
}

/// `a` comes before `b` in the order of texts.
pub fn bytes_lt(a: &[u8], b: &[u8]) -> (r: bool)
    ensures
        r == lex_lt(a@, b@),
{
    let mut i: usize = 0;
    while i < a.len() && i < b.len()
        invariant
            i <= a.len(),
            i <= b.len(),
            lex_lt(a@, b@) == lex_lt_from(a@, b@, i as int),
        decreases a.len() - i,
    {
        if a[i] != b[i] {
            return a[i] < b[i];
        }
        i += 1;
    }
    i < b.len()
}

/// `q` is a prefix of `k`.
pub fn bytes_start_with(k: &[u8], q: &[u8]) -> (r: bool)
    ensures
        r == is_prefix(q@, k@),
{
    if q.len() > k.len() {
        return false;
    }
    let mut i: usize = 0;
    while i < q.len()
        invariant
            i <= q.len() <= k.len(),
            forall|j: int| 0 <= j < i ==> k@[j] == q@[j],
        decreases q.len() - i,
    {
        if k[i] != q[i] {
            assert(k@.subrange(0, q@.len() as int)[i as int] != q@[i as int]);
            return false;
        }
        i += 1;
    }
    assert(k@.subrange(0, q@.len() as int) =~= q@);
    true
}

/// `a` and `b` are the same text.
pub fn str_eq(a: &str, b: &str) -> (r: bool)
    ensures
        r == (a@ == b@),
{
    let x = a.as_bytes();
    let y = b.as_bytes();
    proof {
        vstd::utf8::encode_utf8_decode_utf8(a@);
        vstd::utf8::encode_utf8_decode_utf8(b@);
        assert(x@ == vstd::utf8::encode_utf8(a@));
        assert(y@ == vstd::utf8::encode_utf8(b@));
    }
    if x.len() != y.len() {
        return false;
    }
    let mut i: usize = 0;
    while i < x.len()
        invariant
            i <= x.len(),
            x.len() == y.len(),
            a@ == b@ ==> x@ == y@,
            forall|j: int| 0 <= j < i ==> x@[j] == y@[j],
        decreases x.len() - i,
    {
        if x[i] != y[i] {
            assert(x@[i as int] != y@[i as int]);
            return false;
        }
        i += 1;
    }
    assert(x@ =~= y@);
    true
}

/// The number of bytes of the character that begins at the place `i` of a
/// text.
pub open spec fn char_len_at(bytes: Seq<u8>, i: int) -> int {
    vstd::utf8::length_of_first_scalar(bytes.subrange(i, bytes.len() as int))
}

/// Behind the character that begins at a place between characters the text
/// is again between characters; the bytes of that character after its first
/// continue it.
pub proof fn lemma_next_boundary(bytes: Seq<u8>, i: int)
    requires
        valid_utf8(bytes),
        is_char_boundary(bytes, i),
        0 <= i < bytes.len(),
    ensures
        1 <= char_len_at(bytes, i) <= 4,
        i + char_len_at(bytes, i) <= bytes.len(),
        is_char_boundary(bytes, i + char_len_at(bytes, i)),
        bytes[i] <= 0x7f ==> char_len_at(bytes, i) == 1,
        !is_continuation(bytes[i]),
        forall|j: int| i < j < i + char_len_at(bytes, i) ==> is_continuation(#[trigger] bytes[j]),
    decreases bytes.len(),
{
    reveal_with_fuel(vstd::utf8::valid_utf8, 2);
    reveal_with_fuel(vstd::utf8::is_char_boundary, 2);
    let len = bytes.len() as int;
    let tail = bytes.subrange(i, len);
    if i == 0 {
        assert(tail =~= bytes);
        let first = vstd::utf8::length_of_first_scalar(bytes);
        assert(vstd::utf8::valid_first_scalar(bytes));
        vstd::utf8::is_char_boundary_start_end_of_seq(vstd::utf8::pop_first_scalar(bytes));
    } else {
        let first = vstd::utf8::length_of_first_scalar(bytes);
        let rest = vstd::utf8::pop_first_scalar(bytes);
        assert(is_char_boundary(rest, i - first));
        assert(0 <= i - first);
        if i - first == rest.len() {
            assert(false);
        }
        lemma_next_boundary(rest, i - first);
        assert(rest.subrange(i - first, rest.len() as int) =~= tail);
        let width = char_len_at(bytes, i);
        assert(is_char_boundary(rest, i - first + width));
        assert(is_char_boundary(bytes, i + width));
        assert(rest[i - first] == bytes[i]);
        assert forall|j: int| i < j < i + width implies is_continuation(#[trigger] bytes[j]) by {
            assert(rest[j - first] == bytes[j]);
        }
    }
}

/// Behind bytes below `0x80` that follow a place between characters the
/// text is between characters.
pub proof fn lemma_boundary_after_ascii(bytes: Seq<u8>, i: int, j: int)
    requires
        valid_utf8(bytes),
        is_char_boundary(bytes, i),
        0 <= i <= j <= bytes.len(),
        forall|k: int| i <= k < j ==> #[trigger] bytes[k] <= 0x7f,
    ensures
        is_char_boundary(bytes, j),
    decreases j - i,
{
    if i < j {
        lemma_next_boundary(bytes, i);
        lemma_boundary_after_ascii(bytes, i + 1, j);
    }
}

/// The characters before a place between characters are the first of the
/// characters before any later such place, and they take as many bytes as
/// lie before the place.
pub proof fn lemma_chars_before(bytes: Seq<u8>, pos: int, end: int)
    requires
        valid_utf8(bytes),
        can_slice(bytes, 0, pos),
        can_slice(bytes, pos, end),
    ensures
        chars_of(bytes, 0, pos).len() <= chars_of(bytes, 0, end).len(),
        chars_of(bytes, 0, end).subrange(0, chars_of(bytes, 0, pos).len() as int) == chars_of(
            bytes,
            0,
            pos,
        ),
        chars_of(bytes, 0, end) == chars_of(bytes, 0, pos) + chars_of(bytes, pos, end),
        vstd::utf8::encode_utf8(chars_of(bytes, 0, pos)).len() == pos,
{
    let head = bytes.subrange(0, end);
    lemma_boundary_in_prefix(bytes, pos, end);
    vstd::utf8::decode_utf8_split(head, pos);
    assert(head.subrange(0, pos) =~= bytes.subrange(0, pos));
    assert(head.subrange(pos, head.len() as int) =~= bytes.subrange(pos, end));
    let before = chars_of(bytes, 0, pos);
    assert(chars_of(bytes, 0, end) =~= before + chars_of(bytes, pos, end));
    assert(chars_of(bytes, 0, end).subrange(0, before.len() as int) =~= before);
    vstd::utf8::valid_utf8_split(bytes, pos);
    vstd::utf8::decode_utf8_encode_utf8(bytes.subrange(0, pos));
}

/// Between two places between characters that have no such place between
/// them stands one character.
pub proof fn lemma_one_char(bytes: Seq<u8>, from: int, to: int)
    requires
        valid_utf8(bytes),
        can_slice(bytes, from, to),
        from < to,
        forall|j: int| from < j < to ==> !is_char_boundary(bytes, j),
    ensures
        chars_of(bytes, from, to).len() == 1,
{
    reveal_with_fuel(vstd::utf8::valid_utf8, 2);
    reveal_with_fuel(vstd::utf8::decode_utf8, 2);
    lemma_next_boundary(bytes, from);
    let width = char_len_at(bytes, from);
    if from + width < to {
        assert(is_char_boundary(bytes, from + width));
    }
    if from + width > to {
        assert(is_continuation(bytes[to]));
        vstd::utf8::is_char_boundary_iff_not_is_continuation_byte(bytes, to);
    }
    let piece = bytes.subrange(from, to);
    lemma_boundary_in_prefix(bytes, from, to);
    vstd::utf8::valid_utf8_split(bytes.subrange(0, to), from);
    assert(bytes.subrange(0, to).subrange(from, to) =~= piece);
    assert(piece[0] == bytes.subrange(from, bytes.len() as int)[0]);
    assert(vstd::utf8::length_of_first_scalar(piece) == width);
    assert(vstd::utf8::pop_first_scalar(piece) =~= Seq::<u8>::empty());
}

} // verus!
