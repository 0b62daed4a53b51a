//! Rendering of numbers, and the name under the cursor.

use crate::text::{
    can_slice, chars_of, lemma_chars_before, lemma_one_char, push_repeated,
    push_signed_decimal, repeated, signed_decimal, slice,
};
use std::ops::Range;
use vstd::prelude::*;
use vstd::string::StrSliceExecFns;
use vstd::string::StringExecFns;
use vstd::string::StringSliceAdditionalSpecFns;
use vstd::utf8::is_ascii_chars;

verus! {

/// Number of significant decimal digits shown for a result.
pub const DISPLAY_DIGITS: usize = 32;

/// `d` without the zeros at its end.
pub open spec fn trim_zeros(d: Seq<char>) -> Seq<char>
    decreases d.len(),
{
    if d.len() > 0 && d.last() == '0' {
        trim_zeros(d.drop_last())
    } else {
        d
    }
}

/// The digits `d` with a point after the first `i` of them. Zeros at the end
/// of the fraction are left out, and so is the point where no fraction is
/// left.
pub open spec fn spec_insert_delimeter(d: Seq<char>, i: int) -> Seq<char> {
    let whole = d.subrange(0, i);
    let fraction = trim_zeros(d.subrange(i, d.len() as int));
    if fraction.len() == 0 {
        whole
    } else {
        whole + seq!['.'] + fraction
    }
}

/// The digits `d` of a number `0.d * 10^exp`, written out for a reader who
/// asked for `count` significant digits.
///
/// - `0 < exp < count`: the point stands after `exp` digits.
/// - `exp == count`: the digits are a whole number.
/// - `-count < exp <= 0`: `0.`, then `-exp` zeros, then the digits.
/// - otherwise: the point stands after the first digit, and `e` and the
///   exponent `exp - 1` follow.
///
/// There is no such text where the point would have to stand behind the
/// last digit or there is no digit at all.
pub open spec fn spec_disp_magnitude(d: Seq<char>, exp: int, count: int) -> Option<Seq<char>> {
    if 0 < exp < count {
        if exp <= d.len() {
            Some(spec_insert_delimeter(d, exp))
        } else {
            None
        }
    } else if exp == count {
        Some(d)
    } else if -count < exp <= 0 {
        Some(seq!['0', '.'] + repeated('0', (-exp) as nat) + trim_zeros(d))
    } else if 1 <= d.len() {
        Some(spec_insert_delimeter(d, 1) + seq!['e'] + signed_decimal(exp - 1))
    } else {
        None
    }
}

/// What is shown for a number with the sign `sign`, the digits `d` and the
/// decimal exponent `exp`, asked for with `count` significant digits.
///
/// A number without an exponent (zero, an infinity, not a number) is shown
/// by its digits alone. Any other number needs digits in ASCII, and gets a
/// minus sign in front where it is negative.
pub open spec fn spec_disp_num(sign: bool, d: Seq<char>, exp: Option<i32>, count: usize) -> Option<
    Seq<char>,
> {
    match exp {
        None => Some(d),
        Some(e) => if !is_ascii_chars(d) {
            None
        } else {
            match spec_disp_magnitude(d, e as int, count as int) {
                None => None,
                Some(m) => Some(
                    if sign {
                        seq!['-'] + m
                    } else {
                        m
                    },
                ),
            }
        },
    }
}

/// The number of characters of `s` that remain when the zeros at its end
/// are left out, counted from `from` on.
fn trimmed_end(s: &str, from: usize) -> (end: usize)
    requires
        s.is_ascii(),
        from <= s@.len(),
    ensures
        from <= end <= s@.len(),
        s@.subrange(from as int, end as int) == trim_zeros(
            s@.subrange(from as int, s@.len() as int),
        ),
{
    broadcast use vstd::string::is_ascii_spec_bytes;

    let bytes = s.as_bytes();
    let mut end: usize = bytes.len();
    assert(s@.subrange(from as int, end as int) =~= s@.subrange(from as int, s@.len() as int));
    while end > from && bytes[end - 1] == 0x30
        invariant
            s.is_ascii(),
            bytes@ == s.spec_bytes(),
            from <= end <= s@.len(),
            trim_zeros(s@.subrange(from as int, end as int)) == trim_zeros(
                s@.subrange(from as int, s@.len() as int),
            ),
        decreases end,
    {
        let ghost part = s@.subrange(from as int, end as int);
        assert(part.last() == s@[end - 1]);
        assert(s@[end - 1] as u8 == 0x30);
        assert(s@[end - 1] == '0');
        assert(part.drop_last() =~= s@.subrange(from as int, end - 1));
        end -= 1;
    }
    proof {
        let part = s@.subrange(from as int, end as int);
        if end > from {
            assert(part.last() == s@[end - 1]);
            assert(s@[end - 1] as u8 != 0x30);
        }
    }
    end
}

/// The digits `str` with a point after the first `i` of them; see
/// [`spec_insert_delimeter`].
pub fn insert_delimeter(str: &str, i: usize) -> (r: String)
    requires
        str.is_ascii(),
        i <= str@.len(),
    ensures
        r@ == spec_insert_delimeter(str@, i as int),
{
    let end = trimmed_end(str, i);
    let mut out = String::from_str(str.substring_ascii(0, i));
    if end > i {
        proof {
            reveal_strlit(".");
        }
        out.append(".");
        out.append(str.substring_ascii(i, end));
        assert(out@ =~= spec_insert_delimeter(str@, i as int));
    }
    out
}

/// Writes out a number that is given by its sign, its significant digits
/// and its decimal exponent, as a multi-precision number hands them out for
/// `digits` significant digits; see [`spec_disp_num`].
pub fn disp_num(sign: bool, str: &str, exp: Option<i32>, digits: usize) -> (r: Option<String>)
    ensures
        match spec_disp_num(sign, str@, exp, digits) {
            Some(text) => r matches Some(s) && s@ == text,
            None => r is None,
        },
{
    broadcast use vstd::string::is_ascii_spec_bytes;

    let exp = match exp {
        Some(exp) => exp,
        None => {
            return Some(String::from_str(str));
        },
    };
    if !str.is_ascii() {
        return None;
    }
    let len = str.as_bytes().len();
    let mut out = String::from_str("");
    proof {
        reveal_strlit("");
        reveal_strlit("-");
        reveal_strlit("0.");
        reveal_strlit("0");
        reveal_strlit("e");
    }
    if sign {
        out.append("-");
    }
    let ghost head = out@;
    let wide = exp as i128;
    let count = digits as i128;
    if 0 < wide && wide < count {
        if exp as usize > len {
            return None;
        }
        let body = insert_delimeter(str, exp as usize);
        out.append(body.as_str());
    } else if wide == count {
        out.append(str);
    } else if -count < wide && wide <= 0 {
        out.append("0.");
        push_repeated(&mut out, "0", (-wide) as usize);
        let end = trimmed_end(str, 0);
        out.append(str.substring_ascii(0, end));
        assert(str@.subrange(0, str@.len() as int) =~= str@);
        assert(out@ =~= head + (seq!['0', '.'] + repeated('0', (-exp) as nat) + trim_zeros(str@)));
    } else {
        if len < 1 {
            return None;
        }
        let body = insert_delimeter(str, 1);
        out.append(body.as_str());
        out.append("e");
        push_signed_decimal(&mut out, exp as i64 - 1);
        assert(out@ =~= head + (spec_insert_delimeter(str@, 1) + seq!['e'] + signed_decimal(
            exp - 1,
        )));
    }
    assert(head + spec_disp_magnitude(str@, exp as int, digits as int)->0 =~= if sign {
        seq!['-'] + spec_disp_magnitude(str@, exp as int, digits as int)->0
    } else {
        spec_disp_magnitude(str@, exp as int, digits as int)->0
    });
    Some(out)
}

/// Whether `c` is a letter: the answer of `char::is_alphabetic`.
pub uninterp spec fn alphabetic(c: char) -> bool;

/// Whether `c` is a letter or a digit: the answer of `char::is_alphanumeric`.
pub uninterp spec fn alphanumeric(c: char) -> bool;

/// Asks `char::is_alphabetic` of the standard library.
///
/// Nothing is proved of the answer; it is given the name `alphabetic(c)`.
/// The answer depends on `c` alone: it is read from the tables of Unicode
/// that the standard library is built with.
#[verifier::external_body]
pub(crate) fn char_is_alphabetic(c: char) -> (r: bool)
    ensures
        r == alphabetic(c),
{
    c.is_alphabetic()
}

/// Asks `char::is_alphanumeric` of the standard library.
///
/// Nothing is proved of the answer; it is given the name `alphanumeric(c)`.
/// The standard library documents the answer as "alphabetic or numeric", so
/// it is taken to be true of every letter.
#[verifier::external_body]
pub(crate) fn char_is_alphanumeric(c: char) -> (r: bool)
    ensures
        r == alphanumeric(c),
        alphabetic(c) ==> r,
{
    c.is_alphanumeric()
}

/// Where the name begins that `chars` end with, counted in characters: at
/// the leftmost letter of the longest run of letters and digits at the end
/// of `chars`. `None` where no letter is in that run.
pub open spec fn ident_start(chars: Seq<char>) -> Option<int>
    decreases chars.len(),
{
    if chars.len() == 0 || !alphanumeric(chars.last()) {
        None
    } else {
        match ident_start(chars.drop_last()) {
            Some(start) => Some(start),
            None => if alphabetic(chars.last()) {
                Some(chars.len() - 1)
            } else {
                None
            },
        }
    }
}

/// A name begins inside the text, with a letter, and letters and digits
/// alone follow the letter.
pub proof fn lemma_ident_start_bounds(chars: Seq<char>)
    ensures
        ident_start(chars) matches Some(start) ==> {
            &&& 0 <= start < chars.len()
            &&& alphabetic(chars[start])
            &&& forall|i: int| start <= i < chars.len() ==> alphanumeric(#[trigger] chars[i])
        },
    decreases chars.len(),
{
    if chars.len() > 0 {
        lemma_ident_start_bounds(chars.drop_last());
        if let Some(start) = ident_start(chars) {
            assert forall|i: int| start <= i < chars.len() implies alphanumeric(
                #[trigger] chars[i],
            ) by {
                if i < chars.len() - 1 {
                    assert(chars.drop_last()[i] == chars[i]);
                }
            }
        }
    }
}

/// The bytes of the name that ends at the byte `ident_end` of a text with
/// the bytes `bytes`: from the first byte of the letter that the name
/// begins with to `ident_end`. `None` where `ident_end` is no place
/// between two characters of the text, or no name ends there.
pub open spec fn spec_ident_range(bytes: Seq<u8>, ident_end: int) -> Option<(int, int)> {
    if can_slice(bytes, 0, ident_end) {
        let chars = chars_of(bytes, 0, ident_end);
        match ident_start(chars) {
            Some(start) => Some(
                (vstd::utf8::encode_utf8(chars.subrange(0, start)).len() as int, ident_end),
            ),
            None => None,
        }
    } else {
        None
    }
}

/// The one of two findings that counts: the earlier one, and the later one
/// where there is no earlier one.
pub open spec fn earlier(first: Option<int>, second: Option<int>) -> Option<int> {
    match first {
        Some(start) => Some(start),
        None => second,
    }
}

/// The range of the name that ends at the byte `ident_end` of `input`.
pub fn get_ident_range(input: &str, ident_end: usize) -> (r: Option<Range<usize>>)
    ensures
        match spec_ident_range(input.spec_bytes(), ident_end as int) {
            Some((start, end)) => r matches Some(range) && range.start == start && range.end == end,
            None => r is None,
        },
        r matches Some(range) ==> {
            let chars = chars_of(input.spec_bytes(), 0, ident_end as int);
            &&& can_slice(input.spec_bytes(), range.start as int, range.end as int)
            &&& ident_start(chars) matches Some(start)
            &&& chars_of(input.spec_bytes(), 0, range.start as int) == chars.subrange(0, start)
        },
{
    let len = input.as_bytes().len();
    if ident_end > len || !input.is_char_boundary(ident_end) {
        return None;
    }
    let ghost bytes = input.spec_bytes();
    let ghost chars = chars_of(bytes, 0, ident_end as int);
    proof {
        vstd::utf8::encode_utf8_valid_utf8(input@);
        lemma_chars_before(bytes, ident_end as int, ident_end as int);
    }
    let mut last_char_index: Option<usize> = None;
    // the character that `last_char_index` is the first byte of
    let ghost mut last_char: Option<int> = None;
    let mut pos: usize = ident_end;
    let mut in_run = true;
    while in_run && pos > 0
        invariant
            vstd::utf8::valid_utf8(bytes),
            bytes == input.spec_bytes(),
            chars == chars_of(bytes, 0, ident_end as int),
            pos <= ident_end <= bytes.len(),
            can_slice(bytes, pos as int, ident_end as int),
            ident_start(chars) == if in_run {
                earlier(ident_start(chars_of(bytes, 0, pos as int)), last_char)
            } else {
                last_char
            },
            match (last_char_index, last_char) {
                (Some(b), Some(k)) => {
                    &&& pos <= b < ident_end
                    &&& 0 <= k <= chars.len()
                    &&& b == vstd::utf8::encode_utf8(chars.subrange(0, k)).len()
                    &&& vstd::utf8::is_char_boundary(bytes, b as int)
                    &&& chars_of(bytes, 0, b as int) == chars.subrange(0, k)
                },
                (None, None) => true,
                _ => false,
            },
        decreases pos,
    {
        // the character before `pos` begins at the nearest place before
        // `pos` that lies between two characters
        let mut from: usize = pos - 1;
        while !input.is_char_boundary(from)
            invariant
                vstd::utf8::valid_utf8(bytes),
                bytes == input.spec_bytes(),
                from < pos,
                forall|j: int| from < j < pos ==> !vstd::utf8::is_char_boundary(bytes, j),
            decreases from,
        {
            from -= 1;
        }
        proof {
            lemma_one_char(bytes, from as int, pos as int);
            lemma_chars_before(bytes, from as int, pos as int);
            lemma_chars_before(bytes, from as int, ident_end as int);
            lemma_chars_before(bytes, pos as int, ident_end as int);
        }
        let c = match slice(input, from, pos) {
            Some(piece) => piece.get_char(0),
            None => {
                return None;
            },
        };
        let ghost before = chars_of(bytes, 0, from as int);
        let ghost upto = chars_of(bytes, 0, pos as int);
        proof {
            assert(upto =~= before.push(c));
            assert(upto.last() == c);
            assert(upto.drop_last() =~= before);
        }
        if char_is_alphabetic(c) {
            last_char_index = Some(from);
            proof {
                last_char = Some(before.len() as int);
                assert(chars.subrange(0, before.len() as int) == before);
            }
        }
        if !char_is_alphanumeric(c) {
            in_run = false;
        }
        pos = from;
    }
    proof {
        if in_run {
            assert(chars_of(bytes, 0, 0).len() == 0) by {
                lemma_chars_before(bytes, 0, ident_end as int);
            }
        }
    }
    match last_char_index {
        Some(start) => Some(start..ident_end),
        None => None,
    }
}

/// The name at the end of `input`: from the leftmost letter of the longest
/// run of letters and digits at the end of `input` on.
pub fn get_ident_at_end<'a>(input: &'a str) -> (r: Option<&'a str>)
    ensures
        match ident_start(input@) {
            Some(start) => r matches Some(name) && name@ == input@.subrange(
                start,
                input@.len() as int,
            ),
            None => r is None,
        },
        match spec_ident_range(input.spec_bytes(), input.spec_bytes().len() as int) {
            Some((start, end)) => {
                &&& r matches Some(name)
                &&& name.spec_bytes() == input.spec_bytes().subrange(start, end)
                &&& can_slice(input.spec_bytes(), start, end)
            },
            None => r is None,
        },
{
    let ghost bytes = input.spec_bytes();
    let len = input.as_bytes().len();
    proof {
        vstd::utf8::encode_utf8_valid_utf8(input@);
        vstd::utf8::is_char_boundary_start_end_of_seq(bytes);
        vstd::utf8::encode_utf8_decode_utf8(input@);
        assert(bytes.subrange(0, len as int) =~= bytes);
        lemma_ident_start_bounds(input@);
    }
    match get_ident_range(input, len) {
        Some(range) => {
            proof {
                lemma_chars_before(bytes, range.start as int, len as int);
                let start = ident_start(input@)->0;
                assert(input@.subrange(start, input@.len() as int) =~= chars_of(
                    bytes,
                    range.start as int,
                    len as int,
                ));
            }
            slice(input, range.start, range.end)
        },
        None => None,
    }
}

} // verus!
