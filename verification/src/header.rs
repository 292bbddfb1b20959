//! Safetensors header grammar and parser.
//!
//! Not a general-purpose JSON parser. It handles exactly the structure of a
//! safetensors header: a top-level object whose keys are either tensor names
//! mapping to `{dtype, shape, data_offsets}` objects, or the special
//! `__metadata__` key (whose value is skipped).
//!
//! The grammar is given by spec functions over the header bytes `s` and a
//! position `i`. Each says what is read at `i` and where reading goes on, or
//! which error the bytes at `i` deserve.

pub mod meaning;

use vstd::prelude::*;
use vstd::utf8::{
    decode_utf8, is_char_boundary, is_char_boundary_iff_not_is_continuation_byte,
    is_char_boundary_start_end_of_seq, is_continuation_byte, length_of_first_scalar,
    pop_first_scalar, take_first_scalar, valid_first_scalar, valid_utf8, valid_utf8_concat,
    valid_utf8_split,
};
use crate::ascii::{
    BACKSLASH, BACKSPACE, CARRIAGE_RETURN, CLOSE_BRACE, CLOSE_BRACKET, COLON, COMMA, DIGIT_0,
    DIGIT_9, DOT, FORM_FEED, LOWER_A, LOWER_B, LOWER_E, LOWER_F, LOWER_L, LOWER_N, LOWER_R,
    LOWER_S, LOWER_T, LOWER_U, MINUS, NEWLINE, OPEN_BRACE, OPEN_BRACKET, PLUS, QUOTE, SLASH, SPACE,
    TAB, UPPER_A, UPPER_E, UPPER_F,
};
use crate::error::{Error, Result};
use crate::loader::{dtype_named, Dtype};
use crate::tensor::product;

verus! {

// ---------------------------------------------------------------------------
// Grammar: white space, punctuation, strings, integers
// ---------------------------------------------------------------------------

/// JSON white space.
pub open spec fn is_json_space(b: u8) -> bool {
    b == SPACE || b == TAB || b == NEWLINE || b == CARRIAGE_RETURN
}

/// An ASCII decimal digit.
pub open spec fn is_digit(b: u8) -> bool {
    DIGIT_0 <= b <= DIGIT_9
}

/// Position of the first byte at or after `i` that is not white space.
pub open spec fn space_end(s: Seq<u8>, i: int) -> int
    decreases s.len() - i,
{
    if 0 <= i < s.len() && is_json_space(s[i]) {
        space_end(s, i + 1)
    } else {
        i
    }
}

/// Whether byte `b` stands at position `i`.
pub open spec fn stands_at(s: Seq<u8>, i: int, b: u8) -> bool {
    0 <= i < s.len() && s[i] == b
}

/// The position behind byte `b`, which white space may precede.
pub open spec fn punct_end(s: Seq<u8>, i: int, b: u8) -> Result<int> {
    let j = space_end(s, i);
    if stands_at(s, j, b) {
        Ok(j + 1)
    } else {
        Err(Error::InvalidHeader("unexpected byte"))
    }
}

/// The byte that a backslash followed by `b` stands for inside a string that is
/// read. `\uXXXX` is not expected in tensor names and has no meaning there.
pub open spec fn unescaped(b: u8) -> Option<u8> {
    if b == QUOTE || b == BACKSLASH || b == SLASH {
        Some(b)
    } else if b == LOWER_N {
        Some(NEWLINE)
    } else if b == LOWER_T {
        Some(TAB)
    } else if b == LOWER_R {
        Some(CARRIAGE_RETURN)
    } else if b == LOWER_B {
        Some(BACKSPACE)
    } else if b == LOWER_F {
        Some(FORM_FEED)
    } else {
        None
    }
}

/// The rest of a string whose bytes so far, with escapes resolved, are `acc`,
/// and the position behind its closing quote.
pub open spec fn string_tail(s: Seq<u8>, i: int, acc: Seq<u8>) -> Result<(Seq<u8>, int)>
    decreases s.len() - i,
{
    if !(0 <= i < s.len()) {
        Err(Error::InvalidHeader("unterminated string"))
    } else if s[i] == QUOTE {
        Ok((acc, i + 1))
    } else if s[i] == BACKSLASH {
        if i + 1 >= s.len() {
            Err(Error::InvalidHeader("truncated escape"))
        } else {
            match unescaped(s[i + 1]) {
                Some(b) => string_tail(s, i + 2, acc.push(b)),
                None => Err(Error::InvalidHeader("unsupported escape")),
            }
        }
    } else {
        string_tail(s, i + 1, acc.push(s[i]))
    }
}

/// The string at `i`, which white space may precede: what its bytes say as
/// UTF-8.
pub open spec fn string_at(s: Seq<u8>, i: int) -> Result<(Seq<char>, int)> {
    let j = space_end(s, i);
    if stands_at(s, j, QUOTE) {
        match string_tail(s, j + 1, Seq::empty()) {
            Err(e) => Err(e),
            Ok((bytes, k)) => if valid_utf8(bytes) {
                Ok((decode_utf8(bytes), k))
            } else {
                Err(Error::InvalidHeader("string is not valid UTF-8"))
            },
        }
    } else {
        Err(Error::InvalidHeader("expected string"))
    }
}

/// Position behind the run of digits that starts at `i`.
pub open spec fn digits_end(s: Seq<u8>, i: int) -> int
    decreases s.len() - i,
{
    if 0 <= i < s.len() && is_digit(s[i]) {
        digits_end(s, i + 1)
    } else {
        i
    }
}

/// The number that a sequence of decimal digits denotes.
pub open spec fn decimal_value(digits: Seq<u8>) -> nat
    decreases digits.len(),
{
    if digits.len() == 0 {
        0
    } else {
        (decimal_value(digits.drop_last()) * 10 + (digits.last() - DIGIT_0)) as nat
    }
}

/// The integer at `i`, which white space may precede.
pub open spec fn integer_at(s: Seq<u8>, i: int) -> Result<(u64, int)> {
    let j = space_end(s, i);
    let k = digits_end(s, j);
    let value = decimal_value(s.subrange(j, k));
    if value > u64::MAX {
        Err(Error::InvalidHeader("integer overflow"))
    } else if j == k {
        Err(Error::InvalidHeader("expected integer"))
    } else {
        Ok((value as u64, k))
    }
}

/// The rest of an integer array whose elements so far are `acc`; an integer is
/// due at `i`.
pub open spec fn integers_tail(s: Seq<u8>, i: int, acc: Seq<u64>) -> Result<(Seq<u64>, int)>
    decreases s.len() - i,
{
    match integer_at(s, i) {
        Err(e) => Err(e),
        Ok((n, j)) => {
            let k = space_end(s, j);
            proof {
                lemma_space_end(s, i);
                lemma_digits_end(s, space_end(s, i));
                lemma_space_end(s, j);
            }
            if 0 <= i && stands_at(s, k, COMMA) {
                integers_tail(s, k + 1, acc.push(n))
            } else if stands_at(s, k, CLOSE_BRACKET) {
                Ok((acc.push(n), k + 1))
            } else {
                Err(Error::InvalidHeader("expected ',' or ']'"))
            }
        },
    }
}

/// The integer array at `i`, which white space may precede.
pub open spec fn integers_at(s: Seq<u8>, i: int) -> Result<(Seq<u64>, int)> {
    match punct_end(s, i, OPEN_BRACKET) {
        Err(e) => Err(e),
        Ok(j) => {
            let k = space_end(s, j);
            if stands_at(s, k, CLOSE_BRACKET) {
                Ok((Seq::empty(), k + 1))
            } else {
                integers_tail(s, k, Seq::empty())
            }
        },
    }
}

pub proof fn lemma_space_end(s: Seq<u8>, i: int)
    ensures
        i <= space_end(s, i),
        i <= s.len() ==> space_end(s, i) <= s.len(),
        0 <= space_end(s, i) < s.len() ==> !is_json_space(s[space_end(s, i)]),
        forall|j: int| #![trigger s[j]] i <= j < space_end(s, i) ==> is_json_space(s[j]),
        space_end(s, space_end(s, i)) == space_end(s, i),
    decreases s.len() - i,
{
    if 0 <= i < s.len() && is_json_space(s[i]) {
        lemma_space_end(s, i + 1);
    }
}

pub proof fn lemma_digits_end(s: Seq<u8>, i: int)
    ensures
        i <= digits_end(s, i),
        i <= s.len() ==> digits_end(s, i) <= s.len(),
        forall|j: int| #![trigger s[j]] i <= j < digits_end(s, i) ==> is_digit(s[j]),
    decreases s.len() - i,
{
    if 0 <= i < s.len() && is_digit(s[i]) {
        lemma_digits_end(s, i + 1);
    }
}

pub proof fn lemma_string_tail(s: Seq<u8>, i: int, acc: Seq<u8>)
    requires
        0 <= i,
    ensures
        string_tail(s, i, acc) matches Ok((_, j)) ==> i < j <= s.len(),
    decreases s.len() - i,
{
    if 0 <= i < s.len() {
        if s[i] == QUOTE {
        } else if s[i] == BACKSLASH {
            if i + 1 < s.len() {
                if let Some(b) = unescaped(s[i + 1]) {
                    lemma_string_tail(s, i + 2, acc.push(b));
                }
            }
        } else {
            lemma_string_tail(s, i + 1, acc.push(s[i]));
        }
    }
}

pub proof fn lemma_string_at(s: Seq<u8>, i: int)
    requires
        0 <= i,
    ensures
        string_at(s, i) matches Ok((_, j)) ==> i < j <= s.len(),
{
    lemma_space_end(s, i);
    if stands_at(s, space_end(s, i), QUOTE) {
        lemma_string_tail(s, space_end(s, i) + 1, Seq::empty());
    }
}

/// Bytes that are neither quotes nor backslashes are read as they are.
pub proof fn lemma_string_tail_step(s: Seq<u8>, i: int, k: int, acc: Seq<u8>)
    requires
        0 <= i <= k <= s.len(),
        forall|j: int| i <= j < k ==> #[trigger] s[j] != QUOTE && s[j] != BACKSLASH,
    ensures
        string_tail(s, i, acc) == string_tail(s, k, acc + s.subrange(i, k)),
    decreases k - i,
{
    if i < k {
        assert(s[i] != QUOTE);
        lemma_string_tail_step(s, i + 1, k, acc.push(s[i]));
        assert(acc.push(s[i]) + s.subrange(i + 1, k) =~= acc + s.subrange(i, k));
    } else {
        assert(acc + s.subrange(i, k) =~= acc);
    }
}

/// A character ends behind an ASCII byte.
proof fn lemma_boundary_after_ascii(s: Seq<u8>, i: int)
    requires
        valid_utf8(s),
        0 <= i < s.len(),
        s[i] < 0x80,
    ensures
        is_char_boundary(s, i + 1),
{
    is_char_boundary_iff_not_is_continuation_byte(s, i);
    lemma_next_boundary(s, i);
}

/// The character at a boundary: its bytes are valid UTF-8, those behind the
/// first are not ASCII, and it ends at a boundary.
proof fn lemma_next_boundary(s: Seq<u8>, i: int)
    requires
        valid_utf8(s),
        0 <= i < s.len(),
        is_char_boundary(s, i),
    ensures
        ({
            let k = i + length_of_first_scalar(s.subrange(i, s.len() as int));
            &&& i < k <= s.len()
            &&& s[i] < 0x80 ==> k == i + 1
            &&& is_char_boundary(s, k)
            &&& valid_utf8(s.subrange(i, k))
            &&& forall|j: int| i < j < k ==> #[trigger] s[j] >= 0x80
        }),
{
    let rest = s.subrange(i, s.len() as int);
    let k = i + length_of_first_scalar(rest);
    valid_utf8_split(s, i);
    assert(valid_utf8(rest));
    assert(rest[0] == s[i]);
    assert(valid_first_scalar(rest) && valid_utf8(pop_first_scalar(rest)));
    assert(i < k <= s.len());
    assert(pop_first_scalar(rest) =~= s.subrange(k, s.len() as int));
    assert(take_first_scalar(rest) =~= s.subrange(i, k));
    assert(valid_utf8(take_first_scalar(rest))) by {
        reveal_with_fuel(valid_utf8, 2);
    }
    assert forall|j: int| i < j < k implies #[trigger] s[j] >= 0x80 by {
        assert(s[j] == rest[j - i]);
    }
    if k < s.len() {
        let next = pop_first_scalar(rest);
        assert(next.len() > 0 && next[0] == s[k]);
        assert(valid_first_scalar(next));
        assert(!is_continuation_byte(s[k]));
        is_char_boundary_iff_not_is_continuation_byte(s, k);
    } else {
        is_char_boundary_start_end_of_seq(s);
    }
}

proof fn lemma_string_tail_utf8(s: Seq<u8>, i: int, acc: Seq<u8>)
    requires
        valid_utf8(s),
        0 <= i <= s.len(),
        is_char_boundary(s, i),
        valid_utf8(acc),
    ensures
        string_tail(s, i, acc) matches Ok((bytes, _)) ==> valid_utf8(bytes),
    decreases s.len() - i,
{
    if i < s.len() && s[i] != QUOTE {
        if s[i] == BACKSLASH {
            if i + 1 < s.len() {
                if let Some(b) = unescaped(s[i + 1]) {
                    lemma_boundary_after_ascii(s, i + 1);
                    assert(valid_utf8(seq![b])) by {
                        reveal_with_fuel(valid_utf8, 2);
                    }
                    valid_utf8_concat(acc, seq![b]);
                    assert(acc + seq![b] =~= acc.push(b));
                    lemma_string_tail_utf8(s, i + 2, acc.push(b));
                }
            }
        } else {
            let k = i + length_of_first_scalar(s.subrange(i, s.len() as int));
            lemma_next_boundary(s, i);
            lemma_string_tail_step(s, i, k, acc);
            valid_utf8_concat(acc, s.subrange(i, k));
            lemma_string_tail_utf8(s, k, acc + s.subrange(i, k));
        }
    }
}

/// In a header that is valid UTF-8 every string is, so a string that ends has a
/// text.
pub proof fn lemma_strings_are_utf8(s: Seq<u8>, i: int)
    requires
        valid_utf8(s),
        0 <= i,
        stands_at(s, space_end(s, i), QUOTE),
        string_tail(s, space_end(s, i) + 1, Seq::empty()) is Ok,
    ensures
        string_at(s, i) is Ok,
{
    let j = space_end(s, i);
    lemma_boundary_after_ascii(s, j);
    lemma_string_tail_utf8(s, j + 1, Seq::empty());
}

pub proof fn lemma_integers_tail(s: Seq<u8>, i: int, acc: Seq<u64>)
    requires
        0 <= i,
    ensures
        integers_tail(s, i, acc) matches Ok((_, j)) ==> i < j <= s.len(),
    decreases s.len() - i,
{
    if let Ok((n, j)) = integer_at(s, i) {
        lemma_space_end(s, i);
        lemma_digits_end(s, space_end(s, i));
        lemma_space_end(s, j);
        let k = space_end(s, j);
        if stands_at(s, k, COMMA) {
            lemma_integers_tail(s, k + 1, acc.push(n));
        }
    }
}

pub proof fn lemma_integers_at(s: Seq<u8>, i: int)
    requires
        0 <= i,
    ensures
        integers_at(s, i) matches Ok((_, j)) ==> i < j <= s.len(),
{
    lemma_space_end(s, i);
    if let Ok(j) = punct_end(s, i, OPEN_BRACKET) {
        lemma_space_end(s, j);
        lemma_integers_tail(s, space_end(s, j), Seq::empty());
    }
}

// ---------------------------------------------------------------------------
// Grammar: values that are skipped
// ---------------------------------------------------------------------------

/// A byte that may occur in a number.
pub open spec fn is_number_byte(b: u8) -> bool {
    is_digit(b) || b == MINUS || b == PLUS || b == DOT || b == LOWER_E || b == UPPER_E
}

/// Position behind the run of number bytes that starts at `i`.
pub open spec fn number_end(s: Seq<u8>, i: int) -> int
    decreases s.len() - i,
{
    if 0 <= i < s.len() && is_number_byte(s[i]) {
        number_end(s, i + 1)
    } else {
        i
    }
}

/// Position behind the literal `lit`, which has to stand at `i`.
pub open spec fn literal_end(s: Seq<u8>, i: int, lit: Seq<u8>) -> Result<int> {
    if 0 <= i && i + lit.len() <= s.len() && s.subrange(i, i + lit.len()) == lit {
        Ok(i + lit.len())
    } else {
        Err(Error::InvalidHeader("bad literal"))
    }
}

/// An ASCII hexadecimal digit.
pub open spec fn is_hex_digit(b: u8) -> bool {
    is_digit(b) || LOWER_A <= b <= LOWER_F || UPPER_A <= b <= UPPER_F
}

/// Whether four hexadecimal digits stand at `i`.
pub open spec fn code_stands_at(s: Seq<u8>, i: int) -> bool {
    &&& 0 <= i
    &&& i + 4 <= s.len()
    &&& forall|j: int| i <= j < i + 4 ==> is_hex_digit(#[trigger] s[j])
}

/// Position behind the closing quote of a string whose rest starts at `i`. What
/// the string says does not matter, so that `\uXXXX` may stand in it.
pub open spec fn quoted_end(s: Seq<u8>, i: int) -> Result<int>
    decreases s.len() - i,
{
    if !(0 <= i < s.len()) {
        Err(Error::InvalidHeader("unterminated string"))
    } else if s[i] == QUOTE {
        Ok(i + 1)
    } else if s[i] == BACKSLASH {
        if i + 1 >= s.len() {
            Err(Error::InvalidHeader("truncated escape"))
        } else if unescaped(s[i + 1]) is Some {
            quoted_end(s, i + 2)
        } else if s[i + 1] == LOWER_U && code_stands_at(s, i + 2) {
            quoted_end(s, i + 6)
        } else {
            Err(Error::InvalidHeader("unsupported escape"))
        }
    } else {
        quoted_end(s, i + 1)
    }
}

/// Position behind the string at `i`, which white space may precede.
pub open spec fn text_end(s: Seq<u8>, i: int) -> Result<int> {
    let j = space_end(s, i);
    if stands_at(s, j, QUOTE) {
        quoted_end(s, j + 1)
    } else {
        Err(Error::InvalidHeader("expected string"))
    }
}

proof fn lemma_quoted_end(s: Seq<u8>, i: int)
    requires
        0 <= i,
    ensures
        quoted_end(s, i) matches Ok(j) ==> i < j <= s.len(),
    decreases s.len() - i,
{
    if i < s.len() && s[i] != QUOTE {
        lemma_quoted_end(s, i + 1);
        if i + 1 < s.len() {
            lemma_quoted_end(s, i + 2);
        }
        if i + 6 <= s.len() {
            lemma_quoted_end(s, i + 6);
        }
    }
}

pub proof fn lemma_text_end(s: Seq<u8>, i: int)
    requires
        0 <= i,
    ensures
        text_end(s, i) matches Ok(j) ==> i < j <= s.len(),
{
    lemma_space_end(s, i);
    if stands_at(s, space_end(s, i), QUOTE) {
        lemma_quoted_end(s, space_end(s, i) + 1);
    }
}

/// A string that can be read can be skipped, and ends at the same place.
pub proof fn lemma_readable_strings_are_skipped(s: Seq<u8>, i: int)
    ensures
        string_at(s, i) matches Ok((_, j)) ==> text_end(s, i) == Ok::<int, Error>(j),
{
    lemma_quoted_end_of_tail(s, space_end(s, i) + 1, Seq::empty());
}

proof fn lemma_quoted_end_of_tail(s: Seq<u8>, i: int, acc: Seq<u8>)
    ensures
        string_tail(s, i, acc) matches Ok((_, j)) ==> quoted_end(s, i) == Ok::<int, Error>(j),
    decreases s.len() - i,
{
    if 0 <= i < s.len() && s[i] != QUOTE {
        if s[i] != BACKSLASH {
            lemma_quoted_end_of_tail(s, i + 1, acc.push(s[i]));
        } else if i + 1 < s.len() {
            if let Some(b) = unescaped(s[i + 1]) {
                lemma_quoted_end_of_tail(s, i + 2, acc.push(b));
            }
        }
    }
}

/// Position behind the JSON value at `i`, which white space may precede.
pub open spec fn value_end(s: Seq<u8>, i: int) -> Result<int>
    decreases s.len() - i, 2nat,
{
    let j = space_end(s, i);
    proof {
        lemma_space_end(s, i);
    }
    if i < 0 || j >= s.len() {
        Err(Error::InvalidHeader("unexpected end"))
    } else if s[j] == OPEN_BRACE {
        object_end(s, j)
    } else if s[j] == OPEN_BRACKET {
        array_end(s, j)
    } else if s[j] == QUOTE {
        text_end(s, j)
    } else if s[j] == LOWER_T {
        literal_end(s, j, seq![LOWER_T, LOWER_R, LOWER_U, LOWER_E])
    } else if s[j] == LOWER_F {
        literal_end(s, j, seq![LOWER_F, LOWER_A, LOWER_L, LOWER_S, LOWER_E])
    } else if s[j] == LOWER_N {
        literal_end(s, j, seq![LOWER_N, LOWER_U, LOWER_L, LOWER_L])
    } else if s[j] == MINUS || is_digit(s[j]) {
        Ok(number_end(s, j))
    } else {
        Err(Error::InvalidHeader("unexpected token"))
    }
}

/// Position behind the object whose opening brace stands at `i`.
pub open spec fn object_end(s: Seq<u8>, i: int) -> Result<int>
    decreases s.len() - i, 1nat,
{
    let j = space_end(s, i + 1);
    proof {
        lemma_space_end(s, i + 1);
    }
    if !(0 <= i < s.len()) {
        Err(Error::InvalidHeader("unexpected byte"))
    } else if stands_at(s, j, CLOSE_BRACE) {
        Ok(j + 1)
    } else {
        members_end(s, j)
    }
}

/// Position behind the closing brace of an object one of whose members is due
/// at `i`.
pub open spec fn members_end(s: Seq<u8>, i: int) -> Result<int>
    decreases s.len() - i, 0nat,
{
    if i < 0 {
        Err(Error::InvalidHeader("expected string"))
    } else {
        match text_end(s, i) {
            Err(e) => Err(e),
            Ok(a) => match punct_end(s, a, COLON) {
                Err(e) => Err(e),
                Ok(b) => {
                    proof {
                        lemma_text_end(s, i);
                        lemma_space_end(s, a);
                    }
                    match value_end(s, b) {
                        Err(e) => Err(e),
                        Ok(c) => {
                            let d = space_end(s, c);
                            proof {
                                lemma_space_end(s, c);
                            }
                            // A value is never empty, so `c` is behind `b`.
                            if c <= b {
                                Err(Error::InvalidHeader("unexpected end"))
                            } else if stands_at(s, d, COMMA) {
                                members_end(s, d + 1)
                            } else if stands_at(s, d, CLOSE_BRACE) {
                                Ok(d + 1)
                            } else {
                                Err(Error::InvalidHeader("expected ',' or '}'"))
                            }
                        },
                    }
                },
            },
        }
    }
}

/// Position behind the array whose opening bracket stands at `i`.
pub open spec fn array_end(s: Seq<u8>, i: int) -> Result<int>
    decreases s.len() - i, 1nat,
{
    let j = space_end(s, i + 1);
    proof {
        lemma_space_end(s, i + 1);
    }
    if !(0 <= i < s.len()) {
        Err(Error::InvalidHeader("unexpected byte"))
    } else if stands_at(s, j, CLOSE_BRACKET) {
        Ok(j + 1)
    } else {
        elements_end(s, j)
    }
}

/// Position behind the closing bracket of an array one of whose elements is
/// due at `i`.
pub open spec fn elements_end(s: Seq<u8>, i: int) -> Result<int>
    decreases s.len() - i, 3nat,
{
    match value_end(s, i) {
        Err(e) => Err(e),
        Ok(c) => {
            let d = space_end(s, c);
            proof {
                lemma_space_end(s, c);
            }
            // A value is never empty, so `c` is behind `i`.
            if c <= i || i < 0 {
                Err(Error::InvalidHeader("unexpected end"))
            } else if stands_at(s, d, COMMA) {
                elements_end(s, d + 1)
            } else if stands_at(s, d, CLOSE_BRACKET) {
                Ok(d + 1)
            } else {
                Err(Error::InvalidHeader("expected ',' or ']'"))
            }
        },
    }
}

proof fn lemma_number_end(s: Seq<u8>, i: int)
    ensures
        i <= number_end(s, i),
        i <= s.len() ==> number_end(s, i) <= s.len(),
        0 <= i < s.len() && is_number_byte(s[i]) ==> i < number_end(s, i),
    decreases s.len() - i,
{
    if 0 <= i < s.len() && is_number_byte(s[i]) {
        lemma_number_end(s, i + 1);
    }
}

/// A skipped value is never empty and ends inside the header.
pub proof fn lemma_value_end(s: Seq<u8>, i: int)
    requires
        0 <= i,
    ensures
        value_end(s, i) matches Ok(j) ==> i < j <= s.len(),
    decreases s.len() - i, 2nat,
{
    let j = space_end(s, i);
    lemma_space_end(s, i);
    if j < s.len() {
        if s[j] == OPEN_BRACE {
            lemma_object_end(s, j);
        } else if s[j] == OPEN_BRACKET {
            lemma_array_end(s, j);
        } else if s[j] == QUOTE {
            lemma_text_end(s, j);
        } else {
            lemma_number_end(s, j);
        }
    }
}

proof fn lemma_object_end(s: Seq<u8>, i: int)
    requires
        0 <= i < s.len(),
    ensures
        object_end(s, i) matches Ok(j) ==> i < j <= s.len(),
    decreases s.len() - i, 1nat,
{
    lemma_space_end(s, i + 1);
    lemma_members_end(s, space_end(s, i + 1));
}

proof fn lemma_members_end(s: Seq<u8>, i: int)
    requires
        0 <= i,
    ensures
        members_end(s, i) matches Ok(j) ==> i < j <= s.len(),
    decreases s.len() - i, 0nat,
{
    if let Ok(a) = text_end(s, i) {
        lemma_text_end(s, i);
        lemma_space_end(s, a);
        if let Ok(b) = punct_end(s, a, COLON) {
            lemma_value_end(s, b);
            if let Ok(c) = value_end(s, b) {
                lemma_space_end(s, c);
                if stands_at(s, space_end(s, c), COMMA) {
                    lemma_members_end(s, space_end(s, c) + 1);
                }
            }
        }
    }
}

proof fn lemma_array_end(s: Seq<u8>, i: int)
    requires
        0 <= i < s.len(),
    ensures
        array_end(s, i) matches Ok(j) ==> i < j <= s.len(),
    decreases s.len() - i, 1nat,
{
    lemma_space_end(s, i + 1);
    lemma_elements_end(s, space_end(s, i + 1));
}

proof fn lemma_elements_end(s: Seq<u8>, i: int)
    requires
        0 <= i,
    ensures
        elements_end(s, i) matches Ok(j) ==> i < j <= s.len(),
    decreases s.len() - i, 3nat,
{
    lemma_value_end(s, i);
    if let Ok(c) = value_end(s, i) {
        lemma_space_end(s, c);
        if stands_at(s, space_end(s, c), COMMA) {
            lemma_elements_end(s, space_end(s, c) + 1);
        }
    }
}

// ---------------------------------------------------------------------------
// Grammar: tensor entries and the header object
// ---------------------------------------------------------------------------

/// Metadata of one tensor as the header describes it. Offsets are absolute
/// positions in the file.
#[verifier::ext_equal]
pub struct EntryView {
    pub name: Seq<char>,
    pub dtype: Dtype,
    pub shape: Seq<usize>,
    pub data_start: int,
    pub data_end: int,
}

/// The fields of a tensor object that have been read so far. A field that
/// occurs twice counts as its last occurrence says.
#[verifier::ext_equal]
pub struct FieldsView {
    pub dtype: Option<Dtype>,
    pub shape: Option<Seq<u64>>,
    pub offsets: Option<(u64, u64)>,
}

/// The value at `i` of the tensor field `key`, entered into `fields`. Unknown
/// fields are ignored.
pub open spec fn field_value_at(s: Seq<u8>, i: int, key: Seq<char>, fields: FieldsView) -> Result<
    (FieldsView, int),
> {
    if key == "dtype"@ {
        match string_at(s, i) {
            Err(e) => Err(e),
            Ok((v, j)) => match dtype_named(v) {
                Err(e) => Err(e),
                Ok(d) => Ok((FieldsView { dtype: Some(d), ..fields }, j)),
            },
        }
    } else if key == "shape"@ {
        match integers_at(s, i) {
            Err(e) => Err(e),
            Ok((v, j)) => Ok((FieldsView { shape: Some(v), ..fields }, j)),
        }
    } else if key == "data_offsets"@ {
        match integers_at(s, i) {
            Err(e) => Err(e),
            Ok((v, j)) => if v.len() != 2 {
                Err(Error::InvalidHeader("data_offsets must have 2 entries"))
            } else {
                Ok((FieldsView { offsets: Some((v[0], v[1])), ..fields }, j))
            },
        }
    } else {
        match value_end(s, i) {
            Err(e) => Err(e),
            Ok(j) => Ok((fields, j)),
        }
    }
}

pub proof fn lemma_field_value_at(s: Seq<u8>, i: int, key: Seq<char>, fields: FieldsView)
    requires
        0 <= i,
    ensures
        field_value_at(s, i, key, fields) matches Ok((_, j)) ==> i < j <= s.len(),
{
    lemma_string_at(s, i);
    lemma_integers_at(s, i);
    lemma_value_end(s, i);
}

/// The rest of a tensor object whose fields so far are `fields`; a field is due
/// at `i`.
pub open spec fn fields_tail(s: Seq<u8>, i: int, fields: FieldsView) -> Result<(FieldsView, int)>
    decreases s.len() - i,
{
    if i < 0 {
        Err(Error::InvalidHeader("expected string"))
    } else {
        match string_at(s, i) {
            Err(e) => Err(e),
            Ok((key, a)) => match punct_end(s, a, COLON) {
                Err(e) => Err(e),
                Ok(b) => match field_value_at(s, b, key, fields) {
                    Err(e) => Err(e),
                    Ok((updated, c)) => {
                        let d = space_end(s, c);
                        proof {
                            lemma_string_at(s, i);
                            lemma_space_end(s, a);
                            lemma_field_value_at(s, b, key, fields);
                            lemma_space_end(s, c);
                        }
                        if stands_at(s, d, COMMA) {
                            fields_tail(s, d + 1, updated)
                        } else if stands_at(s, d, CLOSE_BRACE) {
                            Ok((updated, d + 1))
                        } else {
                            Err(Error::InvalidHeader("expected ',' or '}' in tensor object"))
                        }
                    },
                },
            },
        }
    }
}

/// The dimensions fit the size type of this machine.
pub open spec fn dims_fit(shape: Seq<u64>) -> bool {
    forall|k: int| 0 <= k < shape.len() ==> #[trigger] shape[k] <= usize::MAX
}

/// The dimensions in the size type of this machine.
pub open spec fn as_dims(shape: Seq<u64>) -> Seq<usize> {
    shape.map_values(|n: u64| n as usize)
}

/// The entry that a complete set of fields describes, in a file whose payload
/// of `payload_len` bytes starts at `payload_start`. Dimensions that this machine
/// cannot hold do not match any data.
pub open spec fn entry_of(
    name: Seq<char>,
    fields: FieldsView,
    payload_start: int,
    payload_len: int,
) -> Result<EntryView> {
    match fields.dtype {
        None => Err(Error::InvalidHeader("missing dtype")),
        Some(dtype) => match fields.shape {
            None => Err(Error::InvalidHeader("missing shape")),
            Some(shape) => match fields.offsets {
                None => Err(Error::InvalidHeader("missing data_offsets")),
                Some((start, end)) => if start > end || end > payload_len {
                    Err(Error::DataOffsetsOutOfBounds)
                } else if !dims_fit(shape) || product(as_dims(shape)) * dtype.width() != end - start {
                    Err(Error::ShapeDataMismatch)
                } else {
                    Ok(
                        EntryView {
                            name,
                            dtype,
                            shape: as_dims(shape),
                            data_start: payload_start + start,
                            data_end: payload_start + end,
                        },
                    )
                },
            },
        },
    }
}

/// The tensor object at `i`, as an entry under the given name.
pub open spec fn entry_at(
    s: Seq<u8>,
    i: int,
    name: Seq<char>,
    payload_start: int,
    payload_len: int,
) -> Result<(EntryView, int)> {
    match punct_end(s, i, OPEN_BRACE) {
        Err(e) => Err(e),
        Ok(a) => {
            let b = space_end(s, a);
            if stands_at(s, b, CLOSE_BRACE) {
                Err(Error::InvalidHeader("empty tensor object"))
            } else {
                match fields_tail(s, b, FieldsView { dtype: None, shape: None, offsets: None }) {
                    Err(e) => Err(e),
                    Ok((fields, c)) => match entry_of(name, fields, payload_start, payload_len) {
                        Err(e) => Err(e),
                        Ok(entry) => Ok((entry, c)),
                    },
                }
            }
        },
    }
}

proof fn lemma_fields_tail(s: Seq<u8>, i: int, fields: FieldsView)
    requires
        0 <= i,
    ensures
        fields_tail(s, i, fields) matches Ok((_, j)) ==> i < j <= s.len(),
    decreases s.len() - i,
{
    if let Ok((key, a)) = string_at(s, i) {
        lemma_string_at(s, i);
        lemma_space_end(s, a);
        if let Ok(b) = punct_end(s, a, COLON) {
            lemma_field_value_at(s, b, key, fields);
            if let Ok((updated, c)) = field_value_at(s, b, key, fields) {
                lemma_space_end(s, c);
                if stands_at(s, space_end(s, c), COMMA) {
                    lemma_fields_tail(s, space_end(s, c) + 1, updated);
                }
            }
        }
    }
}

pub proof fn lemma_entry_at(
    s: Seq<u8>,
    i: int,
    name: Seq<char>,
    payload_start: int,
    payload_len: int,
)
    requires
        0 <= i,
    ensures
        entry_at(s, i, name, payload_start, payload_len) matches Ok((_, j)) ==> i < j <= s.len(),
{
    lemma_space_end(s, i);
    if let Ok(a) = punct_end(s, i, OPEN_BRACE) {
        lemma_space_end(s, a);
        lemma_fields_tail(
            s,
            space_end(s, a),
            FieldsView { dtype: None, shape: None, offsets: None },
        );
    }
}

/// The member of the header object at `i`: a tensor entry, appended to `acc`,
/// or the metadata block, which is skipped.
pub open spec fn header_member_at(
    s: Seq<u8>,
    i: int,
    payload_start: int,
    payload_len: int,
    acc: Seq<EntryView>,
) -> Result<(Seq<EntryView>, int)> {
    match string_at(s, i) {
        Err(e) => Err(e),
        Ok((name, a)) => match punct_end(s, a, COLON) {
            Err(e) => Err(e),
            Ok(b) => if name == "__metadata__"@ {
                match value_end(s, b) {
                    Err(e) => Err(e),
                    Ok(c) => Ok((acc, c)),
                }
            } else {
                match entry_at(s, b, name, payload_start, payload_len) {
                    Err(e) => Err(e),
                    Ok((entry, c)) => Ok((acc.push(entry), c)),
                }
            },
        },
    }
}

pub proof fn lemma_header_member_at(
    s: Seq<u8>,
    i: int,
    payload_start: int,
    payload_len: int,
    acc: Seq<EntryView>,
)
    requires
        0 <= i,
    ensures
        header_member_at(s, i, payload_start, payload_len, acc) matches Ok((_, j)) ==> i < j
            <= s.len(),
{
    lemma_string_at(s, i);
    if let Ok((name, a)) = string_at(s, i) {
        lemma_space_end(s, a);
        if let Ok(b) = punct_end(s, a, COLON) {
            lemma_value_end(s, b);
            lemma_entry_at(s, b, name, payload_start, payload_len);
        }
    }
}

/// The rest of the header object whose entries so far are `acc`; a member is
/// due at `i`. What follows the closing brace is not looked at.
pub open spec fn header_tail(
    s: Seq<u8>,
    i: int,
    payload_start: int,
    payload_len: int,
    acc: Seq<EntryView>,
) -> Result<Seq<EntryView>>
    decreases s.len() - i,
{
    if i < 0 {
        Err(Error::InvalidHeader("expected string"))
    } else {
        match header_member_at(s, i, payload_start, payload_len, acc) {
            Err(e) => Err(e),
            Ok((entries, c)) => {
                let d = space_end(s, c);
                proof {
                    lemma_header_member_at(s, i, payload_start, payload_len, acc);
                    lemma_space_end(s, c);
                }
                if stands_at(s, d, COMMA) {
                    header_tail(s, d + 1, payload_start, payload_len, entries)
                } else if stands_at(s, d, CLOSE_BRACE) {
                    Ok(entries)
                } else {
                    Err(Error::InvalidHeader("expected ',' or '}' after entry"))
                }
            },
        }
    }
}

/// What a header says: its tensor entries in declaration order, or the error
/// that it deserves.
pub open spec fn header_entries(s: Seq<u8>, payload_start: int, payload_len: int) -> Result<
    Seq<EntryView>,
> {
    match punct_end(s, 0, OPEN_BRACE) {
        Err(e) => Err(e),
        Ok(a) => {
            let b = space_end(s, a);
            if stands_at(s, b, CLOSE_BRACE) {
                Ok(Seq::empty())
            } else {
                header_tail(s, b, payload_start, payload_len, Seq::empty())
            }
        },
    }
}

} // verus!
