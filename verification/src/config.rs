//! Fields of a HuggingFace `config.json`.
//!
//! A field is looked up by searching the text for its quoted key with a colon
//! behind it; nothing else of the JSON is parsed.

pub mod meaning;

use vstd::prelude::*;
use vstd::slice::{slice_subrange, slice_to_vec};
use crate::text::{
    append_chars, chars_of, decimal_number, digit_run_end, is_digit_char, is_white_space,
    lemma_digit_run_end, lemma_trim_start_skips, read_decimal, skip_digits, stands_in, string_of,
    text_stands_at, trim_start, trimmed_start,
};

verus! {

/// A key in its quotes.
pub open spec fn quoted(key: Seq<char>) -> Seq<char> {
    seq!['"'] + key + seq!['"']
}

/// What follows the quoted key at position `k` and the colon behind it. White
/// space may stand on both sides of the colon.
pub open spec fn value_behind(json: Seq<char>, key: Seq<char>, k: int) -> Option<Seq<char>> {
    let rest = trim_start(json.skip(k + quoted(key).len()));
    if text_stands_at(json, quoted(key), k) && rest.len() > 0 && rest[0] == ':' {
        Some(trim_start(rest.skip(1)))
    } else {
        None
    }
}

/// What follows the first key at or after `i` with a colon behind it.
pub open spec fn field_rest_from(json: Seq<char>, key: Seq<char>, i: int) -> Option<Seq<char>>
    decreases json.len() - i,
{
    if !(0 <= i < json.len()) {
        None
    } else {
        match value_behind(json, key, i) {
            Some(rest) => Some(rest),
            None => field_rest_from(json, key, i + 1),
        }
    }
}

/// What follows a field's key and colon, without white space in front.
pub open spec fn field_rest(json: Seq<char>, key: Seq<char>) -> Option<Seq<char>> {
    field_rest_from(json, key, 0)
}

/// White space between a key and its colon, and behind the colon, changes
/// nothing: at a key that stands at the start of the text, what follows is the
/// value.
pub proof fn lemma_space_around_colon(key: Seq<char>, a: Seq<char>, b: Seq<char>, value: Seq<char>)
    requires
        forall|j: int| 0 <= j < a.len() ==> is_white_space(#[trigger] a[j]),
        forall|j: int| 0 <= j < b.len() ==> is_white_space(#[trigger] b[j]),
    ensures
        field_rest(quoted(key) + a + seq![':'] + b + value, key) == Some(trim_start(value)),
{
    let json = quoted(key) + a + seq![':'] + b + value;
    let q = quoted(key).len() as int;
    assert(json.subrange(0, q) =~= quoted(key));
    let tail = seq![':'] + b + value;
    assert(json.skip(q) =~= a + tail);
    lemma_trim_start_skips(a, tail);
    assert(!is_white_space(tail[0]));
    assert(tail.skip(1) =~= b + value);
    lemma_trim_start_skips(b, value);
}

/// The number at the start of a text, if something else follows it and it is a
/// `usize`.
pub open spec fn usize_prefix(rest: Seq<char>) -> Option<usize> {
    let end = digit_run_end(rest, 0);
    let value = decimal_number(rest.take(end));
    if end >= rest.len() || end == 0 || value > usize::MAX {
        None
    } else {
        Some(value as usize)
    }
}

/// The number that a field holds.
pub open spec fn usize_field(json: Seq<char>, key: Seq<char>) -> Option<usize> {
    match field_rest(json, key) {
        Some(rest) => usize_prefix(rest),
        None => None,
    }
}

/// The number that the first of two fields holds, or else the second.
pub open spec fn usize_field_or(json: Seq<char>, key: Seq<char>, other: Seq<char>) -> Option<
    usize,
> {
    match usize_field(json, key) {
        Some(v) => Some(v),
        None => usize_field(json, other),
    }
}

/// A character of a decimal number with fraction and exponent.
pub open spec fn is_number_char(c: char) -> bool {
    is_digit_char(c) || c == '-' || c == '+' || c == '.' || c == 'e' || c == 'E'
}

/// Position behind the run of number characters that starts at `i`.
pub open spec fn number_run_end(s: Seq<char>, i: int) -> int
    decreases s.len() - i,
{
    if 0 <= i < s.len() && is_number_char(s[i]) {
        number_run_end(s, i + 1)
    } else {
        i
    }
}

/// The numeral at the start of a text, if something else follows it.
pub open spec fn numeral_prefix(rest: Seq<char>) -> Option<Seq<char>> {
    let end = number_run_end(rest, 0);
    if end >= rest.len() || end == 0 {
        None
    } else {
        Some(rest.take(end))
    }
}

/// The numeral that a field holds.
pub open spec fn numeral_field(json: Seq<char>, key: Seq<char>) -> Option<Seq<char>> {
    match field_rest(json, key) {
        Some(rest) => numeral_prefix(rest),
        None => None,
    }
}

/// The truth value at the start of a text.
pub open spec fn bool_prefix(rest: Seq<char>) -> Option<bool> {
    if text_stands_at(rest, "true"@, 0) {
        Some(true)
    } else if text_stands_at(rest, "false"@, 0) {
        Some(false)
    } else {
        None
    }
}

/// The truth value that a field holds.
pub open spec fn bool_field(json: Seq<char>, key: Seq<char>) -> Option<bool> {
    match field_rest(json, key) {
        Some(rest) => bool_prefix(rest),
        None => None,
    }
}

/// What `parse` may make of a numeral, if there is one.
pub open spec fn parsed_numeral<T, P: Fn(&str) -> Option<T>>(
    numeral: Option<Seq<char>>,
    parse: P,
    value: Option<T>,
) -> bool {
    match numeral {
        Some(text) => exists|s: &str| s@ == text && #[trigger] call_ensures(parse, (s,), value),
        None => value is None,
    }
}

/// `eps` is what `parse` makes of the field `layer_norm_epsilon`, or else of
/// `layer_norm_eps`, or else the default.
pub open spec fn is_norm_eps<T, P: Fn(&str) -> Option<T>>(
    json: Seq<char>,
    parse: P,
    default: T,
    eps: T,
) -> bool {
    exists|first: Option<T>|
        #[trigger] parsed_numeral(numeral_field(json, "layer_norm_epsilon"@), parse, first) && (
        match first {
            Some(v) => eps == v,
            None => exists|second: Option<T>|
                #[trigger] parsed_numeral(numeral_field(json, "layer_norm_eps"@), parse, second)
                    && eps == (match second {
                    Some(v) => v,
                    None => default,
                }),
        })
}

/// A key in its quotes.
fn key_mark(key: &str) -> (res: Vec<char>)
    ensures
        res@ == quoted(key@),
{
    let mut out: Vec<char> = Vec::new();
    out.push('"');
    append_chars(&mut out, chars_of(key).as_slice());
    out.push('"');
    assert(out@ =~= quoted(key@));
    out
}

/// What follows a field's key and colon, without white space in front.
pub fn rest_of_field(json: &[char], key: &str) -> (res: Option<Vec<char>>)
    ensures
        match res {
            Some(rest) => field_rest(json@, key@) == Some(rest@),
            None => field_rest(json@, key@) is None,
        },
{
    let mark = key_mark(key);
    let n: usize = json.len();
    let mut i: usize = 0;
    while i < n
        invariant
            i <= n,
            n == json@.len(),
            mark@ == quoted(key@),
            field_rest_from(json@, key@, i as int) == field_rest(json@, key@),
        decreases n - i,
    {
        if stands_in(json, mark.as_slice(), i) {
            let after = slice_subrange(json, i + mark.len(), n);
            assert(after@ =~= json@.skip(i + mark@.len()));
            let rest = trimmed_start(after);
            if rest.len() > 0 && rest[0] == ':' {
                let value = slice_subrange(rest.as_slice(), 1, rest.len());
                assert(value@ =~= rest@.skip(1));
                return Some(trimmed_start(value));
            }
        }
        i = i + 1;
    }
    None
}

/// The number at the start of a text, if something else follows it and it is a
/// `usize`.
pub fn read_usize_prefix(rest: &[char]) -> (res: Option<usize>)
    ensures
        res == usize_prefix(rest@),
{
    let end: usize = skip_digits(rest, 0);
    if end >= rest.len() || end == 0 {
        return None;
    }
    proof {
        lemma_digit_run_end(rest@, 0);
        assert(rest@.subrange(0, end as int) =~= rest@.take(end as int));
    }
    match read_decimal(rest, 0, end) {
        Some(v) => {
            if v <= usize::MAX as u64 {
                Some(v as usize)
            } else {
                None
            }
        },
        None => None,
    }
}

/// The number that a field holds.
pub fn read_usize_field(json: &[char], key: &str) -> (res: Option<usize>)
    ensures
        res == usize_field(json@, key@),
{
    match rest_of_field(json, key) {
        Some(rest) => read_usize_prefix(rest.as_slice()),
        None => None,
    }
}

/// The number that the first of two fields holds, or else the second.
pub fn read_usize_field_or(json: &[char], key: &str, other: &str) -> (res: Option<usize>)
    ensures
        res == usize_field_or(json@, key@, other@),
{
    match read_usize_field(json, key) {
        Some(v) => Some(v),
        None => read_usize_field(json, other),
    }
}

/// The number that a field holds, or else `default`.
pub fn read_usize_field_with_default(json: &[char], key: &str, default: usize) -> (res: usize)
    ensures
        res == or_default(usize_field(json@, key@), default),
{
    match read_usize_field(json, key) {
        Some(v) => v,
        None => default,
    }
}

/// The value, or else `default`.
pub open spec fn or_default<A>(value: Option<A>, default: A) -> A {
    match value {
        Some(v) => v,
        None => default,
    }
}

/// The numeral at the start of a text, if something else follows it.
pub fn read_numeral_prefix(rest: &[char]) -> (res: Option<Vec<char>>)
    ensures
        match res {
            Some(numeral) => numeral_prefix(rest@) == Some(numeral@),
            None => numeral_prefix(rest@) is None,
        },
{
    let n: usize = rest.len();
    let mut end: usize = 0;
    while end < n && (('0' <= rest[end] && rest[end] <= '9') || rest[end] == '-' || rest[end] == '+'
        || rest[end] == '.' || rest[end] == 'e' || rest[end] == 'E')
        invariant
            end <= n,
            n == rest@.len(),
            number_run_end(rest@, 0) == number_run_end(rest@, end as int),
        decreases n - end,
    {
        end = end + 1;
    }
    if end >= n || end == 0 {
        return None;
    }
    let numeral = slice_to_vec(slice_subrange(rest, 0, end));
    assert(numeral@ =~= rest@.take(end as int));
    Some(numeral)
}

/// The truth value at the start of a text.
pub fn read_bool_prefix(rest: &[char]) -> (res: Option<bool>)
    ensures
        res == bool_prefix(rest@),
{
    if stands_in(rest, chars_of("true").as_slice(), 0) {
        Some(true)
    } else if stands_in(rest, chars_of("false").as_slice(), 0) {
        Some(false)
    } else {
        None
    }
}

/// The truth value that a field holds.
pub fn read_bool_field(json: &[char], key: &str) -> (res: Option<bool>)
    ensures
        res == bool_field(json@, key@),
{
    match rest_of_field(json, key) {
        Some(rest) => read_bool_prefix(rest.as_slice()),
        None => None,
    }
}

/// What `parse` makes of the numeral that a field holds, if there is one.
fn read_numeral_field<T, P: Fn(&str) -> Option<T>>(json: &[char], key: &str, parse: &P) -> (res:
    Option<T>)
    requires
        forall|s: &str| #[trigger] call_requires(*parse, (s,)),
    ensures
        parsed_numeral(numeral_field(json@, key@), *parse, res),
{
    match rest_of_field(json, key) {
        Some(rest) => match read_numeral_prefix(rest.as_slice()) {
            Some(numeral) => {
                let text = string_of(numeral.as_slice());
                let s = text.as_str();
                let value = parse(s);
                assert(s@ == numeral@ && call_ensures(*parse, (s,), value));
                value
            },
            None => None,
        },
        None => None,
    }
}

/// The norm epsilon that a configuration holds, or else the default. `parse`
/// turns a numeral into a number.
pub fn read_norm_eps<T, P: Fn(&str) -> Option<T>>(json: &[char], parse: &P, default: T) -> (res: T)
    requires
        forall|s: &str| #[trigger] call_requires(*parse, (s,)),
    ensures
        is_norm_eps(json@, *parse, default, res),
{
    match read_numeral_field(json, "layer_norm_epsilon", parse) {
        Some(v) => {
            assert(parsed_numeral(
                numeral_field(json@, "layer_norm_epsilon"@),
                *parse,
                Some(v),
            ));
            v
        },
        None => {
            assert(parsed_numeral(
                numeral_field(json@, "layer_norm_epsilon"@),
                *parse,
                None::<T>,
            ));
            let second = read_numeral_field(json, "layer_norm_eps", parse);
            match second {
                Some(v) => v,
                None => default,
            }
        },
    }
}

} // verus!
