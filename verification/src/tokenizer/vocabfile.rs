//! The two files of a byte-level BPE tokenizer: `vocab.json` (token to id) and
//! `merges.txt` (ordered merge rules).

pub mod meaning;

use vstd::prelude::*;
use vstd::slice::{slice_subrange, slice_to_vec};
use vstd::utf8::{decode_utf8, encode_utf8, valid_utf8};
use crate::error::{Error, Result};
use crate::text::{
    char_lists, chars_of, decimal_number, digit_run_end, find_char, index_of_char,
    lemma_digit_run_end, lines_of, read_decimal, skip_digits, split_lines, string_of, trim_end,
    trim_start, trimmed, utf8_text,
};
use crate::tokenizer::bytelevel::char_with_code;

verus! {

// ---------------------------------------------------------------------------
// Grammar of vocab.json
// ---------------------------------------------------------------------------

/// A token and its id.
pub type VocabItem = (Seq<char>, u32);

/// Position of the first character at or after `i` that is neither white space
/// nor a comma.
pub open spec fn separators_end(t: Seq<char>, i: int) -> int
    decreases t.len() - i,
{
    if 0 <= i < t.len() && (t[i] == ' ' || t[i] == '\t' || t[i] == '\n' || t[i] == '\r' || t[i]
        == ',') {
        separators_end(t, i + 1)
    } else {
        i
    }
}

/// Position of the first character at or after `i` that is not JSON white
/// space.
pub open spec fn blanks_end(t: Seq<char>, i: int) -> int
    decreases t.len() - i,
{
    if 0 <= i < t.len() && (t[i] == ' ' || t[i] == '\t' || t[i] == '\n' || t[i] == '\r') {
        blanks_end(t, i + 1)
    } else {
        i
    }
}

/// The value of a hexadecimal digit.
pub open spec fn hex_digit(c: char) -> Option<nat> {
    if '0' <= c <= '9' {
        Some((c as int - '0' as int) as nat)
    } else if 'a' <= c <= 'f' {
        Some((c as int - 'a' as int + 10) as nat)
    } else if 'A' <= c <= 'F' {
        Some((c as int - 'A' as int + 10) as nat)
    } else {
        None
    }
}

/// The number that a sequence of hexadecimal digits denotes, if it is one.
pub open spec fn hex_digits_value(digits: Seq<char>) -> Option<nat>
    decreases digits.len(),
{
    if digits.len() == 0 {
        Some(0)
    } else {
        match (hex_digits_value(digits.drop_last()), hex_digit(digits.last())) {
            (Some(v), Some(d)) => Some(v * 16 + d),
            _ => None,
        }
    }
}

/// The number that a hexadecimal numeral denotes, if it is one. It may have a
/// plus sign in front.
pub open spec fn hex_value(numeral: Seq<char>) -> Option<nat> {
    let digits = if numeral.len() > 0 && numeral[0] == '+' {
        numeral.drop_first()
    } else {
        numeral
    };
    if digits.len() == 0 {
        None
    } else {
        hex_digits_value(digits)
    }
}

/// Position behind the numeral of a `\u` escape whose digits start at `i`: it has
/// four characters, or what is left of the text.
pub open spec fn numeral_end(t: Seq<char>, i: int) -> int {
    if i + 4 <= t.len() {
        i + 4
    } else {
        t.len() as int
    }
}

/// The UTF-16 code unit of a `\u` escape whose digits start at `i`.
pub open spec fn escaped_unit(t: Seq<char>, i: int) -> Result<nat> {
    let numeral = t.subrange(i, numeral_end(t, i));
    if encode_utf8(numeral).len() != 4 {
        Err(Error::InvalidTokenizer("vocab.json: short \\u escape"))
    } else {
        match hex_value(numeral) {
            None => Err(Error::InvalidTokenizer("vocab.json: bad \\u hex")),
            Some(code) => Ok(code),
        }
    }
}

/// A code unit that starts a surrogate pair.
pub open spec fn is_high_surrogate(unit: nat) -> bool {
    0xd800 <= unit <= 0xdbff
}

/// A code unit that ends a surrogate pair.
pub open spec fn is_low_surrogate(unit: nat) -> bool {
    0xdc00 <= unit <= 0xdfff
}

/// The low surrogate that an escape at `i` stands for, if there is one.
pub open spec fn low_surrogate_at(t: Seq<char>, i: int) -> Option<nat> {
    if 0 <= i && i + 2 <= t.len() && t[i] == '\\' && t[i + 1] == 'u' {
        match escaped_unit(t, i + 2) {
            Ok(unit) => if is_low_surrogate(unit) {
                Some(unit)
            } else {
                None
            },
            Err(_) => None,
        }
    } else {
        None
    }
}

/// The code point of a surrogate pair.
pub open spec fn pair_code(high: nat, low: nat) -> nat {
    (0x10000 + (high - 0xd800) * 0x400 + (low - 0xdc00)) as nat
}

/// The character with the given code point. A code point without a character is
/// shown as the replacement character.
pub open spec fn escaped_char(code: nat) -> char {
    match char_with_code(code as u32) {
        Some(c) => c,
        None => '\u{FFFD}',
    }
}

/// What one escape letter other than `u` stands for.
pub open spec fn simple_escape(c: char) -> char {
    if c == 'n' {
        '\n'
    } else if c == 't' {
        '\t'
    } else if c == 'r' {
        '\r'
    } else if c == 'b' {
        '\u{8}'
    } else if c == 'f' {
        '\u{c}'
    } else {
        c
    }
}

/// The rest of a string whose characters so far are `acc`, and the position
/// behind its closing quote.
pub open spec fn key_tail(t: Seq<char>, i: int, acc: Seq<char>) -> Result<(Seq<char>, int)>
    decreases t.len() - i,
{
    if !(0 <= i < t.len()) {
        Err(Error::InvalidTokenizer("vocab.json: unterminated string"))
    } else if t[i] == '"' {
        Ok((acc, i + 1))
    } else if t[i] == '\\' {
        if i + 1 >= t.len() {
            Err(Error::InvalidTokenizer("vocab.json: bad escape"))
        } else if t[i + 1] == 'u' {
            match escaped_unit(t, i + 2) {
                Err(e) => Err(e),
                Ok(unit) => {
                    let end = numeral_end(t, i + 2);
                    match low_surrogate_at(t, end) {
                        Some(low) if is_high_surrogate(unit) => key_tail(
                            t,
                            numeral_end(t, end + 2),
                            acc.push(escaped_char(pair_code(unit, low))),
                        ),
                        _ => key_tail(t, end, acc.push(escaped_char(unit))),
                    }
                },
            }
        } else {
            key_tail(t, i + 2, acc.push(simple_escape(t[i + 1])))
        }
    } else {
        key_tail(t, i + 1, acc.push(t[i]))
    }
}

/// The member of the vocabulary object whose opening quote stands at `i`.
pub open spec fn vocab_item_at(t: Seq<char>, i: int) -> Result<(VocabItem, int)> {
    match key_tail(t, i + 1, Seq::empty()) {
        Err(e) => Err(e),
        Ok((key, a)) => {
            let colon = blanks_end(t, a);
            if !(0 <= colon < t.len() && t[colon] == ':') {
                Err(Error::InvalidTokenizer("vocab.json: expected ':'"))
            } else {
                let start = blanks_end(t, colon + 1);
                let end = digit_run_end(t, start);
                let id = decimal_number(t.subrange(start, end));
                if start == end {
                    Err(Error::InvalidTokenizer("vocab.json: expected integer value"))
                } else if id > u32::MAX {
                    Err(Error::InvalidTokenizer("vocab.json: token id overflow"))
                } else {
                    Ok(((key, id as u32), end))
                }
            }
        },
    }
}

/// The rest of the vocabulary object whose members so far are `acc`. What
/// follows the closing brace is not looked at, and the brace may be missing.
pub open spec fn vocab_tail(t: Seq<char>, i: int, acc: Seq<VocabItem>) -> Result<Seq<VocabItem>>
    decreases t.len() - i,
{
    let j = separators_end(t, i);
    if i < 0 || j >= t.len() || t[j] == '}' {
        Ok(acc)
    } else if t[j] != '"' {
        Err(Error::InvalidTokenizer("vocab.json: expected string key"))
    } else {
        match vocab_item_at(t, j) {
            Err(e) => Err(e),
            Ok((item, k)) => {
                proof {
                    lemma_separators_end(t, i);
                    lemma_vocab_item_at(t, j);
                }
                vocab_tail(t, k, acc.push(item))
            },
        }
    }
}

/// The members of a trimmed `vocab.json` in file order.
pub open spec fn vocab_items(t: Seq<char>) -> Result<Seq<VocabItem>> {
    if t.len() == 0 || t[0] != '{' {
        Err(Error::InvalidTokenizer("vocab.json: expected '{'"))
    } else {
        vocab_tail(t, 1, Seq::empty())
    }
}

/// The members that the bytes of a `vocab.json` list, in file order.
pub open spec fn vocab_json_items(bytes: Seq<u8>) -> Result<Seq<VocabItem>> {
    if !valid_utf8(bytes) {
        Err(Error::InvalidTokenizer("vocab.json is not valid UTF-8"))
    } else {
        vocab_items(trim_end(trim_start(decode_utf8(bytes))))
    }
}

pub proof fn lemma_separators_end(t: Seq<char>, i: int)
    ensures
        i <= separators_end(t, i),
        i <= t.len() ==> separators_end(t, i) <= t.len(),
    decreases t.len() - i,
{
    if 0 <= i < t.len() {
        lemma_separators_end(t, i + 1);
    }
}

pub proof fn lemma_blanks_end(t: Seq<char>, i: int)
    ensures
        i <= blanks_end(t, i),
        i <= t.len() ==> blanks_end(t, i) <= t.len(),
    decreases t.len() - i,
{
    if 0 <= i < t.len() {
        lemma_blanks_end(t, i + 1);
    }
}

pub proof fn lemma_key_tail(t: Seq<char>, i: int, acc: Seq<char>)
    requires
        0 <= i,
    ensures
        key_tail(t, i, acc) matches Ok((_, j)) ==> i < j <= t.len(),
    decreases t.len() - i,
{
    if i < t.len() && t[i] != '"' {
        if t[i] == '\\' {
            if i + 1 < t.len() {
                if t[i + 1] == 'u' {
                    if let Ok(unit) = escaped_unit(t, i + 2) {
                        let end = numeral_end(t, i + 2);
                        lemma_key_tail(t, end, acc.push(escaped_char(unit)));
                        if let Some(low) = low_surrogate_at(t, end) {
                            lemma_key_tail(
                                t,
                                numeral_end(t, end + 2),
                                acc.push(escaped_char(pair_code(unit, low))),
                            );
                        }
                    }
                } else {
                    lemma_key_tail(t, i + 2, acc.push(simple_escape(t[i + 1])));
                }
            }
        } else {
            lemma_key_tail(t, i + 1, acc.push(t[i]));
        }
    }
}

pub proof fn lemma_vocab_item_at(t: Seq<char>, i: int)
    requires
        0 <= i,
    ensures
        vocab_item_at(t, i) matches Ok((_, j)) ==> i < j <= t.len(),
{
    lemma_key_tail(t, i + 1, Seq::empty());
    if let Ok((key, a)) = key_tail(t, i + 1, Seq::empty()) {
        lemma_blanks_end(t, a);
        let colon = blanks_end(t, a);
        lemma_blanks_end(t, colon + 1);
        lemma_digit_run_end(t, blanks_end(t, colon + 1));
    }
}

// ---------------------------------------------------------------------------
// Grammar of merges.txt
// ---------------------------------------------------------------------------

/// A merge rule: the two tokens that become one.
pub type MergeRule = (Seq<char>, Seq<char>);

/// A trimmed line that holds no rule: it is empty or a comment.
pub open spec fn is_blank_or_comment(line: Seq<char>) -> bool {
    line.len() == 0 || line[0] == '#'
}

/// The rules of the trimmed lines from number `i` on, appended to `acc`.
pub open spec fn rules_from(lines: Seq<Seq<char>>, i: int, acc: Seq<MergeRule>) -> Result<
    Seq<MergeRule>,
>
    decreases lines.len() - i,
{
    if !(0 <= i < lines.len()) {
        Ok(acc)
    } else if is_blank_or_comment(lines[i]) {
        rules_from(lines, i + 1, acc)
    } else {
        match index_of_char(lines[i], ' ', 0) {
            None => Err(Error::InvalidTokenizer("merges.txt: line missing space")),
            Some(sep) => rules_from(
                lines,
                i + 1,
                acc.push((lines[i].take(sep), lines[i].skip(sep + 1))),
            ),
        }
    }
}

/// The rules that the bytes of a `merges.txt` list. The rank of a rule is its
/// number in this list.
pub open spec fn merges_txt_rules(bytes: Seq<u8>) -> Result<Seq<MergeRule>> {
    if !valid_utf8(bytes) {
        Err(Error::InvalidTokenizer("merges.txt is not valid UTF-8"))
    } else {
        rules_from(
            lines_of(decode_utf8(bytes)).map_values(|l: Seq<char>| trim_end(trim_start(l))),
            0,
            Seq::empty(),
        )
    }
}

// ---------------------------------------------------------------------------
// Parsers
// ---------------------------------------------------------------------------

/// The tokens and ids of a vocabulary, viewed as items.
pub open spec fn items_of(tokens: Seq<String>, ids: Seq<u32>) -> Seq<VocabItem> {
    Seq::new(tokens.len(), |k: int| (tokens[k]@, ids[k]))
}

/// A parsed `vocab.json`: tokens and their ids, in file order.
pub struct VocabFile {
    pub tokens: Vec<String>,
    pub ids: Vec<u32>,
}

impl VocabFile {
    pub open spec fn items(&self) -> Seq<VocabItem> {
        items_of(self.tokens@, self.ids@)
    }
}

/// A parsed `merges.txt`: each rule as its line, and where in the line the space
/// between the two tokens stands.
pub struct MergesFile {
    pub lines: Vec<String>,
    pub seps: Vec<usize>,
}

/// The rules that lines with their separator positions stand for.
pub open spec fn rules_of(lines: Seq<Seq<char>>, seps: Seq<usize>) -> Seq<MergeRule> {
    Seq::new(
        lines.len(),
        |k: int| (lines[k].take(seps[k] as int), lines[k].skip(seps[k] + 1)),
    )
}

/// Each separator is the first space of its line.
pub open spec fn separators_fit(lines: Seq<Seq<char>>, seps: Seq<usize>) -> bool {
    &&& lines.len() == seps.len()
    &&& forall|k: int|
        0 <= k < lines.len() ==> index_of_char(#[trigger] lines[k], ' ', 0) == Some(seps[k] as int)
}

fn skip_separators(t: &[char], from: usize) -> (res: usize)
    requires
        from <= t@.len(),
    ensures
        res == separators_end(t@, from as int),
        from <= res <= t@.len(),
{
    let n: usize = t.len();
    let mut i: usize = from;
    while i < n && (t[i] == ' ' || t[i] == '\t' || t[i] == '\n' || t[i] == '\r' || t[i] == ',')
        invariant
            from <= i <= n,
            n == t@.len(),
            separators_end(t@, from as int) == separators_end(t@, i as int),
        decreases n - i,
    {
        i = i + 1;
    }
    i
}

fn skip_blanks(t: &[char], from: usize) -> (res: usize)
    requires
        from <= t@.len(),
    ensures
        res == blanks_end(t@, from as int),
        from <= res <= t@.len(),
{
    let n: usize = t.len();
    let mut i: usize = from;
    while i < n && (t[i] == ' ' || t[i] == '\t' || t[i] == '\n' || t[i] == '\r')
        invariant
            from <= i <= n,
            n == t@.len(),
            blanks_end(t@, from as int) == blanks_end(t@, i as int),
        decreases n - i,
    {
        i = i + 1;
    }
    i
}

fn read_hex_digit(c: char) -> (res: Option<u32>)
    ensures
        match res {
            Some(d) => hex_digit(c) == Some(d as nat) && d < 16,
            None => hex_digit(c) is None,
        },
{
    if '0' <= c && c <= '9' {
        Some(c as u32 - '0' as u32)
    } else if 'a' <= c && c <= 'f' {
        Some(c as u32 - 'a' as u32 + 10)
    } else if 'A' <= c && c <= 'F' {
        Some(c as u32 - 'A' as u32 + 10)
    } else {
        None
    }
}

/// A numeral stays without value if one of its digits is none.
proof fn lemma_hex_none(digits: Seq<char>, k: int)
    requires
        0 <= k <= digits.len(),
        hex_digits_value(digits.take(k)) is None,
    ensures
        hex_digits_value(digits) is None,
    decreases digits.len() - k,
{
    if k < digits.len() {
        assert(digits.take(k + 1).drop_last() =~= digits.take(k));
        lemma_hex_none(digits, k + 1);
    } else {
        assert(digits.take(k) =~= digits);
    }
}

/// The number that a hexadecimal numeral of at most four characters denotes.
pub fn read_hex(numeral: &[char]) -> (res: Option<u32>)
    requires
        numeral@.len() <= 4,
    ensures
        match res {
            Some(v) => hex_value(numeral@) == Some(v as nat),
            None => hex_value(numeral@) is None,
        },
{
    let n: usize = numeral.len();
    let start: usize = if n > 0 && numeral[0] == '+' {
        1
    } else {
        0
    };
    let ghost digits = numeral@.skip(start as int);
    assert(start == 1 ==> digits =~= numeral@.drop_first());
    assert(start == 0 ==> digits =~= numeral@);
    if n == start {
        return None;
    }
    let mut value: u32 = 0;
    let mut i: usize = start;
    assert(digits.take(0) =~= Seq::<char>::empty());
    while i < n
        invariant
            start <= i <= n <= 4,
            n == numeral@.len(),
            start <= 1,
            digits == numeral@.skip(start as int),
            digits.len() > 0,
            hex_value(numeral@) == hex_digits_value(digits),
            hex_digits_value(digits.take(i - start)) == Some(value as nat),
            i == start ==> value == 0,
            i == start + 1 ==> value < 16,
            i == start + 2 ==> value < 256,
            i == start + 3 ==> value < 4096,
        decreases n - i,
    {
        assert(digits.take(i - start + 1).drop_last() =~= digits.take(i - start));
        assert(digits.take(i - start + 1).last() == numeral@[i as int]);
        match read_hex_digit(numeral[i]) {
            Some(d) => {
                value = value * 16 + d;
            },
            None => {
                proof {
                    lemma_hex_none(digits, i - start + 1);
                }
                return None;
            },
        }
        i = i + 1;
    }
    assert(digits.take(n - start) =~= digits);
    Some(value)
}

/// The UTF-16 code unit of a `\u` escape whose digits start at `start`, and the
/// position behind them.
fn read_unit(t: &[char], start: usize) -> (res: Result<(u32, usize)>)
    requires
        start <= t@.len(),
    ensures
        match escaped_unit(t@, start as int) {
            Ok(unit) => res matches Ok((code, end)) && code == unit && end == numeral_end(
                t@,
                start as int,
            ),
            Err(e) => res == Err::<(u32, usize), Error>(e),
        },
{
    let n: usize = t.len();
    let end: usize = if n - start >= 4 {
        start + 4
    } else {
        n
    };
    let numeral = slice_to_vec(slice_subrange(t, start, end));
    assert(numeral@ == t@.subrange(start as int, numeral_end(t@, start as int)));
    let text = string_of(numeral.as_slice());
    if text.as_str().as_bytes().len() != 4 {
        return Err(Error::InvalidTokenizer("vocab.json: short \\u escape"));
    }
    match read_hex(numeral.as_slice()) {
        Some(code) => Ok((code, end)),
        None => Err(Error::InvalidTokenizer("vocab.json: bad \\u hex")),
    }
}

/// The low surrogate that an escape at `at` stands for, if there is one, and the
/// position behind it.
fn read_low_surrogate(t: &[char], at: usize) -> (res: Option<(u32, usize)>)
    requires
        at <= t@.len(),
    ensures
        match low_surrogate_at(t@, at as int) {
            Some(low) => res matches Some((unit, end)) && unit == low && end == numeral_end(
                t@,
                at + 2,
            ),
            None => res is None,
        },
{
    if t.len() - at < 2 || t[at] != '\\' || t[at + 1] != 'u' {
        return None;
    }
    match read_unit(t, at + 2) {
        Ok((unit, end)) => {
            if 0xdc00 <= unit && unit <= 0xdfff {
                Some((unit, end))
            } else {
                None
            }
        },
        Err(_) => None,
    }
}

/// The character with the given code point.
fn read_escaped_char(code: u32) -> (res: char)
    ensures
        res == escaped_char(code as nat),
{
    match char::from_u32(code) {
        Some(c) => c,
        None => '\u{FFFD}',
    }
}

/// Parses a JSON string whose first character stands at `from`, behind the
/// opening quote. Gives the string and the position behind the closing quote.
pub fn parse_json_string(t: &[char], from: usize) -> (res: Result<(Vec<char>, usize)>)
    requires
        from <= t@.len(),
    ensures
        match key_tail(t@, from as int, Seq::empty()) {
            Ok((key, end)) => res matches Ok((chars, pos)) && chars@ == key && pos == end && pos
                <= t@.len(),
            Err(e) => res == Err::<(Vec<char>, usize), Error>(e),
        },
{
    let n: usize = t.len();
    let mut result: Vec<char> = Vec::new();
    let mut i: usize = from;
    assert(result@ =~= Seq::<char>::empty());
    while i < n
        invariant
            i <= n,
            n == t@.len(),
            key_tail(t@, i as int, result@) == key_tail(t@, from as int, Seq::empty()),
        decreases n - i,
    {
        let c: char = t[i];
        if c == '"' {
            return Ok((result, i + 1));
        } else if c == '\\' {
            if n - i < 2 {
                return Err(Error::InvalidTokenizer("vocab.json: bad escape"));
            }
            let e: char = t[i + 1];
            if e == 'u' {
                let (unit, end) = match read_unit(t, i + 2) {
                    Ok(pair) => pair,
                    Err(error) => {
                        return Err(error);
                    },
                };
                let pair = if 0xd800 <= unit && unit <= 0xdbff {
                    read_low_surrogate(t, end)
                } else {
                    None
                };
                match pair {
                    Some((low, after)) => {
                        result.push(
                            read_escaped_char(0x10000 + (unit - 0xd800) * 0x400 + (low - 0xdc00)),
                        );
                        i = after;
                    },
                    None => {
                        result.push(read_escaped_char(unit));
                        i = end;
                    },
                }
            } else {
                result.push(
                    if e == 'n' {
                        '\n'
                    } else if e == 't' {
                        '\t'
                    } else if e == 'r' {
                        '\r'
                    } else if e == 'b' {
                        '\u{8}'
                    } else if e == 'f' {
                        '\u{c}'
                    } else {
                        e
                    },
                );
                i = i + 2;
            }
        } else {
            result.push(c);
            i = i + 1;
        }
    }
    Err(Error::InvalidTokenizer("vocab.json: unterminated string"))
}

/// Parses the text of a `vocab.json`, which has been trimmed.
pub fn parse_vocab_text(t: &[char]) -> (res: Result<VocabFile>)
    ensures
        match vocab_items(t@) {
            Ok(items) => res matches Ok(file) && file.tokens@.len() == file.ids@.len()
                && file.items() == items,
            Err(e) => res == Err::<VocabFile, Error>(e),
        },
{
    let n: usize = t.len();
    if n == 0 || t[0] != '{' {
        return Err(Error::InvalidTokenizer("vocab.json: expected '{'"));
    }
    let mut tokens: Vec<String> = Vec::new();
    let mut ids: Vec<u32> = Vec::new();
    let mut pos: usize = 1;
    assert(items_of(tokens@, ids@) =~= Seq::<VocabItem>::empty());
    loop
        invariant
            pos <= n,
            n == t@.len(),
            tokens@.len() == ids@.len(),
            vocab_tail(t@, pos as int, items_of(tokens@, ids@)) == vocab_items(t@),
        decreases n - pos,
    {
        let at: usize = skip_separators(t, pos);
        if at >= n || t[at] == '}' {
            return Ok(VocabFile { tokens, ids });
        }
        if t[at] != '"' {
            return Err(Error::InvalidTokenizer("vocab.json: expected string key"));
        }
        proof {
            lemma_vocab_item_at(t@, at as int);
        }
        let (key, after) = match parse_json_string(t, at + 1) {
            Ok(pair) => pair,
            Err(e) => {
                return Err(e);
            },
        };
        let colon: usize = skip_blanks(t, after);
        if colon >= n || t[colon] != ':' {
            return Err(Error::InvalidTokenizer("vocab.json: expected ':'"));
        }
        let start: usize = skip_blanks(t, colon + 1);
        let end: usize = skip_digits(t, start);
        if start == end {
            return Err(Error::InvalidTokenizer("vocab.json: expected integer value"));
        }
        proof {
            lemma_digit_run_end(t@, start as int);
        }
        let id: u32 = match read_decimal(t, start, end) {
            Some(v) => {
                if v > u32::MAX as u64 {
                    return Err(Error::InvalidTokenizer("vocab.json: token id overflow"));
                }
                v as u32
            },
            None => {
                return Err(Error::InvalidTokenizer("vocab.json: token id overflow"));
            },
        };
        let ghost before = items_of(tokens@, ids@);
        let token = string_of(key.as_slice());
        tokens.push(token);
        ids.push(id);
        assert(items_of(tokens@, ids@) =~= before.push((token@, id)));
        pos = end;
    }
}

/// Minimal parser for `{"token": id, ...}` JSON (`vocab.json` format).
pub fn parse_vocab_json(bytes: &[u8]) -> (res: Result<VocabFile>)
    ensures
        match vocab_json_items(bytes@) {
            Ok(items) => res matches Ok(file) && file.tokens@.len() == file.ids@.len()
                && file.items() == items,
            Err(e) => res == Err::<VocabFile, Error>(e),
        },
{
    match utf8_text(bytes) {
        Some(text) => parse_vocab_text(trimmed(chars_of(text).as_slice()).as_slice()),
        None => Err(Error::InvalidTokenizer("vocab.json is not valid UTF-8")),
    }
}

/// Collects the rules of trimmed lines.
pub fn collect_rules(lines: &[Vec<char>]) -> (res: Result<MergesFile>)
    ensures
        match rules_from(char_lists(lines@), 0, Seq::empty()) {
            Ok(rules) => res matches Ok(file) && rules_of(
                crate::table::texts(file.lines@),
                file.seps@,
            ) == rules && separators_fit(crate::table::texts(file.lines@), file.seps@),
            Err(e) => res == Err::<MergesFile, Error>(e),
        },
{
    let n: usize = lines.len();
    let mut kept: Vec<String> = Vec::new();
    let mut seps: Vec<usize> = Vec::new();
    let mut i: usize = 0;
    let ghost all = char_lists(lines@);
    assert(rules_of(crate::table::texts(kept@), seps@) =~= Seq::<MergeRule>::empty());
    while i < n
        invariant
            i <= n,
            n == lines@.len(),
            all == char_lists(lines@),
            separators_fit(crate::table::texts(kept@), seps@),
            rules_from(all, i as int, rules_of(crate::table::texts(kept@), seps@)) == rules_from(
                all,
                0,
                Seq::empty(),
            ),
        decreases n - i,
    {
        let line = &lines[i];
        assert(all[i as int] == line@);
        if line.len() > 0 && line[0] != '#' {
            match find_char(line.as_slice(), ' ', 0) {
                None => {
                    return Err(Error::InvalidTokenizer("merges.txt: line missing space"));
                },
                Some(sep) => {
                    let ghost before = crate::table::texts(kept@);
                    let ghost before_seps = seps@;
                    let text = string_of(line.as_slice());
                    kept.push(text);
                    seps.push(sep);
                    proof {
                        let after = crate::table::texts(kept@);
                        assert(after =~= before.push(line@));
                        assert(rules_of(after, seps@) =~= rules_of(before, before_seps).push(
                            (line@.take(sep as int), line@.skip(sep + 1)),
                        ));
                        assert forall|k: int| 0 <= k < after.len() implies index_of_char(
                            #[trigger] after[k],
                            ' ',
                            0,
                        ) == Some(seps@[k] as int) by {
                            if k < before.len() {
                                assert(after[k] == before[k]);
                            }
                        }
                    }
                },
            }
        }
        i = i + 1;
    }
    Ok(MergesFile { lines: kept, seps })
}

/// Parses `merges.txt`: one `"left right"` merge per line, `#` = comment.
pub fn parse_merges_txt(bytes: &[u8]) -> (res: Result<MergesFile>)
    ensures
        match merges_txt_rules(bytes@) {
            Ok(rules) => res matches Ok(file) && rules_of(
                crate::table::texts(file.lines@),
                file.seps@,
            ) == rules && separators_fit(crate::table::texts(file.lines@), file.seps@),
            Err(e) => res == Err::<MergesFile, Error>(e),
        },
{
    let text = match utf8_text(bytes) {
        Some(text) => text,
        None => {
            return Err(Error::InvalidTokenizer("merges.txt is not valid UTF-8"));
        },
    };
    let lines = split_lines(chars_of(text).as_slice());
    let n: usize = lines.len();
    let mut short: Vec<Vec<char>> = Vec::new();
    let mut i: usize = 0;
    let ghost all = lines_of(text@).map_values(|l: Seq<char>| trim_end(trim_start(l)));
    while i < n
        invariant
            i <= n,
            n == lines@.len(),
            char_lists(lines@) == lines_of(text@),
            all == lines_of(text@).map_values(|l: Seq<char>| trim_end(trim_start(l))),
            char_lists(short@) == all.take(i as int),
        decreases n - i,
    {
        let ghost before = short@;
        let line = trimmed(lines[i].as_slice());
        short.push(line);
        proof {
            assert(char_lists(lines@)[i as int] == lines@[i as int]@);
            assert(char_lists(short@) =~= char_lists(before).push(line@));
            assert(all.take(i + 1) =~= all.take(i as int).push(all[i as int]));
        }
        i = i + 1;
    }
    assert(all.take(n as int) =~= all);
    collect_rules(short.as_slice())
}

} // verus!
