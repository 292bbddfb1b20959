//! Characters, strings and UTF-8: the small vocabulary of text operations that
//! the parsers and tokenizers are written in.

use vstd::prelude::*;
use vstd::slice::{slice_subrange, slice_to_vec};
use vstd::string::StringExecFns;
use vstd::utf8::{decode_utf8, encode_utf8, valid_utf8};

verus! {

/// `String::push` appends one character.
pub assume_specification[ String::push ](s: &mut String, c: char)
    ensures
        final(s)@ == old(s)@.push(c),
;

/// The characters with the Unicode property `White_Space`.
pub open spec fn is_white_space(c: char) -> bool {
    let cp = c as u32;
    ||| 0x09 <= cp <= 0x0d
    ||| cp == 0x20
    ||| cp == 0x85
    ||| cp == 0xa0
    ||| cp == 0x1680
    ||| 0x2000 <= cp <= 0x200a
    ||| cp == 0x2028
    ||| cp == 0x2029
    ||| cp == 0x202f
    ||| cp == 0x205f
    ||| cp == 0x3000
}

/// Calls `char::is_whitespace`, which holds of the characters with the Unicode
/// property `White_Space`.
#[verifier::external_body]
pub(crate) fn char_is_whitespace(c: char) -> (res: bool)
    ensures
        res == is_white_space(c),
{
    c.is_whitespace()
}

/// Calls `core::str::from_utf8`: the bytes as text when they are valid UTF-8,
/// `None` when they are not.
#[verifier::external_body]
pub(crate) fn utf8_text(bytes: &[u8]) -> (res: Option<&str>)
    ensures
        match res {
            Some(s) => valid_utf8(bytes@) && s@ == decode_utf8(bytes@),
            None => !valid_utf8(bytes@),
        },
{
    core::str::from_utf8(bytes).ok()
}

/// The characters of a string.
pub fn chars_of(s: &str) -> (res: Vec<char>)
    ensures
        res@ == s@,
{
    let mut out: Vec<char> = Vec::new();
    for c in iter: s.chars()
        invariant
            out@ == s@.take(iter.index() as int),
            iter.seq() == s@,
    {
        out.push(c);
    }
    out
}

/// The string that consists of the given characters.
pub fn string_of(chars: &[char]) -> (res: String)
    ensures
        res@ == chars@,
{
    let mut out = String::new();
    let n: usize = chars.len();
    let mut i: usize = 0;
    while i < n
        invariant
            i <= n,
            n == chars@.len(),
            out@ == chars@.take(i as int),
        decreases n - i,
    {
        out.push(chars[i]);
        i = i + 1;
        assert(chars@.take(i as int) =~= chars@.take(i - 1).push(chars@[i - 1]));
    }
    assert(chars@.take(n as int) =~= chars@);
    out
}

/// Equal encodings come from equal texts.
pub proof fn lemma_utf8_injective(a: Seq<char>, b: Seq<char>)
    ensures
        encode_utf8(a) == encode_utf8(b) ==> a == b,
{
    vstd::utf8::encode_utf8_decode_utf8(a);
    vstd::utf8::encode_utf8_decode_utf8(b);
}

/// The encoding of two texts put together is their encodings put together.
pub proof fn lemma_utf8_concat(a: Seq<char>, b: Seq<char>)
    ensures
        encode_utf8(a + b) == encode_utf8(a) + encode_utf8(b),
    decreases a.len(),
{
    if a.len() == 0 {
        assert(a + b =~= b);
        assert(encode_utf8(a) + encode_utf8(b) =~= encode_utf8(b));
    } else {
        lemma_utf8_concat(a.drop_first(), b);
        assert((a + b).drop_first() =~= a.drop_first() + b);
        assert(encode_utf8(a + b) =~= encode_utf8(a) + encode_utf8(b));
    }
}

/// Whether two strings hold the same text.
pub fn same_text(a: &str, b: &str) -> (res: bool)
    ensures
        res == (a@ == b@),
{
    let x = a.as_bytes();
    let y = b.as_bytes();
    proof {
        lemma_utf8_injective(a@, b@);
    }
    let n: usize = x.len();
    if n != y.len() {
        return false;
    }
    let mut i: usize = 0;
    while i < n
        invariant
            i <= n,
            n == x@.len(),
            n == y@.len(),
            x@ == encode_utf8(a@),
            y@ == encode_utf8(b@),
            forall|j: int| 0 <= j < i ==> x@[j] == y@[j],
        decreases n - i,
    {
        if x[i] != y[i] {
            return false;
        }
        i = i + 1;
    }
    assert(x@ =~= y@);
    true
}

// ---------------------------------------------------------------------------
// Searching and trimming
// ---------------------------------------------------------------------------

/// The first position at or after `i` at which `c` stands.
pub open spec fn index_of_char(s: Seq<char>, c: char, i: int) -> Option<int>
    decreases s.len() - i,
{
    if !(0 <= i < s.len()) {
        None
    } else if s[i] == c {
        Some(i)
    } else {
        index_of_char(s, c, i + 1)
    }
}

pub proof fn lemma_index_of_char(s: Seq<char>, c: char, i: int)
    requires
        0 <= i,
    ensures
        match index_of_char(s, c, i) {
            Some(k) => i <= k < s.len() && s[k] == c && forall|j: int| i <= j < k ==> s[j] != c,
            None => forall|j: int| i <= j < s.len() ==> s[j] != c,
        },
    decreases s.len() - i,
{
    if i < s.len() && s[i] != c {
        lemma_index_of_char(s, c, i + 1);
    }
}

/// The first position at or after `from` at which `c` stands.
pub fn find_char(s: &[char], c: char, from: usize) -> (res: Option<usize>)
    requires
        from <= s@.len(),
    ensures
        match res {
            Some(k) => index_of_char(s@, c, from as int) == Some(k as int),
            None => index_of_char(s@, c, from as int) is None,
        },
{
    let n: usize = s.len();
    let mut i: usize = from;
    while i < n
        invariant
            from <= i <= n,
            n == s@.len(),
            index_of_char(s@, c, from as int) == index_of_char(s@, c, i as int),
        decreases n - i,
    {
        if s[i] == c {
            return Some(i);
        }
        i = i + 1;
    }
    None
}

/// The text without the characters `c` at its end.
pub open spec fn trim_end_char(s: Seq<char>, c: char) -> Seq<char>
    decreases s.len(),
{
    if s.len() > 0 && s.last() == c {
        trim_end_char(s.drop_last(), c)
    } else {
        s
    }
}

/// The text without the characters `c` at its end.
pub fn trimmed_end_char(s: &[char], c: char) -> (res: Vec<char>)
    ensures
        res@ == trim_end_char(s@, c),
{
    let mut n: usize = s.len();
    assert(s@.take(n as int) =~= s@);
    while n > 0 && s[n - 1] == c
        invariant
            n <= s@.len(),
            trim_end_char(s@.take(n as int), c) == trim_end_char(s@, c),
        decreases n,
    {
        assert(s@.take(n as int).drop_last() =~= s@.take(n - 1));
        n = n - 1;
    }
    slice_to_vec(slice_subrange(s, 0, n))
}

/// The text without white space at its start.
pub open spec fn trim_start(s: Seq<char>) -> Seq<char>
    decreases s.len(),
{
    if s.len() > 0 && is_white_space(s[0]) {
        trim_start(s.drop_first())
    } else {
        s
    }
}

/// White space in front of a text makes no difference to what is left of it.
pub proof fn lemma_trim_start_skips(a: Seq<char>, s: Seq<char>)
    requires
        forall|j: int| 0 <= j < a.len() ==> is_white_space(#[trigger] a[j]),
    ensures
        trim_start(a + s) == trim_start(s),
    decreases a.len(),
{
    if a.len() == 0 {
        assert(a + s =~= s);
    } else {
        assert((a + s).drop_first() =~= a.drop_first() + s);
        assert((a + s)[0] == a[0]);
        assert forall|j: int| 0 <= j < a.drop_first().len() implies is_white_space(
            #[trigger] a.drop_first()[j],
        ) by {
            assert(a.drop_first()[j] == a[j + 1]);
        }
        lemma_trim_start_skips(a.drop_first(), s);
    }
}

/// The text without white space at its end.
pub open spec fn trim_end(s: Seq<char>) -> Seq<char>
    decreases s.len(),
{
    if s.len() > 0 && is_white_space(s.last()) {
        trim_end(s.drop_last())
    } else {
        s
    }
}

/// The text without white space at its start.
pub fn trimmed_start(s: &[char]) -> (res: Vec<char>)
    ensures
        res@ == trim_start(s@),
{
    let n: usize = s.len();
    let mut i: usize = 0;
    assert(s@.skip(0) =~= s@);
    while i < n
        invariant
            i <= n,
            n == s@.len(),
            trim_start(s@.skip(i as int)) == trim_start(s@),
        ensures
            i <= n,
            s@.skip(i as int) == trim_start(s@),
        decreases n - i,
    {
        assert(s@.skip(i as int)[0] == s@[i as int]);
        if !char_is_whitespace(s[i]) {
            break;
        }
        assert(s@.skip(i as int).drop_first() =~= s@.skip(i + 1));
        i = i + 1;
    }
    let out = slice_to_vec(slice_subrange(s, i, n));
    assert(out@ =~= s@.skip(i as int));
    out
}

/// The text without white space at its start and end.
pub fn trimmed(s: &[char]) -> (res: Vec<char>)
    ensures
        res@ == trim_end(trim_start(s@)),
{
    let start = trimmed_start(s);
    let mut n: usize = start.len();
    assert(start@.take(n as int) =~= start@);
    while n > 0
        invariant
            n <= start@.len(),
            trim_end(start@.take(n as int)) == trim_end(start@),
        ensures
            start@.take(n as int) == trim_end(start@),
        decreases n,
    {
        assert(start@.take(n as int).last() == start@[n - 1]);
        if !char_is_whitespace(start[n - 1]) {
            break;
        }
        assert(start@.take(n as int).drop_last() =~= start@.take(n - 1));
        n = n - 1;
    }
    slice_to_vec(slice_subrange(start.as_slice(), 0, n))
}

// ---------------------------------------------------------------------------
// Lines
// ---------------------------------------------------------------------------

/// A line that a newline ends, without the carriage return that may precede
/// the newline.
pub open spec fn without_return(line: Seq<char>) -> Seq<char> {
    if line.len() > 0 && line.last() == '\r' {
        line.drop_last()
    } else {
        line
    }
}

/// The lines of a text. A line ends at a newline, which a carriage return may
/// precede; the last line need not be ended.
pub open spec fn lines_of(text: Seq<char>) -> Seq<Seq<char>>
    decreases text.len(),
{
    if text.len() == 0 {
        Seq::empty()
    } else {
        match index_of_char(text, '\n', 0) {
            None => seq![text],
            Some(k) => if 0 <= k < text.len() {
                seq![without_return(text.take(k))] + lines_of(text.skip(k + 1))
            } else {
                seq![text]
            },
        }
    }
}

/// The texts of a list of character lists.
pub open spec fn char_lists(lists: Seq<Vec<char>>) -> Seq<Seq<char>> {
    lists.map_values(|l: Vec<char>| l@)
}

/// The lines of a text.
pub fn split_lines(text: &[char]) -> (res: Vec<Vec<char>>)
    ensures
        char_lists(res@) == lines_of(text@),
{
    let n: usize = text.len();
    let mut out: Vec<Vec<char>> = Vec::new();
    let mut start: usize = 0;
    assert(text@.skip(0) =~= text@);
    assert(char_lists(out@) + lines_of(text@) =~= lines_of(text@));
    while start < n
        invariant
            start <= n,
            n == text@.len(),
            char_lists(out@) + lines_of(text@.skip(start as int)) == lines_of(text@),
        decreases n - start,
    {
        let ghost rest = text@.skip(start as int);
        let ghost before = char_lists(out@);
        proof {
            lemma_index_of_char_skip(text@, '\n', start as int, start as int);
            lemma_index_of_char(rest, '\n', 0);
        }
        match find_char(text, '\n', start) {
            None => {
                let line = slice_to_vec(slice_subrange(text, start, n));
                assert(line@ =~= rest);
                out.push(line);
                assert(char_lists(out@) =~= before.push(line@));
                assert(before + seq![rest] =~= before.push(rest));
                return out;
            },
            Some(k) => {
                let mut end: usize = k;
                if end > start && text[end - 1] == '\r' {
                    end = end - 1;
                }
                let line = slice_to_vec(slice_subrange(text, start, end));
                assert(line@ =~= without_return(rest.take(k - start)));
                out.push(line);
                assert(char_lists(out@) =~= before.push(line@));
                assert(rest.skip(k - start + 1) =~= text@.skip(k + 1));
                assert(before + (seq![line@] + lines_of(text@.skip(k + 1))) =~= before.push(line@)
                    + lines_of(text@.skip(k + 1)));
                start = k + 1;
            },
        }
    }
    assert(text@.skip(start as int) =~= Seq::<char>::empty());
    assert(char_lists(out@) + lines_of(Seq::<char>::empty()) =~= char_lists(out@));
    out
}

proof fn lemma_index_of_char_skip(s: Seq<char>, c: char, start: int, i: int)
    requires
        0 <= start <= i <= s.len(),
    ensures
        match index_of_char(s, c, i) {
            Some(k) => index_of_char(s.skip(start), c, i - start) == Some(k - start),
            None => index_of_char(s.skip(start), c, i - start) is None,
        },
    decreases s.len() - i,
{
    if i < s.len() {
        assert(s.skip(start)[i - start] == s[i]);
        if s[i] != c {
            lemma_index_of_char_skip(s, c, start, i + 1);
        }
    }
}

/// Whether two character lists are equal.
pub fn same_chars(a: &[char], b: &[char]) -> (res: bool)
    ensures
        res == (a@ == b@),
{
    let n: usize = a.len();
    if n != b.len() {
        return false;
    }
    let mut i: usize = 0;
    while i < n
        invariant
            i <= n,
            n == a@.len(),
            n == b@.len(),
            forall|j: int| 0 <= j < i ==> a@[j] == b@[j],
        decreases n - i,
    {
        if a[i] != b[i] {
            return false;
        }
        i = i + 1;
    }
    assert(a@ =~= b@);
    true
}

/// Appends all characters of `tail`.
pub fn append_chars(out: &mut Vec<char>, tail: &[char])
    ensures
        final(out)@ == old(out)@ + tail@,
{
    let n: usize = tail.len();
    let mut i: usize = 0;
    assert(tail@.take(0) =~= Seq::<char>::empty());
    while i < n
        invariant
            i <= n,
            n == tail@.len(),
            out@ == old(out)@ + tail@.take(i as int),
        decreases n - i,
    {
        out.push(tail[i]);
        i = i + 1;
        assert(tail@.take(i as int) =~= tail@.take(i - 1).push(tail@[i - 1]));
    }
    assert(tail@.take(n as int) =~= tail@);
}

// ---------------------------------------------------------------------------
// Decimal numbers
// ---------------------------------------------------------------------------

/// An ASCII decimal digit.
pub open spec fn is_digit_char(c: char) -> bool {
    '0' <= c <= '9'
}

/// Position behind the run of digits that starts at `i`.
pub open spec fn digit_run_end(s: Seq<char>, i: int) -> int
    decreases s.len() - i,
{
    if 0 <= i < s.len() && is_digit_char(s[i]) {
        digit_run_end(s, i + 1)
    } else {
        i
    }
}

/// The number that a sequence of decimal digits denotes.
pub open spec fn decimal_number(digits: Seq<char>) -> nat
    decreases digits.len(),
{
    if digits.len() == 0 {
        0
    } else {
        (decimal_number(digits.drop_last()) * 10 + (digits.last() as int - '0' as int)) as nat
    }
}

pub proof fn lemma_digit_run_end(s: Seq<char>, i: int)
    ensures
        i <= digit_run_end(s, i),
        i <= s.len() ==> digit_run_end(s, i) <= s.len(),
        forall|j: int| #![trigger s[j]] i <= j < digit_run_end(s, i) ==> is_digit_char(s[j]),
    decreases s.len() - i,
{
    if 0 <= i < s.len() && is_digit_char(s[i]) {
        lemma_digit_run_end(s, i + 1);
    }
}

proof fn lemma_decimal_number_step(s: Seq<char>, start: int, i: int, end: int)
    requires
        0 <= start <= i < end <= s.len(),
        forall|j: int| #![trigger s[j]] start <= j < end ==> is_digit_char(s[j]),
    ensures
        decimal_number(s.subrange(start, i + 1)) == decimal_number(s.subrange(start, i)) * 10 + (
        s[i] as int - '0' as int),
        decimal_number(s.subrange(start, i + 1)) <= decimal_number(s.subrange(start, end)),
    decreases end - i,
{
    let longer = s.subrange(start, i + 1);
    assert(longer.drop_last() =~= s.subrange(start, i));
    assert(longer.last() == s[i]);
    if i + 1 < end {
        lemma_decimal_number_step(s, start, i + 1, end);
    }
}

/// Position behind the run of digits that starts at `from`.
pub fn skip_digits(s: &[char], from: usize) -> (res: usize)
    requires
        from <= s@.len(),
    ensures
        res == digit_run_end(s@, from as int),
        from <= res <= s@.len(),
{
    let n: usize = s.len();
    let mut i: usize = from;
    while i < n && '0' <= s[i] && s[i] <= '9'
        invariant
            from <= i <= n,
            n == s@.len(),
            digit_run_end(s@, from as int) == digit_run_end(s@, i as int),
        decreases n - i,
    {
        i = i + 1;
    }
    i
}

/// The number that the digits from `start` to `end` denote, if it is a `u64`.
pub fn read_decimal(s: &[char], start: usize, end: usize) -> (res: Option<u64>)
    requires
        start <= end <= s@.len(),
        forall|j: int| #![trigger s@[j]] start <= j < end ==> is_digit_char(s@[j]),
    ensures
        match res {
            Some(v) => v == decimal_number(s@.subrange(start as int, end as int)),
            None => decimal_number(s@.subrange(start as int, end as int)) > u64::MAX,
        },
{
    let mut value: u64 = 0;
    let mut i: usize = start;
    assert(s@.subrange(start as int, start as int) =~= Seq::<char>::empty());
    while i < end
        invariant
            start <= i <= end <= s@.len(),
            forall|j: int| #![trigger s@[j]] start <= j < end ==> is_digit_char(s@[j]),
            value == decimal_number(s@.subrange(start as int, i as int)),
        decreases end - i,
    {
        let digit: u64 = s[i] as u64 - '0' as u64;
        proof {
            lemma_decimal_number_step(s@, start as int, i as int, end as int);
        }
        value = match value.checked_mul(10) {
            Some(m) => match m.checked_add(digit) {
                Some(v) => v,
                None => {
                    return None;
                },
            },
            None => {
                return None;
            },
        };
        i = i + 1;
    }
    Some(value)
}

/// The decimal digits of a number.
pub open spec fn decimal_text(n: nat) -> Seq<char>
    decreases n,
{
    let digit = ('0' as int + (n % 10) as int) as char;
    if n < 10 {
        seq![digit]
    } else {
        decimal_text(n / 10).push(digit)
    }
}

/// Writing a number and reading it back gives the number again.
pub proof fn lemma_decimal_round_trip(n: nat)
    ensures
        decimal_text(n).len() > 0,
        decimal_number(decimal_text(n)) == n,
        forall|i: int|
            0 <= i < decimal_text(n).len() ==> is_digit_char(#[trigger] decimal_text(n)[i]),
    decreases n,
{
    let digit = ('0' as int + (n % 10) as int) as char;
    let text = decimal_text(n);
    assert(text.last() == digit);
    assert(decimal_number(text) == decimal_number(text.drop_last()) * 10 + n % 10);
    if n < 10 {
        assert(text.drop_last() =~= Seq::<char>::empty());
    } else {
        lemma_decimal_round_trip(n / 10);
        assert(decimal_text(n).drop_last() =~= decimal_text(n / 10));
        assert forall|i: int| 0 <= i < decimal_text(n).len() implies is_digit_char(
            #[trigger] decimal_text(n)[i],
        ) by {
            if i < decimal_text(n / 10).len() {
                assert(decimal_text(n)[i] == decimal_text(n / 10)[i]);
            }
        }
    }
}

/// The character of a decimal digit.
fn digit_char(d: u64) -> (res: char)
    requires
        d < 10,
    ensures
        res == ('0' as int + d) as char,
{
    (48 + d as u8) as char
}

/// The decimal digits of a number.
pub fn decimal_chars(n: u64) -> (res: Vec<char>)
    ensures
        res@ == decimal_text(n as nat),
    decreases n,
{
    let mut out: Vec<char> = if n < 10 {
        Vec::new()
    } else {
        decimal_chars(n / 10)
    };
    out.push(digit_char(n % 10));
    assert(out@ =~= decimal_text(n as nat));
    out
}

// ---------------------------------------------------------------------------
// Substrings
// ---------------------------------------------------------------------------

/// Whether `needle` stands in `hay` at position `i`.
pub open spec fn text_stands_at(hay: Seq<char>, needle: Seq<char>, i: int) -> bool {
    0 <= i && i + needle.len() <= hay.len() && hay.subrange(i, i + needle.len()) == needle
}

/// The first position at or after `i` at which `needle` stands in `hay`.
pub open spec fn index_of_text(hay: Seq<char>, needle: Seq<char>, i: int) -> Option<int>
    decreases hay.len() + 1 - i,
{
    if i < 0 || i + needle.len() > hay.len() {
        None
    } else if text_stands_at(hay, needle, i) {
        Some(i)
    } else {
        index_of_text(hay, needle, i + 1)
    }
}

pub proof fn lemma_index_of_text(hay: Seq<char>, needle: Seq<char>, i: int)
    requires
        0 <= i,
    ensures
        match index_of_text(hay, needle, i) {
            Some(k) => i <= k && text_stands_at(hay, needle, k) && forall|j: int|
                i <= j < k ==> !text_stands_at(hay, needle, j),
            None => forall|j: int| i <= j ==> !text_stands_at(hay, needle, j),
        },
    decreases hay.len() + 1 - i,
{
    if i + needle.len() <= hay.len() && !text_stands_at(hay, needle, i) {
        lemma_index_of_text(hay, needle, i + 1);
    }
}

/// Whether `needle` stands in `hay` at position `at`.
pub fn stands_in(hay: &[char], needle: &[char], at: usize) -> (res: bool)
    requires
        at <= hay@.len(),
    ensures
        res == text_stands_at(hay@, needle@, at as int),
{
    let n: usize = needle.len();
    if n > hay.len() - at {
        return false;
    }
    let mut i: usize = 0;
    while i < n
        invariant
            i <= n,
            n == needle@.len(),
            at + n <= hay@.len() <= usize::MAX,
            forall|j: int| 0 <= j < i ==> hay@[at + j] == #[trigger] needle@[j],
        decreases n - i,
    {
        if hay[at + i] != needle[i] {
            assert(hay@.subrange(at as int, at + n)[i as int] != needle@[i as int]);
            return false;
        }
        i = i + 1;
    }
    assert(hay@.subrange(at as int, at + n) =~= needle@);
    true
}

/// The first position at or after `from` at which `needle` stands in `hay`.
pub fn find_text(hay: &[char], needle: &[char], from: usize) -> (res: Option<usize>)
    requires
        from <= hay@.len(),
    ensures
        match res {
            Some(k) => index_of_text(hay@, needle@, from as int) == Some(k as int) && k
                + needle@.len() <= hay@.len(),
            None => index_of_text(hay@, needle@, from as int) is None,
        },
{
    let n: usize = hay.len();
    let m: usize = needle.len();
    let mut i: usize = from;
    while m <= n - i
        invariant
            from <= i <= n,
            n == hay@.len(),
            m == needle@.len(),
            index_of_text(hay@, needle@, from as int) == index_of_text(
                hay@,
                needle@,
                i as int,
            ),
        decreases n - i,
    {
        if stands_in(hay, needle, i) {
            return Some(i);
        }
        proof {
            if i == n {
                assert(hay@.subrange(n as int, n as int) =~= needle@);
            }
        }
        i = i + 1;
    }
    None
}

/// Whether one text ends with another.
pub open spec fn text_ends_with(s: Seq<char>, suffix: Seq<char>) -> bool {
    s.len() >= suffix.len() && s.skip(s.len() - suffix.len()) == suffix
}

/// Whether one text ends with another.
pub fn ends_with(s: &[char], suffix: &[char]) -> (res: bool)
    ensures
        res == text_ends_with(s@, suffix@),
{
    let n: usize = s.len();
    let m: usize = suffix.len();
    if m > n {
        return false;
    }
    let res = stands_in(s, suffix, n - m);
    assert(s@.skip(n - m) =~= s@.subrange(n - m, n as int));
    res
}

/// Appends a text.
pub fn push_text(out: &mut String, tail: &str)
    ensures
        final(out)@ == old(out)@ + tail@,
{
    out.append(tail);
}

} // verus!
