//! Executable header parser: a cursor over the header bytes that reads what
//! the grammar in [`crate::header`] says.

use vstd::prelude::*;
use crate::ascii::{
    BACKSLASH, BACKSPACE, CARRIAGE_RETURN, CLOSE_BRACE, CLOSE_BRACKET, COLON, COMMA, DIGIT_0,
    DIGIT_9, DOT, FORM_FEED, LOWER_A, LOWER_B, LOWER_E, LOWER_F, LOWER_L, LOWER_N, LOWER_R,
    LOWER_S, LOWER_T, LOWER_U, MINUS, NEWLINE, OPEN_BRACE, OPEN_BRACKET, PLUS, QUOTE, SLASH, SPACE,
    TAB, UPPER_A, UPPER_E, UPPER_F,
};
use crate::error::{Error, Result};
use crate::header::{
    EntryView, FieldsView, array_end, as_dims, code_stands_at, decimal_value, digits_end, dims_fit,
    elements_end, entry_at, fields_tail, header_entries, header_tail, integer_at, integers_at,
    integers_tail, is_digit, is_hex_digit, lemma_digits_end, lemma_field_value_at,
    lemma_header_member_at, lemma_space_end, lemma_string_at, lemma_text_end, lemma_value_end,
    literal_end, members_end, number_end, object_end, punct_end, quoted_end, space_end, stands_at,
    string_at, string_tail, text_end, unescaped, value_end,
};
use crate::loader::Dtype;
use crate::tensor::{checked_product, product};
use crate::text::{chars_of, same_text, string_of, utf8_text};

verus! {

/// Metadata for one tensor inside a safetensors file.
#[derive(Debug, Clone)]
pub(crate) struct TensorEntry {
    pub(crate) name: String,
    pub(crate) dtype: Dtype,
    pub(crate) shape: Vec<usize>,
    /// Absolute offsets in the file.
    pub(crate) data_start: usize,
    pub(crate) data_end: usize,
}

impl TensorEntry {
    pub(crate) open spec fn view(&self) -> EntryView {
        EntryView {
            name: self.name@,
            dtype: self.dtype,
            shape: self.shape@,
            data_start: self.data_start as int,
            data_end: self.data_end as int,
        }
    }
}

/// A position in the header bytes.
struct Cursor<'a> {
    bytes: &'a [u8],
    pos: usize,
}

impl<'a> Cursor<'a> {
    spec fn wf(&self) -> bool {
        self.pos <= self.bytes@.len()
    }

    /// The cursor `after` stands where `end` says, over the same bytes.
    spec fn moved_to(&self, after: &Self, end: int) -> bool {
        &&& after.wf()
        &&& after.bytes == self.bytes
        &&& after.pos == end
    }

    /// After a failed read the cursor is still over the same bytes.
    spec fn kept(&self, after: &Self) -> bool {
        &&& after.wf()
        &&& after.bytes == self.bytes
    }

    fn new(bytes: &'a [u8]) -> (res: Self)
        ensures
            res.wf(),
            res.bytes@ == bytes@,
            res.pos == 0,
    {
        Cursor { bytes, pos: 0 }
    }

    fn peek(&self) -> (res: Option<u8>)
        requires
            self.wf(),
        ensures
            match res {
                Some(b) => stands_at(self.bytes@, self.pos as int, b) && self.pos < usize::MAX,
                None => self.pos == self.bytes@.len(),
            },
    {
        if self.pos < self.bytes.len() {
            Some(self.bytes[self.pos])
        } else {
            None
        }
    }

    fn advance(&mut self) -> (res: Option<u8>)
        requires
            old(self).wf(),
        ensures
            match res {
                Some(b) => stands_at(old(self).bytes@, old(self).pos as int, b) && old(
                    self,
                ).moved_to(final(self), old(self).pos + 1),
                None => old(self).pos == old(self).bytes@.len() && *final(self) == *old(self),
            },
    {
        match self.peek() {
            Some(b) => {
                self.pos = self.pos + 1;
                Some(b)
            },
            None => None,
        }
    }

    fn skip_ws(&mut self)
        requires
            old(self).wf(),
        ensures
            old(self).moved_to(final(self), space_end(old(self).bytes@, old(self).pos as int)),
    {
        loop
            invariant
                self.wf(),
                self.bytes == old(self).bytes,
                space_end(self.bytes@, self.pos as int) == space_end(
                    old(self).bytes@,
                    old(self).pos as int,
                ),
            ensures
                old(self).moved_to(self, space_end(old(self).bytes@, old(self).pos as int)),
            decreases self.bytes@.len() - self.pos,
        {
            match self.peek() {
                Some(b) => {
                    if b == SPACE || b == TAB || b == NEWLINE || b == CARRIAGE_RETURN {
                        self.pos = self.pos + 1;
                    } else {
                        break;
                    }
                },
                None => {
                    break;
                },
            }
        }
    }

    fn expect(&mut self, b: u8) -> (res: Result<()>)
        requires
            old(self).wf(),
        ensures
            match punct_end(old(self).bytes@, old(self).pos as int, b) {
                Ok(j) => res is Ok && old(self).moved_to(final(self), j),
                Err(e) => res == Err::<(), Error>(e) && old(self).kept(final(self)),
            },
    {
        self.skip_ws();
        match self.advance() {
            Some(c) => {
                if c == b {
                    Ok(())
                } else {
                    Err(Error::InvalidHeader("unexpected byte"))
                }
            },
            None => Err(Error::InvalidHeader("unexpected byte")),
        }
    }

    fn parse_string(&mut self) -> (res: Result<String>)
        requires
            old(self).wf(),
        ensures
            match string_at(old(self).bytes@, old(self).pos as int) {
                Ok((v, j)) => res matches Ok(text) && text@ == v && old(self).moved_to(
                    final(self),
                    j,
                ),
                Err(e) => res == Err::<String, Error>(e) && old(self).kept(final(self)),
            },
    {
        self.skip_ws();
        match self.advance() {
            Some(b) => {
                if b != QUOTE {
                    return Err(Error::InvalidHeader("expected string"));
                }
            },
            None => {
                return Err(Error::InvalidHeader("expected string"));
            },
        }
        let ghost all = string_tail(self.bytes@, self.pos as int, Seq::empty());
        let mut text: Vec<u8> = Vec::new();
        assert(text@ =~= Seq::<u8>::empty());
        loop
            invariant
                self.wf(),
                self.bytes == old(self).bytes,
                stands_at(self.bytes@, space_end(self.bytes@, old(self).pos as int), QUOTE),
                all == string_tail(
                    self.bytes@,
                    space_end(self.bytes@, old(self).pos as int) + 1,
                    Seq::empty(),
                ),
                string_tail(self.bytes@, self.pos as int, text@) == all,
            decreases self.bytes@.len() - self.pos,
        {
            let b: u8 = match self.advance() {
                Some(b) => b,
                None => {
                    return Err(Error::InvalidHeader("unterminated string"));
                },
            };
            if b == QUOTE {
                return match utf8_text(text.as_slice()) {
                    Some(text) => Ok(string_of(chars_of(text).as_slice())),
                    None => Err(Error::InvalidHeader("string is not valid UTF-8")),
                };
            } else if b == BACKSLASH {
                let esc: u8 = match self.advance() {
                    Some(b) => b,
                    None => {
                        return Err(Error::InvalidHeader("truncated escape"));
                    },
                };
                match unescape(esc) {
                    Some(b) => {
                        text.push(b);
                    },
                    None => {
                        return Err(Error::InvalidHeader("unsupported escape"));
                    },
                }
            } else {
                text.push(b);
            }
        }
    }

    /// Skips a string without reading what it says.
    fn skip_string(&mut self) -> (res: Result<()>)
        requires
            old(self).wf(),
        ensures
            match text_end(old(self).bytes@, old(self).pos as int) {
                Ok(j) => res is Ok && old(self).moved_to(final(self), j),
                Err(e) => res == Err::<(), Error>(e) && old(self).kept(final(self)),
            },
    {
        self.skip_ws();
        match self.advance() {
            Some(b) => {
                if b != QUOTE {
                    return Err(Error::InvalidHeader("expected string"));
                }
            },
            None => {
                return Err(Error::InvalidHeader("expected string"));
            },
        }
        loop
            invariant
                self.wf(),
                self.bytes == old(self).bytes,
                quoted_end(self.bytes@, self.pos as int) == text_end(
                    self.bytes@,
                    old(self).pos as int,
                ),
            decreases self.bytes@.len() - self.pos,
        {
            let b: u8 = match self.advance() {
                Some(b) => b,
                None => {
                    return Err(Error::InvalidHeader("unterminated string"));
                },
            };
            if b == QUOTE {
                return Ok(());
            } else if b == BACKSLASH {
                let esc: u8 = match self.advance() {
                    Some(b) => b,
                    None => {
                        return Err(Error::InvalidHeader("truncated escape"));
                    },
                };
                if unescape(esc).is_none() {
                    if esc != LOWER_U || !self.skip_code() {
                        return Err(Error::InvalidHeader("unsupported escape"));
                    }
                }
            }
        }
    }

    /// Skips four hexadecimal digits, if they come next.
    fn skip_code(&mut self) -> (res: bool)
        requires
            old(self).wf(),
        ensures
            res == code_stands_at(old(self).bytes@, old(self).pos as int),
            res ==> old(self).moved_to(final(self), old(self).pos + 4),
            !res ==> old(self).moved_to(final(self), old(self).pos as int),
    {
        if self.bytes.len() - self.pos < 4 {
            return false;
        }
        let mut k: usize = 0;
        while k < 4
            invariant
                *self == *old(self),
                self.wf(),
                self.pos + 4 <= self.bytes@.len() <= usize::MAX,
                k <= 4,
                forall|j: int|
                    self.pos <= j < self.pos + k ==> is_hex_digit(#[trigger] self.bytes@[j]),
            decreases 4 - k,
        {
            let b: u8 = self.bytes[self.pos + k];
            let hex = (DIGIT_0 <= b && b <= DIGIT_9) || (LOWER_A <= b && b <= LOWER_F) || (UPPER_A
                <= b && b <= UPPER_F);
            if !hex {
                return false;
            }
            k = k + 1;
        }
        self.pos = self.pos + 4;
        true
    }

    fn parse_u64(&mut self) -> (res: Result<u64>)
        requires
            old(self).wf(),
        ensures
            match integer_at(old(self).bytes@, old(self).pos as int) {
                Ok((v, j)) => res == Ok::<u64, Error>(v) && old(self).moved_to(final(self), j),
                Err(e) => res == Err::<u64, Error>(e) && old(self).kept(final(self)),
            },
    {
        self.skip_ws();
        let ghost s = self.bytes@;
        let start: usize = self.pos;
        let ghost end = digits_end(s, start as int);
        let mut n: u64 = 0;
        let mut any = false;
        proof {
            lemma_digits_end(s, start as int);
            assert(s.subrange(start as int, start as int) =~= Seq::<u8>::empty());
        }
        loop
            invariant
                self.wf(),
                self.bytes == old(self).bytes,
                s == self.bytes@,
                start == space_end(s, old(self).pos as int),
                start <= self.pos <= end <= s.len(),
                end == digits_end(s, start as int),
                end == digits_end(s, self.pos as int),
                forall|j: int| #![trigger s[j]] start <= j < end ==> is_digit(s[j]),
                n == decimal_value(s.subrange(start as int, self.pos as int)),
                any == (self.pos > start),
            ensures
                self.wf(),
                self.bytes == old(self).bytes,
                self.pos == end,
                n == decimal_value(s.subrange(start as int, end)),
                any == (end > start),
            decreases self.bytes@.len() - self.pos,
        {
            let b: u8 = match self.peek() {
                Some(b) => b,
                None => {
                    break;
                },
            };
            if !(DIGIT_0 <= b && b <= DIGIT_9) {
                break;
            }
            proof {
                lemma_digits_end(s, self.pos + 1);
                lemma_decimal_step(s, start as int, self.pos as int, end);
            }
            n = match n.checked_mul(10) {
                Some(m) => match m.checked_add((b - DIGIT_0) as u64) {
                    Some(k) => k,
                    None => {
                        return Err(Error::InvalidHeader("integer overflow"));
                    },
                },
                None => {
                    return Err(Error::InvalidHeader("integer overflow"));
                },
            };
            self.pos = self.pos + 1;
            any = true;
        }
        if !any {
            return Err(Error::InvalidHeader("expected integer"));
        }
        Ok(n)
    }

    fn parse_u64_array(&mut self) -> (res: Result<Vec<u64>>)
        requires
            old(self).wf(),
        ensures
            match integers_at(old(self).bytes@, old(self).pos as int) {
                Ok((v, j)) => res matches Ok(list) && list@ == v && old(self).moved_to(
                    final(self),
                    j,
                ),
                Err(e) => res == Err::<Vec<u64>, Error>(e) && old(self).kept(final(self)),
            },
    {
        match self.expect(OPEN_BRACKET) {
            Ok(()) => {},
            Err(e) => {
                return Err(e);
            },
        }
        let mut out: Vec<u64> = Vec::new();
        self.skip_ws();
        if self.skip_byte(CLOSE_BRACKET) {
            return Ok(out);
        }
        loop
            invariant
                self.wf(),
                self.bytes == old(self).bytes,
                integers_tail(self.bytes@, self.pos as int, out@) == integers_at(
                    old(self).bytes@,
                    old(self).pos as int,
                ),
            decreases self.bytes@.len() - self.pos,
        {
            proof {
                lemma_space_end(self.bytes@, self.pos as int);
                lemma_digits_end(self.bytes@, space_end(self.bytes@, self.pos as int));
            }
            let n: u64 = match self.parse_u64() {
                Ok(n) => n,
                Err(e) => {
                    return Err(e);
                },
            };
            out.push(n);
            proof {
                lemma_space_end(self.bytes@, self.pos as int);
            }
            self.skip_ws();
            match self.advance() {
                Some(b) => {
                    if b == CLOSE_BRACKET {
                        return Ok(out);
                    } else if b != COMMA {
                        return Err(Error::InvalidHeader("expected ',' or ']'"));
                    }
                },
                None => {
                    return Err(Error::InvalidHeader("expected ',' or ']'"));
                },
            }
        }
    }

    /// Moves past the byte `b` if it stands here.
    fn skip_byte(&mut self, b: u8) -> (res: bool)
        requires
            old(self).wf(),
        ensures
            res == stands_at(old(self).bytes@, old(self).pos as int, b),
            res ==> old(self).moved_to(final(self), old(self).pos + 1),
            !res ==> *final(self) == *old(self),
    {
        match self.peek() {
            Some(c) => {
                if c == b {
                    self.pos = self.pos + 1;
                    true
                } else {
                    false
                }
            },
            None => false,
        }
    }

    fn skip_value(&mut self) -> (res: Result<()>)
        requires
            old(self).wf(),
        ensures
            match value_end(old(self).bytes@, old(self).pos as int) {
                Ok(j) => res is Ok && old(self).moved_to(final(self), j),
                Err(e) => res == Err::<(), Error>(e) && old(self).kept(final(self)),
            },
        decreases old(self).bytes@.len() - old(self).pos, 2nat,
    {
        proof {
            lemma_space_end(self.bytes@, self.pos as int);
        }
        self.skip_ws();
        let b: u8 = match self.peek() {
            Some(b) => b,
            None => {
                return Err(Error::InvalidHeader("unexpected end"));
            },
        };
        if b == OPEN_BRACE {
            self.skip_object()
        } else if b == OPEN_BRACKET {
            self.skip_array()
        } else if b == QUOTE {
            self.skip_string()
        } else if b == LOWER_T {
            self.expect_lit(&[LOWER_T, LOWER_R, LOWER_U, LOWER_E])
        } else if b == LOWER_F {
            self.expect_lit(&[LOWER_F, LOWER_A, LOWER_L, LOWER_S, LOWER_E])
        } else if b == LOWER_N {
            self.expect_lit(&[LOWER_N, LOWER_U, LOWER_L, LOWER_L])
        } else if b == MINUS || (DIGIT_0 <= b && b <= DIGIT_9) {
            self.skip_number();
            Ok(())
        } else {
            Err(Error::InvalidHeader("unexpected token"))
        }
    }

    fn skip_object(&mut self) -> (res: Result<()>)
        requires
            old(self).wf(),
            stands_at(old(self).bytes@, old(self).pos as int, OPEN_BRACE),
        ensures
            match object_end(old(self).bytes@, old(self).pos as int) {
                Ok(j) => res is Ok && old(self).moved_to(final(self), j),
                Err(e) => res == Err::<(), Error>(e) && old(self).kept(final(self)),
            },
        decreases old(self).bytes@.len() - old(self).pos, 1nat,
    {
        match self.expect(OPEN_BRACE) {
            Ok(()) => {},
            Err(e) => {
                return Err(e);
            },
        }
        proof {
            lemma_space_end(self.bytes@, self.pos as int);
        }
        self.skip_ws();
        if self.skip_byte(CLOSE_BRACE) {
            return Ok(());
        }
        loop
            invariant
                self.wf(),
                self.bytes == old(self).bytes,
                old(self).pos < self.pos,
                members_end(self.bytes@, self.pos as int) == object_end(
                    old(self).bytes@,
                    old(self).pos as int,
                ),
            decreases self.bytes@.len() - self.pos,
        {
            proof {
                lemma_text_end(self.bytes@, self.pos as int);
            }
            match self.skip_string() {
                Ok(()) => {},
                Err(e) => {
                    return Err(e);
                },
            }
            proof {
                lemma_space_end(self.bytes@, self.pos as int);
            }
            match self.expect(COLON) {
                Ok(()) => {},
                Err(e) => {
                    return Err(e);
                },
            }
            proof {
                lemma_value_end(self.bytes@, self.pos as int);
            }
            match self.skip_value() {
                Ok(()) => {},
                Err(e) => {
                    return Err(e);
                },
            }
            proof {
                lemma_space_end(self.bytes@, self.pos as int);
            }
            self.skip_ws();
            match self.advance() {
                Some(b) => {
                    if b == CLOSE_BRACE {
                        return Ok(());
                    } else if b != COMMA {
                        return Err(Error::InvalidHeader("expected ',' or '}'"));
                    }
                },
                None => {
                    return Err(Error::InvalidHeader("expected ',' or '}'"));
                },
            }
        }
    }

    fn skip_array(&mut self) -> (res: Result<()>)
        requires
            old(self).wf(),
            stands_at(old(self).bytes@, old(self).pos as int, OPEN_BRACKET),
        ensures
            match array_end(old(self).bytes@, old(self).pos as int) {
                Ok(j) => res is Ok && old(self).moved_to(final(self), j),
                Err(e) => res == Err::<(), Error>(e) && old(self).kept(final(self)),
            },
        decreases old(self).bytes@.len() - old(self).pos, 1nat,
    {
        match self.expect(OPEN_BRACKET) {
            Ok(()) => {},
            Err(e) => {
                return Err(e);
            },
        }
        proof {
            lemma_space_end(self.bytes@, self.pos as int);
        }
        self.skip_ws();
        if self.skip_byte(CLOSE_BRACKET) {
            return Ok(());
        }
        loop
            invariant
                self.wf(),
                self.bytes == old(self).bytes,
                old(self).pos < self.pos,
                elements_end(self.bytes@, self.pos as int) == array_end(
                    old(self).bytes@,
                    old(self).pos as int,
                ),
            decreases self.bytes@.len() - self.pos,
        {
            proof {
                lemma_value_end(self.bytes@, self.pos as int);
            }
            match self.skip_value() {
                Ok(()) => {},
                Err(e) => {
                    return Err(e);
                },
            }
            proof {
                lemma_space_end(self.bytes@, self.pos as int);
            }
            self.skip_ws();
            match self.advance() {
                Some(b) => {
                    if b == CLOSE_BRACKET {
                        return Ok(());
                    } else if b != COMMA {
                        return Err(Error::InvalidHeader("expected ',' or ']'"));
                    }
                },
                None => {
                    return Err(Error::InvalidHeader("expected ',' or ']'"));
                },
            }
        }
    }

    fn skip_number(&mut self)
        requires
            old(self).wf(),
        ensures
            old(self).moved_to(final(self), number_end(old(self).bytes@, old(self).pos as int)),
    {
        loop
            invariant
                self.wf(),
                self.bytes == old(self).bytes,
                number_end(self.bytes@, self.pos as int) == number_end(
                    old(self).bytes@,
                    old(self).pos as int,
                ),
            ensures
                old(self).moved_to(self, number_end(old(self).bytes@, old(self).pos as int)),
            decreases self.bytes@.len() - self.pos,
        {
            match self.peek() {
                Some(b) => {
                    if (DIGIT_0 <= b && b <= DIGIT_9) || b == MINUS || b == PLUS || b == DOT || b
                        == LOWER_E || b == UPPER_E {
                        self.pos = self.pos + 1;
                    } else {
                        break;
                    }
                },
                None => {
                    break;
                },
            }
        }
    }

    fn expect_lit(&mut self, lit: &[u8]) -> (res: Result<()>)
        requires
            old(self).wf(),
        ensures
            match literal_end(old(self).bytes@, old(self).pos as int, lit@) {
                Ok(j) => res is Ok && old(self).moved_to(final(self), j),
                Err(e) => res == Err::<(), Error>(e) && old(self).kept(final(self)),
            },
    {
        let n: usize = lit.len();
        let mut i: usize = 0;
        let ghost s = self.bytes@;
        let ghost start = self.pos as int;
        while i < n
            invariant
                self.wf(),
                self.bytes == old(self).bytes,
                s == self.bytes@,
                start == old(self).pos,
                i <= n,
                n == lit@.len(),
                self.pos == start + i,
                forall|j: int| 0 <= j < i ==> s[start + j] == #[trigger] lit@[j],
            decreases n - i,
        {
            let ghost there = s.subrange(start, start + lit@.len());
            match self.advance() {
                Some(b) => {
                    if b != lit[i] {
                        proof {
                            if start + lit@.len() <= s.len() {
                                assert(there[i as int] == b);
                            }
                        }
                        return Err(Error::InvalidHeader("bad literal"));
                    }
                },
                None => {
                    return Err(Error::InvalidHeader("bad literal"));
                },
            }
            i = i + 1;
        }
        assert(s.subrange(start, start + lit@.len()) =~= lit@);
        Ok(())
    }
}

/// The byte that a backslash followed by `esc` stands for inside a string.
fn unescape(esc: u8) -> (res: Option<u8>)
    ensures
        res == unescaped(esc),
{
    if esc == QUOTE || esc == BACKSLASH || esc == SLASH {
        Some(esc)
    } else if esc == LOWER_N {
        Some(NEWLINE)
    } else if esc == LOWER_T {
        Some(TAB)
    } else if esc == LOWER_R {
        Some(CARRIAGE_RETURN)
    } else if esc == LOWER_B {
        Some(BACKSPACE)
    } else if esc == LOWER_F {
        Some(FORM_FEED)
    } else {
        None
    }
}

/// One more digit of a run that goes on to `end`: its weight in the value so
/// far, and that the value of the whole run is no smaller.
proof fn lemma_decimal_step(s: Seq<u8>, start: int, i: int, end: int)
    requires
        0 <= start <= i < end <= s.len(),
        forall|j: int| #![trigger s[j]] start <= j < end ==> is_digit(s[j]),
    ensures
        decimal_value(s.subrange(start, i + 1)) == decimal_value(s.subrange(start, i)) * 10 + (s[i]
            - DIGIT_0),
        decimal_value(s.subrange(start, i + 1)) <= decimal_value(s.subrange(start, end)),
    decreases end - i,
{
    let longer = s.subrange(start, i + 1);
    assert(longer.drop_last() =~= s.subrange(start, i));
    assert(longer.last() == s[i]);
    if i + 1 < end {
        lemma_decimal_step(s, start, i + 1, end);
    }
}

/// The tensor object at the cursor, as an entry under the given name.
fn parse_tensor_entry(
    cursor: &mut Cursor<'_>,
    name: String,
    payload_start: usize,
    payload_len: usize,
) -> (res: Result<TensorEntry>)
    requires
        old(cursor).wf(),
        payload_start + payload_len <= usize::MAX,
    ensures
        match entry_at(
            old(cursor).bytes@,
            old(cursor).pos as int,
            name@,
            payload_start as int,
            payload_len as int,
        ) {
            Ok((v, j)) => res matches Ok(entry) && entry@ == v && old(cursor).moved_to(
                final(cursor),
                j,
            ),
            Err(e) => res == Err::<TensorEntry, Error>(e) && old(cursor).kept(final(cursor)),
        },
{
    match cursor.expect(OPEN_BRACE) {
        Ok(()) => {},
        Err(e) => {
            return Err(e);
        },
    }
    let mut dtype: Option<Dtype> = None;
    let mut shape: Option<Vec<u64>> = None;
    let mut offsets: Option<(u64, u64)> = None;
    let ghost mut fields = FieldsView { dtype: None, shape: None, offsets: None };
    cursor.skip_ws();
    if cursor.skip_byte(CLOSE_BRACE) {
        return Err(Error::InvalidHeader("empty tensor object"));
    }
    let ghost first = cursor.pos as int;
    let ghost all = fields_tail(cursor.bytes@, first, fields);
    loop
        invariant_except_break
            fields_tail(cursor.bytes@, cursor.pos as int, fields) == all,
        invariant
            cursor.wf(),
            cursor.bytes == old(cursor).bytes,
            fields.dtype == dtype,
            fields.offsets == offsets,
            match shape {
                Some(list) => fields.shape == Some(list@),
                None => fields.shape is None,
            },
            all matches Err(e) ==> entry_at(
                old(cursor).bytes@,
                old(cursor).pos as int,
                name@,
                payload_start as int,
                payload_len as int,
            ) == Err::<(EntryView, int), Error>(e),
        ensures
            cursor.wf(),
            cursor.bytes == old(cursor).bytes,
            fields.dtype == dtype,
            fields.offsets == offsets,
            match shape {
                Some(list) => fields.shape == Some(list@),
                None => fields.shape is None,
            },
            all == Ok::<(FieldsView, int), Error>((fields, cursor.pos as int)),
        decreases cursor.bytes@.len() - cursor.pos,
    {
        proof {
            lemma_string_at(cursor.bytes@, cursor.pos as int);
        }
        let key = match cursor.parse_string() {
            Ok(key) => key,
            Err(e) => {
                return Err(e);
            },
        };
        proof {
            lemma_space_end(cursor.bytes@, cursor.pos as int);
        }
        match cursor.expect(COLON) {
            Ok(()) => {},
            Err(e) => {
                return Err(e);
            },
        }
        proof {
            lemma_field_value_at(cursor.bytes@, cursor.pos as int, key@, fields);
        }
        if same_text(key.as_str(), "dtype") {
            match cursor.parse_string() {
                Ok(text) => match Dtype::from_str(text.as_str()) {
                    Ok(d) => {
                        dtype = Some(d);
                        proof {
                            fields = FieldsView { dtype: Some(d), ..fields };
                        }
                    },
                    Err(e) => {
                        return Err(e);
                    },
                },
                Err(e) => {
                    return Err(e);
                },
            }
        } else if same_text(key.as_str(), "shape") {
            match cursor.parse_u64_array() {
                Ok(list) => {
                    proof {
                        fields = FieldsView { shape: Some(list@), ..fields };
                    }
                    shape = Some(list);
                },
                Err(e) => {
                    return Err(e);
                },
            }
        } else if same_text(key.as_str(), "data_offsets") {
            match cursor.parse_u64_array() {
                Ok(list) => {
                    if list.len() != 2 {
                        return Err(Error::InvalidHeader("data_offsets must have 2 entries"));
                    }
                    offsets = Some((list[0], list[1]));
                    proof {
                        fields = FieldsView { offsets: Some((list@[0], list@[1])), ..fields };
                    }
                },
                Err(e) => {
                    return Err(e);
                },
            }
        } else {
            match cursor.skip_value() {
                Ok(()) => {},
                Err(e) => {
                    return Err(e);
                },
            }
        }
        proof {
            lemma_space_end(cursor.bytes@, cursor.pos as int);
        }
        cursor.skip_ws();
        match cursor.advance() {
            Some(b) => {
                if b == CLOSE_BRACE {
                    break;
                } else if b != COMMA {
                    return Err(Error::InvalidHeader("expected ',' or '}' in tensor object"));
                }
            },
            None => {
                return Err(Error::InvalidHeader("expected ',' or '}' in tensor object"));
            },
        }
    }
    let dtype = match dtype {
        Some(d) => d,
        None => {
            return Err(Error::InvalidHeader("missing dtype"));
        },
    };
    let shape = match shape {
        Some(list) => list,
        None => {
            return Err(Error::InvalidHeader("missing shape"));
        },
    };
    let (start, end) = match offsets {
        Some(pair) => pair,
        None => {
            return Err(Error::InvalidHeader("missing data_offsets"));
        },
    };
    if start > end || end > payload_len as u64 {
        return Err(Error::DataOffsetsOutOfBounds);
    }
    let start: usize = start as usize;
    let end: usize = end as usize;
    let shape = match to_dims(shape.as_slice()) {
        Some(shape) => shape,
        None => {
            return Err(Error::ShapeDataMismatch);
        },
    };
    if !byte_size_is(shape.as_slice(), dtype, end - start) {
        return Err(Error::ShapeDataMismatch);
    }
    Ok(
        TensorEntry {
            name,
            dtype,
            shape,
            data_start: payload_start + start,
            data_end: payload_start + end,
        },
    )
}

/// The dimensions in the size type of this machine, if they fit it.
fn to_dims(shape: &[u64]) -> (res: Option<Vec<usize>>)
    ensures
        match res {
            Some(dims) => dims_fit(shape@) && dims@ == as_dims(shape@),
            None => !dims_fit(shape@),
        },
{
    let n: usize = shape.len();
    let mut dims: Vec<usize> = Vec::new();
    let mut i: usize = 0;
    while i < n
        invariant
            i <= n,
            n == shape@.len(),
            dims@ == as_dims(shape@.take(i as int)),
            forall|k: int| 0 <= k < i ==> #[trigger] shape@[k] <= usize::MAX,
        decreases n - i,
    {
        if shape[i] > usize::MAX as u64 {
            assert(shape@[i as int] > usize::MAX);
            return None;
        }
        dims.push(shape[i] as usize);
        i = i + 1;
        assert(dims@ =~= as_dims(shape@.take(i as int)));
    }
    assert(shape@.take(n as int) =~= shape@);
    Some(dims)
}

/// Whether a tensor of the given shape and element type takes `len` bytes.
pub(crate) fn byte_size_is(shape: &[usize], dtype: Dtype, len: usize) -> (res: bool)
    ensures
        res == (product(shape@) * dtype.width() == len),
{
    let width: usize = dtype.size();
    match checked_product(shape) {
        Some(numel) => match numel.checked_mul(width) {
            Some(bytes) => bytes == len,
            None => false,
        },
        None => {
            assert(product(shape@) * width > usize::MAX) by (nonlinear_arith)
                requires
                    product(shape@) > usize::MAX,
                    width >= 1,
            ;
            false
        },
    }
}

/// Parses the header object into its tensor entries.
pub(crate) fn parse_header_object(
    header: &[u8],
    payload_start: usize,
    payload_len: usize,
) -> (res: Result<Vec<TensorEntry>>)
    requires
        payload_start + payload_len <= usize::MAX,
    ensures
        match header_entries(header@, payload_start as int, payload_len as int) {
            Ok(entries) => res matches Ok(list) && entry_views(list@) == entries,
            Err(e) => res == Err::<Vec<TensorEntry>, Error>(e),
        },
{
    let mut cursor = Cursor::new(header);
    let mut tensors: Vec<TensorEntry> = Vec::new();
    match cursor.expect(OPEN_BRACE) {
        Ok(()) => {},
        Err(e) => {
            return Err(e);
        },
    }
    proof {
        lemma_space_end(header@, 0);
        lemma_space_end(header@, cursor.pos as int);
    }
    cursor.skip_ws();
    assert(entry_views(tensors@) =~= Seq::<EntryView>::empty());
    if cursor.skip_byte(CLOSE_BRACE) {
        return Ok(tensors);
    }
    loop
        invariant
            cursor.wf(),
            cursor.bytes@ == header@,
            payload_start + payload_len <= usize::MAX,
            header_tail(
                header@,
                cursor.pos as int,
                payload_start as int,
                payload_len as int,
                entry_views(tensors@),
            ) == header_entries(header@, payload_start as int, payload_len as int),
        decreases header@.len() - cursor.pos,
    {
        proof {
            lemma_header_member_at(
                header@,
                cursor.pos as int,
                payload_start as int,
                payload_len as int,
                entry_views(tensors@),
            );
        }
        let name = match cursor.parse_string() {
            Ok(name) => name,
            Err(e) => {
                return Err(e);
            },
        };
        match cursor.expect(COLON) {
            Ok(()) => {},
            Err(e) => {
                return Err(e);
            },
        }
        if same_text(name.as_str(), "__metadata__") {
            match cursor.skip_value() {
                Ok(()) => {},
                Err(e) => {
                    return Err(e);
                },
            }
        } else {
            match parse_tensor_entry(&mut cursor, name, payload_start, payload_len) {
                Ok(entry) => {
                    assert(entry_views(tensors@.push(entry)) =~= entry_views(tensors@).push(
                        entry@,
                    ));
                    tensors.push(entry);
                },
                Err(e) => {
                    return Err(e);
                },
            }
        }
        proof {
            lemma_space_end(header@, cursor.pos as int);
        }
        cursor.skip_ws();
        match cursor.advance() {
            Some(b) => {
                if b == CLOSE_BRACE {
                    return Ok(tensors);
                } else if b != COMMA {
                    return Err(Error::InvalidHeader("expected ',' or '}' after entry"));
                }
            },
            None => {
                return Err(Error::InvalidHeader("expected ',' or '}' after entry"));
            },
        }
    }
}

/// The entries of a parsed header, viewed one by one.
pub(crate) open spec fn entry_views(tensors: Seq<TensorEntry>) -> Seq<EntryView> {
    tensors.map_values(|t: TensorEntry| t@)
}

} // verus!
