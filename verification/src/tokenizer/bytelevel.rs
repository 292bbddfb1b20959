//! GPT-2's byte alphabet: one visible character for each byte.

use vstd::prelude::*;
use std::collections::HashMap;

verus! {

broadcast use vstd::std_specs::hash::group_hash_axioms;

/// `char::from_u32` gives the character with the given code point, if there is
/// one: code points end at `0x10ffff` and leave out the surrogates.
pub assume_specification[ char::from_u32 ](code: u32) -> (res: Option<char>)
    ensures
        res == char_with_code(code),
;

/// The character with the given code point.
pub open spec fn char_with_code(code: u32) -> Option<char> {
    if code <= 0xd7ff || 0xe000 <= code <= 0x10ffff {
        Some(code as char)
    } else {
        None
    }
}

/// Bytes that stand for themselves: printable ASCII and printable Latin-1.
pub open spec fn is_printable(b: u8) -> bool {
    33 <= b <= 126 || 161 <= b <= 172 || 174 <= b
}

/// How many bytes below `b` do not stand for themselves.
pub open spec fn hidden_below(b: int) -> int
    decreases b,
{
    if b <= 0 {
        0
    } else {
        hidden_below(b - 1) + if is_printable((b - 1) as u8) {
            0int
        } else {
            1
        }
    }
}

/// The character of a byte. Printable bytes are their own characters; the
/// others take the characters from `U+0100` on, in byte order.
pub open spec fn byte_char(b: u8) -> char {
    if is_printable(b) {
        b as char
    } else {
        (256 + hidden_below(b as int)) as char
    }
}

/// The characters of all bytes, in byte order.
pub open spec fn byte_alphabet() -> Seq<char> {
    Seq::new(256, |b: int| byte_char(b as u8))
}

/// The byte that a character stands for, if it stands for one.
pub open spec fn char_byte(c: char) -> Option<u8> {
    if exists|b: u8| byte_char(b) == c {
        Some(choose|b: u8| byte_char(b) == c)
    } else {
        None
    }
}

proof fn lemma_hidden_below(b: int)
    requires
        0 <= b <= 256,
    ensures
        hidden_below(b) == if b <= 33 {
            b
        } else if b <= 127 {
            33
        } else if b <= 161 {
            33 + (b - 127)
        } else if b <= 173 {
            67
        } else {
            68
        },
    decreases b,
{
    if b > 0 {
        lemma_hidden_below(b - 1);
    }
}

/// No two bytes share a character, so a byte can be read back from its
/// character.
pub proof fn lemma_byte_alphabet(b: u8)
    ensures
        forall|other: u8| #[trigger] byte_char(other) == byte_char(b) ==> other == b,
        char_byte(byte_char(b)) == Some(b),
{
    lemma_hidden_below(b as int);
    assert forall|other: u8| #[trigger] byte_char(other) == byte_char(b) implies other == b by {
        lemma_hidden_below(other as int);
    }
}

/// Printable bytes, those of `!` to `~`, of an inverted exclamation mark to a not
/// sign, and from the registered sign on, are their own characters. The others take
/// the characters from `U+0100` on: the 33 that end with the space, then the 34 that
/// start with delete, then the soft hyphen.
pub proof fn lemma_byte_characters(b: u8)
    ensures
        '!' as u32 <= b <= '~' as u32 ==> byte_char(b) as u32 == b,
        0xa1 <= b <= 0xac ==> byte_char(b) as u32 == b,
        0xae <= b ==> byte_char(b) as u32 == b,
        b <= ' ' as u32 ==> byte_char(b) as u32 == 0x100 + b,
        0x7f <= b <= 0xa0 ==> byte_char(b) as u32 == 0x100 + 33 + (b - 0x7f),
        b == 0xad ==> byte_char(b) as u32 == 0x100 + 33 + 34,
{
    lemma_hidden_counts(b as int);
}

/// How many bytes below `b` do not stand for themselves, block by block.
proof fn lemma_hidden_counts(b: int)
    requires
        0 <= b <= 255,
    ensures
        b <= 33 ==> hidden_below(b) == b,
        33 <= b <= 127 ==> hidden_below(b) == 33,
        127 <= b <= 161 ==> hidden_below(b) == 33 + (b - 127),
        161 <= b <= 173 ==> hidden_below(b) == 67,
    decreases b,
{
    if b > 0 {
        lemma_hidden_counts(b - 1);
    }
}

/// Returns `true` if this byte is directly representable as itself in GPT-2's
/// byte-level vocabulary (printable ASCII + printable Latin-1).
pub fn is_printable_byte(b: u8) -> (res: bool)
    ensures
        res == is_printable(b),
{
    (33 <= b && b <= 126) || (161 <= b && b <= 172) || 174 <= b
}

/// Builds the byte to Unicode character table used by GPT-2.
///
/// Printable bytes (33–126, 161–172, 174–255) map to themselves.
/// The remaining 68 bytes map to U+0100–U+0143 in byte order.
pub fn make_byte_encoder() -> (res: [char; 256])
    ensures
        forall|b: u8| res@[b as int] == #[trigger] byte_char(b),
{
    let mut encoder: [char; 256] = ['\0'; 256];
    let mut extra: u32 = 256;
    let mut b: usize = 0;
    while b < 256
        invariant
            b <= 256,
            extra == 256 + hidden_below(b as int),
            forall|k: u8| k < b ==> encoder@[k as int] == #[trigger] byte_char(k),
        decreases 256 - b,
    {
        proof {
            lemma_hidden_below(b as int);
        }
        if is_printable_byte(b as u8) {
            encoder[b] = match char::from_u32(b as u32) {
                Some(c) => c,
                None => '\0',
            };
        } else {
            encoder[b] = match char::from_u32(extra) {
                Some(c) => c,
                None => '\0',
            };
            extra = extra + 1;
        }
        b = b + 1;
    }
    encoder
}

/// The table that leads from the code points of the first `n` characters of an
/// alphabet back to their positions.
pub open spec fn code_points(encoder: Seq<char>, n: int) -> Map<u32, u8>
    decreases n,
{
    if n <= 0 {
        Map::empty()
    } else {
        code_points(encoder, n - 1).insert(encoder[n - 1] as u32, (n - 1) as u8)
    }
}

/// Builds the table that leads from the code point of a character back to its
/// byte.
pub fn make_byte_decoder(encoder: &[char; 256]) -> (res: HashMap<u32, u8>)
    ensures
        res@ == code_points(encoder@, 256),
{
    let mut decoder: HashMap<u32, u8> = HashMap::new();
    let mut b: usize = 0;
    assert(decoder@ =~= Map::<u32, u8>::empty());
    while b < 256
        invariant
            b <= 256,
            decoder@ == code_points(encoder@, b as int),
        decreases 256 - b,
    {
        decoder.insert(encoder[b] as u32, b as u8);
        b = b + 1;
    }
    decoder
}

proof fn lemma_code_points(encoder: Seq<char>, n: int)
    requires
        0 <= n <= 256,
        encoder.len() == 256,
        forall|b: u8| encoder[b as int] == #[trigger] byte_char(b),
    ensures
        forall|c: char|
            #![trigger code_points(encoder, n).contains_key(c as u32)]
            code_points(encoder, n).contains_key(c as u32) <==> (char_byte(c) matches Some(b) && b
                < n),
        forall|c: char|
            code_points(encoder, n).contains_key(c as u32) ==> char_byte(c) == Some(
                #[trigger] code_points(encoder, n)[c as u32],
            ),
    decreases n,
{
    if n > 0 {
        let last = (n - 1) as u8;
        lemma_code_points(encoder, n - 1);
        lemma_byte_alphabet(last);
        assert(encoder[n - 1] == byte_char(last));
        let before = code_points(encoder, n - 1);
        let after = code_points(encoder, n);
        assert forall|c: char|
            #![trigger after.contains_key(c as u32)]
            after.contains_key(c as u32) <==> (char_byte(c) matches Some(b) && b < n) by {
            if after.contains_key(c as u32) {
                if c as u32 == byte_char(last) as u32 {
                    assert(c == byte_char(last));
                } else {
                    assert(before.contains_key(c as u32));
                }
            }
            if let Some(b) = char_byte(c) {
                assert(byte_char(b) == c);
                if b < n - 1 {
                    assert(before.contains_key(c as u32));
                }
            }
        }
        assert forall|c: char| after.contains_key(c as u32) implies char_byte(c) == Some(
            #[trigger] after[c as u32],
        ) by {
            if c as u32 == byte_char(last) as u32 {
                assert(c == byte_char(last));
            } else {
                assert(before.contains_key(c as u32));
                assert(char_byte(c) == Some(before[c as u32]));
            }
        }
    }
}

/// The two byte tables.
#[derive(Debug)]
pub(crate) struct ByteTables {
    encoder: [char; 256],
    decoder: HashMap<u32, u8>,
}

impl ByteTables {
    #[verifier::type_invariant]
    spec fn inv(&self) -> bool {
        &&& forall|b: u8| self.encoder@[b as int] == #[trigger] byte_char(b)
        &&& self.decoder@ == code_points(self.encoder@, 256)
    }

    /// The characters of the bytes, in byte order.
    pub(crate) closed spec fn characters(&self) -> Seq<char> {
        self.encoder@
    }

    /// The bytes of the code points.
    pub(crate) closed spec fn bytes_by_code(&self) -> Map<u32, u8> {
        self.decoder@
    }

    /// Builds the tables of GPT-2's byte alphabet.
    pub(crate) fn new() -> (res: Self)
        ensures
            res.characters() == byte_alphabet(),
            res.bytes_by_code() == code_points(byte_alphabet(), 256),
    {
        let encoder = make_byte_encoder();
        let decoder = make_byte_decoder(&encoder);
        proof {
            assert forall|i: int| 0 <= i < 256 implies encoder@[i]
                == #[trigger] byte_alphabet()[i] by {
                assert(encoder@[(i as u8) as int] == byte_char(i as u8));
            }
            assert(encoder@ =~= byte_alphabet());
        }
        ByteTables { encoder, decoder }
    }

    /// The character of a byte.
    pub(crate) fn encode(&self, b: u8) -> (res: char)
        ensures
            res == byte_char(b),
    {
        proof {
            use_type_invariant(self);
        }
        self.encoder[b as usize]
    }

    /// The byte that a character stands for, if it stands for one.
    pub(crate) fn decode(&self, c: char) -> (res: Option<u8>)
        ensures
            res == char_byte(c),
    {
        proof {
            use_type_invariant(self);
            lemma_code_points(self.encoder@, 256);
            let map = code_points(self.encoder@, 256);
            assert(map.contains_key(c as u32) <==> char_byte(c) is Some);
            assert(map.contains_key(c as u32) ==> char_byte(c) == Some(map[c as u32]));
        }
        match self.decoder.get(&(c as u32)) {
            Some(b) => Some(*b),
            None => None,
        }
    }
}

} // verus!
