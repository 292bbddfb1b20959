//! Minimal WordPiece tokenizer with Unicode support.
//!
//! The tokenizer keeps the runtime small by loading `vocab.txt` from caller
//! bytes instead of embedding a vocabulary in the WASM module. It implements
//! the BERT-style path needed by small encoder models:
//!
//! 1. Replace Unicode control characters with spaces.
//! 2. Insert spaces around CJK characters so each becomes its own token.
//! 3. Split on Unicode whitespace.
//! 4. For each whitespace-delimited word: optional Unicode lowercasing,
//!    then split off Unicode punctuation as individual tokens.
//! 5. Greedy longest-match WordPiece against the loaded vocabulary.
//! 6. Wrap with `[CLS]` / `[SEP]` and optionally pad to a fixed length.
//!
//! Accent stripping (NFD + combining-mark removal) is intentionally not
//! implemented; pick a `*-cased` multilingual vocabulary if your text has
//! accents.

pub mod basic;
pub mod bpe;
pub mod bytelevel;
pub mod meaning;
pub mod vocabfile;

use vstd::prelude::*;
use vstd::utf8::{decode_utf8, valid_utf8};
use crate::error::{Error, Result};
use crate::table::{last_index, lemma_last_index_below, texts, TokenTable};
use crate::text::{
    char_lists, chars_of, lines_of, split_lines, string_of, trim_end_char, trimmed_end_char,
    utf8_text,
};
use crate::tokenizer::basic::{basic_tokens, basic_words, is_separator, lemma_separators_split};

verus! {

/// Token ids and masks produced by [`WordPieceTokenizer`].
#[derive(Clone, Debug, PartialEq, Eq)]
pub struct EncodedInput {
    /// Token ids, including `[CLS]` and `[SEP]`.
    pub input_ids: Vec<u32>,
    /// BERT token type ids. Single-sentence inputs are all zeros.
    pub token_type_ids: Vec<u32>,
    /// Attention mask: `1` for real tokens, `0` for padding.
    pub attention_mask: Vec<u32>,
}

/// Options for [`WordPieceTokenizer`].
#[derive(Clone, Copy, Debug, PartialEq, Eq, Structural)]
pub struct WordPieceOptions {
    /// Lowercase via Unicode rules before WordPiece matching.
    pub lowercase: bool,
    /// Maximum number of chars in one basic token before it becomes `[UNK]`.
    pub max_input_chars_per_word: usize,
}

impl Default for WordPieceOptions {
    fn default() -> (res: Self)
        ensures
            res.lowercase,
            res.max_input_chars_per_word == 100,
    {
        WordPieceOptions { lowercase: true, max_input_chars_per_word: 100 }
    }
}

// ---------------------------------------------------------------------------
// Vocabularies
// ---------------------------------------------------------------------------

/// The tokens that a `vocab.txt` lists, one per line.
pub open spec fn listed_tokens(text: Seq<char>) -> Seq<Seq<char>> {
    lines_of(text).map_values(|line: Seq<char>| trim_end_char(line, '\r'))
}

/// The id of a token: its line number, counted from zero.
pub open spec fn id_in(vocab: Seq<Seq<char>>, token: Seq<char>) -> Option<u32> {
    match last_index(vocab, token) {
        Some(k) => Some(k as u32),
        None => None,
    }
}

/// A token of the list is empty. Tokens behind the last possible id are not
/// looked at.
pub open spec fn has_empty_token(vocab: Seq<Seq<char>>) -> bool {
    exists|k: int| 0 <= k < vocab.len() && k <= u32::MAX + 1 && (#[trigger] vocab[k]).len() == 0
}

/// Why a token list cannot be a vocabulary, if it cannot.
pub open spec fn vocab_error(vocab: Seq<Seq<char>>) -> Option<Error> {
    if has_empty_token(vocab) {
        Some(Error::InvalidTokenizer("vocab contains an empty token"))
    } else if vocab.len() > u32::MAX + 1 {
        Some(Error::InvalidTokenizer("vocab has too many tokens"))
    } else if vocab.len() == 0 {
        Some(Error::InvalidTokenizer("vocab is empty"))
    } else if !vocab.no_duplicates() {
        Some(Error::InvalidTokenizer("vocab contains duplicate tokens"))
    } else if id_in(vocab, "[PAD]"@) is None {
        Some(Error::InvalidTokenizer("vocab is missing [PAD]"))
    } else if id_in(vocab, "[UNK]"@) is None {
        Some(Error::InvalidTokenizer("vocab is missing [UNK]"))
    } else if id_in(vocab, "[CLS]"@) is None {
        Some(Error::InvalidTokenizer("vocab is missing [CLS]"))
    } else if id_in(vocab, "[SEP]"@) is None {
        Some(Error::InvalidTokenizer("vocab is missing [SEP]"))
    } else if id_in(vocab, "[MASK]"@) is None {
        Some(Error::InvalidTokenizer("vocab is missing [MASK]"))
    } else {
        None
    }
}

/// The vocabulary in the bytes of a `vocab.txt`, or why there is none.
pub open spec fn vocab_of_bytes(bytes: Seq<u8>) -> Result<Seq<Seq<char>>> {
    if !valid_utf8(bytes) {
        Err(Error::InvalidTokenizer("vocab is not valid UTF-8"))
    } else {
        let vocab = listed_tokens(decode_utf8(bytes));
        match vocab_error(vocab) {
            Some(e) => Err(e),
            None => Ok(vocab),
        }
    }
}

/// The id of a token is the number of its line, and no other line has it.
pub proof fn lemma_ids_are_line_numbers(vocab: Seq<Seq<char>>, k: int)
    requires
        vocab_error(vocab) is None,
        0 <= k < vocab.len(),
    ensures
        id_in(vocab, vocab[k]) == Some(k as u32),
        k <= u32::MAX,
{
    lemma_last_index_below(vocab, vocab[k], vocab.len() as int);
}

// ---------------------------------------------------------------------------
// WordPiece matching
// ---------------------------------------------------------------------------

/// The piece of a word between two positions, as the vocabulary spells it: a
/// piece that does not start the word is marked by `##`.
pub open spec fn piece_of(word: Seq<char>, start: int, end: int) -> Seq<char> {
    if start > 0 {
        seq!['#', '#'] + word.subrange(start, end)
    } else {
        word.subrange(start, end)
    }
}

/// Where the longest piece of the vocabulary that starts at `start` and ends at
/// `end` or before it ends.
pub open spec fn longest_match(
    vocab: Seq<Seq<char>>,
    word: Seq<char>,
    start: int,
    end: int,
) -> Option<int>
    decreases end - start,
{
    if end <= start {
        None
    } else if id_in(vocab, piece_of(word, start, end)) is Some {
        Some(end)
    } else {
        longest_match(vocab, word, start, end - 1)
    }
}

pub proof fn lemma_longest_match(vocab: Seq<Seq<char>>, word: Seq<char>, start: int, end: int)
    ensures
        longest_match(vocab, word, start, end) matches Some(e) ==> start < e <= end && id_in(
            vocab,
            piece_of(word, start, e),
        ) is Some,
    decreases end - start,
{
    if start < end && id_in(vocab, piece_of(word, start, end)) is None {
        lemma_longest_match(vocab, word, start, end - 1);
    }
}

/// The ids of the pieces of a word from `start` on, taking the longest piece
/// each time; `None` where no piece fits.
pub open spec fn pieces_from(vocab: Seq<Seq<char>>, word: Seq<char>, start: int) -> Option<Seq<u32>>
    decreases word.len() - start,
{
    if start >= word.len() {
        Some(Seq::empty())
    } else {
        match longest_match(vocab, word, start, word.len() as int) {
            None => None,
            Some(end) => {
                proof {
                    lemma_longest_match(vocab, word, start, word.len() as int);
                }
                match pieces_from(vocab, word, end) {
                    None => None,
                    Some(rest) => Some(
                        seq![id_in(vocab, piece_of(word, start, end)).unwrap()] + rest,
                    ),
                }
            },
        }
    }
}

/// The ids of one word: those of its pieces, or `[UNK]` when it is too long or
/// cannot be cut into pieces.
pub open spec fn word_ids(vocab: Seq<Seq<char>>, max_chars: int, word: Seq<char>) -> Seq<u32> {
    let unknown = seq![id_in(vocab, "[UNK]"@).unwrap()];
    if word.len() > max_chars {
        unknown
    } else {
        match pieces_from(vocab, word, 0) {
            Some(ids) => ids,
            None => unknown,
        }
    }
}

/// The ids of a sequence of words, one word after the other.
pub open spec fn ids_of_words(
    vocab: Seq<Seq<char>>,
    max_chars: int,
    words: Seq<Seq<char>>,
) -> Seq<u32>
    decreases words.len(),
{
    if words.len() == 0 {
        Seq::empty()
    } else {
        ids_of_words(vocab, max_chars, words.drop_last()) + word_ids(
            vocab,
            max_chars,
            words.last(),
        )
    }
}

/// The first `n` elements, or all of them if there are fewer.
pub open spec fn at_most<A>(s: Seq<A>, n: int) -> Seq<A> {
    if n < s.len() {
        s.take(n)
    } else {
        s
    }
}

/// The input ids for a sequence of words: `[CLS]`, as many ids as fit, `[SEP]`.
pub open spec fn sentence_ids(
    vocab: Seq<Seq<char>>,
    max_chars: int,
    words: Seq<Seq<char>>,
    max_len: int,
) -> Seq<u32> {
    seq![id_in(vocab, "[CLS]"@).unwrap()] + at_most(
        ids_of_words(vocab, max_chars, words),
        max_len - 2,
    ) + seq![id_in(vocab, "[SEP]"@).unwrap()]
}

impl EncodedInput {
    /// The input arrays hold these ids, without padding.
    pub open spec fn holds(&self, ids: Seq<u32>) -> bool {
        &&& self.input_ids@ == ids
        &&& self.token_type_ids@ == Seq::new(ids.len(), |i: int| 0u32)
        &&& self.attention_mask@ == Seq::new(ids.len(), |i: int| 1u32)
    }

    /// The input arrays hold these ids, padded with `pad` to `len` entries.
    pub open spec fn holds_padded(&self, ids: Seq<u32>, pad: u32, len: int) -> bool {
        &&& self.input_ids@ == padded_ids(ids, pad, len)
        &&& self.token_type_ids@ == Seq::new(len as nat, |i: int| 0u32)
        &&& self.attention_mask@ == padding_mask(ids.len() as int, len)
    }
}

/// The ids, followed by as many `pad` as make `len` entries.
pub open spec fn padded_ids(ids: Seq<u32>, pad: u32, len: int) -> Seq<u32> {
    Seq::new(
        len as nat,
        |i: int|
            if i < ids.len() {
                ids[i]
            } else {
                pad
            },
    )
}

/// `1` for each of the `used` first entries, `0` for the others.
pub open spec fn padding_mask(used: int, len: int) -> Seq<u32> {
    Seq::new(
        len as nat,
        |i: int|
            if i < used {
                1u32
            } else {
                0u32
            },
    )
}

/// The input ids start with `[CLS]`, end with `[SEP]` and are no more than
/// `max_len`; what stands between them is a prefix of the ids of the words.
pub proof fn lemma_sentence_frame(
    vocab: Seq<Seq<char>>,
    max_chars: int,
    words: Seq<Seq<char>>,
    max_len: int,
)
    requires
        max_len >= 2,
    ensures
        ({
            let ids = sentence_ids(vocab, max_chars, words, max_len);
            let all = ids_of_words(vocab, max_chars, words);
            &&& 2 <= ids.len() <= max_len
            &&& ids[0] == id_in(vocab, "[CLS]"@).unwrap()
            &&& ids.last() == id_in(vocab, "[SEP]"@).unwrap()
            &&& ids.subrange(1, ids.len() - 1).is_prefix_of(all)
            &&& all.len() + 2 <= max_len ==> ids.subrange(1, ids.len() - 1) == all
            &&& all.len() + 2 >= max_len ==> ids.len() == max_len
        }),
{
    let ids = sentence_ids(vocab, max_chars, words, max_len);
    let all = ids_of_words(vocab, max_chars, words);
    assert(ids.subrange(1, ids.len() - 1) =~= at_most(all, max_len - 2));
}

proof fn lemma_ids_of_words_concat(
    vocab: Seq<Seq<char>>,
    max_chars: int,
    a: Seq<Seq<char>>,
    b: Seq<Seq<char>>,
)
    ensures
        ids_of_words(vocab, max_chars, a + b) == ids_of_words(vocab, max_chars, a) + ids_of_words(
            vocab,
            max_chars,
            b,
        ),
    decreases b.len(),
{
    if b.len() == 0 {
        assert(a + b =~= a);
    } else {
        assert((a + b).drop_last() =~= a + b.drop_last());
        lemma_ids_of_words_concat(vocab, max_chars, a, b.drop_last());
    }
    assert(ids_of_words(vocab, max_chars, a + b) =~= ids_of_words(vocab, max_chars, a)
        + ids_of_words(vocab, max_chars, b));
}

/// White space and control characters split a text: its ids are those of what
/// stands in front of them, followed by those of what stands behind.
pub proof fn lemma_separators_split_ids(
    vocab: Seq<Seq<char>>,
    max_chars: int,
    lowercase: bool,
    a: Seq<char>,
    s: Seq<char>,
    b: Seq<char>,
)
    requires
        s.len() > 0,
        forall|i: int| 0 <= i < s.len() ==> is_separator(#[trigger] s[i]),
    ensures
        ids_of_words(vocab, max_chars, basic_words(a + s + b, lowercase)) == ids_of_words(
            vocab,
            max_chars,
            basic_words(a, lowercase),
        ) + ids_of_words(vocab, max_chars, basic_words(b, lowercase)),
{
    lemma_separators_split(a, s, b, lowercase);
    lemma_ids_of_words_concat(
        vocab,
        max_chars,
        basic_words(a, lowercase),
        basic_words(b, lowercase),
    );
}

// ---------------------------------------------------------------------------
// The tokenizer
// ---------------------------------------------------------------------------

/// A compact BERT WordPiece tokenizer backed by a sorted vocabulary.
///
/// Construct from a HuggingFace-style `vocab.txt` file. The first line has id
/// `0`, the second line has id `1`, and so on.
#[derive(Debug)]
pub struct WordPieceTokenizer {
    table: TokenTable,
    options: WordPieceOptions,
    pad_id: u32,
    unk_id: u32,
    cls_id: u32,
    sep_id: u32,
    mask_id: u32,
}

impl Clone for WordPieceTokenizer {
    fn clone(&self) -> (res: Self)
        ensures
            res.vocab() == self.vocab(),
            res.options() == self.options(),
    {
        proof {
            use_type_invariant(self);
        }
        WordPieceTokenizer {
            table: self.table.clone(),
            options: self.options,
            pad_id: self.pad_id,
            unk_id: self.unk_id,
            cls_id: self.cls_id,
            sep_id: self.sep_id,
            mask_id: self.mask_id,
        }
    }
}

/// What [`WordPieceTokenizer::encode`] puts between `[CLS]` and `[SEP]` for a
/// text.
pub open spec fn encoded_between(
    tokenizer: WordPieceTokenizer,
    text: Seq<char>,
    max_len: int,
) -> Seq<u32> {
    let ids = sentence_ids(
        tokenizer.vocab(),
        tokenizer.options().max_input_chars_per_word as int,
        basic_words(text, tokenizer.options().lowercase),
        max_len,
    );
    ids.subrange(1, ids.len() - 1)
}

/// White space and control characters split what is encoded: between `[CLS]` and
/// `[SEP]` stand the ids of what is in front of them and then those of what is
/// behind, where the ids fit. Of themselves they give no ids.
pub proof fn lemma_separators_split_encoding(
    tokenizer: WordPieceTokenizer,
    a: Seq<char>,
    s: Seq<char>,
    b: Seq<char>,
    max_len: int,
)
    requires
        s.len() > 0,
        forall|i: int| 0 <= i < s.len() ==> is_separator(#[trigger] s[i]),
        2 <= max_len,
        ids_of_words(
            tokenizer.vocab(),
            tokenizer.options().max_input_chars_per_word as int,
            basic_words(a + s + b, tokenizer.options().lowercase),
        ).len() + 2 <= max_len,
    ensures
        encoded_between(tokenizer, a + s + b, max_len) == encoded_between(tokenizer, a, max_len)
            + encoded_between(tokenizer, b, max_len),
        encoded_between(tokenizer, s, max_len) == Seq::<u32>::empty(),
{
    let vocab = tokenizer.vocab();
    let max_chars = tokenizer.options().max_input_chars_per_word as int;
    let lowercase = tokenizer.options().lowercase;
    let nothing = Seq::<char>::empty();
    lemma_separators_split_ids(vocab, max_chars, lowercase, a, s, b);
    lemma_separators_split_ids(vocab, max_chars, lowercase, nothing, s, nothing);
    assert(nothing + s + nothing =~= s);
    assert(basic_words(nothing, lowercase) =~= Seq::<Seq<char>>::empty());
    assert(ids_of_words(vocab, max_chars, basic_words(s, lowercase)) =~= Seq::<u32>::empty());
    lemma_sentence_frame(vocab, max_chars, basic_words(a + s + b, lowercase), max_len);
    lemma_sentence_frame(vocab, max_chars, basic_words(a, lowercase), max_len);
    lemma_sentence_frame(vocab, max_chars, basic_words(b, lowercase), max_len);
    lemma_sentence_frame(vocab, max_chars, basic_words(s, lowercase), max_len);
}

impl WordPieceTokenizer {
    /// The tokens in the order of their ids.
    pub closed spec fn vocab(&self) -> Seq<Seq<char>> {
        self.table.tokens()
    }

    /// The options that the tokenizer was built with.
    pub closed spec fn options(&self) -> WordPieceOptions {
        self.options
    }

    #[verifier::type_invariant]
    spec fn inv(&self) -> bool {
        &&& vocab_error(self.table.tokens()) is None
        &&& id_in(self.table.tokens(), "[PAD]"@) == Some(self.pad_id)
        &&& id_in(self.table.tokens(), "[UNK]"@) == Some(self.unk_id)
        &&& id_in(self.table.tokens(), "[CLS]"@) == Some(self.cls_id)
        &&& id_in(self.table.tokens(), "[SEP]"@) == Some(self.sep_id)
        &&& id_in(self.table.tokens(), "[MASK]"@) == Some(self.mask_id)
    }

    /// Builds a tokenizer from UTF-8 `vocab.txt` bytes using default options.
    pub fn from_vocab_bytes(bytes: &[u8]) -> (res: Result<Self>)
        ensures
            match vocab_of_bytes(bytes@) {
                Ok(vocab) => res matches Ok(tokenizer) && tokenizer.vocab() == vocab
                    && tokenizer.options() == (WordPieceOptions {
                    lowercase: true,
                    max_input_chars_per_word: 100,
                }),
                Err(e) => res == Err::<Self, Error>(e),
            },
    {
        Self::from_vocab_bytes_with_options(bytes, WordPieceOptions::default())
    }

    /// Builds a tokenizer from UTF-8 `vocab.txt` bytes and explicit options.
    pub fn from_vocab_bytes_with_options(bytes: &[u8], options: WordPieceOptions) -> (res: Result<
        Self,
    >)
        ensures
            match vocab_of_bytes(bytes@) {
                Ok(vocab) => res matches Ok(tokenizer) && tokenizer.vocab() == vocab
                    && tokenizer.options() == options,
                Err(e) => res == Err::<Self, Error>(e),
            },
    {
        let text = match utf8_text(bytes) {
            Some(text) => text,
            None => {
                return Err(Error::InvalidTokenizer("vocab is not valid UTF-8"));
            },
        };
        let lines = split_lines(chars_of(text).as_slice());
        let ghost listed = listed_tokens(text@);
        let mut tokens: Vec<String> = Vec::new();
        let n: usize = lines.len();
        let mut i: usize = 0;
        while i < n
            invariant
                i <= n,
                n == lines@.len(),
                listed == listed_tokens(text@),
                char_lists(lines@) == lines_of(text@),
                valid_utf8(bytes@),
                text@ == decode_utf8(bytes@),
                texts(tokens@) == listed.take(i as int),
                i <= u32::MAX + 1,
                forall|k: int| 0 <= k < i ==> (#[trigger] listed[k]).len() > 0,
            decreases n - i,
        {
            let token = trimmed_end_char(lines[i].as_slice(), '\r');
            assert(char_lists(lines@)[i as int] == lines@[i as int]@);
            assert(token@ == listed[i as int]);
            if token.len() == 0 {
                return Err(Error::InvalidTokenizer("vocab contains an empty token"));
            }
            if i as u64 > u32::MAX as u64 {
                return Err(Error::InvalidTokenizer("vocab has too many tokens"));
            }
            let ghost before = tokens@;
            let token = string_of(token.as_slice());
            tokens.push(token);
            assert(texts(tokens@) =~= texts(before).push(token@));
            assert(listed.take(i + 1) =~= listed.take(i as int).push(listed[i as int]));
            i = i + 1;
        }
        assert(listed.take(n as int) =~= listed);
        if tokens.len() == 0 {
            return Err(Error::InvalidTokenizer("vocab is empty"));
        }
        let table = TokenTable::new(tokens);
        proof {
            lemma_distinct_len(listed);
        }
        if table.distinct_len() != table.len() {
            return Err(Error::InvalidTokenizer("vocab contains duplicate tokens"));
        }
        let pad_id: u32 = match find_id_in(&table, "[PAD]") {
            Some(id) => id,
            None => {
                return Err(Error::InvalidTokenizer("vocab is missing [PAD]"));
            },
        };
        let unk_id: u32 = match find_id_in(&table, "[UNK]") {
            Some(id) => id,
            None => {
                return Err(Error::InvalidTokenizer("vocab is missing [UNK]"));
            },
        };
        let cls_id: u32 = match find_id_in(&table, "[CLS]") {
            Some(id) => id,
            None => {
                return Err(Error::InvalidTokenizer("vocab is missing [CLS]"));
            },
        };
        let sep_id: u32 = match find_id_in(&table, "[SEP]") {
            Some(id) => id,
            None => {
                return Err(Error::InvalidTokenizer("vocab is missing [SEP]"));
            },
        };
        let mask_id: u32 = match find_id_in(&table, "[MASK]") {
            Some(id) => id,
            None => {
                return Err(Error::InvalidTokenizer("vocab is missing [MASK]"));
            },
        };
        Ok(WordPieceTokenizer { table, options, pad_id, unk_id, cls_id, sep_id, mask_id })
    }

    /// Number of entries in the vocabulary.
    pub fn len(&self) -> (res: usize)
        ensures
            res == self.vocab().len(),
    {
        self.table.len()
    }

    /// Returns `true` if the vocabulary has no entries.
    pub fn is_empty(&self) -> (res: bool)
        ensures
            res == (self.vocab().len() == 0),
    {
        self.table.len() == 0
    }

    /// Returns the id for a token string.
    pub fn token_id(&self, token: &str) -> (res: Option<u32>)
        ensures
            res == id_in(self.vocab(), token@),
    {
        find_id_in(&self.table, token)
    }

    /// Id of `[PAD]`.
    pub fn pad_id(&self) -> (res: u32)
        ensures
            id_in(self.vocab(), "[PAD]"@) == Some(res),
    {
        proof {
            use_type_invariant(self);
        }
        self.pad_id
    }

    /// Id of `[UNK]`.
    pub fn unk_id(&self) -> (res: u32)
        ensures
            id_in(self.vocab(), "[UNK]"@) == Some(res),
    {
        proof {
            use_type_invariant(self);
        }
        self.unk_id
    }

    /// Id of `[CLS]`.
    pub fn cls_id(&self) -> (res: u32)
        ensures
            id_in(self.vocab(), "[CLS]"@) == Some(res),
    {
        proof {
            use_type_invariant(self);
        }
        self.cls_id
    }

    /// Id of `[SEP]`.
    pub fn sep_id(&self) -> (res: u32)
        ensures
            id_in(self.vocab(), "[SEP]"@) == Some(res),
    {
        proof {
            use_type_invariant(self);
        }
        self.sep_id
    }

    /// Id of `[MASK]`.
    pub fn mask_id(&self) -> (res: u32)
        ensures
            id_in(self.vocab(), "[MASK]"@) == Some(res),
    {
        proof {
            use_type_invariant(self);
        }
        self.mask_id
    }

    /// Encodes one text into BERT input arrays without padding.
    ///
    /// `max_len` includes `[CLS]` and `[SEP]`; excess WordPiece tokens are
    /// truncated before the final `[SEP]`.
    pub fn encode(&self, text: &str, max_len: usize) -> (res: Result<EncodedInput>)
        ensures
            max_len < 2 ==> res == Err::<EncodedInput, Error>(
                Error::InvalidTokenizer("max_len must be at least 2"),
            ),
            max_len >= 2 ==> (res matches Ok(encoded) && encoded.holds(
                sentence_ids(
                    self.vocab(),
                    self.options().max_input_chars_per_word as int,
                    basic_words(text@, self.options().lowercase),
                    max_len as int,
                ),
            )),
    {
        if max_len < 2 {
            return Err(Error::InvalidTokenizer("max_len must be at least 2"));
        }
        let words = basic_tokens(text, self.options.lowercase);
        self.encode_words(words.as_slice(), max_len)
    }

    /// Encodes a text that is already cut into basic tokens.
    pub fn encode_words(&self, words: &[String], max_len: usize) -> (res: Result<EncodedInput>)
        ensures
            max_len < 2 ==> res == Err::<EncodedInput, Error>(
                Error::InvalidTokenizer("max_len must be at least 2"),
            ),
            max_len >= 2 ==> (res matches Ok(encoded) && encoded.holds(
                sentence_ids(
                    self.vocab(),
                    self.options().max_input_chars_per_word as int,
                    texts(words@),
                    max_len as int,
                ),
            )),
    {
        if max_len < 2 {
            return Err(Error::InvalidTokenizer("max_len must be at least 2"));
        }
        proof {
            use_type_invariant(self);
        }
        let mut input_ids: Vec<u32> = Vec::new();
        input_ids.push(self.cls_id);
        let token_budget: usize = max_len - 2;
        let ghost vocab = self.vocab();
        let ghost max_chars = self.options.max_input_chars_per_word as int;
        let ghost all = texts(words@);
        let n: usize = words.len();
        let mut i: usize = 0;
        assert(at_most(ids_of_words(vocab, max_chars, all.take(0)), token_budget as int)
            =~= Seq::<u32>::empty());
        assert(all.take(n as int) =~= all);
        while i < n
            invariant
                i <= n,
                n == words@.len(),
                all == texts(words@),
                all.take(n as int) == all,
                vocab == self.vocab(),
                max_chars == self.options.max_input_chars_per_word,
                token_budget == max_len - 2,
                input_ids@ == seq![self.cls_id] + at_most(
                    ids_of_words(vocab, max_chars, all.take(i as int)),
                    token_budget as int,
                ),
            ensures
                input_ids@ == seq![self.cls_id] + at_most(
                    ids_of_words(vocab, max_chars, all),
                    token_budget as int,
                ),
            decreases n - i,
        {
            if input_ids.len() > token_budget {
                proof {
                    lemma_ids_of_words_prefix(vocab, max_chars, all, i as int);
                    let some = ids_of_words(vocab, max_chars, all.take(i as int));
                    let every = ids_of_words(vocab, max_chars, all);
                    assert(at_most(some, token_budget as int) =~= at_most(
                        every,
                        token_budget as int,
                    ));
                }
                break;
            }
            let remaining: usize = token_budget - (input_ids.len() - 1);
            let ghost before = input_ids@;
            self.push_wordpiece_ids(words[i].as_str(), remaining, &mut input_ids);
            proof {
                let some = ids_of_words(vocab, max_chars, all.take(i as int));
                let word = word_ids(vocab, max_chars, words@[i as int]@);
                assert(all.take(i + 1).drop_last() =~= all.take(i as int));
                assert(all.take(i + 1).last() == words@[i as int]@);
                assert(at_most(some + word, token_budget as int) =~= at_most(
                    some,
                    token_budget as int,
                ) + at_most(word, remaining as int));
                assert(input_ids@ =~= seq![self.cls_id] + at_most(
                    some + word,
                    token_budget as int,
                ));
            }
            i = i + 1;
        }
        input_ids.push(self.sep_id);
        assert(input_ids@ =~= sentence_ids(vocab, max_chars, all, max_len as int));
        let len: usize = input_ids.len();
        let token_type_ids = filled(0, len);
        let attention_mask = filled(1, len);
        Ok(EncodedInput { input_ids, token_type_ids, attention_mask })
    }

    /// Encodes one text into BERT input arrays padded to exactly `max_len`.
    pub fn encode_padded(&self, text: &str, max_len: usize) -> (res: Result<EncodedInput>)
        ensures
            max_len < 2 ==> res == Err::<EncodedInput, Error>(
                Error::InvalidTokenizer("max_len must be at least 2"),
            ),
            max_len >= 2 ==> (res matches Ok(encoded) && encoded.holds_padded(
                sentence_ids(
                    self.vocab(),
                    self.options().max_input_chars_per_word as int,
                    basic_words(text@, self.options().lowercase),
                    max_len as int,
                ),
                id_in(self.vocab(), "[PAD]"@).unwrap(),
                max_len as int,
            )),
    {
        match self.encode(text, max_len) {
            Ok(encoded) => {
                proof {
                    lemma_sentence_frame(
                        self.vocab(),
                        self.options().max_input_chars_per_word as int,
                        basic_words(text@, self.options().lowercase),
                        max_len as int,
                    );
                }
                Ok(self.padded(encoded, max_len))
            },
            Err(e) => Err(e),
        }
    }

    /// Pads input arrays to `max_len` entries.
    pub fn padded(&self, encoded: EncodedInput, max_len: usize) -> (res: EncodedInput)
        requires
            encoded.holds(encoded.input_ids@),
            encoded.input_ids@.len() <= max_len,
        ensures
            res.holds_padded(
                encoded.input_ids@,
                id_in(self.vocab(), "[PAD]"@).unwrap(),
                max_len as int,
            ),
    {
        let EncodedInput { mut input_ids, mut token_type_ids, mut attention_mask } = encoded;
        proof {
            use_type_invariant(self);
        }
        let ghost ids = encoded.input_ids@;
        while input_ids.len() < max_len
            invariant
                ids.len() <= input_ids@.len() <= max_len,
                token_type_ids@.len() == input_ids@.len(),
                attention_mask@.len() == input_ids@.len(),
                forall|k: int|
                    0 <= k < input_ids@.len() ==> #[trigger] input_ids@[k] == if k < ids.len() {
                        ids[k]
                    } else {
                        self.pad_id
                    },
                forall|k: int| 0 <= k < input_ids@.len() ==> #[trigger] token_type_ids@[k] == 0,
                forall|k: int|
                    0 <= k < input_ids@.len() ==> #[trigger] attention_mask@[k] == if k
                        < ids.len() {
                        1u32
                    } else {
                        0u32
                    },
            decreases max_len - input_ids@.len(),
        {
            input_ids.push(self.pad_id);
            token_type_ids.push(0);
            attention_mask.push(0);
        }
        let res = EncodedInput { input_ids, token_type_ids, attention_mask };
        assert(res.input_ids@ =~= padded_ids(ids, self.pad_id, max_len as int));
        assert(res.token_type_ids@ =~= Seq::new(max_len as nat, |i: int| 0u32));
        assert(res.attention_mask@ =~= padding_mask(ids.len() as int, max_len as int));
        res
    }

    /// Appends the ids of one word, at most `limit` of them.
    fn push_wordpiece_ids(&self, token: &str, limit: usize, out: &mut Vec<u32>)
        ensures
            final(out)@ == old(out)@ + at_most(
                word_ids(
                    self.vocab(),
                    self.options().max_input_chars_per_word as int,
                    token@,
                ),
                limit as int,
            ),
    {
        proof {
            use_type_invariant(self);
        }
        let ghost vocab = self.vocab();
        if limit == 0 {
            assert(out@ + at_most(
                word_ids(vocab, self.options().max_input_chars_per_word as int, token@),
                0,
            ) =~= out@);
            return;
        }
        let chars = chars_of(token);
        if chars.len() > self.options.max_input_chars_per_word {
            out.push(self.unk_id);
            assert(out@ =~= old(out)@ + at_most(seq![self.unk_id], limit as int));
            return;
        }
        let n: usize = chars.len();
        let mut start: usize = 0;
        let mut pieces: Vec<u32> = Vec::new();
        let ghost word = token@;
        assert(pieces@ =~= Seq::<u32>::empty());
        while start < n
            invariant
                start <= n,
                n == chars@.len(),
                chars@ == word,
                word == token@,
                self.inv(),
                vocab == self.vocab(),
                limit > 0,
                n <= self.options.max_input_chars_per_word,
                out@ == old(out)@,
                match pieces_from(vocab, word, start as int) {
                    Some(rest) => pieces_from(vocab, word, 0) == Some(pieces@ + rest),
                    None => pieces_from(vocab, word, 0) is None,
                },
            decreases n - start,
        {
            let mut end: usize = n;
            let mut matched: Option<u32> = None;
            while start < end
                invariant_except_break
                    matched is None,
                invariant
                    start <= end <= n,
                    start < n,
                    n == chars@.len(),
                    chars@ == word,
                    vocab == self.vocab(),
                    longest_match(vocab, word, start as int, end as int) == longest_match(
                        vocab,
                        word,
                        start as int,
                        n as int,
                    ),
                ensures
                    match matched {
                        Some(id) => start < end <= n && longest_match(
                            vocab,
                            word,
                            start as int,
                            n as int,
                        ) == Some(end as int) && id_in(
                            vocab,
                            piece_of(word, start as int, end as int),
                        ) == Some(id),
                        None => longest_match(vocab, word, start as int, n as int) is None,
                    },
                decreases end - start,
            {
                let piece = spell_piece(chars.as_slice(), start, end);
                match self.token_id(piece.as_str()) {
                    Some(id) => {
                        matched = Some(id);
                        break;
                    },
                    None => {},
                }
                end = end - 1;
            }
            match matched {
                Some(id) => {
                    let ghost before = pieces@;
                    pieces.push(id);
                    proof {
                        if let Some(rest) = pieces_from(vocab, word, end as int) {
                            assert(before + (seq![id] + rest) =~= pieces@ + rest);
                        }
                    }
                    start = end;
                },
                None => {
                    out.push(self.unk_id);
                    assert(out@ =~= old(out)@ + at_most(seq![self.unk_id], limit as int));
                    return;
                },
            }
        }
        assert(pieces@ + Seq::<u32>::empty() =~= pieces@);
        let m: usize = pieces.len();
        let mut k: usize = 0;
        while k < m && k < limit
            invariant
                k <= m,
                k <= limit,
                m == pieces@.len(),
                out@ == old(out)@ + pieces@.take(k as int),
            decreases m - k,
        {
            out.push(pieces[k]);
            k = k + 1;
            assert(pieces@.take(k as int) =~= pieces@.take(k - 1).push(pieces@[k - 1]));
        }
        assert(pieces@.take(k as int) =~= at_most(pieces@, limit as int));
    }
}

/// The id of a token: its position in the list.
fn find_id_in(table: &TokenTable, token: &str) -> (res: Option<u32>)
    ensures
        res == id_in(table.tokens(), token@),
{
    match table.find(token) {
        Some(k) => Some(k as u32),
        None => None,
    }
}

/// The piece of a word between two positions, as the vocabulary spells it.
fn spell_piece(chars: &[char], start: usize, end: usize) -> (res: String)
    requires
        start <= end <= chars@.len(),
    ensures
        res@ == piece_of(chars@, start as int, end as int),
{
    let mut piece = String::new();
    if start > 0 {
        piece.push('#');
        piece.push('#');
    }
    let ghost mark = piece@;
    assert(start > 0 ==> mark =~= seq!['#', '#']);
    let mut i: usize = start;
    while i < end
        invariant
            start <= i <= end <= chars@.len(),
            piece@ == mark + chars@.subrange(start as int, i as int),
        decreases end - i,
    {
        piece.push(chars[i]);
        i = i + 1;
        assert(chars@.subrange(start as int, i as int) =~= chars@.subrange(
            start as int,
            i - 1,
        ).push(chars@[i - 1]));
    }
    assert(piece@ =~= piece_of(chars@, start as int, end as int));
    piece
}

/// `len` copies of `value`.
pub(crate) fn filled(value: u32, len: usize) -> (res: Vec<u32>)
    ensures
        res@ == Seq::new(len as nat, |i: int| value),
{
    let mut out: Vec<u32> = Vec::new();
    while out.len() < len
        invariant
            out@.len() <= len,
            forall|k: int| 0 <= k < out@.len() ==> out@[k] == value,
        decreases len - out@.len(),
    {
        out.push(value);
    }
    assert(out@ =~= Seq::new(len as nat, |i: int| value));
    out
}

/// A list has as many distinct elements as elements exactly if it has no
/// duplicates.
proof fn lemma_distinct_len(list: Seq<Seq<char>>)
    ensures
        (list.to_set().len() == list.len()) == list.no_duplicates(),
{
    if list.no_duplicates() {
        list.unique_seq_to_set();
    }
    if list.to_set().len() == list.len() {
        list.lemma_no_dup_set_cardinality();
    }
}

/// The ids of the first words are a prefix of the ids of all words.
proof fn lemma_ids_of_words_prefix(
    vocab: Seq<Seq<char>>,
    max_chars: int,
    words: Seq<Seq<char>>,
    k: int,
)
    requires
        0 <= k <= words.len(),
    ensures
        ids_of_words(vocab, max_chars, words.take(k)).is_prefix_of(
            ids_of_words(vocab, max_chars, words),
        ),
    decreases words.len(),
{
    if k == words.len() {
        assert(words.take(k) =~= words);
    } else {
        lemma_ids_of_words_prefix(vocab, max_chars, words.drop_last(), k);
        assert(words.drop_last().take(k) =~= words.take(k));
    }
}

} // verus!
