//! Byte-level BPE tokenizer compatible with GPT-2 and RoBERTa.
//!
//! Load from the two files that HuggingFace distributes with every GPT-2
//! model: `vocab.json` (token-string → id mapping) and `merges.txt`
//! (ordered BPE merge rules).
//!
//! # Byte-level encoding
//!
//! GPT-2 maps each input byte to a unique Unicode character before applying
//! BPE. This means every byte sequence is representable without an `[UNK]`
//! token: the vocabulary only needs to contain the 256 single-byte tokens
//! plus the merged tokens.
//!
//! # Limitations
//!
//! The pre-tokenization uses a simple whitespace-split approach rather than
//! GPT-2's full regex pattern. This covers the common case well; contraction
//! splitting (`it's` → `it` + `'s`) is not performed.

pub mod meaning;

use vstd::prelude::*;
use vstd::utf8::{
    decode_utf8, encode_utf8, encode_utf8_decode_utf8, encode_utf8_valid_utf8, valid_utf8,
};
use std::collections::HashMap;
use crate::error::{Error, Result};
use crate::table::{TokenTable, last_index, lemma_last_index_below, texts};
use crate::text::{
    append_chars, char_lists, chars_of, index_of_char, lemma_index_of_char, lemma_utf8_concat,
    same_chars, string_of,
};
use crate::tokenizer::{at_most, filled, padded_ids, padding_mask};
use crate::tokenizer::bytelevel::{ByteTables, byte_char, char_byte, lemma_byte_alphabet};
use crate::tokenizer::vocabfile::{
    MergeRule, MergesFile, VocabFile, VocabItem, merges_txt_rules, parse_merges_txt,
    parse_vocab_json, rules_of, separators_fit, vocab_json_items,
};

verus! {

broadcast use vstd::std_specs::hash::group_hash_axioms;

// ---------------------------------------------------------------------------
// Merging
// ---------------------------------------------------------------------------

/// The rank of a rule: the number of its last occurrence below `n`.
pub open spec fn rank_below(rules: Seq<MergeRule>, rule: MergeRule, n: int) -> Option<int>
    decreases n,
{
    if n <= 0 {
        None
    } else if rules[n - 1] == rule {
        Some(n - 1)
    } else {
        rank_below(rules, rule, n - 1)
    }
}

/// The rank of the rule that merges `left` and `right`.
pub open spec fn rank_of(rules: Seq<MergeRule>, left: Seq<char>, right: Seq<char>) -> Option<int> {
    rank_below(rules, (left, right), rules.len() as int)
}

pub proof fn lemma_rank_below(rules: Seq<MergeRule>, rule: MergeRule, n: int)
    requires
        0 <= n <= rules.len(),
    ensures
        match rank_below(rules, rule, n) {
            Some(k) => 0 <= k < n && rules[k] == rule && forall|j: int|
                k < j < n ==> rules[j] != rule,
            None => forall|j: int| 0 <= j < n ==> rules[j] != rule,
        },
    decreases n,
{
    if n > 0 && rules[n - 1] != rule {
        lemma_rank_below(rules, rule, n - 1);
    }
}

/// The rank of the rule for the neighbours at `i` and `i + 1`.
pub open spec fn pair_rank(rules: Seq<MergeRule>, tokens: Seq<Seq<char>>, i: int) -> Option<int> {
    rank_of(rules, tokens[i], tokens[i + 1])
}

/// The first of the pairs before `n` whose rule has the lowest rank.
pub open spec fn best_pair_below(rules: Seq<MergeRule>, tokens: Seq<Seq<char>>, n: int) -> Option<
    int,
>
    decreases n,
{
    if n <= 0 {
        None
    } else {
        let before = best_pair_below(rules, tokens, n - 1);
        match (before, pair_rank(rules, tokens, n - 1)) {
            (None, Some(_)) => Some(n - 1),
            (Some(b), Some(rank)) => if rank < pair_rank(rules, tokens, b).unwrap() {
                Some(n - 1)
            } else {
                before
            },
            _ => before,
        }
    }
}

/// The pair that is merged next: the first of those whose rule has the lowest
/// rank.
pub open spec fn best_pair(rules: Seq<MergeRule>, tokens: Seq<Seq<char>>) -> Option<int> {
    best_pair_below(rules, tokens, tokens.len() - 1)
}

/// The pair that is merged next has a rule; no pair has a rule of a lower rank,
/// and no earlier pair has one of the same rank. There is no such pair only if
/// no pair has a rule.
pub proof fn lemma_best_pair_below(rules: Seq<MergeRule>, tokens: Seq<Seq<char>>, n: int)
    ensures
        match best_pair_below(rules, tokens, n) {
            Some(b) => 0 <= b < n && pair_rank(rules, tokens, b) is Some && (forall|j: int|
                0 <= j < n && (#[trigger] pair_rank(rules, tokens, j)) is Some ==> pair_rank(
                    rules,
                    tokens,
                    b,
                ).unwrap() <= pair_rank(rules, tokens, j).unwrap() && (j < b ==> pair_rank(
                    rules,
                    tokens,
                    b,
                ).unwrap() < pair_rank(rules, tokens, j).unwrap())),
            None => forall|j: int|
                0 <= j < n ==> (#[trigger] pair_rank(rules, tokens, j)) is None,
        },
    decreases n,
{
    if n > 0 {
        lemma_best_pair_below(rules, tokens, n - 1);
    }
}

/// The tokens from `i` on, with every pair `left`, `right` merged from left to
/// right.
pub open spec fn merged_from(
    tokens: Seq<Seq<char>>,
    left: Seq<char>,
    right: Seq<char>,
    i: int,
) -> Seq<Seq<char>>
    decreases tokens.len() - i,
{
    if !(0 <= i < tokens.len()) {
        Seq::empty()
    } else if i + 1 < tokens.len() && tokens[i] == left && tokens[i + 1] == right {
        seq![left + right] + merged_from(tokens, left, right, i + 2)
    } else {
        seq![tokens[i]] + merged_from(tokens, left, right, i + 1)
    }
}

/// Merging leaves fewer tokens if there is a pair to merge.
pub proof fn lemma_merged_from_len(
    tokens: Seq<Seq<char>>,
    left: Seq<char>,
    right: Seq<char>,
    i: int,
    k: int,
)
    requires
        0 <= i <= tokens.len(),
    ensures
        merged_from(tokens, left, right, i).len() <= tokens.len() - i,
        i <= k < tokens.len() - 1 && tokens[k] == left && tokens[k + 1] == right ==> merged_from(
            tokens,
            left,
            right,
            i,
        ).len() < tokens.len() - i,
    decreases tokens.len() - i,
{
    if i < tokens.len() {
        if i + 1 < tokens.len() && tokens[i] == left && tokens[i + 1] == right {
            lemma_merged_from_len(tokens, left, right, i + 2, k);
        } else {
            lemma_merged_from_len(tokens, left, right, i + 1, k);
        }
    }
}

/// The tokens once no pair has a rule any more.
pub open spec fn fully_merged(rules: Seq<MergeRule>, tokens: Seq<Seq<char>>) -> Seq<Seq<char>>
    decreases tokens.len(),
{
    match best_pair(rules, tokens) {
        None => tokens,
        Some(b) => {
            proof {
                lemma_best_pair_below(rules, tokens, tokens.len() - 1);
                lemma_merged_from_len(tokens, tokens[b], tokens[b + 1], 0, b);
            }
            fully_merged(rules, merged_from(tokens, tokens[b], tokens[b + 1], 0))
        },
    }
}

/// Each character as a token of its own.
pub open spec fn single_chars(chars: Seq<char>) -> Seq<Seq<char>> {
    chars.map_values(|c: char| seq![c])
}

/// All tokens joined together.
pub open spec fn joined(tokens: Seq<Seq<char>>) -> Seq<char>
    decreases tokens.len(),
{
    if tokens.len() == 0 {
        Seq::empty()
    } else {
        tokens[0] + joined(tokens.drop_first())
    }
}

proof fn lemma_joined_prepend(token: Seq<char>, tokens: Seq<Seq<char>>)
    ensures
        joined(seq![token] + tokens) == token + joined(tokens),
{
    assert((seq![token] + tokens).drop_first() =~= tokens);
}

proof fn lemma_joined_merged_from(
    tokens: Seq<Seq<char>>,
    left: Seq<char>,
    right: Seq<char>,
    i: int,
)
    requires
        0 <= i <= tokens.len(),
    ensures
        joined(merged_from(tokens, left, right, i)) == joined(tokens.skip(i)),
    decreases tokens.len() - i,
{
    if i < tokens.len() {
        let rest = tokens.skip(i);
        assert(rest.drop_first() =~= tokens.skip(i + 1));
        if i + 1 < tokens.len() && tokens[i] == left && tokens[i + 1] == right {
            lemma_joined_merged_from(tokens, left, right, i + 2);
            lemma_joined_prepend(left + right, merged_from(tokens, left, right, i + 2));
            assert(tokens.skip(i + 1).drop_first() =~= tokens.skip(i + 2));
            assert(joined(rest) == left + joined(tokens.skip(i + 1)));
            assert(joined(tokens.skip(i + 1)) == right + joined(tokens.skip(i + 2)));
            assert(left + (right + joined(tokens.skip(i + 2))) =~= left + right + joined(
                tokens.skip(i + 2),
            ));
        } else {
            lemma_joined_merged_from(tokens, left, right, i + 1);
            lemma_joined_prepend(tokens[i], merged_from(tokens, left, right, i + 1));
        }
    } else {
        assert(tokens.skip(i) =~= Seq::<Seq<char>>::empty());
    }
}

/// Merging does not change the text: the merged tokens joined together are the
/// tokens joined together.
pub proof fn lemma_merging_keeps_text(rules: Seq<MergeRule>, tokens: Seq<Seq<char>>)
    ensures
        joined(fully_merged(rules, tokens)) == joined(tokens),
    decreases tokens.len(),
{
    if let Some(b) = best_pair(rules, tokens) {
        lemma_best_pair_below(rules, tokens, tokens.len() - 1);
        lemma_merged_from_len(tokens, tokens[b], tokens[b + 1], 0, b);
        lemma_joined_merged_from(tokens, tokens[b], tokens[b + 1], 0);
        assert(tokens.skip(0) =~= tokens);
        lemma_merging_keeps_text(rules, merged_from(tokens, tokens[b], tokens[b + 1], 0));
    }
}

/// Once merging is done no rule applies any more.
pub proof fn lemma_merging_is_complete(rules: Seq<MergeRule>, tokens: Seq<Seq<char>>, i: int)
    requires
        0 <= i < fully_merged(rules, tokens).len() - 1,
    ensures
        pair_rank(rules, fully_merged(rules, tokens), i) is None,
    decreases tokens.len(),
{
    lemma_best_pair_below(rules, tokens, tokens.len() - 1);
    if let Some(b) = best_pair(rules, tokens) {
        lemma_merged_from_len(tokens, tokens[b], tokens[b + 1], 0, b);
        lemma_merging_is_complete(rules, merged_from(tokens, tokens[b], tokens[b + 1], 0), i);
    }
}

/// The merge rules, searchable by the pair that they merge.
#[derive(Debug)]
struct MergeTable {
    lines: TokenTable,
    seps: Vec<usize>,
}

impl MergeTable {
    spec fn rules(&self) -> Seq<MergeRule> {
        rules_of(self.lines.tokens(), self.seps@)
    }

    #[verifier::type_invariant]
    spec fn inv(&self) -> bool {
        separators_fit(self.lines.tokens(), self.seps@)
    }

    fn new(file: MergesFile) -> (res: Self)
        requires
            separators_fit(texts(file.lines@), file.seps@),
        ensures
            res.rules() == rules_of(texts(file.lines@), file.seps@),
    {
        let MergesFile { lines, seps } = file;
        MergeTable { lines: TokenTable::new(lines), seps }
    }

    fn copy(&self) -> (res: Self)
        ensures
            res.rules() == self.rules(),
    {
        proof {
            use_type_invariant(self);
        }
        let seps = self.seps.clone();
        assert(seps@ =~= self.seps@);
        MergeTable { lines: self.lines.clone(), seps }
    }

    /// The rank of the rule that merges the two tokens.
    fn rank(&self, left: &[char], right: &[char]) -> (res: Option<usize>)
        ensures
            match res {
                Some(k) => rank_of(self.rules(), left@, right@) == Some(k as int),
                None => rank_of(self.rules(), left@, right@) is None,
            },
    {
        proof {
            use_type_invariant(self);
        }
        let ghost lines = self.lines.tokens();
        let ghost rules = self.rules();
        let mut key: Vec<char> = Vec::new();
        append_chars(&mut key, left);
        key.push(' ');
        append_chars(&mut key, right);
        let ghost line = left@.push(' ') + right@;
        assert(key@ =~= line);
        proof {
            lemma_rank_below(rules, (left@, right@), rules.len() as int);
            lemma_last_index_below(lines, line, lines.len() as int);
            assert forall|j: int| 0 <= j < rules.len() && rules[j] == (left@, right@) implies lines[j]
                == line && self.seps@[j] == left@.len() by {
                lemma_index_of_char(lines[j], ' ', 0);
                assert(lines[j] =~= lines[j].take(self.seps@[j] as int).push(' ') + lines[j].skip(
                    self.seps@[j] + 1,
                ));
            }
        }
        match self.lines.find(string_of(key.as_slice()).as_str()) {
            Some(k) => {
                assert(lines[k as int] == line);
                if self.seps[k] == left.len() {
                    assert(line.take(left@.len() as int) =~= left@);
                    assert(line.skip(left@.len() as int + 1) =~= right@);
                    assert(rules[k as int] == (left@, right@));
                    Some(k)
                } else {
                    proof {
                        assert forall|j: int| 0 <= j < rules.len() implies rules[j] != (
                            left@,
                            right@,
                        ) by {
                            if rules[j] == (left@, right@) {
                                assert(lines[j] == line);
                                assert(index_of_char(lines[j], ' ', 0) == index_of_char(
                                    lines[k as int],
                                    ' ',
                                    0,
                                ));
                            }
                        }
                    }
                    None
                }
            },
            None => None,
        }
    }
}

// ---------------------------------------------------------------------------
// Words
// ---------------------------------------------------------------------------

/// A character that separates words.
pub open spec fn is_word_break(c: char) -> bool {
    c == ' ' || c == '\t' || c == '\n' || c == '\r'
}

/// The words that are complete, the word that is being read, and whether a
/// separator has been read since the last character of a word.
#[verifier::ext_equal]
pub struct WordSplit {
    pub complete: Seq<Seq<char>>,
    pub word: Seq<char>,
    pub after_break: bool,
}

impl WordSplit {
    /// The words once the current word has ended.
    pub open spec fn flushed(self) -> Seq<Seq<char>> {
        if self.word.len() == 0 {
            self.complete
        } else {
            self.complete.push(self.word)
        }
    }

    /// One more character. A word that follows a separator starts with a space.
    pub open spec fn then_char(self, c: char) -> Self {
        if is_word_break(c) {
            WordSplit { complete: self.flushed(), word: Seq::empty(), after_break: true }
        } else if self.after_break {
            WordSplit {
                complete: self.complete,
                word: self.word.push(' ').push(c),
                after_break: false,
            }
        } else {
            WordSplit { complete: self.complete, word: self.word.push(c), after_break: false }
        }
    }
}

/// How a text splits into words.
pub open spec fn word_split(text: Seq<char>) -> WordSplit
    decreases text.len(),
{
    if text.len() == 0 {
        WordSplit { complete: Seq::empty(), word: Seq::empty(), after_break: false }
    } else {
        word_split(text.drop_last()).then_char(text.last())
    }
}

/// The words of a text.
pub open spec fn pre_tokens(text: Seq<char>) -> Seq<Seq<char>> {
    word_split(text).flushed()
}

/// Splits text into pre-tokenization units, keeping a leading space
/// attached to the following word (GPT-2 / Ġ convention).
pub fn pre_tokenize(text: &str) -> (res: Vec<String>)
    ensures
        texts(res@) == pre_tokens(text@),
{
    let chars = chars_of(text);
    let n: usize = chars.len();
    let mut words: Vec<String> = Vec::new();
    let mut current: Vec<char> = Vec::new();
    let mut pending_space = false;
    let mut i: usize = 0;
    assert(texts(words@) =~= Seq::<Seq<char>>::empty());
    while i < n
        invariant
            i <= n,
            n == chars@.len(),
            word_split(chars@.take(i as int)) == (WordSplit {
                complete: texts(words@),
                word: current@,
                after_break: pending_space,
            }),
        decreases n - i,
    {
        let c: char = chars[i];
        assert(chars@.take(i + 1).drop_last() =~= chars@.take(i as int));
        if c == ' ' || c == '\t' || c == '\n' || c == '\r' {
            if current.len() > 0 {
                let word = string_of(current.as_slice());
                let ghost before = words@;
                words.push(word);
                assert(texts(words@) =~= texts(before).push(word@));
                current = Vec::new();
            }
            assert(current@ =~= Seq::<char>::empty());
            pending_space = true;
        } else {
            if pending_space {
                current.push(' ');
                pending_space = false;
            }
            current.push(c);
        }
        i = i + 1;
    }
    assert(chars@.take(n as int) =~= chars@);
    if current.len() > 0 {
        let word = string_of(current.as_slice());
        let ghost before = words@;
        words.push(word);
        assert(texts(words@) =~= texts(before).push(word@));
    }
    words
}

/// The characters that stand for the bytes of a word.
pub open spec fn word_chars(word: Seq<char>) -> Seq<char> {
    encode_utf8(word).map_values(|b: u8| byte_char(b))
}

/// The tokens of a word: its byte characters, merged as far as the rules go.
pub open spec fn word_tokens(rules: Seq<MergeRule>, word: Seq<char>) -> Seq<Seq<char>> {
    fully_merged(rules, single_chars(word_chars(word)))
}

// ---------------------------------------------------------------------------
// Ids
// ---------------------------------------------------------------------------

/// The tokens of a vocabulary in file order.
pub open spec fn keys_of(items: Seq<VocabItem>) -> Seq<Seq<char>> {
    items.map_values(|item: VocabItem| item.0)
}

/// The id of a token. A token that is listed twice has the id that is listed
/// last.
pub open spec fn vocab_id(items: Seq<VocabItem>, token: Seq<char>) -> Option<u32> {
    match last_index(keys_of(items), token) {
        Some(k) => Some(items[k].1),
        None => None,
    }
}

/// The id of a character as a token of its own; zero if it is not listed.
pub open spec fn char_id(items: Seq<VocabItem>, c: char) -> u32 {
    match vocab_id(items, seq![c]) {
        Some(id) => id,
        None => 0,
    }
}

/// The ids that a token is encoded as: its own, else that of each of its
/// characters.
pub open spec fn encoded_ids(items: Seq<VocabItem>, token: Seq<char>) -> Seq<u32> {
    match vocab_id(items, token) {
        Some(id) => seq![id],
        None => token.map_values(|c: char| char_id(items, c)),
    }
}

/// The ids of a sequence of tokens, one token after the other.
pub open spec fn token_ids(items: Seq<VocabItem>, tokens: Seq<Seq<char>>) -> Seq<u32>
    decreases tokens.len(),
{
    if tokens.len() == 0 {
        Seq::empty()
    } else {
        token_ids(items, tokens.drop_last()) + encoded_ids(items, tokens.last())
    }
}

/// The ids of a sequence of words, one word after the other.
pub open spec fn bpe_ids(
    items: Seq<VocabItem>,
    rules: Seq<MergeRule>,
    words: Seq<Seq<char>>,
) -> Seq<u32>
    decreases words.len(),
{
    if words.len() == 0 {
        Seq::empty()
    } else {
        bpe_ids(items, rules, words.drop_last()) + token_ids(
            items,
            word_tokens(rules, words.last()),
        )
    }
}

/// The ids of a text in at most `max_len` entries, the last of which is the
/// end-of-text token if there is one.
pub open spec fn framed_ids(ids: Seq<u32>, eos: Option<u32>, max_len: int) -> Seq<u32> {
    match eos {
        Some(e) => at_most(ids, max_len - 1).push(e),
        None => at_most(ids, max_len),
    }
}

/// Encoding leaves no more than `max_len` ids, ends with the end-of-text token
/// if there is one, and otherwise keeps a prefix of the ids of the text.
pub proof fn lemma_framed_ids(ids: Seq<u32>, eos: Option<u32>, max_len: int)
    requires
        max_len > 0,
    ensures
        framed_ids(ids, eos, max_len).len() <= max_len,
        ids.len() >= max_len ==> framed_ids(ids, eos, max_len).len() == max_len,
        ids.len() < max_len ==> framed_ids(ids, eos, max_len) == match eos {
            Some(e) => ids.push(e),
            None => ids,
        },
        match eos {
            Some(e) => framed_ids(ids, eos, max_len).last() == e && framed_ids(
                ids,
                eos,
                max_len,
            ).drop_last().is_prefix_of(ids),
            None => framed_ids(ids, eos, max_len).is_prefix_of(ids),
        },
{
    if let Some(e) = eos {
        assert(framed_ids(ids, eos, max_len).drop_last() =~= at_most(ids, max_len - 1));
    }
}

/// The last position below `n` of a token whose id is `id`.
pub open spec fn position_of_id(items: Seq<VocabItem>, id: u32, n: int) -> Option<int>
    decreases n,
{
    if n <= 0 {
        None
    } else if items[n - 1].1 == id && last_index(keys_of(items), items[n - 1].0) == Some(n - 1) {
        Some(n - 1)
    } else {
        position_of_id(items, id, n - 1)
    }
}

/// The token that an id is decoded as. Where several tokens have the same id it
/// is the one that is listed last.
pub open spec fn token_with_id(items: Seq<VocabItem>, id: u32) -> Option<Seq<char>> {
    match position_of_id(items, id, items.len() as int) {
        Some(k) => Some(items[k].0),
        None => None,
    }
}

/// An id is decoded as a token that has this id, if there is one.
pub proof fn lemma_token_with_id(items: Seq<VocabItem>, id: u32)
    ensures
        match token_with_id(items, id) {
            Some(token) => vocab_id(items, token) == Some(id),
            None => forall|token: Seq<char>| #[trigger] vocab_id(items, token) != Some(id),
        },
{
    lemma_position_of_id(items, id, items.len() as int);
    if token_with_id(items, id) is None {
        assert forall|token: Seq<char>| #[trigger] vocab_id(items, token) != Some(id) by {
            lemma_last_index_below(keys_of(items), token, items.len() as int);
        }
    }
}

proof fn lemma_position_of_id(items: Seq<VocabItem>, id: u32, n: int)
    requires
        0 <= n <= items.len(),
    ensures
        match position_of_id(items, id, n) {
            Some(k) => 0 <= k < n && items[k].1 == id && last_index(keys_of(items), items[k].0)
                == Some(k),
            None => forall|k: int|
                0 <= k < n && last_index(keys_of(items), (#[trigger] items[k]).0) == Some(k)
                    ==> items[k].1 != id,
        },
    decreases n,
{
    if n > 0 {
        lemma_position_of_id(items, id, n - 1);
    }
}

/// A special token, which stands for no text.
pub open spec fn is_special(token: Seq<char>) -> bool {
    token.len() > 0 && token[0] == '<' && token.last() == '>'
}

/// The bytes that the characters of a token stand for. Characters that stand
/// for no byte are left out.
pub open spec fn char_bytes(token: Seq<char>) -> Seq<u8>
    decreases token.len(),
{
    if token.len() == 0 {
        Seq::empty()
    } else {
        let before = char_bytes(token.drop_last());
        match char_byte(token.last()) {
            Some(b) => before.push(b),
            None => before,
        }
    }
}

/// The bytes that an id stands for.
pub open spec fn id_bytes(items: Seq<VocabItem>, id: u32) -> Seq<u8> {
    match token_with_id(items, id) {
        Some(token) => if is_special(token) {
            Seq::empty()
        } else {
            char_bytes(token)
        },
        None => Seq::empty(),
    }
}

/// The bytes that a sequence of ids stands for.
pub open spec fn decoded_bytes(items: Seq<VocabItem>, ids: Seq<u32>) -> Seq<u8>
    decreases ids.len(),
{
    if ids.len() == 0 {
        Seq::empty()
    } else {
        decoded_bytes(items, ids.drop_last()) + id_bytes(items, ids.last())
    }
}

// ---------------------------------------------------------------------------
// Decoding what was encoded
// ---------------------------------------------------------------------------

/// Every token of the word is spelled.
pub open spec fn is_spelled(
    items: Seq<VocabItem>,
    rules: Seq<MergeRule>,
    word: Seq<char>,
) -> bool {
    forall|k: int|
        0 <= k < word_tokens(rules, word).len() ==> token_is_spelled(
            items,
            #[trigger] word_tokens(rules, word)[k],
        )
}

/// The token has an id that is decoded as this token, and is not special.
pub open spec fn token_is_listed(items: Seq<VocabItem>, token: Seq<char>) -> bool {
    &&& vocab_id(items, token) matches Some(id) && token_with_id(items, id) == Some(token)
    &&& !is_special(token)
}

/// The token, or else each of its characters, has an id that is decoded as it.
pub open spec fn token_is_spelled(items: Seq<VocabItem>, token: Seq<char>) -> bool {
    ||| token_is_listed(items, token)
    ||| vocab_id(items, token) is None && forall|i: int|
        0 <= i < token.len() ==> token_is_listed(items, seq![#[trigger] token[i]])
}

/// The bytes of a sequence of words, one word after the other.
pub open spec fn words_bytes(words: Seq<Seq<char>>) -> Seq<u8>
    decreases words.len(),
{
    if words.len() == 0 {
        Seq::empty()
    } else {
        words_bytes(words.drop_last()) + encode_utf8(words.last())
    }
}

proof fn lemma_char_bytes_concat(a: Seq<char>, b: Seq<char>)
    ensures
        char_bytes(a + b) == char_bytes(a) + char_bytes(b),
    decreases b.len(),
{
    if b.len() == 0 {
        assert(a + b =~= a);
    } else {
        assert((a + b).drop_last() =~= a + b.drop_last());
        lemma_char_bytes_concat(a, b.drop_last());
        if let Some(x) = char_byte(b.last()) {
            assert((char_bytes(a) + char_bytes(b.drop_last())).push(x) =~= char_bytes(a)
                + char_bytes(b.drop_last()).push(x));
        }
    }
}

proof fn lemma_char_bytes_of_bytes(bytes: Seq<u8>)
    ensures
        char_bytes(bytes.map_values(|b: u8| byte_char(b))) == bytes,
    decreases bytes.len(),
{
    let chars = bytes.map_values(|b: u8| byte_char(b));
    if bytes.len() > 0 {
        lemma_char_bytes_of_bytes(bytes.drop_last());
        assert(chars.drop_last() =~= bytes.drop_last().map_values(|b: u8| byte_char(b)));
        lemma_byte_alphabet(bytes.last());
        assert(bytes.drop_last().push(bytes.last()) =~= bytes);
    } else {
        assert(char_bytes(chars) =~= bytes);
    }
}

proof fn lemma_joined_push(tokens: Seq<Seq<char>>, token: Seq<char>)
    ensures
        joined(tokens.push(token)) == joined(tokens) + token,
    decreases tokens.len(),
{
    let longer = tokens.push(token);
    assert(joined(longer) == longer[0] + joined(longer.drop_first()));
    if tokens.len() == 0 {
        assert(longer.drop_first() =~= Seq::<Seq<char>>::empty());
        assert(token + Seq::<char>::empty() =~= Seq::<char>::empty() + token);
    } else {
        assert(longer.drop_first() =~= tokens.drop_first().push(token));
        lemma_joined_push(tokens.drop_first(), token);
        assert(tokens[0] + (joined(tokens.drop_first()) + token) =~= tokens[0] + joined(
            tokens.drop_first(),
        ) + token);
    }
}

proof fn lemma_joined_single_chars(chars: Seq<char>)
    ensures
        joined(single_chars(chars)) == chars,
    decreases chars.len(),
{
    if chars.len() > 0 {
        lemma_joined_single_chars(chars.drop_last());
        assert(single_chars(chars) =~= single_chars(chars.drop_last()).push(seq![chars.last()]));
        lemma_joined_push(single_chars(chars.drop_last()), seq![chars.last()]);
        assert(chars.drop_last() + seq![chars.last()] =~= chars);
    } else {
        assert(joined(single_chars(chars)) =~= chars);
    }
}

proof fn lemma_decoded_concat(items: Seq<VocabItem>, a: Seq<u32>, b: Seq<u32>)
    ensures
        decoded_bytes(items, a + b) == decoded_bytes(items, a) + decoded_bytes(items, b),
    decreases b.len(),
{
    if b.len() == 0 {
        assert(a + b =~= a);
        assert(decoded_bytes(items, a) + Seq::<u8>::empty() =~= decoded_bytes(items, a));
    } else {
        assert((a + b).drop_last() =~= a + b.drop_last());
        lemma_decoded_concat(items, a, b.drop_last());
        assert(decoded_bytes(items, a) + decoded_bytes(items, b.drop_last()) + id_bytes(
            items,
            b.last(),
        ) =~= decoded_bytes(items, a) + (decoded_bytes(items, b.drop_last()) + id_bytes(
            items,
            b.last(),
        )));
    }
}

proof fn lemma_decoded_chars(items: Seq<VocabItem>, token: Seq<char>)
    requires
        forall|i: int| 0 <= i < token.len() ==> token_is_listed(items, seq![#[trigger] token[i]]),
    ensures
        decoded_bytes(items, token.map_values(|c: char| char_id(items, c))) == char_bytes(token),
    decreases token.len(),
{
    let ids = token.map_values(|c: char| char_id(items, c));
    if token.len() > 0 {
        let before = token.drop_last();
        assert forall|i: int| 0 <= i < before.len() implies token_is_listed(
            items,
            seq![#[trigger] before[i]],
        ) by {
            assert(before[i] == token[i]);
        }
        lemma_decoded_chars(items, before);
        assert(ids.drop_last() =~= before.map_values(|c: char| char_id(items, c)));
        let one = seq![token.last()];
        assert(token_is_listed(items, seq![token[token.len() - 1]]));
        lemma_char_bytes_concat(before, one);
        assert(before + one =~= token);
    }
}

proof fn lemma_decoded_token(items: Seq<VocabItem>, token: Seq<char>)
    requires
        token_is_spelled(items, token),
    ensures
        decoded_bytes(items, encoded_ids(items, token)) == char_bytes(token),
{
    match vocab_id(items, token) {
        Some(id) => {
            let ids = seq![id];
            assert(ids.drop_last() =~= Seq::<u32>::empty());
            assert(Seq::<u8>::empty() + id_bytes(items, id) =~= id_bytes(items, id));
            assert(decoded_bytes(items, ids.drop_last()) == Seq::<u8>::empty());
        },
        None => {
            lemma_decoded_chars(items, token);
        },
    }
}

proof fn lemma_decoded_tokens(items: Seq<VocabItem>, tokens: Seq<Seq<char>>)
    requires
        forall|k: int| 0 <= k < tokens.len() ==> token_is_spelled(items, #[trigger] tokens[k]),
    ensures
        decoded_bytes(items, token_ids(items, tokens)) == char_bytes(joined(tokens)),
    decreases tokens.len(),
{
    if tokens.len() > 0 {
        let before = tokens.drop_last();
        let token = tokens.last();
        lemma_decoded_tokens(items, before);
        assert(token_is_spelled(items, tokens[tokens.len() - 1]));
        lemma_decoded_token(items, token);
        lemma_decoded_concat(items, token_ids(items, before), encoded_ids(items, token));
        lemma_joined_push(before, token);
        assert(before.push(token) =~= tokens);
        lemma_char_bytes_concat(joined(before), token);
    }
}

/// Decoding the ids of words gives back the bytes of the words, whatever the
/// merge rules are, as long as the vocabulary spells the words.
pub proof fn lemma_decoding_inverts_encoding(
    items: Seq<VocabItem>,
    rules: Seq<MergeRule>,
    words: Seq<Seq<char>>,
)
    requires
        forall|k: int| 0 <= k < words.len() ==> is_spelled(items, rules, #[trigger] words[k]),
    ensures
        decoded_bytes(items, bpe_ids(items, rules, words)) == words_bytes(words),
    decreases words.len(),
{
    if words.len() > 0 {
        let before = words.drop_last();
        let word = words.last();
        lemma_decoding_inverts_encoding(items, rules, before);
        assert(is_spelled(items, rules, words[words.len() - 1]));
        let tokens = word_tokens(rules, word);
        lemma_decoded_concat(items, bpe_ids(items, rules, before), token_ids(items, tokens));
        lemma_decoded_tokens(items, tokens);
        lemma_merging_keeps_text(rules, single_chars(word_chars(word)));
        lemma_joined_single_chars(word_chars(word));
        lemma_char_bytes_of_bytes(encode_utf8(word));
    }
}

proof fn lemma_chars_of_joined(tokens: Seq<Seq<char>>, k: int, i: int)
    requires
        0 <= k < tokens.len(),
        0 <= i < tokens[k].len(),
    ensures
        joined(tokens).contains(tokens[k][i]),
    decreases tokens.len(),
{
    let before = tokens.drop_last();
    lemma_joined_push(before, tokens.last());
    assert(before.push(tokens.last()) =~= tokens);
    if k == tokens.len() - 1 {
        assert(joined(tokens)[joined(before).len() + i] == tokens[k][i]);
    } else {
        lemma_chars_of_joined(before, k, i);
        let j = choose|j: int|
            0 <= j < joined(before).len() && joined(before)[j] == tokens[k][i];
        assert(joined(tokens)[j] == tokens[k][i]);
    }
}

/// A vocabulary needs no more than the 256 single-byte tokens to spell a word,
/// whatever its bytes are: with them, and with ids that are decoded as the tokens
/// that have them, every word is spelled whose tokens are not special.
pub proof fn lemma_bytes_spell_words(
    items: Seq<VocabItem>,
    rules: Seq<MergeRule>,
    word: Seq<char>,
)
    requires
        forall|b: u8| token_is_listed(items, seq![#[trigger] byte_char(b)]),
        forall|token: Seq<char>| #[trigger]
            vocab_id(items, token) matches Some(id) ==> token_with_id(items, id) == Some(token),
        forall|k: int|
            0 <= k < word_tokens(rules, word).len() ==> !is_special(
                #[trigger] word_tokens(rules, word)[k],
            ),
    ensures
        is_spelled(items, rules, word),
{
    let tokens = word_tokens(rules, word);
    lemma_merging_keeps_text(rules, single_chars(word_chars(word)));
    lemma_joined_single_chars(word_chars(word));
    assert forall|k: int| 0 <= k < tokens.len() implies token_is_spelled(
        items,
        #[trigger] tokens[k],
    ) by {
        let token = tokens[k];
        assert forall|i: int| 0 <= i < token.len() implies token_is_listed(
            items,
            seq![#[trigger] token[i]],
        ) by {
            lemma_chars_of_joined(tokens, k, i);
            let j = choose|j: int|
                0 <= j < word_chars(word).len() && word_chars(word)[j] == token[i];
            assert(token[i] == byte_char(encode_utf8(word)[j]));
        }
    }
}

proof fn lemma_words_bytes(words: Seq<Seq<char>>)
    ensures
        words_bytes(words) == encode_utf8(joined(words)),
    decreases words.len(),
{
    if words.len() > 0 {
        let before = words.drop_last();
        lemma_words_bytes(before);
        lemma_joined_push(before, words.last());
        assert(before.push(words.last()) =~= words);
        lemma_utf8_concat(joined(before), words.last());
    } else {
        assert(words_bytes(words) =~= encode_utf8(joined(words)));
    }
}

/// The only separators of the text are spaces, and no two stand side by side.
pub open spec fn has_single_spaces(text: Seq<char>) -> bool {
    forall|i: int|
        0 <= i < text.len() && is_word_break(#[trigger] text[i]) ==> text[i] == ' ' && (i > 0
            ==> !is_word_break(text[i - 1]))
}

/// The words of a text with single spaces are the text itself, but for a space
/// at its end.
proof fn lemma_split_keeps_text(text: Seq<char>)
    requires
        has_single_spaces(text),
    ensures
        word_split(text).after_break == (text.len() > 0 && is_word_break(text.last())),
        word_split(text).after_break ==> word_split(text).word.len() == 0,
        joined(pre_tokens(text)) == if word_split(text).after_break {
            text.drop_last()
        } else {
            text
        },
    decreases text.len(),
{
    if text.len() == 0 {
        assert(joined(pre_tokens(text)) =~= text);
    } else {
        let before = text.drop_last();
        let c = text.last();
        let split = word_split(before);
        assert forall|i: int| 0 <= i < before.len() && is_word_break(
            #[trigger] before[i],
        ) implies before[i] == ' ' && (i > 0 ==> !is_word_break(before[i - 1])) by {
            assert(before[i] == text[i]);
            if i > 0 {
                assert(before[i - 1] == text[i - 1]);
            }
        }
        lemma_split_keeps_text(before);
        assert(text[text.len() - 1] == c);
        if before.len() > 0 {
            assert(before.last() == text[text.len() - 2]);
        }
        if !is_word_break(c) {
            if split.after_break {
                let word = split.word.push(' ').push(c);
                lemma_joined_push(split.complete, word);
                assert(is_word_break(text[text.len() - 2]));
                assert(before.drop_last() + word =~= text);
            } else {
                let word = split.word.push(c);
                lemma_joined_push(split.complete, word);
                if split.word.len() > 0 {
                    lemma_joined_push(split.complete, split.word);
                }
                assert(joined(split.complete) + word =~= joined(split.flushed()).push(c));
                assert(before.push(c) =~= text);
            }
        }
    }
}

/// A text with single spaces, none of them at its end, is its words written one
/// after the other.
pub proof fn lemma_words_keep_text(text: Seq<char>)
    requires
        has_single_spaces(text),
        text.len() > 0 ==> text.last() != ' ',
    ensures
        joined(pre_tokens(text)) == text,
{
    lemma_split_keeps_text(text);
    if text.len() > 0 {
        assert(text[text.len() - 1] == text.last());
    }
}

/// Decoding what a text is encoded as, the end-of-text token included, gives
/// back the words of the text, and the text itself if it has single spaces and
/// none at its end. The ids must fit, the vocabulary must spell the words, and
/// the end-of-text id must stand for no text.
pub proof fn lemma_text_round_trip(
    items: Seq<VocabItem>,
    rules: Seq<MergeRule>,
    text: Seq<char>,
    eos: Option<u32>,
    max_len: int,
)
    requires
        forall|k: int|
            0 <= k < pre_tokens(text).len() ==> is_spelled(
                items,
                rules,
                #[trigger] pre_tokens(text)[k],
            ),
        eos matches Some(e) ==> id_bytes(items, e).len() == 0,
        bpe_ids(items, rules, pre_tokens(text)).len() + (if eos is Some {
            1int
        } else {
            0
        }) <= max_len,
    ensures
        ({
            let bytes = decoded_bytes(
                items,
                framed_ids(bpe_ids(items, rules, pre_tokens(text)), eos, max_len),
            );
            &&& valid_utf8(bytes)
            &&& decode_utf8(bytes) == joined(pre_tokens(text))
            &&& has_single_spaces(text) && (text.len() > 0 ==> text.last() != ' ')
                ==> decode_utf8(bytes) == text
        }),
{
    let words = pre_tokens(text);
    let ids = bpe_ids(items, rules, words);
    lemma_decoding_inverts_encoding(items, rules, words);
    lemma_words_bytes(words);
    if let Some(e) = eos {
        assert(at_most(ids, max_len - 1) =~= ids);
        assert(ids.push(e).drop_last() =~= ids);
        assert(decoded_bytes(items, ids) + id_bytes(items, e) =~= decoded_bytes(items, ids));
    } else {
        assert(at_most(ids, max_len) =~= ids);
    }
    encode_utf8_valid_utf8(joined(words));
    encode_utf8_decode_utf8(joined(words));
    if has_single_spaces(text) && (text.len() > 0 ==> text.last() != ' ') {
        lemma_words_keep_text(text);
    }
}

/// No token is special.
pub open spec fn none_special(tokens: Seq<Seq<char>>) -> bool {
    forall|k: int| 0 <= k < tokens.len() ==> !is_special(#[trigger] tokens[k])
}

/// No rule merges to a special token.
pub open spec fn no_special_products(rules: Seq<MergeRule>) -> bool {
    forall|k: int| 0 <= k < rules.len() ==> !is_special((#[trigger] rules[k]).0 + rules[k].1)
}

proof fn lemma_merged_not_special(
    tokens: Seq<Seq<char>>,
    left: Seq<char>,
    right: Seq<char>,
    i: int,
)
    requires
        none_special(tokens),
        !is_special(left + right),
        0 <= i <= tokens.len(),
    ensures
        none_special(merged_from(tokens, left, right, i)),
    decreases tokens.len() - i,
{
    if i < tokens.len() {
        if i + 1 < tokens.len() && tokens[i] == left && tokens[i + 1] == right {
            lemma_merged_not_special(tokens, left, right, i + 2);
        } else {
            lemma_merged_not_special(tokens, left, right, i + 1);
        }
    }
}

proof fn lemma_fully_merged_not_special(rules: Seq<MergeRule>, tokens: Seq<Seq<char>>)
    requires
        none_special(tokens),
        no_special_products(rules),
    ensures
        none_special(fully_merged(rules, tokens)),
    decreases tokens.len(),
{
    lemma_best_pair_below(rules, tokens, tokens.len() - 1);
    if let Some(b) = best_pair(rules, tokens) {
        let (left, right) = (tokens[b], tokens[b + 1]);
        lemma_rank_below(rules, (left, right), rules.len() as int);
        let k = rank_of(rules, left, right)->0;
        assert(pair_rank(rules, tokens, b) == rank_of(rules, left, right));
        assert(rules[k] == (left, right));
        lemma_merged_from_len(tokens, left, right, 0, b);
        lemma_merged_not_special(tokens, left, right, 0);
        lemma_fully_merged_not_special(rules, merged_from(tokens, left, right, 0));
    }
}

/// A vocabulary and merge rules that decode what they encode: no two tokens have
/// the same id, every byte is a token of its own, no rule merges to a special
/// token, and the end-of-text id is that of `<|endoftext|>`, if it is listed.
pub open spec fn decodes_what_it_encodes(
    items: Seq<VocabItem>,
    rules: Seq<MergeRule>,
    eos: Option<u32>,
) -> bool {
    &&& forall|x: Seq<char>, y: Seq<char>|
        #![trigger vocab_id(items, x), vocab_id(items, y)]
        vocab_id(items, x) is Some && vocab_id(items, x) == vocab_id(items, y) ==> x == y
    &&& forall|b: u8| vocab_id(items, seq![#[trigger] byte_char(b)]) is Some
    &&& no_special_products(rules)
    &&& eos == vocab_id(items, "<|endoftext|>"@)
}

/// The vocabulary spells every word.
pub proof fn lemma_every_word_is_spelled(
    items: Seq<VocabItem>,
    rules: Seq<MergeRule>,
    eos: Option<u32>,
    word: Seq<char>,
)
    requires
        decodes_what_it_encodes(items, rules, eos),
    ensures
        is_spelled(items, rules, word),
{
    assert forall|token: Seq<char>| (#[trigger] vocab_id(items, token)) is Some implies token_with_id(
        items,
        vocab_id(items, token)->0,
    ) == Some(token) by {
        let id = vocab_id(items, token)->0;
        lemma_token_with_id(items, id);
        let found = token_with_id(items, id)->0;
        assert(vocab_id(items, found) == vocab_id(items, token));
    }
    assert forall|b: u8| token_is_listed(items, seq![#[trigger] byte_char(b)]) by {
        let token = seq![byte_char(b)];
        assert(vocab_id(items, token) is Some);
        assert(!is_special(token));
    }
    let chars = single_chars(word_chars(word));
    assert(none_special(chars)) by {
        assert forall|k: int| 0 <= k < chars.len() implies !is_special(#[trigger] chars[k]) by {
            assert(chars[k] == seq![word_chars(word)[k]]);
        }
    }
    lemma_fully_merged_not_special(rules, chars);
    lemma_bytes_spell_words(items, rules, word);
}

/// Decoding the ids of a text, the end-of-text token included, gives back the text
/// if it has single spaces and none at its end, and otherwise its words. The ids
/// must fit.
pub proof fn lemma_decoding_gives_back_text(
    items: Seq<VocabItem>,
    rules: Seq<MergeRule>,
    eos: Option<u32>,
    text: Seq<char>,
    max_len: int,
)
    requires
        decodes_what_it_encodes(items, rules, eos),
        bpe_ids(items, rules, pre_tokens(text)).len() + (if eos is Some {
            1int
        } else {
            0
        }) <= max_len,
    ensures
        ({
            let bytes = decoded_bytes(
                items,
                framed_ids(bpe_ids(items, rules, pre_tokens(text)), eos, max_len),
            );
            &&& valid_utf8(bytes)
            &&& decode_utf8(bytes) == joined(pre_tokens(text))
            &&& has_single_spaces(text) && (text.len() > 0 ==> text.last() != ' ')
                ==> decode_utf8(bytes) == text
        }),
{
    assert forall|k: int| 0 <= k < pre_tokens(text).len() implies is_spelled(
        items,
        rules,
        #[trigger] pre_tokens(text)[k],
    ) by {
        lemma_every_word_is_spelled(items, rules, eos, pre_tokens(text)[k]);
    }
    if let Some(e) = eos {
        let end = "<|endoftext|>"@;
        reveal_strlit("<|endoftext|>");
        lemma_token_with_id(items, e);
        let found = token_with_id(items, e)->0;
        assert(vocab_id(items, found) == vocab_id(items, end));
        assert(is_special(end));
    }
    lemma_text_round_trip(items, rules, text, eos, max_len);
}

// ---------------------------------------------------------------------------
// The tokenizer
// ---------------------------------------------------------------------------

/// What `String::from_utf8_lossy` makes of bytes that may not be valid UTF-8.
pub uninterp spec fn lossy_text(bytes: Seq<u8>) -> Seq<char>;

/// Calls `String::from_utf8_lossy`. The result depends on the bytes alone, and
/// valid UTF-8 is decoded without loss.
#[verifier::external_body]
fn lossy_string(bytes: &[u8]) -> (res: String)
    ensures
        res@ == lossy_text(bytes@),
        valid_utf8(bytes@) ==> res@ == decode_utf8(bytes@),
{
    String::from_utf8_lossy(bytes).into_owned()
}

/// Token ids and masks produced by [`BpeTokenizer`].
#[derive(Clone, Debug, PartialEq, Eq)]
pub struct BpeEncodedInput {
    /// Token ids, with the end-of-text token behind them if there is one.
    pub input_ids: Vec<u32>,
    /// `1` for real tokens, `0` for padding.
    pub attention_mask: Vec<u32>,
}

impl BpeEncodedInput {
    /// The input arrays hold these ids, without padding.
    pub open spec fn holds(&self, ids: Seq<u32>) -> bool {
        &&& self.input_ids@ == ids
        &&& self.attention_mask@ == Seq::new(ids.len(), |i: int| 1u32)
    }

    /// The input arrays hold these ids, padded with `pad` to `len` entries.
    pub open spec fn holds_padded(&self, ids: Seq<u32>, pad: u32, len: int) -> bool {
        &&& self.input_ids@ == padded_ids(ids, pad, len)
        &&& self.attention_mask@ == padding_mask(ids.len() as int, len)
    }
}

/// The vocabulary, the merge rules and the byte alphabet.
#[derive(Debug)]
pub struct BpeTables {
    vocab: TokenTable,
    ids: Vec<u32>,
    /// The position of the token that an id is decoded as.
    decoder: HashMap<u32, usize>,
    merges: MergeTable,
    bytes: ByteTables,
}

/// The items of a vocabulary whose tokens are kept in a table.
spec fn table_items(vocab: TokenTable, ids: Seq<u32>) -> Seq<VocabItem> {
    Seq::new(vocab.tokens().len(), |k: int| (vocab.tokens()[k], ids[k]))
}

/// The decoder leads to the positions of the first `n` items.
spec fn decodes(decoder: Map<u32, usize>, items: Seq<VocabItem>, n: int) -> bool {
    forall|id: u32|
        match #[trigger] position_of_id(items, id, n) {
            Some(k) => decoder.contains_key(id) && decoder[id] == k,
            None => !decoder.contains_key(id),
        }
}

/// Finds the position of the token that each id is decoded as.
fn make_decoder(vocab: &TokenTable, ids: &Vec<u32>) -> (res: HashMap<u32, usize>)
    requires
        vocab.tokens().len() == ids@.len(),
    ensures
        decodes(res@, table_items(*vocab, ids@), ids@.len() as int),
{
    let ghost items = table_items(*vocab, ids@);
    let n: usize = ids.len();
    let mut decoder: HashMap<u32, usize> = HashMap::new();
    let mut i: usize = 0;
    assert(keys_of(items) =~= vocab.tokens());
    while i < n
        invariant
            i <= n,
            n == ids@.len(),
            n == vocab.tokens().len(),
            items == table_items(*vocab, ids@),
            keys_of(items) == vocab.tokens(),
            decodes(decoder@, items, i as int),
        decreases n - i,
    {
        let ghost before = decoder@;
        let listed_last: bool = match vocab.find(vocab.token(i)) {
            Some(k) => k == i,
            None => false,
        };
        if listed_last {
            decoder.insert(ids[i], i);
        }
        proof {
            assert forall|id: u32|
                match #[trigger] position_of_id(items, id, i + 1) {
                    Some(k) => decoder@.contains_key(id) && decoder@[id] == k,
                    None => !decoder@.contains_key(id),
                } by {
                let earlier = position_of_id(items, id, i as int);
                assert(match earlier {
                    Some(k) => before.contains_key(id) && before[id] == k,
                    None => !before.contains_key(id),
                });
            }
        }
        i = i + 1;
    }
    decoder
}

impl BpeTables {
    /// The tokens and ids of the vocabulary in file order.
    pub closed spec fn items(&self) -> Seq<VocabItem> {
        table_items(self.vocab, self.ids@)
    }

    /// The merge rules in rank order.
    pub closed spec fn rules(&self) -> Seq<MergeRule> {
        self.merges.rules()
    }

    #[verifier::type_invariant]
    spec fn inv(&self) -> bool {
        &&& self.vocab.tokens().len() == self.ids@.len()
        &&& decodes(self.decoder@, self.items(), self.ids@.len() as int)
    }

    fn new(vocab: VocabFile, merges: MergesFile) -> (res: Self)
        requires
            vocab.tokens@.len() == vocab.ids@.len(),
            separators_fit(texts(merges.lines@), merges.seps@),
        ensures
            res.items() == vocab.items(),
            res.rules() == rules_of(texts(merges.lines@), merges.seps@),
    {
        let VocabFile { tokens, ids } = vocab;
        let vocab_table = TokenTable::new(tokens);
        let decoder = make_decoder(&vocab_table, &ids);
        let res = BpeTables {
            vocab: vocab_table,
            ids,
            decoder,
            merges: MergeTable::new(merges),
            bytes: ByteTables::new(),
        };
        assert(res.items() =~= vocab.items());
        res
    }

    fn copy(&self) -> (res: Self)
        ensures
            res.items() == self.items(),
            res.rules() == self.rules(),
    {
        proof {
            use_type_invariant(self);
        }
        let ids = self.ids.clone();
        assert(ids@ =~= self.ids@);
        let vocab = self.vocab.clone();
        let decoder = make_decoder(&vocab, &ids);
        BpeTables { vocab, ids, decoder, merges: self.merges.copy(), bytes: ByteTables::new() }
    }

    fn id(&self, token: &str) -> (res: Option<u32>)
        ensures
            res == vocab_id(self.items(), token@),
    {
        proof {
            use_type_invariant(self);
            assert(keys_of(self.items()) =~= self.vocab.tokens());
            lemma_last_index_below(
                self.vocab.tokens(),
                token@,
                self.vocab.tokens().len() as int,
            );
        }
        match self.vocab.find(token) {
            Some(k) => Some(self.ids[k]),
            None => None,
        }
    }
}

/// Byte-level BPE tokenizer.
#[derive(Debug)]
pub struct BpeTokenizer {
    /// Vocabulary and merge rules.
    pub tables: BpeTables,
    /// BOS / EOS token id (GPT-2 uses `<|endoftext|>` for both).
    pub eos_token_id: Option<u32>,
    /// BOS token id.
    pub bos_token_id: Option<u32>,
    /// PAD token id (not all models have one).
    pub pad_token_id: Option<u32>,
}

impl Clone for BpeTokenizer {
    fn clone(&self) -> (res: Self)
        ensures
            res.items() == self.items(),
            res.rules() == self.rules(),
            res.eos_token_id == self.eos_token_id,
            res.bos_token_id == self.bos_token_id,
            res.pad_token_id == self.pad_token_id,
    {
        BpeTokenizer {
            tables: self.tables.copy(),
            eos_token_id: self.eos_token_id,
            bos_token_id: self.bos_token_id,
            pad_token_id: self.pad_token_id,
        }
    }
}

/// [`BpeTokenizer::decode`] gives back the text that [`BpeTokenizer::encode`] was
/// given, if it has single spaces and none at its end, and the ids fit.
pub proof fn lemma_decode_inverts_encode(tokenizer: BpeTokenizer, text: Seq<char>, max_len: int)
    requires
        decodes_what_it_encodes(tokenizer.items(), tokenizer.rules(), tokenizer.eos_token_id),
        has_single_spaces(text),
        text.len() > 0 ==> text.last() != ' ',
        tokenizer.text_ids(text).len() + (if tokenizer.eos_token_id is Some {
            1int
        } else {
            0
        }) <= max_len,
    ensures
        ({
            let ids = framed_ids(tokenizer.text_ids(text), tokenizer.eos_token_id, max_len);
            let bytes = decoded_bytes(tokenizer.items(), ids);
            valid_utf8(bytes) && decode_utf8(bytes) == text
        }),
{
    lemma_decoding_gives_back_text(
        tokenizer.items(),
        tokenizer.rules(),
        tokenizer.eos_token_id,
        text,
        max_len,
    );
}

impl BpeTokenizer {
    /// The tokens and ids of the vocabulary in file order.
    pub open spec fn items(&self) -> Seq<VocabItem> {
        self.tables.items()
    }

    /// The merge rules in rank order.
    pub open spec fn rules(&self) -> Seq<MergeRule> {
        self.tables.rules()
    }

    /// The ids of all words of a text.
    pub open spec fn text_ids(&self, text: Seq<char>) -> Seq<u32> {
        bpe_ids(self.items(), self.rules(), pre_tokens(text))
    }

    /// Constructs a tokenizer from `vocab.json` and `merges.txt` bytes.
    ///
    /// `vocab_bytes` must be a UTF-8 JSON object `{"token": id, ...}`.
    /// `merges_bytes` must be the `merges.txt` format: one `"left right"` merge per line,
    /// comment lines starting with `#` are ignored.
    pub fn from_bytes(vocab_bytes: &[u8], merges_bytes: &[u8]) -> (res: Result<Self>)
        ensures
            match vocab_json_items(vocab_bytes@) {
                Err(e) => res == Err::<Self, Error>(e),
                Ok(items) => match merges_txt_rules(merges_bytes@) {
                    Err(e) => res == Err::<Self, Error>(e),
                    Ok(rules) => res matches Ok(tokenizer) && tokenizer.items() == items
                        && tokenizer.rules() == rules && tokenizer.eos_token_id == vocab_id(
                        items,
                        "<|endoftext|>"@,
                    ) && tokenizer.bos_token_id == vocab_id(items, "<|endoftext|>"@)
                        && tokenizer.pad_token_id == vocab_id(items, "<|padding|>"@),
                },
            },
    {
        let vocab = match parse_vocab_json(vocab_bytes) {
            Ok(vocab) => vocab,
            Err(e) => {
                return Err(e);
            },
        };
        let merges = match parse_merges_txt(merges_bytes) {
            Ok(merges) => merges,
            Err(e) => {
                return Err(e);
            },
        };
        let tables = BpeTables::new(vocab, merges);
        let eos_token_id = tables.id("<|endoftext|>");
        let pad_token_id = tables.id("<|padding|>");
        Ok(BpeTokenizer { tables, eos_token_id, bos_token_id: eos_token_id, pad_token_id })
    }

    /// Vocabulary size.
    pub fn vocab_size(&self) -> (res: usize)
        ensures
            res == keys_of(self.items()).to_set().len(),
    {
        assert(keys_of(self.items()) =~= self.tables.vocab.tokens());
        self.tables.vocab.distinct_len()
    }

    /// Returns the id for a token string, or `None` if not in vocab.
    pub fn token_id(&self, token: &str) -> (res: Option<u32>)
        ensures
            res == vocab_id(self.items(), token@),
    {
        self.tables.id(token)
    }

    /// Appends the ids that a token is encoded as, as far as `limit` ids in all.
    fn push_token_ids(&self, token: &[char], limit: usize, ids: &mut Vec<u32>)
        requires
            old(ids)@.len() <= limit,
        ensures
            final(ids)@ == at_most(
                old(ids)@ + encoded_ids(self.items(), token@),
                limit as int,
            ),
    {
        let ghost more = encoded_ids(self.items(), token@);
        if ids.len() >= limit {
            assert(ids@ =~= at_most(old(ids)@ + more, limit as int));
            return;
        }
        match self.tables.id(string_of(token).as_str()) {
            Some(id) => {
                ids.push(id);
                assert(ids@ =~= at_most(old(ids)@ + more, limit as int));
            },
            None => {
                // Per-char fallback: encode each char separately.
                let n: usize = token.len();
                let mut i: usize = 0;
                assert(old(ids)@ + more.take(0) =~= old(ids)@);
                while i < n && ids.len() < limit
                    invariant
                        i <= n,
                        n == token@.len(),
                        more == token@.map_values(|c: char| char_id(self.items(), c)),
                        ids@ == old(ids)@ + more.take(i as int),
                        ids@.len() <= limit,
                    decreases n - i,
                {
                    let text = string_of(&[token[i]]);
                    assert(text@ =~= seq![token@[i as int]]);
                    let id: u32 = match self.tables.id(text.as_str()) {
                        Some(id) => id,
                        None => 0,
                    };
                    ids.push(id);
                    i = i + 1;
                    assert(more.take(i as int) =~= more.take(i - 1).push(more[i - 1]));
                }
                assert(ids@ =~= at_most(old(ids)@ + more, limit as int));
            },
        }
    }

    /// Applies BPE merges to a sequence of single-character tokens.
    fn bpe_merge(&self, chars: &[char]) -> (res: Vec<Vec<char>>)
        ensures
            char_lists(res@) == fully_merged(self.rules(), single_chars(chars@)),
    {
        let ghost rules = self.rules();
        let mut tokens = single_tokens(chars);
        loop
            invariant
                rules == self.rules(),
                fully_merged(rules, char_lists(tokens@)) == fully_merged(
                    rules,
                    single_chars(chars@),
                ),
            decreases tokens@.len(),
        {
            let ghost list = char_lists(tokens@);
            let best: usize = match self.find_best_pair(&tokens) {
                Some(b) => b,
                None => {
                    return tokens;
                },
            };
            proof {
                lemma_best_pair_below(rules, list, list.len() - 1);
                lemma_merged_from_len(list, list[best as int], list[best + 1], 0, best as int);
            }
            tokens = merge_pairs(&tokens, best);
        }
    }

    /// The pair of neighbours to merge next.
    fn find_best_pair(&self, tokens: &Vec<Vec<char>>) -> (res: Option<usize>)
        ensures
            match res {
                Some(b) => best_pair(self.rules(), char_lists(tokens@)) == Some(b as int) && b + 1
                    < tokens@.len(),
                None => best_pair(self.rules(), char_lists(tokens@)) is None,
            },
    {
        let ghost rules = self.rules();
        let ghost list = char_lists(tokens@);
        let n: usize = tokens.len();
        let mut best: Option<(usize, usize)> = None;
        if n < 2 {
            return None;
        }
        let mut i: usize = 0;
        while i < n - 1
            invariant
                n >= 2,
                i <= n - 1,
                n == tokens@.len(),
                rules == self.rules(),
                list == char_lists(tokens@),
                match best {
                    Some((rank, b)) => best_pair_below(rules, list, i as int) == Some(b as int)
                        && pair_rank(rules, list, b as int) == Some(rank as int) && b < i,
                    None => best_pair_below(rules, list, i as int) is None,
                },
            decreases n - i,
        {
            assert(list[i as int] == tokens@[i as int]@);
            assert(list[i + 1] == tokens@[i + 1]@);
            match self.tables.merges.rank(tokens[i].as_slice(), tokens[i + 1].as_slice()) {
                Some(rank) => {
                    let better: bool = match best {
                        Some((best_rank, _)) => rank < best_rank,
                        None => true,
                    };
                    if better {
                        best = Some((rank, i));
                    }
                },
                None => {},
            }
            i = i + 1;
        }
        match best {
            Some((_, b)) => Some(b),
            None => None,
        }
    }

    /// Encodes `text` into token ids. Appends EOS if present in vocab.
    /// Truncates to `max_len` (including EOS).
    pub fn encode(&self, text: &str, max_len: usize) -> (res: Result<BpeEncodedInput>)
        ensures
            max_len == 0 ==> res == Err::<BpeEncodedInput, Error>(
                Error::InvalidTokenizer("max_len must be > 0"),
            ),
            max_len > 0 ==> (res matches Ok(encoded) && encoded.holds(
                framed_ids(self.text_ids(text@), self.eos_token_id, max_len as int),
            )),
    {
        if max_len == 0 {
            return Err(Error::InvalidTokenizer("max_len must be > 0"));
        }
        let limit: usize = match self.eos_token_id {
            Some(_) => max_len - 1,
            None => max_len,
        };
        let words = pre_tokenize(text);
        let ghost items = self.items();
        let ghost rules = self.rules();
        let ghost all = texts(words@);
        let mut ids: Vec<u32> = Vec::new();
        let n: usize = words.len();
        let mut i: usize = 0;
        assert(ids@ =~= at_most(bpe_ids(items, rules, all.take(0)), limit as int));
        assert(all.take(n as int) =~= all);
        while i < n
            invariant
                i <= n,
                n == words@.len(),
                all == texts(words@),
                all.take(n as int) == all,
                items == self.items(),
                rules == self.rules(),
                ids@ == at_most(bpe_ids(items, rules, all.take(i as int)), limit as int),
            decreases n - i,
        {
            self.push_word_ids(words[i].as_str(), limit, &mut ids);
            proof {
                assert(all.take(i + 1).drop_last() =~= all.take(i as int));
                assert(all.take(i + 1).last() == words@[i as int]@);
                let some = bpe_ids(items, rules, all.take(i as int));
                let more = token_ids(items, word_tokens(rules, words@[i as int]@));
                assert(at_most(at_most(some, limit as int) + more, limit as int) =~= at_most(
                    some + more,
                    limit as int,
                ));
            }
            i = i + 1;
        }
        match self.eos_token_id {
            Some(eos) => {
                ids.push(eos);
            },
            None => {},
        }
        let len: usize = ids.len();
        Ok(BpeEncodedInput { attention_mask: filled(1, len), input_ids: ids })
    }

    /// Appends the ids of one word, as far as `limit` ids in all.
    fn push_word_ids(&self, word: &str, limit: usize, ids: &mut Vec<u32>)
        requires
            old(ids)@.len() <= limit,
        ensures
            final(ids)@ == at_most(
                old(ids)@ + token_ids(self.items(), word_tokens(self.rules(), word@)),
                limit as int,
            ),
    {
        let bytes = word.as_bytes();
        let n: usize = bytes.len();
        let mut byte_chars: Vec<char> = Vec::new();
        let mut i: usize = 0;
        while i < n
            invariant
                i <= n,
                n == bytes@.len(),
                bytes@ == encode_utf8(word@),
                byte_chars@ == word_chars(word@).take(i as int),
            decreases n - i,
        {
            byte_chars.push(self.tables.bytes.encode(bytes[i]));
            i = i + 1;
            assert(word_chars(word@).take(i as int) =~= word_chars(word@).take(i - 1).push(
                byte_char(bytes@[i - 1]),
            ));
        }
        assert(word_chars(word@).take(n as int) =~= word_chars(word@));
        let tokens = self.bpe_merge(byte_chars.as_slice());
        let ghost list = char_lists(tokens@);
        let ghost items = self.items();
        let m: usize = tokens.len();
        let mut k: usize = 0;
        assert(old(ids)@ + token_ids(items, list.take(0)) =~= old(ids)@);
        while k < m
            invariant
                k <= m,
                m == tokens@.len(),
                items == self.items(),
                list == char_lists(tokens@),
                ids@ == at_most(old(ids)@ + token_ids(items, list.take(k as int)), limit as int),
                ids@.len() <= limit,
            decreases m - k,
        {
            let ghost some = old(ids)@ + token_ids(items, list.take(k as int));
            let ghost more = encoded_ids(items, list[k as int]);
            assert(list[k as int] == tokens@[k as int]@);
            self.push_token_ids(tokens[k].as_slice(), limit, ids);
            k = k + 1;
            proof {
                assert(list.take(k as int).drop_last() =~= list.take(k - 1));
                assert(old(ids)@ + (token_ids(items, list.take(k - 1)) + more) =~= some + more);
                assert(at_most(at_most(some, limit as int) + more, limit as int) =~= at_most(
                    some + more,
                    limit as int,
                ));
            }
        }
        assert(list.take(m as int) =~= list);
    }

    /// Encodes and pads to exactly `max_len` using the pad token (0 if absent).
    pub fn encode_padded(&self, text: &str, max_len: usize) -> (res: Result<BpeEncodedInput>)
        ensures
            max_len == 0 ==> res == Err::<BpeEncodedInput, Error>(
                Error::InvalidTokenizer("max_len must be > 0"),
            ),
            max_len > 0 ==> (res matches Ok(encoded) && encoded.holds_padded(
                framed_ids(self.text_ids(text@), self.eos_token_id, max_len as int),
                match self.pad_token_id {
                    Some(pad) => pad,
                    None => 0,
                },
                max_len as int,
            )),
    {
        let encoded = match self.encode(text, max_len) {
            Ok(encoded) => encoded,
            Err(e) => {
                return Err(e);
            },
        };
        proof {
            lemma_framed_ids(self.text_ids(text@), self.eos_token_id, max_len as int);
        }
        let pad: u32 = match self.pad_token_id {
            Some(pad) => pad,
            None => 0,
        };
        let BpeEncodedInput { mut input_ids, mut attention_mask } = encoded;
        let ghost ids = encoded.input_ids@;
        while input_ids.len() < max_len
            invariant
                ids.len() <= input_ids@.len() <= max_len,
                attention_mask@.len() == input_ids@.len(),
                forall|k: int|
                    0 <= k < input_ids@.len() ==> #[trigger] input_ids@[k] == if k < ids.len() {
                        ids[k]
                    } else {
                        pad
                    },
                forall|k: int|
                    0 <= k < input_ids@.len() ==> #[trigger] attention_mask@[k] == if k
                        < ids.len() {
                        1u32
                    } else {
                        0u32
                    },
            decreases max_len - input_ids@.len(),
        {
            input_ids.push(pad);
            attention_mask.push(0);
        }
        assert(input_ids@ =~= padded_ids(ids, pad, max_len as int));
        assert(attention_mask@ =~= padding_mask(ids.len() as int, max_len as int));
        Ok(BpeEncodedInput { input_ids, attention_mask })
    }

    /// Decodes token ids back to a UTF-8 string. Invalid byte sequences
    /// are replaced with the Unicode replacement character.
    pub fn decode(&self, ids: &[u32]) -> (res: String)
        ensures
            res@ == lossy_text(decoded_bytes(self.items(), ids@)),
            valid_utf8(decoded_bytes(self.items(), ids@)) ==> res@ == decode_utf8(
                decoded_bytes(self.items(), ids@),
            ),
    {
        lossy_string(self.decode_bytes(ids).as_slice())
    }

    /// Decodes token ids back to the bytes that they stand for. Ids without a
    /// token and special tokens stand for none.
    pub fn decode_bytes(&self, ids: &[u32]) -> (res: Vec<u8>)
        ensures
            res@ == decoded_bytes(self.items(), ids@),
    {
        let ghost items = self.items();
        let mut bytes: Vec<u8> = Vec::new();
        let n: usize = ids.len();
        let mut i: usize = 0;
        proof {
            use_type_invariant(&self.tables);
        }
        while i < n
            invariant
                i <= n,
                n == ids@.len(),
                items == self.items(),
                self.tables.inv(),
                bytes@ == decoded_bytes(items, ids@.take(i as int)),
            decreases n - i,
        {
            assert(ids@.take(i + 1).drop_last() =~= ids@.take(i as int));
            let ghost id = ids@[i as int];
            let ghost there = position_of_id(items, id, items.len() as int);
            assert(match there {
                Some(k) => self.tables.decoder@.contains_key(id) && self.tables.decoder@[id] == k,
                None => !self.tables.decoder@.contains_key(id),
            });
            match self.tables.decoder.get(&ids[i]) {
                Some(k) => {
                    proof {
                        lemma_position_of_id(items, id, items.len() as int);
                    }
                    let token = chars_of(self.tables.vocab.token(*k));
                    assert(token@ == items[*k as int].0);
                    let m: usize = token.len();
                    // Skip special tokens (they stand for no bytes).
                    if !(m > 0 && token[0] == '<' && token[m - 1] == '>') {
                        self.push_char_bytes(token.as_slice(), &mut bytes);
                    }
                },
                None => {},
            }
            i = i + 1;
        }
        assert(ids@.take(n as int) =~= ids@);
        bytes
    }

    /// Appends the bytes that the characters of a token stand for.
    fn push_char_bytes(&self, token: &[char], bytes: &mut Vec<u8>)
        ensures
            final(bytes)@ == old(bytes)@ + char_bytes(token@),
    {
        let n: usize = token.len();
        let mut i: usize = 0;
        assert(old(bytes)@ + char_bytes(token@.take(0)) =~= old(bytes)@);
        while i < n
            invariant
                i <= n,
                n == token@.len(),
                bytes@ == old(bytes)@ + char_bytes(token@.take(i as int)),
            decreases n - i,
        {
            assert(token@.take(i + 1).drop_last() =~= token@.take(i as int));
            match self.tables.bytes.decode(token[i]) {
                Some(b) => {
                    let ghost before = char_bytes(token@.take(i as int));
                    bytes.push(b);
                    assert(bytes@ =~= old(bytes)@ + before.push(b));
                },
                None => {},
            }
            i = i + 1;
        }
        assert(token@.take(n as int) =~= token@);
    }
}

/// Each character as a token of its own.
fn single_tokens(chars: &[char]) -> (res: Vec<Vec<char>>)
    ensures
        char_lists(res@) == single_chars(chars@),
{
    let n: usize = chars.len();
    let mut out: Vec<Vec<char>> = Vec::new();
    let mut i: usize = 0;
    assert(char_lists(out@) =~= single_chars(chars@).take(0));
    while i < n
        invariant
            i <= n,
            n == chars@.len(),
            char_lists(out@) == single_chars(chars@).take(i as int),
        decreases n - i,
    {
        let ghost before = out@;
        let mut token: Vec<char> = Vec::new();
        token.push(chars[i]);
        assert(token@ =~= seq![chars@[i as int]]);
        out.push(token);
        assert(char_lists(out@) =~= char_lists(before).push(token@));
        i = i + 1;
        assert(single_chars(chars@).take(i as int) =~= single_chars(chars@).take(i - 1).push(
            single_chars(chars@)[i - 1],
        ));
    }
    assert(single_chars(chars@).take(n as int) =~= single_chars(chars@));
    out
}

/// Merges every pair that equals the pair at `best`, from left to right.
fn merge_pairs(tokens: &Vec<Vec<char>>, best: usize) -> (res: Vec<Vec<char>>)
    requires
        best + 1 < tokens@.len(),
    ensures
        char_lists(res@) == merged_from(
            char_lists(tokens@),
            tokens@[best as int]@,
            tokens@[best + 1]@,
            0,
        ),
{
    let ghost list = char_lists(tokens@);
    let n: usize = tokens.len();
    let left = tokens[best].as_slice();
    let right = tokens[best + 1].as_slice();
    let mut out: Vec<Vec<char>> = Vec::new();
    let mut i: usize = 0;
    assert(char_lists(out@) + merged_from(list, left@, right@, 0) =~= merged_from(
        list,
        left@,
        right@,
        0,
    ));
    while i < n
        invariant
            i <= n,
            n == tokens@.len(),
            list == char_lists(tokens@),
            char_lists(out@) + merged_from(list, left@, right@, i as int) == merged_from(
                list,
                left@,
                right@,
                0,
            ),
        decreases n - i,
    {
        let ghost before = char_lists(out@);
        assert(list[i as int] == tokens@[i as int]@);
        let mut next: Vec<char> = Vec::new();
        append_chars(&mut next, tokens[i].as_slice());
        assert(next@ =~= tokens@[i as int]@);
        let merges: bool = n - i >= 2 && same_chars(tokens[i].as_slice(), left) && same_chars(
            tokens[i + 1].as_slice(),
            right,
        );
        let ghost here = i as int;
        if merges {
            assert(list[i + 1] == tokens@[i + 1]@);
            append_chars(&mut next, right);
            i = i + 2;
        } else {
            proof {
                if i + 1 < n {
                    assert(list[i + 1] == tokens@[i + 1]@);
                }
            }
            i = i + 1;
        }
        let ghost token = next@;
        let ghost earlier = out@;
        out.push(next);
        assert(char_lists(out@) =~= before.push(token));
        assert(merged_from(list, left@, right@, here) == seq![token] + merged_from(
            list,
            left@,
            right@,
            i as int,
        ));
        assert(before + (seq![token] + merged_from(list, left@, right@, i as int)) =~= before.push(
            token,
        ) + merged_from(list, left@, right@, i as int));
    }
    assert(char_lists(out@) + Seq::<Seq<char>>::empty() =~= char_lists(out@));
    out
}

} // verus!
