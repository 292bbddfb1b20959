//! What byte-level encoding and decoding amount to.

use vstd::prelude::*;
use crate::table::{last_index, lemma_last_index_below};
use crate::tokenizer::bpe::{
    BpeEncodedInput, WordSplit, best_pair, decoded_bytes, encoded_ids, fully_merged, id_bytes,
    keys_of, lemma_best_pair_below, lemma_rank_below, lemma_token_with_id, merged_from, pair_rank,
    pre_tokens, rank_of, token_with_id, word_split,
};
use crate::tokenizer::vocabfile::{MergeRule, VocabItem};

verus! {

/// A character that separates words: a space, a tab, a newline or a carriage
/// return.
pub open spec fn is_separator(c: char) -> bool {
    seq![' ', '\t', '\n', '\r'].contains(c)
}

proof fn lemma_separator(c: char)
    ensures
        is_separator(c) <==> c == ' ' || c == '\t' || c == '\n' || c == '\r',
{
    let all = seq![' ', '\t', '\n', '\r'];
    assert(all[0] == ' ' && all[1] == '\t' && all[2] == '\n' && all[3] == '\r');
    if all.contains(c) {
        let k = choose|k: int| 0 <= k < all.len() && all[k] == c;
    }
}

/// How a text goes on behind separators.
proof fn lemma_split_behind_separators(a: Seq<char>, s: Seq<char>, b: Seq<char>)
    requires
        s.len() > 0,
        forall|i: int| 0 <= i < s.len() ==> is_separator(#[trigger] s[i]),
    ensures
        word_split(a + s + b).complete == pre_tokens(a) + word_split(seq![' '] + b).complete,
        word_split(a + s + b).word == word_split(seq![' '] + b).word,
        word_split(a + s + b).after_break == word_split(seq![' '] + b).after_break,
    decreases s.len() + b.len(),
{
    let all = a + s + b;
    let one = seq![' '];
    lemma_separator(' ');
    if b.len() > 0 {
        assert(all.drop_last() =~= a + s + b.drop_last());
        assert((one + b).drop_last() =~= one + b.drop_last());
        lemma_split_behind_separators(a, s, b.drop_last());
        lemma_separator(b.last());
        assert(word_split(all).complete =~= pre_tokens(a) + word_split(one + b).complete);
    } else {
        assert(all =~= a + s);
        assert(one + b =~= one);
        assert(one.drop_last() =~= Seq::<char>::empty());
        reveal_with_fuel(word_split, 2);
        assert(s[s.len() - 1] == s.last());
        lemma_separator(s.last());
        if s.len() == 1 {
            assert((a + s).drop_last() =~= a);
        } else {
            let fewer = s.drop_last();
            assert((a + s).drop_last() =~= a + fewer);
            assert(a + fewer + b =~= a + fewer);
            lemma_split_behind_separators(a, fewer, b);
        }
        assert(word_split(one).complete =~= Seq::<Seq<char>>::empty());
        assert(word_split(all).complete =~= pre_tokens(a) + word_split(one + b).complete);
    }
}

/// Separators split words, and any run of them counts as one space, which belongs
/// to the word behind: the words of a text are those of what stands in front of the
/// run, followed by those of a space and what stands behind.
pub proof fn lemma_separators_count_as_a_space(a: Seq<char>, s: Seq<char>, b: Seq<char>)
    requires
        s.len() > 0,
        forall|i: int| 0 <= i < s.len() ==> is_separator(#[trigger] s[i]),
    ensures
        pre_tokens(a + s + b) == pre_tokens(a) + pre_tokens(seq![' '] + b),
{
    lemma_split_behind_separators(a, s, b);
    assert(pre_tokens(a + s + b) =~= pre_tokens(a) + pre_tokens(seq![' '] + b));
}

/// A text without separators is one word, and so is one with a single space in
/// front.
pub proof fn lemma_word_stays_whole(word: Seq<char>)
    requires
        word.len() > 0,
        forall|i: int| 0 <= i < word.len() ==> !is_separator(#[trigger] word[i]),
    ensures
        pre_tokens(word) == seq![word],
        pre_tokens(seq![' '] + word) == seq![seq![' '] + word],
{
    lemma_split_of_word(word);
    assert(pre_tokens(word) =~= seq![word]);
    assert(pre_tokens(seq![' '] + word) =~= seq![seq![' '] + word]);
}

proof fn lemma_split_of_word(word: Seq<char>)
    requires
        word.len() > 0,
        forall|i: int| 0 <= i < word.len() ==> !is_separator(#[trigger] word[i]),
    ensures
        word_split(word) == (WordSplit { complete: Seq::empty(), word, after_break: false }),
        word_split(seq![' '] + word) == (WordSplit {
            complete: Seq::empty(),
            word: seq![' '] + word,
            after_break: false,
        }),
    decreases word.len(),
{
    let before = word.drop_last();
    let spaced = seq![' '] + word;
    assert(word[word.len() - 1] == word.last());
    lemma_separator(word.last());
    lemma_separator(' ');
    assert(before.push(word.last()) =~= word);
    assert(spaced.drop_last() =~= seq![' '] + before);
    assert((seq![' '] + before).push(word.last()) =~= spaced);
    if before.len() > 0 {
        lemma_split_of_word(before);
    } else {
        reveal_with_fuel(word_split, 2);
        assert(before =~= Seq::<char>::empty());
        assert(seq![' '].drop_last() =~= Seq::<char>::empty());
        assert(seq![' '] + before =~= seq![' ']);
        assert(Seq::<char>::empty().push(' ').push(word.last()) =~= spaced);
    }
}

/// The rule is for the neighbours at `i` and `i + 1`.
pub open spec fn joins(rule: MergeRule, tokens: Seq<Seq<char>>, i: int) -> bool {
    rule.0 == tokens[i] && rule.1 == tokens[i + 1]
}

/// Where no rule is for two neighbours, the tokens stay as they are.
pub proof fn lemma_nothing_to_merge(rules: Seq<MergeRule>, tokens: Seq<Seq<char>>)
    requires
        forall|i: int, r: int|
            0 <= i < tokens.len() - 1 && 0 <= r < rules.len() ==> !#[trigger] joins(
                rules[r],
                tokens,
                i,
            ),
    ensures
        fully_merged(rules, tokens) == tokens,
{
    lemma_best_pair_below(rules, tokens, tokens.len() - 1);
    if let Some(b) = best_pair(rules, tokens) {
        lemma_rank_below(rules, (tokens[b], tokens[b + 1]), rules.len() as int);
        let r = rank_of(rules, tokens[b], tokens[b + 1])->0;
        assert(joins(rules[r], tokens, b));
    }
}

/// The rule that is listed first is applied first: where two neighbours have a rule
/// that stands in front of the rules of all other neighbours, they are merged before
/// anything else is.
pub proof fn lemma_first_rule_first(
    rules: Seq<MergeRule>,
    x: Seq<Seq<char>>,
    left: Seq<char>,
    right: Seq<char>,
    y: Seq<Seq<char>>,
    r: int,
)
    requires
        rules.no_duplicates(),
        0 <= r < rules.len(),
        rules[r] == (left, right),
        ({
            let tokens = x + seq![left, right] + y;
            forall|i: int, k: int|
                0 <= i < tokens.len() - 1 && i != x.len() && 0 <= k <= r ==> !#[trigger] joins(
                    rules[k],
                    tokens,
                    i,
                )
        }),
    ensures
        fully_merged(rules, x + seq![left, right] + y) == fully_merged(
            rules,
            x + seq![left + right] + y,
        ),
{
    let tokens = x + seq![left, right] + y;
    let p = x.len() as int;
    assert(tokens[p] == left && tokens[p + 1] == right);
    lemma_best_pair_below(rules, tokens, tokens.len() - 1);
    assert(pair_rank(rules, tokens, p) == Some(r)) by {
        lemma_rank_below(rules, (left, right), rules.len() as int);
        if let Some(k) = rank_of(rules, left, right) {
            assert(rules[k] == rules[r]);
        }
    }
    let b = best_pair(rules, tokens)->0;
    assert(b == p) by {
        if b != p {
            lemma_rank_below(rules, (tokens[b], tokens[b + 1]), rules.len() as int);
            let k = pair_rank(rules, tokens, b)->0;
            assert(joins(rules[k], tokens, b));
        }
    }
    assert forall|j: int| 0 <= j < tokens.len() - 1 && j != p implies !#[trigger] joins(
        (left, right),
        tokens,
        j,
    ) by {
        assert(!joins(rules[r], tokens, j));
    }
    lemma_merged_once(tokens, left, right, p, 0);
    assert(tokens.take(p).skip(0) =~= x);
    assert(tokens.skip(p + 2) =~= y);
}

/// Merging a pair that stands at one place.
proof fn lemma_merged_once(
    tokens: Seq<Seq<char>>,
    left: Seq<char>,
    right: Seq<char>,
    p: int,
    i: int,
)
    requires
        0 <= p < tokens.len() - 1,
        tokens[p] == left,
        tokens[p + 1] == right,
        forall|j: int|
            0 <= j < tokens.len() - 1 && j != p ==> !#[trigger] joins((left, right), tokens, j),
        0 <= i <= tokens.len(),
        i != p + 1,
    ensures
        i <= p ==> merged_from(tokens, left, right, i) == tokens.take(p).skip(i) + seq![left
            + right] + tokens.skip(p + 2),
        i > p ==> merged_from(tokens, left, right, i) == tokens.skip(i),
    decreases tokens.len() - i,
{
    if i < tokens.len() {
        if i == p {
            lemma_merged_once(tokens, left, right, p, i + 2);
            assert(merged_from(tokens, left, right, i) =~= tokens.take(p).skip(i) + seq![left
                + right] + tokens.skip(p + 2));
        } else {
            if i + 1 < tokens.len() {
                assert(!joins((left, right), tokens, i));
            }
            lemma_merged_once(tokens, left, right, p, i + 1);
            if i < p {
                assert(seq![tokens[i]] + tokens.take(p).skip(i + 1) =~= tokens.take(p).skip(i));
                assert(merged_from(tokens, left, right, i) =~= tokens.take(p).skip(i) + seq![left
                    + right] + tokens.skip(p + 2));
            } else {
                assert(seq![tokens[i]] + tokens.skip(i + 1) =~= tokens.skip(i));
            }
        }
    } else {
        assert(tokens.skip(i) =~= Seq::<Seq<char>>::empty());
    }
}

/// A token of the vocabulary is encoded as its id.
pub proof fn lemma_listed_token_is_one_id(items: Seq<VocabItem>, k: int)
    requires
        keys_of(items).no_duplicates(),
        0 <= k < items.len(),
    ensures
        encoded_ids(items, items[k].0) == seq![items[k].1],
{
    let keys = keys_of(items);
    lemma_last_index_below(keys, items[k].0, keys.len() as int);
    assert(keys[k] == items[k].0);
    if let Some(j) = last_index(keys, items[k].0) {
        assert(keys[j] == keys[k]);
    }
}

/// A token that the vocabulary does not hold is encoded character by character,
/// each as the vocabulary has it, and as zero where it does not.
pub proof fn lemma_unlisted_token_is_spelled(items: Seq<VocabItem>, token: Seq<char>, i: int)
    requires
        keys_of(items).no_duplicates(),
        !keys_of(items).contains(token),
        0 <= i < token.len(),
    ensures
        encoded_ids(items, token).len() == token.len(),
        forall|k: int|
            0 <= k < items.len() && (#[trigger] items[k]).0 == seq![token[i]] ==> encoded_ids(
                items,
                token,
            )[i] == items[k].1,
        !keys_of(items).contains(seq![token[i]]) ==> encoded_ids(items, token)[i] == 0,
{
    let keys = keys_of(items);
    let one = seq![token[i]];
    lemma_last_index_below(keys, token, keys.len() as int);
    lemma_last_index_below(keys, one, keys.len() as int);
    if let Some(j) = last_index(keys, token) {
        assert(keys.contains(keys[j]));
    }
    assert forall|k: int| 0 <= k < items.len() && (#[trigger] items[k]).0 == one implies
        encoded_ids(items, token)[i] == items[k].1 by {
        assert(keys[k] == one);
        if let Some(j) = last_index(keys, one) {
            assert(keys[j] == keys[k]);
        }
    }
    if let Some(j) = last_index(keys, one) {
        assert(keys.contains(keys[j]));
    }
}

/// Decoding goes id by id.
pub proof fn lemma_decoding_appends(items: Seq<VocabItem>, a: Seq<u32>, b: Seq<u32>)
    ensures
        decoded_bytes(items, a + b) == decoded_bytes(items, a) + decoded_bytes(items, b),
    decreases b.len(),
{
    if b.len() == 0 {
        assert(a + b =~= a);
        assert(decoded_bytes(items, a) + decoded_bytes(items, b) =~= decoded_bytes(items, a));
    } else {
        assert((a + b).drop_last() =~= a + b.drop_last());
        lemma_decoding_appends(items, a, b.drop_last());
        assert(decoded_bytes(items, a + b) =~= decoded_bytes(items, a) + decoded_bytes(items, b));
    }
}

/// An id that the vocabulary does not hold stands for nothing, and neither does the
/// id of a token in angle brackets.
pub proof fn lemma_no_text_behind_id(items: Seq<VocabItem>, id: u32)
    requires
        forall|k: int|
            0 <= k < items.len() && (#[trigger] items[k]).1 == id ==> items[k].0.len() > 0
                && items[k].0[0] == '<' && items[k].0.last() == '>',
    ensures
        decoded_bytes(items, seq![id]) == Seq::<u8>::empty(),
{
    lemma_token_with_id(items, id);
    if let Some(token) = token_with_id(items, id) {
        lemma_last_index_below(keys_of(items), token, items.len() as int);
        let k = last_index(keys_of(items), token)->0;
        assert(keys_of(items)[k] == items[k].0);
    }
    reveal_with_fuel(decoded_bytes, 2);
    assert(seq![id].drop_last() =~= Seq::<u32>::empty());
    assert(seq![id].last() == id);
    assert(id_bytes(items, id) =~= Seq::<u8>::empty());
    assert(decoded_bytes(items, seq![id]) =~= Seq::<u8>::empty());
}

/// Padding keeps the ids in front, fills up with the padding token, and the mask is
/// one for each of the ids and zero for the padding.
pub proof fn lemma_padding_follows(encoded: BpeEncodedInput, ids: Seq<u32>, pad: u32, len: int)
    requires
        ids.len() <= len,
        encoded.holds_padded(ids, pad, len),
    ensures
        encoded.input_ids@.take(ids.len() as int) == ids,
        encoded.input_ids@.len() == len,
        encoded.attention_mask@.len() == len,
        forall|i: int| 0 <= i < ids.len() ==> #[trigger] encoded.attention_mask@[i] == 1,
        forall|i: int| ids.len() <= i < len ==> #[trigger] encoded.attention_mask@[i] == 0,
        forall|i: int| ids.len() <= i < len ==> #[trigger] encoded.input_ids@[i] == pad,
{
    assert(encoded.input_ids@.take(ids.len() as int) =~= ids);
}

/// Without padding every entry of the mask is one.
pub proof fn lemma_nothing_is_masked(encoded: BpeEncodedInput, ids: Seq<u32>)
    requires
        encoded.holds(ids),
    ensures
        encoded.input_ids@ == ids,
        encoded.attention_mask@.len() == ids.len(),
        forall|i: int| 0 <= i < ids.len() ==> #[trigger] encoded.attention_mask@[i] == 1,
{
}

} // verus!
