//! What a vocabulary and its tokenizer amount to.

use vstd::prelude::*;
use crate::text::{index_of_char, lemma_index_of_char, lines_of, trim_end_char, without_return};
use crate::table::{last_index, lemma_last_index_below};
use crate::tokenizer::{
    EncodedInput, id_in, lemma_longest_match, listed_tokens, longest_match, piece_of, pieces_from,
    vocab_error, word_ids,
};

verus! {

/// The line of a token, by its number.
pub open spec fn is_line(vocab: Seq<Seq<char>>, token: Seq<char>, id: u32) -> bool {
    id < vocab.len() && vocab[id as int] == token
}

/// The id of a token is the number of its line, and a token without a line has
/// none.
pub proof fn lemma_id_is_line(vocab: Seq<Seq<char>>, token: Seq<char>, id: u32)
    requires
        vocab_error(vocab) is None,
    ensures
        id_in(vocab, token) == Some(id) <==> is_line(vocab, token, id),
        id_in(vocab, token) is None <==> !vocab.contains(token),
{
    lemma_last_index_below(vocab, token, vocab.len() as int);
    if let Some(k) = last_index(vocab, token) {
        assert(vocab.contains(vocab[k]));
    }
}

/// A piece of a word as it stands in the vocabulary: as it is at the start of the
/// word, behind two number signs elsewhere.
pub open spec fn spelled(word: Seq<char>, from: int, to: int) -> Seq<char> {
    if from == 0 {
        word.subrange(from, to)
    } else {
        "##"@ + word.subrange(from, to)
    }
}

/// The word is cut at these positions into pieces of the vocabulary with these
/// ids, and none of the pieces could have been longer.
pub open spec fn is_greedy_cut(
    vocab: Seq<Seq<char>>,
    word: Seq<char>,
    cuts: Seq<int>,
    ids: Seq<u32>,
) -> bool {
    &&& cuts.len() == ids.len() + 1
    &&& cuts.last() == word.len()
    &&& forall|i: int| 0 <= i < ids.len() ==> 0 <= #[trigger] cuts[i] < cuts[i + 1] <= word.len()
    &&& forall|i: int|
        0 <= i < ids.len() ==> is_line(
            vocab,
            spelled(word, cuts[i], cuts[i + 1]),
            #[trigger] ids[i],
        )
    &&& forall|i: int, end: int|
        0 <= i < ids.len() && cuts[i + 1] < end <= word.len() ==> !vocab.contains(
            #[trigger] spelled(word, cuts[i], end),
        )
}

/// No piece of the vocabulary is longer than the longest match.
proof fn lemma_nothing_longer(
    vocab: Seq<Seq<char>>,
    word: Seq<char>,
    start: int,
    end: int,
)
    requires
        vocab_error(vocab) is None,
        0 <= start <= end <= word.len(),
    ensures
        longest_match(vocab, word, start, end) matches Some(e) ==> forall|f: int|
            e < f <= end ==> !vocab.contains(#[trigger] spelled(word, start, f)),
        longest_match(vocab, word, start, end) is None ==> forall|f: int|
            start < f <= end ==> !vocab.contains(#[trigger] spelled(word, start, f)),
    decreases end - start,
{
    if start < end {
        lemma_spelled(word, start, end);
        lemma_id_is_line(vocab, piece_of(word, start, end), 0);
        lemma_nothing_longer(vocab, word, start, end - 1);
        lemma_longest_match(vocab, word, start, end);
    }
}

proof fn lemma_spelled(word: Seq<char>, from: int, to: int)
    requires
        0 <= from,
    ensures
        spelled(word, from, to) == piece_of(word, from, to),
{
    reveal_strlit("##");
    assert("##"@ =~= seq!['#', '#']);
}

/// The pieces from a position on are a greedy cut.
proof fn lemma_pieces_are_greedy(
    vocab: Seq<Seq<char>>,
    word: Seq<char>,
    start: int,
    ids: Seq<u32>,
) -> (cuts: Seq<int>)
    requires
        vocab_error(vocab) is None,
        0 <= start <= word.len(),
        pieces_from(vocab, word, start) == Some(ids),
    ensures
        is_greedy_cut(vocab, word, cuts, ids),
        cuts[0] == start,
    decreases word.len() - start,
{
    if start == word.len() {
        assert(ids =~= Seq::<u32>::empty());
        seq![start]
    } else {
        let n = word.len() as int;
        lemma_longest_match(vocab, word, start, n);
        lemma_nothing_longer(vocab, word, start, n);
        let end = longest_match(vocab, word, start, n)->0;
        let id = id_in(vocab, piece_of(word, start, end))->0;
        let rest = pieces_from(vocab, word, end)->0;
        let later = lemma_pieces_are_greedy(vocab, word, end, rest);
        let cuts = seq![start] + later;
        assert(ids == seq![id] + rest);
        lemma_spelled(word, start, end);
        lemma_id_is_line(vocab, piece_of(word, start, end), id);
        assert forall|i: int| 0 <= i < ids.len() implies 0 <= #[trigger] cuts[i] < cuts[i + 1]
            <= word.len() by {
            if i > 0 {
                assert(later[i - 1] == cuts[i] && later[i] == cuts[i + 1]);
            }
        }
        assert forall|i: int| 0 <= i < ids.len() implies is_line(
            vocab,
            spelled(word, cuts[i], cuts[i + 1]),
            #[trigger] ids[i],
        ) by {
            if i > 0 {
                assert(later[i - 1] == cuts[i] && later[i] == cuts[i + 1]);
                assert(rest[i - 1] == ids[i]);
            }
        }
        assert forall|i: int, f: int|
            0 <= i < ids.len() && cuts[i + 1] < f <= word.len() implies !vocab.contains(
            #[trigger] spelled(word, cuts[i], f),
        ) by {
            if i > 0 {
                assert(later[i - 1] == cuts[i] && later[i] == cuts[i + 1]);
                assert(rest[i - 1] == ids[i]);
            }
        }
        assert(cuts.last() == later.last());
        cuts
    }
}

/// A greedy cut is what the pieces are.
proof fn lemma_greedy_cut_is_found(
    vocab: Seq<Seq<char>>,
    word: Seq<char>,
    cuts: Seq<int>,
    ids: Seq<u32>,
)
    requires
        vocab_error(vocab) is None,
        is_greedy_cut(vocab, word, cuts, ids),
        0 <= cuts[0] <= word.len(),
    ensures
        pieces_from(vocab, word, cuts[0]) == Some(ids),
    decreases ids.len(),
{
    let n = word.len() as int;
    if ids.len() == 0 {
        assert(cuts[0] == n);
        assert(ids =~= Seq::<u32>::empty());
    } else {
        let start = cuts[0];
        let end = cuts[1];
        assert(start < cuts[0int + 1]);
        lemma_spelled(word, start, end);
        assert(is_line(vocab, spelled(word, cuts[0], cuts[0int + 1]), ids[0]));
        lemma_id_is_line(vocab, piece_of(word, start, end), ids[0]);
        lemma_match_ends(vocab, word, start, end, n);
        let later = cuts.drop_first();
        let rest = ids.drop_first();
        assert forall|i: int| 0 <= i < rest.len() implies 0 <= #[trigger] later[i] < later[i + 1]
            <= word.len() by {
            assert(cuts[i + 1] < cuts[i + 1 + 1]);
        }
        assert forall|i: int| 0 <= i < rest.len() implies is_line(
            vocab,
            spelled(word, later[i], later[i + 1]),
            #[trigger] rest[i],
        ) by {
            assert(rest[i] == ids[i + 1]);
        }
        assert forall|i: int, f: int|
            0 <= i < rest.len() && later[i + 1] < f <= word.len() implies !vocab.contains(
            #[trigger] spelled(word, later[i], f),
        ) by {
            assert(later[i] == cuts[i + 1] && later[i + 1] == cuts[i + 1 + 1]);
            assert(!vocab.contains(spelled(word, cuts[i + 1], f)));
        }
        assert(later.last() == cuts.last());
        lemma_greedy_cut_is_found(vocab, word, later, rest);
        assert(seq![ids[0]] + rest =~= ids);
    }
}

/// The longest match ends where a piece fits and no longer one does.
proof fn lemma_match_ends(
    vocab: Seq<Seq<char>>,
    word: Seq<char>,
    start: int,
    end: int,
    n: int,
)
    requires
        vocab_error(vocab) is None,
        0 <= start < end <= n <= word.len(),
        vocab.contains(spelled(word, start, end)),
        forall|f: int| end < f <= n ==> !vocab.contains(#[trigger] spelled(word, start, f)),
    ensures
        longest_match(vocab, word, start, n) == Some(end),
    decreases n,
{
    lemma_spelled(word, start, n);
    lemma_id_is_line(vocab, piece_of(word, start, n), 0);
    if end < n {
        assert(!vocab.contains(spelled(word, start, n)));
        lemma_match_ends(vocab, word, start, end, n - 1);
    }
}

/// A word has the ids of its greedy cut, and that of `[UNK]` alone where there is
/// none or the word is too long.
pub proof fn lemma_word_is_cut_greedily(
    vocab: Seq<Seq<char>>,
    max_chars: int,
    word: Seq<char>,
    unknown: u32,
)
    requires
        vocab_error(vocab) is None,
        is_line(vocab, "[UNK]"@, unknown),
    ensures
        word.len() > max_chars ==> word_ids(vocab, max_chars, word) == seq![unknown],
        word.len() <= max_chars ==> ({
            ||| exists|cuts: Seq<int>|
                cuts[0] == 0 && #[trigger] is_greedy_cut(
                    vocab,
                    word,
                    cuts,
                    word_ids(vocab, max_chars, word),
                )
            ||| word_ids(vocab, max_chars, word) == seq![unknown] && forall|
                cuts: Seq<int>,
                ids: Seq<u32>,
            |
                !(cuts[0] == 0 && #[trigger] is_greedy_cut(vocab, word, cuts, ids))
        }),
{
    lemma_id_is_line(vocab, "[UNK]"@, unknown);
    if word.len() <= max_chars {
        match pieces_from(vocab, word, 0) {
            Some(ids) => {
                let cuts = lemma_pieces_are_greedy(vocab, word, 0, ids);
            },
            None => {
                assert forall|cuts: Seq<int>, ids: Seq<u32>|
                    !(cuts[0] == 0 && #[trigger] is_greedy_cut(vocab, word, cuts, ids)) by {
                    if cuts[0] == 0 && is_greedy_cut(vocab, word, cuts, ids) {
                        lemma_greedy_cut_is_found(vocab, word, cuts, ids);
                    }
                }
            },
        }
    }
}

/// A word of the vocabulary that is not too long has its own id.
pub proof fn lemma_listed_word_is_one_piece(
    vocab: Seq<Seq<char>>,
    max_chars: int,
    word: Seq<char>,
    id: u32,
)
    requires
        vocab_error(vocab) is None,
        is_line(vocab, word, id),
        word.len() <= max_chars,
    ensures
        word_ids(vocab, max_chars, word) == seq![id],
{
    let n = word.len() as int;
    assert(n > 0) by {
        assert(vocab[id as int].len() > 0);
    }
    let cuts = seq![0, n];
    let ids = seq![id];
    assert(word.subrange(0, n) =~= word);
    assert(is_greedy_cut(vocab, word, cuts, ids));
    lemma_greedy_cut_is_found(vocab, word, cuts, ids);
}

/// The text of a list of lines, each with this end.
pub open spec fn with_line_ends(lines: Seq<Seq<char>>, end: Seq<char>) -> Seq<char>
    decreases lines.len(),
{
    if lines.len() == 0 {
        Seq::empty()
    } else {
        lines[0] + end + with_line_ends(lines.drop_first(), end)
    }
}

/// A token that a line can hold: it has no line end in it and no carriage return at
/// its end.
pub open spec fn is_line_text(token: Seq<char>) -> bool {
    &&& !token.contains('\n')
    &&& token.len() > 0 ==> token.last() != '\r'
}

/// A vocabulary file lists its lines, whether they end in a newline or in a
/// carriage return and a newline, and whether or not the last one is ended.
pub proof fn lemma_lines_are_listed(lines: Seq<Seq<char>>, carriage: bool, last: Seq<char>)
    requires
        forall|i: int| 0 <= i < lines.len() ==> is_line_text(#[trigger] lines[i]),
        is_line_text(last),
    ensures
        ({
            let end = if carriage {
                "\r\n"@
            } else {
                "\n"@
            };
            listed_tokens(with_line_ends(lines, end) + last) == if last.len() > 0 {
                lines.push(last)
            } else {
                lines
            }
        }),
    decreases lines.len(),
{
    let end = if carriage {
        "\r\n"@
    } else {
        "\n"@
    };
    reveal_strlit("\r\n");
    reveal_strlit("\n");
    let text = with_line_ends(lines, end) + last;
    let trim = |line: Seq<char>| trim_end_char(line, '\r');
    if lines.len() == 0 {
        assert(text =~= last);
        lemma_index_of_char(last, '\n', 0);
        if last.len() > 0 {
            assert(lines_of(text) =~= seq![last]);
            assert(trim(last) == last);
            assert(listed_tokens(text) =~= lines.push(last));
        } else {
            assert(listed_tokens(text) =~= lines);
        }
    } else {
        let first = lines[0];
        let rest = lines.drop_first();
        assert(is_line_text(first));
        assert forall|i: int| 0 <= i < rest.len() implies is_line_text(#[trigger] rest[i]) by {
            assert(rest[i] == lines[i + 1]);
        }
        lemma_lines_are_listed(rest, carriage, last);
        let after = with_line_ends(rest, end) + last;
        let k = first.len() + end.len() - 1;
        assert(text =~= first + end + after);
        assert(text[k] == '\n');
        assert forall|j: int| 0 <= j < k implies text[j] != '\n' by {
            if j < first.len() {
                assert(text[j] == first[j]);
                assert(first.contains(first[j]));
            }
        }
        lemma_index_of_char(text, '\n', 0);
        assert(index_of_char(text, '\n', 0) == Some(k));
        assert(text.skip(k + 1) =~= after);
        let line = without_return(text.take(k));
        assert(trim(line) =~= first) by {
            reveal_with_fuel(trim_end_char, 2);
            if carriage {
                assert(text.take(k) =~= first.push('\r'));
                assert(first.push('\r').drop_last() =~= first);
            } else {
                assert(text.take(k) =~= first);
            }
        }
        assert(lines_of(text) == seq![line] + lines_of(after));
        assert(listed_tokens(text) =~= seq![first] + listed_tokens(after));
        if last.len() > 0 {
            assert(seq![first] + rest.push(last) =~= lines.push(last));
        } else {
            assert(seq![first] + rest =~= lines);
        }
    }
}

/// Padding keeps the ids in front, fills up with the padding token, and the mask is
/// one for each of the ids and zero for the padding.
pub proof fn lemma_padding_follows(encoded: EncodedInput, ids: Seq<u32>, pad: u32, len: int)
    requires
        ids.len() <= len,
        encoded.holds_padded(ids, pad, len),
    ensures
        encoded.input_ids@.take(ids.len() as int) == ids,
        encoded.input_ids@.len() == len,
        encoded.token_type_ids@.len() == len,
        encoded.attention_mask@.len() == len,
        forall|i: int| 0 <= i < ids.len() ==> #[trigger] encoded.attention_mask@[i] == 1,
        forall|i: int| ids.len() <= i < len ==> #[trigger] encoded.attention_mask@[i] == 0,
        forall|i: int| ids.len() <= i < len ==> #[trigger] encoded.input_ids@[i] == pad,
        forall|i: int| 0 <= i < len ==> #[trigger] encoded.token_type_ids@[i] == 0,
{
    assert(encoded.input_ids@.take(ids.len() as int) =~= ids);
}

/// Without padding every entry of the mask is one, and all are in one segment.
pub proof fn lemma_nothing_is_masked(encoded: EncodedInput, ids: Seq<u32>)
    requires
        encoded.holds(ids),
    ensures
        encoded.input_ids@ == ids,
        encoded.attention_mask@.len() == ids.len(),
        encoded.token_type_ids@.len() == ids.len(),
        forall|i: int| 0 <= i < ids.len() ==> #[trigger] encoded.attention_mask@[i] == 1,
        forall|i: int| 0 <= i < ids.len() ==> #[trigger] encoded.token_type_ids@[i] == 0,
{
}

/// A list of tokens is a vocabulary just where no token is empty, none is listed
/// twice, there are ids for all of them, and the five special tokens are among them.
pub proof fn lemma_vocabulary_is_accepted(vocab: Seq<Seq<char>>)
    ensures
        vocab_error(vocab) is None <==> {
            &&& vocab.len() <= 0x1_0000_0000
            &&& forall|k: int| 0 <= k < vocab.len() ==> (#[trigger] vocab[k]).len() > 0
            &&& forall|j: int, k: int|
                0 <= j < k < vocab.len() ==> #[trigger] vocab[j] != #[trigger] vocab[k]
            &&& vocab.contains("[PAD]"@)
            &&& vocab.contains("[UNK]"@)
            &&& vocab.contains("[CLS]"@)
            &&& vocab.contains("[SEP]"@)
            &&& vocab.contains("[MASK]"@)
        },
{
    let n = vocab.len() as int;
    lemma_listed(vocab, "[PAD]"@);
    lemma_listed(vocab, "[UNK]"@);
    lemma_listed(vocab, "[CLS]"@);
    lemma_listed(vocab, "[SEP]"@);
    lemma_listed(vocab, "[MASK]"@);
    if vocab_error(vocab) is None {
        assert forall|k: int| 0 <= k < n implies (#[trigger] vocab[k]).len() > 0 by {
            assert(k <= u32::MAX + 1);
        }
    }
}

proof fn lemma_listed(vocab: Seq<Seq<char>>, token: Seq<char>)
    ensures
        id_in(vocab, token) is Some <==> vocab.contains(token),
{
    lemma_last_index_below(vocab, token, vocab.len() as int);
    if let Some(k) = last_index(vocab, token) {
        assert(vocab.contains(vocab[k]));
    }
}

} // verus!
