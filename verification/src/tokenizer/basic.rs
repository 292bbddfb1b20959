//! BERT's basic tokenization: text to words and punctuation marks.
//!
//! Each character of the text becomes a few glyphs: a break, a letter of the
//! current word, or a mark that is a token of its own. The glyphs of the whole
//! text are then grouped into tokens.

use vstd::prelude::*;
use crate::table::texts;
use crate::text::{char_is_whitespace, chars_of, is_white_space, string_of};

verus! {

// ---------------------------------------------------------------------------
// Character classes
// ---------------------------------------------------------------------------

/// Whether `char::is_alphanumeric` holds of a character (the Unicode
/// `Alphabetic` property or a numeric general category).
pub uninterp spec fn is_alphanumeric(c: char) -> bool;

/// Calls `char::is_alphanumeric`; the result depends on the character alone.
#[verifier::external_body]
fn char_is_alphanumeric(c: char) -> (res: bool)
    ensures
        res == is_alphanumeric(c),
{
    c.is_alphanumeric()
}

/// The characters that `char::to_lowercase` yields for a character.
pub uninterp spec fn lowercase_of(c: char) -> Seq<char>;

/// The small letter of an ASCII capital; any other ASCII character itself.
pub open spec fn ascii_lowercase(c: char) -> char {
    if 'A' <= c <= 'Z' {
        (c as u32 + 32) as char
    } else {
        c
    }
}

/// Calls `char::to_lowercase` and collects what it yields, which depends on the
/// character alone. Of ASCII the capitals alone have a lower case mapping, to the
/// small letters; a character without one is yielded as it is.
#[verifier::external_body]
fn char_to_lowercase(c: char) -> (res: Vec<char>)
    ensures
        res@ == lowercase_of(c),
        c as u32 <= 0x7f ==> res@ == seq![ascii_lowercase(c)],
{
    c.to_lowercase().collect()
}

/// Unicode control characters (general category `Cc`).
pub open spec fn is_control_code(c: char) -> bool {
    c as u32 <= 0x1f || 0x7f <= c as u32 <= 0x9f
}

/// Control characters that are treated as spaces.
pub open spec fn is_control_char(c: char) -> bool {
    is_control_code(c) && c != '\t' && c != '\n' && c != '\r'
}

/// Characters that are tokens of their own because they are ideographs.
pub open spec fn is_cjk_char(c: char) -> bool {
    let cp = c as u32;
    ||| 0x4E00 <= cp <= 0x9FFF
    ||| 0x3400 <= cp <= 0x4DBF
    ||| 0x20000 <= cp <= 0x2A6DF
    ||| 0x2A700 <= cp <= 0x2B73F
    ||| 0x2B740 <= cp <= 0x2B81F
    ||| 0x2B820 <= cp <= 0x2CEAF
    ||| 0xF900 <= cp <= 0xFAFF
    ||| 0x2F800 <= cp <= 0x2FA1F
}

/// ASCII punctuation: `!` to `/`, `:` to `@`, `[` to `` ` ``, `{` to `~`.
pub open spec fn is_ascii_mark(c: char) -> bool {
    let cp = c as u32;
    33 <= cp <= 47 || 58 <= cp <= 64 || 91 <= cp <= 96 || 123 <= cp <= 126
}

/// Punctuation, given whether the character is alphanumeric and whether it is
/// white space: ASCII punctuation, and every character beyond ASCII that is
/// neither of the two, nor a control character, nor an ideograph.
pub open spec fn is_mark_given(c: char, alphanumeric: bool, white_space: bool) -> bool {
    ||| is_ascii_mark(c)
    ||| c as u32 >= 128 && !alphanumeric && !white_space && !is_control_code(c) && !is_cjk_char(c)
}

/// Punctuation.
pub open spec fn is_mark(c: char) -> bool {
    is_mark_given(c, is_alphanumeric(c), is_white_space(c))
}

/// Control characters that are treated as spaces.
pub fn is_control(ch: char) -> (res: bool)
    ensures
        res == is_control_char(ch),
{
    if ch == '\t' || ch == '\n' || ch == '\r' {
        return false;
    }
    let cp: u32 = ch as u32;
    cp <= 0x1f || (0x7f <= cp && cp <= 0x9f)
}

/// Matches HuggingFace's `_is_chinese_char`. Hiragana, Katakana, Hangul,
/// and CJK punctuation are intentionally NOT included: BERT treats those
/// as regular characters or punctuation, not per-character tokens.
pub fn is_cjk(ch: char) -> (res: bool)
    ensures
        res == is_cjk_char(ch),
{
    let cp: u32 = ch as u32;
    (0x4E00 <= cp && cp <= 0x9FFF) || (0x3400 <= cp && cp <= 0x4DBF) || (0x20000 <= cp && cp
        <= 0x2A6DF) || (0x2A700 <= cp && cp <= 0x2B73F) || (0x2B740 <= cp && cp <= 0x2B81F) || (
    0x2B820 <= cp && cp <= 0x2CEAF) || (0xF900 <= cp && cp <= 0xFAFF) || (0x2F800 <= cp && cp
        <= 0x2FA1F)
}

/// Punctuation, given the two properties that a Unicode database decides.
pub fn is_punctuation_given(ch: char, alphanumeric: bool, white_space: bool) -> (res: bool)
    ensures
        res == is_mark_given(ch, alphanumeric, white_space),
{
    let cp: u32 = ch as u32;
    if (33 <= cp && cp <= 47) || (58 <= cp && cp <= 64) || (91 <= cp && cp <= 96) || (123 <= cp
        && cp <= 126) {
        return true;
    }
    if cp < 128 {
        return false;
    }
    !alphanumeric && !white_space && !(0x7f <= cp && cp <= 0x9f) && !is_cjk(ch)
}

/// HuggingFace-compatible punctuation predicate without a Unicode database.
///
/// True for ASCII punctuation and any non-ASCII character that is neither
/// alphanumeric nor whitespace nor a control character. This approximates the
/// Unicode category-`P*` check; it covers every real punctuation glyph (CJK
/// punctuation, Arabic comma, Spanish `¿`/`¡`, French guillemets) at the cost
/// of also marking some symbol-class characters (currency signs, arrows, emoji)
/// as punctuation, which BERT treats as its own tokens too.
pub fn is_punctuation(ch: char) -> (res: bool)
    ensures
        res == is_mark(ch),
{
    is_punctuation_given(ch, char_is_alphanumeric(ch), char_is_whitespace(ch))
}

// ---------------------------------------------------------------------------
// Glyphs
// ---------------------------------------------------------------------------

/// What a character contributes to the token stream.
#[derive(Clone, Copy, Debug, PartialEq, Eq, Structural)]
pub enum Glyph {
    /// Ends the current word.
    Break,
    /// Belongs to the current word.
    Letter(char),
    /// Ends the current word and is a token of its own.
    Alone(char),
}

/// The glyph of a character that may be punctuation.
pub open spec fn glyph_given(c: char, mark: bool) -> Glyph {
    if mark {
        Glyph::Alone(c)
    } else {
        Glyph::Letter(c)
    }
}

/// A control character counts as a space.
pub open spec fn visible(c: char) -> char {
    if is_control_char(c) {
        ' '
    } else {
        c
    }
}

/// The glyphs of one character of the text.
pub open spec fn glyphs_of_char(c: char, lowercase: bool) -> Seq<Glyph> {
    let ch = visible(c);
    if is_cjk_char(ch) {
        seq![Glyph::Alone(ch)]
    } else if is_white_space(ch) {
        seq![Glyph::Break]
    } else if lowercase {
        lowercase_of(ch).map_values(|l: char| glyph_given(l, is_mark(l)))
    } else {
        seq![glyph_given(ch, is_mark(ch))]
    }
}

/// The glyphs of a text.
pub open spec fn glyphs_of(text: Seq<char>, lowercase: bool) -> Seq<Glyph>
    decreases text.len(),
{
    if text.len() == 0 {
        Seq::empty()
    } else {
        glyphs_of(text.drop_last(), lowercase) + glyphs_of_char(text.last(), lowercase)
    }
}

/// The tokens that are complete, and the word that is being read.
#[verifier::ext_equal]
pub struct Grouping {
    pub complete: Seq<Seq<char>>,
    pub word: Seq<char>,
}

impl Grouping {
    /// The tokens once the current word has ended.
    pub open spec fn flushed(self) -> Seq<Seq<char>> {
        if self.word.len() == 0 {
            self.complete
        } else {
            self.complete.push(self.word)
        }
    }

    /// One more glyph.
    pub open spec fn then_glyph(self, glyph: Glyph) -> Self {
        match glyph {
            Glyph::Break => Grouping { complete: self.flushed(), word: Seq::empty() },
            Glyph::Letter(c) => Grouping { complete: self.complete, word: self.word.push(c) },
            Glyph::Alone(c) => Grouping {
                complete: self.flushed().push(seq![c]),
                word: Seq::empty(),
            },
        }
    }
}

/// How a sequence of glyphs is grouped.
pub open spec fn grouping_of(glyphs: Seq<Glyph>) -> Grouping
    decreases glyphs.len(),
{
    if glyphs.len() == 0 {
        Grouping { complete: Seq::empty(), word: Seq::empty() }
    } else {
        grouping_of(glyphs.drop_last()).then_glyph(glyphs.last())
    }
}

/// The tokens of a sequence of glyphs.
pub open spec fn tokens_of_glyphs(glyphs: Seq<Glyph>) -> Seq<Seq<char>> {
    grouping_of(glyphs).flushed()
}

/// The basic tokens of a text.
pub open spec fn basic_words(text: Seq<char>, lowercase: bool) -> Seq<Seq<char>> {
    tokens_of_glyphs(glyphs_of(text, lowercase))
}

/// No token is empty.
pub proof fn lemma_tokens_not_empty(glyphs: Seq<Glyph>)
    ensures
        forall|k: int|
            0 <= k < tokens_of_glyphs(glyphs).len() ==> (#[trigger] tokens_of_glyphs(
                glyphs,
            )[k]).len() > 0,
        forall|k: int|
            0 <= k < grouping_of(glyphs).complete.len() ==> (#[trigger] grouping_of(
                glyphs,
            ).complete[k]).len() > 0,
    decreases glyphs.len(),
{
    if glyphs.len() > 0 {
        lemma_tokens_not_empty(glyphs.drop_last());
        let before = grouping_of(glyphs.drop_last());
        assert(forall|k: int|
            0 <= k < before.flushed().len() ==> (#[trigger] before.flushed()[k]).len() > 0);
    }
}

/// A character that separates words: white space, or a control character.
pub open spec fn is_separator(c: char) -> bool {
    is_white_space(c) || is_control_char(c)
}

proof fn lemma_separator_glyphs(c: char, lowercase: bool)
    requires
        is_separator(c),
    ensures
        glyphs_of_char(c, lowercase) == seq![Glyph::Break],
{
    assert(is_white_space(' '));
}

proof fn lemma_glyphs_concat(a: Seq<char>, b: Seq<char>, lowercase: bool)
    ensures
        glyphs_of(a + b, lowercase) == glyphs_of(a, lowercase) + glyphs_of(b, lowercase),
    decreases b.len(),
{
    if b.len() == 0 {
        assert(a + b =~= a);
        assert(glyphs_of(a, lowercase) + Seq::<Glyph>::empty() =~= glyphs_of(a, lowercase));
    } else {
        assert((a + b).drop_last() =~= a + b.drop_last());
        lemma_glyphs_concat(a, b.drop_last(), lowercase);
        assert(glyphs_of(a + b, lowercase) =~= glyphs_of(a, lowercase) + glyphs_of(b, lowercase));
    }
}

/// Nothing of what stands in front of a break or a mark is grouped with what
/// stands behind it.
proof fn lemma_grouping_splits(x: Seq<Glyph>, glyph: Glyph, y: Seq<Glyph>)
    requires
        !(glyph is Letter),
    ensures
        grouping_of(x.push(glyph) + y).word == grouping_of(y).word,
        grouping_of(x.push(glyph) + y).complete == grouping_of(x.push(glyph)).complete
            + grouping_of(y).complete,
    decreases y.len(),
{
    let all = x.push(glyph) + y;
    if y.len() == 0 {
        assert(all =~= x.push(glyph));
        assert(x.push(glyph).drop_last() =~= x);
        assert(grouping_of(all).complete =~= grouping_of(x.push(glyph)).complete + grouping_of(
            y,
        ).complete);
    } else {
        assert(all.drop_last() =~= x.push(glyph) + y.drop_last());
        lemma_grouping_splits(x, glyph, y.drop_last());
        assert(grouping_of(all).complete =~= grouping_of(x.push(glyph)).complete + grouping_of(
            y,
        ).complete);
    }
}

/// Separators at the end of a text add no token.
proof fn lemma_separators_add_nothing(a: Seq<char>, s: Seq<char>, lowercase: bool)
    requires
        forall|i: int| 0 <= i < s.len() ==> is_separator(#[trigger] s[i]),
    ensures
        basic_words(a + s, lowercase) == basic_words(a, lowercase),
    decreases s.len(),
{
    if s.len() == 0 {
        assert(a + s =~= a);
    } else {
        let before = a + s.drop_last();
        assert((a + s).drop_last() =~= before);
        lemma_separators_add_nothing(a, s.drop_last(), lowercase);
        lemma_separator_glyphs(s[s.len() - 1], lowercase);
        let x = glyphs_of(before, lowercase);
        assert(glyphs_of(a + s, lowercase) =~= x.push(Glyph::Break));
        assert(x.push(Glyph::Break).drop_last() =~= x);
    }
}

/// White space and control characters split words: the tokens of a text with
/// such characters in it are those of what stands in front of them, followed by
/// those of what stands behind.
pub proof fn lemma_separators_split(
    a: Seq<char>,
    s: Seq<char>,
    b: Seq<char>,
    lowercase: bool,
)
    requires
        s.len() > 0,
        forall|i: int| 0 <= i < s.len() ==> is_separator(#[trigger] s[i]),
    ensures
        basic_words(a + s + b, lowercase) == basic_words(a, lowercase) + basic_words(b, lowercase),
{
    let before = a + s.drop_last();
    let one = seq![s.last()];
    assert(s[s.len() - 1] == s.last());
    lemma_separators_add_nothing(a, s.drop_last(), lowercase);
    lemma_separator_glyphs(s.last(), lowercase);
    let x = glyphs_of(before, lowercase);
    let y = glyphs_of(b, lowercase);
    reveal_with_fuel(glyphs_of, 2);
    assert(one.drop_last() =~= Seq::<char>::empty());
    assert(glyphs_of(one, lowercase) =~= seq![Glyph::Break]);
    assert(a + s + b =~= before + one + b);
    lemma_glyphs_concat(before, one, lowercase);
    lemma_glyphs_concat(before + one, b, lowercase);
    assert(x + seq![Glyph::Break] =~= x.push(Glyph::Break));
    lemma_grouping_splits(x, Glyph::Break, y);
    assert(x.push(Glyph::Break).drop_last() =~= x);
    assert(basic_words(a + s + b, lowercase) =~= basic_words(a, lowercase) + basic_words(
        b,
        lowercase,
    ));
}

/// What gives a single mark splits a text: its tokens are those of what stands in
/// front of the mark, the mark, and those of what stands behind.
proof fn lemma_mark_splits(a: Seq<char>, c: char, b: Seq<char>, lowercase: bool)
    requires
        glyphs_of_char(c, lowercase) == seq![Glyph::Alone(c)],
    ensures
        basic_words(a + seq![c] + b, lowercase) == basic_words(a, lowercase) + seq![seq![c]]
            + basic_words(b, lowercase),
{
    let one = seq![c];
    let x = glyphs_of(a, lowercase);
    let y = glyphs_of(b, lowercase);
    reveal_with_fuel(glyphs_of, 2);
    assert(one.drop_last() =~= Seq::<char>::empty());
    assert(glyphs_of(one, lowercase) =~= seq![Glyph::Alone(c)]);
    lemma_glyphs_concat(a, one, lowercase);
    lemma_glyphs_concat(a + one, b, lowercase);
    assert(x + seq![Glyph::Alone(c)] =~= x.push(Glyph::Alone(c)));
    lemma_grouping_splits(x, Glyph::Alone(c), y);
    assert(x.push(Glyph::Alone(c)).drop_last() =~= x);
    assert(basic_words(a + one + b, lowercase) =~= basic_words(a, lowercase) + seq![one]
        + basic_words(b, lowercase));
}

/// An ideograph is a token of its own: the tokens of a text with one in it are
/// those of what stands in front of it, the ideograph, and those of what stands
/// behind. Ideographs are the unified ones, their extensions A to E, and the
/// compatibility ones.
pub proof fn lemma_ideographs_stand_alone(
    a: Seq<char>,
    c: char,
    b: Seq<char>,
    lowercase: bool,
)
    requires
        ({
            ||| '\u{4E00}' <= c <= '\u{9FFF}'
            ||| '\u{3400}' <= c <= '\u{4DBF}'
            ||| '\u{20000}' <= c <= '\u{2A6DF}'
            ||| '\u{2A700}' <= c <= '\u{2CEAF}'
            ||| '\u{F900}' <= c <= '\u{FAFF}'
            ||| '\u{2F800}' <= c <= '\u{2FA1F}'
        }),
    ensures
        basic_words(a + seq![c] + b, lowercase) == basic_words(a, lowercase) + seq![seq![c]]
            + basic_words(b, lowercase),
{
    lemma_mark_splits(a, c, b, lowercase);
}

/// An ASCII letter or digit.
pub open spec fn is_ascii_word_char(c: char) -> bool {
    'a' <= c <= 'z' || 'A' <= c <= 'Z' || '0' <= c <= '9'
}

/// A visible ASCII character that is neither a letter nor a digit.
pub open spec fn is_ascii_symbol(c: char) -> bool {
    '!' <= c <= '~' && !is_ascii_word_char(c)
}

/// Every visible ASCII character that is neither a letter nor a digit is a token
/// of its own. In lower case this is said of characters that are their own lower
/// case.
pub proof fn lemma_ascii_symbols_stand_alone(
    a: Seq<char>,
    c: char,
    b: Seq<char>,
    lowercase: bool,
)
    requires
        is_ascii_symbol(c),
        lowercase ==> lowercase_of(c) == seq![c],
    ensures
        basic_words(a + seq![c] + b, lowercase) == basic_words(a, lowercase) + seq![seq![c]]
            + basic_words(b, lowercase),
{
    if lowercase {
        assert(lowercase_of(c).map_values(|l: char| glyph_given(l, is_mark(l))) =~= seq![
            Glyph::Alone(c),
        ]);
    }
    lemma_mark_splits(a, c, b, lowercase);
}

/// Beyond ASCII and the control characters that follow it, a character that is
/// neither alphanumeric nor white space is a token of its own.
pub proof fn lemma_symbols_stand_alone(a: Seq<char>, c: char, b: Seq<char>, lowercase: bool)
    requires
        '\u{A0}' <= c,
        !is_alphanumeric(c),
        !is_white_space(c),
        lowercase ==> lowercase_of(c) == seq![c],
    ensures
        basic_words(a + seq![c] + b, lowercase) == basic_words(a, lowercase) + seq![seq![c]]
            + basic_words(b, lowercase),
{
    if lowercase && !is_cjk_char(c) {
        assert(lowercase_of(c).map_values(|l: char| glyph_given(l, is_mark(l))) =~= seq![
            Glyph::Alone(c),
        ]);
    }
    lemma_mark_splits(a, c, b, lowercase);
}

/// A control character ends a word and is dropped, be it white space or not.
pub proof fn lemma_control_characters_split(
    a: Seq<char>,
    c: char,
    b: Seq<char>,
    lowercase: bool,
)
    requires
        c <= '\u{1F}' || '\u{7F}' <= c <= '\u{9F}',
    ensures
        basic_words(a + seq![c] + b, lowercase) == basic_words(a, lowercase) + basic_words(
            b,
            lowercase,
        ),
{
    lemma_separators_split(a, seq![c], b, lowercase);
}

/// A letter or a digit that a word may hold: an ASCII one, or an alphanumeric
/// character beyond ASCII that lies outside the blocks of ideographs.
pub open spec fn is_word_char(c: char) -> bool {
    ||| is_ascii_word_char(c)
    ||| '\u{A0}' <= c < '\u{3400}' && is_alphanumeric(c) && !is_white_space(c)
    ||| '\u{4DC0}' <= c < '\u{4E00}' && is_alphanumeric(c) && !is_white_space(c)
    ||| '\u{A000}' <= c < '\u{F900}' && is_alphanumeric(c) && !is_white_space(c)
    ||| '\u{FB00}' <= c < '\u{20000}' && is_alphanumeric(c) && !is_white_space(c)
}

/// Letters, and the word that they make.
proof fn lemma_letters_make_a_word(glyphs: Seq<Glyph>, word: Seq<char>)
    requires
        glyphs.len() == word.len(),
        forall|i: int| 0 <= i < word.len() ==> #[trigger] glyphs[i] == Glyph::Letter(word[i]),
    ensures
        grouping_of(glyphs) == (Grouping { complete: Seq::empty(), word }),
    decreases word.len(),
{
    if word.len() > 0 {
        lemma_letters_make_a_word(glyphs.drop_last(), word.drop_last());
        assert(glyphs.last() == Glyph::Letter(word.last()));
        assert(word.drop_last().push(word.last()) =~= word);
    } else {
        assert(word =~= Seq::empty());
    }
}

/// A character that is shown as a single letter.
spec fn is_letter(c: char, l: char, lowercase: bool) -> bool {
    &&& glyphs_of_char(c, lowercase).len() == 1
    &&& glyphs_of_char(c, lowercase)[0] == Glyph::Letter(l)
}

/// The glyphs of letters that each stand for one letter.
proof fn lemma_glyphs_of_letters(text: Seq<char>, word: Seq<char>, lowercase: bool)
    requires
        text.len() == word.len(),
        forall|i: int| 0 <= i < text.len() ==> #[trigger] is_letter(text[i], word[i], lowercase),
    ensures
        glyphs_of(text, lowercase).len() == word.len(),
        forall|i: int|
            0 <= i < word.len() ==> #[trigger] glyphs_of(text, lowercase)[i] == Glyph::Letter(
                word[i],
            ),
    decreases text.len(),
{
    if text.len() > 0 {
        let (head, begun) = (text.drop_last(), word.drop_last());
        assert forall|i: int| 0 <= i < head.len() implies #[trigger] is_letter(
            head[i],
            begun[i],
            lowercase,
        ) by {
            assert(is_letter(text[i], word[i], lowercase));
        }
        lemma_glyphs_of_letters(head, begun, lowercase);
        assert(is_letter(text[text.len() - 1], word[text.len() - 1], lowercase));
    }
}

/// Letters and digits that stand together are one token. In lower case each is
/// said to have one lower case letter or digit, and the token is made of those.
pub proof fn lemma_word_stays_whole(text: Seq<char>, word: Seq<char>, lowercase: bool)
    requires
        text.len() > 0,
        text.len() == word.len(),
        forall|i: int| 0 <= i < text.len() ==> is_word_char(#[trigger] text[i]),
        forall|i: int| 0 <= i < word.len() ==> is_word_char(#[trigger] word[i]),
        if lowercase {
            forall|i: int|
                0 <= i < text.len() ==> lowercase_of(#[trigger] text[i]) == seq![word[i]]
        } else {
            word == text
        },
    ensures
        basic_words(text, lowercase) == seq![word],
{
    assert forall|i: int| 0 <= i < text.len() implies #[trigger] is_letter(
        text[i],
        word[i],
        lowercase,
    ) by {
        let (c, l) = (text[i], word[i]);
        assert(is_word_char(l) && is_word_char(c));
        assert(!is_mark(l));
        if lowercase {
            assert(lowercase_of(c) == seq![l]);
        }
    }
    lemma_glyphs_of_letters(text, word, lowercase);
    lemma_letters_make_a_word(glyphs_of(text, lowercase), word);
    assert(basic_words(text, lowercase) =~= seq![word]);
}

/// Moves the current word, if there is one, to the finished tokens.
fn flush_token(current: &mut Vec<char>, out: &mut Vec<String>)
    ensures
        texts(final(out)@) == (Grouping { complete: texts(old(out)@), word: old(current)@ }).flushed(),
        final(current)@ == Seq::<char>::empty(),
{
    if current.len() > 0 {
        let word = string_of(current.as_slice());
        let ghost before = out@;
        out.push(word);
        assert(texts(out@) =~= texts(before).push(word@));
        *current = Vec::new();
    } else {
        assert(current@ =~= Seq::<char>::empty());
    }
}

/// The tokens of a sequence of glyphs.
pub fn group_glyphs(glyphs: &[Glyph]) -> (res: Vec<String>)
    ensures
        texts(res@) == tokens_of_glyphs(glyphs@),
{
    let mut out: Vec<String> = Vec::new();
    let mut current: Vec<char> = Vec::new();
    let n: usize = glyphs.len();
    let mut i: usize = 0;
    assert(texts(out@) =~= Seq::<Seq<char>>::empty());
    while i < n
        invariant
            i <= n,
            n == glyphs@.len(),
            grouping_of(glyphs@.take(i as int)) == (Grouping {
                complete: texts(out@),
                word: current@,
            }),
        decreases n - i,
    {
        assert(glyphs@.take(i + 1).drop_last() =~= glyphs@.take(i as int));
        match glyphs[i] {
            Glyph::Break => {
                flush_token(&mut current, &mut out);
            },
            Glyph::Letter(c) => {
                current.push(c);
            },
            Glyph::Alone(c) => {
                flush_token(&mut current, &mut out);
                let ghost before = out@;
                let mark = string_of(&[c]);
                out.push(mark);
                assert(mark@ =~= seq![c]);
                assert(texts(out@) =~= texts(before).push(seq![c]));
            },
        }
        i = i + 1;
    }
    assert(glyphs@.take(n as int) =~= glyphs@);
    flush_token(&mut current, &mut out);
    out
}

/// Appends the glyphs of one character, given whether it is white space and,
/// for the characters it is shown as, whether each is punctuation.
pub fn push_glyphs(ch: char, white_space: bool, shown: &[(char, bool)], out: &mut Vec<Glyph>)
    ensures
        final(out)@ == old(out)@ + if is_cjk_char(ch) {
            seq![Glyph::Alone(ch)]
        } else if white_space {
            seq![Glyph::Break]
        } else {
            shown@.map_values(|p: (char, bool)| glyph_given(p.0, p.1))
        },
{
    if is_cjk(ch) {
        out.push(Glyph::Alone(ch));
    } else if white_space {
        out.push(Glyph::Break);
    } else {
        let n: usize = shown.len();
        let mut i: usize = 0;
        let ghost glyphs = shown@.map_values(|p: (char, bool)| glyph_given(p.0, p.1));
        while i < n
            invariant
                i <= n,
                n == shown@.len(),
                glyphs == shown@.map_values(|p: (char, bool)| glyph_given(p.0, p.1)),
                out@ == old(out)@ + glyphs.take(i as int),
            decreases n - i,
        {
            let (c, mark) = shown[i];
            out.push(
                if mark {
                    Glyph::Alone(c)
                } else {
                    Glyph::Letter(c)
                },
            );
            i = i + 1;
            assert(glyphs.take(i as int) =~= glyphs.take(i - 1).push(glyphs[i - 1]));
        }
        assert(glyphs.take(n as int) =~= glyphs);
    }
}

/// The characters that `ch` is shown as, each with whether it is punctuation.
fn normalized(ch: char, lowercase: bool) -> (res: Vec<(char, bool)>)
    ensures
        res@ == (if lowercase {
            lowercase_of(ch)
        } else {
            seq![ch]
        }).map_values(|c: char| (c, is_mark(c))),
        lowercase && ch as u32 <= 0x7f ==> lowercase_of(ch) == seq![ascii_lowercase(ch)],
{
    let mut out: Vec<(char, bool)> = Vec::new();
    if lowercase {
        let lower = char_to_lowercase(ch);
        let n: usize = lower.len();
        let mut i: usize = 0;
        let ghost pairs = lowercase_of(ch).map_values(|c: char| (c, is_mark(c)));
        while i < n
            invariant
                i <= n,
                n == lower@.len(),
                lower@ == lowercase_of(ch),
                pairs == lowercase_of(ch).map_values(|c: char| (c, is_mark(c))),
                out@ == pairs.take(i as int),
            decreases n - i,
        {
            out.push((lower[i], is_punctuation(lower[i])));
            i = i + 1;
        }
        assert(pairs.take(n as int) =~= pairs);
    } else {
        out.push((ch, is_punctuation(ch)));
    }
    out
}

/// Performs BERT's basic tokenization step.
///
/// 1. Control characters become spaces.
/// 2. CJK characters are surrounded by spaces (one token per char).
/// 3. Whitespace splits words.
/// 4. Within each word: optional Unicode lowercase, then punctuation is
///    split out as individual tokens.
pub fn basic_tokens(text: &str, lowercase: bool) -> (res: Vec<String>)
    ensures
        texts(res@) == basic_words(text@, lowercase),
        forall|i: int|
            0 <= i < text@.len() && is_ascii_symbol(#[trigger] text@[i]) ==> texts(res@)
                == basic_words(text@.take(i), lowercase) + seq![seq![text@[i]]] + basic_words(
                text@.skip(i + 1),
                lowercase,
            ),
        text@.len() > 0 && (forall|i: int|
            0 <= i < text@.len() ==> is_ascii_word_char(#[trigger] text@[i])) ==> texts(res@)
            == seq![
            if lowercase {
                text@.map_values(|c: char| ascii_lowercase(c))
            } else {
                text@
            },
        ],
{
    let chars = chars_of(text);
    let n: usize = chars.len();
    let mut glyphs: Vec<Glyph> = Vec::new();
    let mut i: usize = 0;
    while i < n
        invariant
            i <= n,
            n == chars@.len(),
            glyphs@ == glyphs_of(chars@.take(i as int), lowercase),
            lowercase ==> forall|j: int|
                0 <= j < i && '!' <= #[trigger] chars@[j] <= '~' ==> lowercase_of(chars@[j])
                    == seq![ascii_lowercase(chars@[j])],
        decreases n - i,
    {
        let raw: char = chars[i];
        let ch: char = if is_control(raw) {
            ' '
        } else {
            raw
        };
        let shown = normalized(ch, lowercase);
        push_glyphs(ch, char_is_whitespace(ch), shown.as_slice(), &mut glyphs);
        proof {
            assert(chars@.take(i + 1).drop_last() =~= chars@.take(i as int));
            let given = shown@.map_values(|p: (char, bool)| glyph_given(p.0, p.1));
            if lowercase {
                assert(given =~= lowercase_of(ch).map_values(
                    |l: char| glyph_given(l, is_mark(l)),
                ));
            } else {
                assert(given =~= seq![glyph_given(ch, is_mark(ch))]);
            }
        }
        i = i + 1;
    }
    assert(chars@.take(n as int) =~= chars@);
    proof {
        assert forall|i: int| 0 <= i < text@.len() && is_ascii_symbol(#[trigger] text@[i]) implies
            basic_words(text@, lowercase) == basic_words(text@.take(i), lowercase) + seq![
            seq![text@[i]],
        ] + basic_words(text@.skip(i + 1), lowercase) by {
            let c = text@[i];
            assert(chars@[i] == c);
            assert(text@ =~= text@.take(i) + seq![c] + text@.skip(i + 1));
            lemma_ascii_symbols_stand_alone(text@.take(i), c, text@.skip(i + 1), lowercase);
        }
        if text@.len() > 0 && (forall|i: int|
            0 <= i < text@.len() ==> is_ascii_word_char(#[trigger] text@[i])) {
            let word = if lowercase {
                text@.map_values(|c: char| ascii_lowercase(c))
            } else {
                text@
            };
            assert forall|i: int| 0 <= i < word.len() implies is_word_char(#[trigger] word[i]) by {
                assert(is_ascii_word_char(text@[i]));
            }
            if lowercase {
                assert forall|i: int| 0 <= i < text@.len() implies lowercase_of(
                    #[trigger] text@[i],
                ) == seq![word[i]] by {
                    assert(is_ascii_word_char(chars@[i]));
                }
            }
            lemma_word_stays_whole(text@, word, lowercase);
        }
    }
    group_glyphs(glyphs.as_slice())
}

} // verus!
