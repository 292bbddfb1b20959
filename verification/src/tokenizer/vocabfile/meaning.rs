//! What the files of a byte-level vocabulary list.

use vstd::prelude::*;
use vstd::utf8::{is_ascii_chars, is_ascii_chars_encode_utf8};
use crate::error::Result;
use crate::text::{
    decimal_text, digit_run_end, index_of_char, is_digit_char, lemma_decimal_round_trip,
    lemma_index_of_char,
};
use crate::tokenizer::vocabfile::{
    MergeRule, VocabItem, blanks_end, escaped_unit, hex_digits_value, key_tail, rules_from,
    separators_end, vocab_item_at, vocab_items, vocab_tail,
};

verus! {

/// The hexadecimal digit with this value.
pub open spec fn hex_char(value: int, capital: bool) -> char {
    if capital {
        "0123456789ABCDEF"@[value]
    } else {
        "0123456789abcdef"@[value]
    }
}

/// The escape of a UTF-16 code unit.
pub open spec fn unit_escape(unit: int, capital: bool) -> Seq<char> {
    seq![
        '\\',
        'u',
        hex_char(unit / 0x1000, capital),
        hex_char(unit / 0x100 % 0x10, capital),
        hex_char(unit / 0x10 % 0x10, capital),
        hex_char(unit % 0x10, capital),
    ]
}

/// The letter behind a backslash that stands for the character.
pub open spec fn is_escape_of(letter: char, c: char) -> bool {
    ||| letter == '"' && c == '"'
    ||| letter == '\\' && c == '\\'
    ||| letter == '/' && c == '/'
    ||| letter == 'b' && c == '\u{8}'
    ||| letter == 'f' && c == '\u{c}'
    ||| letter == 'n' && c == '\n'
    ||| letter == 'r' && c == '\r'
    ||| letter == 't' && c == '\t'
}

/// A way to write the character in a JSON string: as it is, by a letter behind a
/// backslash, by its code unit, or by the pair of its code units.
pub open spec fn spells(s: Seq<char>, c: char) -> bool {
    ||| s == seq![c] && c != '"' && c != '\\'
    ||| s.len() == 2 && s[0] == '\\' && is_escape_of(s[1], c)
    ||| exists|capital: bool| c as u32 <= 0xffff && s == #[trigger] unit_escape(c as int, capital)
    ||| exists|capital: bool|
        c as u32 > 0xffff && s == #[trigger] unit_escape(
            0xd800 + (c as int - 0x10000) / 0x400,
            capital,
        ) + unit_escape(0xdc00 + (c as int - 0x10000) % 0x400, capital)
}

proof fn lemma_hex_char(value: int, capital: bool)
    requires
        0 <= value < 16,
    ensures
        crate::tokenizer::vocabfile::hex_digit(hex_char(value, capital)) == Some(value as nat),
        hex_char(value, capital) as u32 <= 0x7f,
        hex_char(value, capital) != '+',
{
    reveal_strlit("0123456789ABCDEF");
    reveal_strlit("0123456789abcdef");
}

/// The escape of a code unit is read as the code unit.
#[verifier::rlimit(40)]
proof fn lemma_unit_is_read(t: Seq<char>, i: int, unit: int, capital: bool)
    requires
        0 <= unit <= 0xffff,
        0 <= i,
        i + 6 <= t.len(),
        t.subrange(i, i + 6) == unit_escape(unit, capital),
    ensures
        t[i] == '\\',
        t[i + 1] == 'u',
        escaped_unit(t, i + 2) == Ok::<nat, crate::error::Error>(unit as nat),
{
    let e = unit_escape(unit, capital);
    assert(t[i] == e[0] && t[i + 1] == e[1]);
    let numeral = t.subrange(i + 2, i + 6);
    assert(numeral[0] == e[2] && numeral[1] == e[3] && numeral[2] == e[4] && numeral[3] == e[5]) by {
        assert(t[i + 2] == e[2] && t[i + 3] == e[3] && t[i + 4] == e[4] && t[i + 5] == e[5]);
    }
    let (a, b, c, d) = (unit / 0x1000, unit / 0x100 % 0x10, unit / 0x10 % 0x10, unit % 0x10);
    lemma_hex_char(a, capital);
    lemma_hex_char(b, capital);
    lemma_hex_char(c, capital);
    lemma_hex_char(d, capital);
    assert(is_ascii_chars(numeral));
    is_ascii_chars_encode_utf8(numeral);
    reveal_with_fuel(hex_digits_value, 5);
    let n3 = numeral.drop_last();
    let n2 = n3.drop_last();
    let n1 = n2.drop_last();
    assert(n1.drop_last() =~= Seq::<char>::empty());
    assert(hex_digits_value(n1) == Some(a as nat));
    assert(hex_digits_value(n2) == Some((a * 16 + b) as nat));
    assert(hex_digits_value(n3) == Some(((a * 16 + b) * 16 + c) as nat));
    assert(hex_digits_value(numeral) == Some((((a * 16 + b) * 16 + c) * 16 + d) as nat));
}

/// However a character is written, it is read.
pub proof fn lemma_character_is_read(t: Seq<char>, i: int, s: Seq<char>, c: char, acc: Seq<char>)
    requires
        spells(s, c),
        0 <= i,
        i + s.len() <= t.len(),
        t.subrange(i, i + s.len()) == s,
    ensures
        key_tail(t, i, acc) == key_tail(t, i + s.len(), acc.push(c)),
{
    assert(s.len() > 0);
    assert(t[i] == s[0]);
    if s == seq![c] && c != '"' && c != '\\' {
    } else if s.len() == 2 && s[0] == '\\' && is_escape_of(s[1], c) {
        assert(t[i + 1] == s[1]);
    } else if c as u32 <= 0xffff {
        let capital = choose|capital: bool| s == #[trigger] unit_escape(c as int, capital);
        lemma_unit_is_read(t, i, c as int, capital);
    } else {
        let high = 0xd800 + (c as int - 0x10000) / 0x400;
        let low = 0xdc00 + (c as int - 0x10000) % 0x400;
        let capital = choose|capital: bool|
            s == #[trigger] unit_escape(high, capital) + unit_escape(low, capital);
        assert(t.subrange(i, i + 6) =~= unit_escape(high, capital)) by {
            assert(t.subrange(i, i + 6) =~= s.take(6));
        }
        assert(t.subrange(i + 6, i + 12) =~= unit_escape(low, capital)) by {
            assert(t.subrange(i + 6, i + 12) =~= s.skip(6));
        }
        lemma_unit_is_read(t, i, high, capital);
        lemma_unit_is_read(t, i + 6, low, capital);
    }
}

/// All the texts, one behind the other.
pub open spec fn flat(texts: Seq<Seq<char>>) -> Seq<char>
    decreases texts.len(),
{
    if texts.len() == 0 {
        Seq::empty()
    } else {
        texts[0] + flat(texts.drop_first())
    }
}

/// The characters are written one behind the other.
pub open spec fn spells_all(spellings: Seq<Seq<char>>, key: Seq<char>) -> bool {
    spellings.len() == key.len() && forall|k: int|
        0 <= k < key.len() ==> spells(#[trigger] spellings[k], key[k])
}

/// A string is read up to its quote.
#[verifier::rlimit(40)]
proof fn lemma_key_is_read(
    a: Seq<char>,
    spellings: Seq<Seq<char>>,
    key: Seq<char>,
    b: Seq<char>,
    acc: Seq<char>,
)
    requires
        spells_all(spellings, key),
    ensures
        key_tail(a + flat(spellings) + seq!['"'] + b, a.len() as int, acc) == Ok::<
            (Seq<char>, int),
            crate::error::Error,
        >((acc + key, (a.len() + flat(spellings).len() + 1) as int)),
    decreases key.len(),
{
    let t = a + flat(spellings) + seq!['"'] + b;
    let i = a.len() as int;
    if key.len() == 0 {
        assert(t[i] == '"');
        assert(acc + key =~= acc);
    } else {
        let s = spellings[0];
        let rest = spellings.drop_first();
        assert(spells(s, key[0]));
        assert(t.subrange(i, i + s.len()) =~= s);
        lemma_character_is_read(t, i, s, key[0], acc);
        assert forall|k: int| 0 <= k < key.len() - 1 implies spells(
            #[trigger] rest[k],
            key.drop_first()[k],
        ) by {
            assert(rest[k] == spellings[k + 1]);
        }
        lemma_key_is_read(a + s, rest, key.drop_first(), b, acc.push(key[0]));
        assert(t =~= (a + s) + flat(rest) + seq!['"'] + b);
        assert(acc.push(key[0]) + key.drop_first() =~= acc + key);
    }
}

/// White space of JSON.
pub open spec fn is_blank(c: char) -> bool {
    c == ' ' || c == '\t' || c == '\n' || c == '\r'
}

pub open spec fn all_blank(w: Seq<char>) -> bool {
    forall|k: int| 0 <= k < w.len() ==> is_blank(#[trigger] w[k])
}

/// White space and commas.
pub open spec fn all_separators(w: Seq<char>) -> bool {
    forall|k: int| 0 <= k < w.len() ==> is_blank(#[trigger] w[k]) || w[k] == ','
}

proof fn lemma_blanks_are_skipped(a: Seq<char>, w: Seq<char>, b: Seq<char>)
    requires
        all_blank(w),
        b.len() > 0 ==> !is_blank(b[0]),
    ensures
        blanks_end(a + w + b, a.len() as int) == a.len() + w.len(),
    decreases w.len(),
{
    let t = a + w + b;
    if w.len() > 0 {
        assert(t[a.len() as int] == w[0]);
        assert(all_blank(w.drop_first())) by {
            assert forall|k: int| 0 <= k < w.len() - 1 implies is_blank(
                #[trigger] w.drop_first()[k],
            ) by {
                assert(w.drop_first()[k] == w[k + 1]);
            }
        }
        lemma_blanks_are_skipped(a.push(w[0]), w.drop_first(), b);
        assert(t =~= a.push(w[0]) + w.drop_first() + b);
    } else if b.len() > 0 {
        assert(t[a.len() as int] == b[0]);
    }
}

proof fn lemma_separators_are_skipped(a: Seq<char>, w: Seq<char>, b: Seq<char>)
    requires
        all_separators(w),
        b.len() > 0 ==> !is_blank(b[0]) && b[0] != ',',
    ensures
        separators_end(a + w + b, a.len() as int) == a.len() + w.len(),
    decreases w.len(),
{
    let t = a + w + b;
    if w.len() > 0 {
        assert(t[a.len() as int] == w[0]);
        assert(all_separators(w.drop_first())) by {
            assert forall|k: int| 0 <= k < w.len() - 1 implies is_blank(
                #[trigger] w.drop_first()[k],
            ) || w.drop_first()[k] == ',' by {
                assert(w.drop_first()[k] == w[k + 1]);
            }
        }
        lemma_separators_are_skipped(a.push(w[0]), w.drop_first(), b);
        assert(t =~= a.push(w[0]) + w.drop_first() + b);
    } else if b.len() > 0 {
        assert(t[a.len() as int] == b[0]);
    }
}

proof fn lemma_digits_are_run(a: Seq<char>, digits: Seq<char>, b: Seq<char>)
    requires
        forall|k: int| 0 <= k < digits.len() ==> is_digit_char(#[trigger] digits[k]),
        b.len() > 0 ==> !is_digit_char(b[0]),
    ensures
        digit_run_end(a + digits + b, a.len() as int) == a.len() + digits.len(),
    decreases digits.len(),
{
    let t = a + digits + b;
    if digits.len() > 0 {
        assert(t[a.len() as int] == digits[0]);
        assert forall|k: int| 0 <= k < digits.len() - 1 implies is_digit_char(
            #[trigger] digits.drop_first()[k],
        ) by {
            assert(digits.drop_first()[k] == digits[k + 1]);
        }
        lemma_digits_are_run(a.push(digits[0]), digits.drop_first(), b);
        assert(t =~= a.push(digits[0]) + digits.drop_first() + b);
    } else if b.len() > 0 {
        assert(t[a.len() as int] == b[0]);
    }
}

/// A member as it is written: what separates it from the one before, the spelling of
/// its key, and the white space around the colon.
pub struct Member {
    pub lead: Seq<char>,
    pub spellings: Seq<Seq<char>>,
    pub before_colon: Seq<char>,
    pub behind_colon: Seq<char>,
    pub key: Seq<char>,
    pub id: u32,
}

impl Member {
    pub open spec fn wf(self) -> bool {
        &&& all_separators(self.lead)
        &&& spells_all(self.spellings, self.key)
        &&& all_blank(self.before_colon)
        &&& all_blank(self.behind_colon)
    }

    #[verifier::opaque]
    pub open spec fn text(self) -> Seq<char> {
        seq!['"'] + flat(self.spellings) + seq!['"'] + self.before_colon + seq![':']
            + self.behind_colon + decimal_text(self.id as nat)
    }
}

/// The members as they are written.
pub open spec fn members_text(members: Seq<Member>) -> Seq<char>
    decreases members.len(),
{
    if members.len() == 0 {
        Seq::empty()
    } else {
        members[0].lead + members[0].text() + members_text(members.drop_first())
    }
}

/// Seven texts, one behind the other, between two others.
#[verifier::rlimit(40)]
proof fn lemma_layout(
    a: Seq<char>,
    p: Seq<char>,
    q: Seq<char>,
    r: Seq<char>,
    u: Seq<char>,
    v: Seq<char>,
    w: Seq<char>,
    x: Seq<char>,
    b: Seq<char>,
)
    ensures
        a + (p + q + r + u + v + w + x) + b == (a + p) + q + r + (u + v + w + x + b),
        a + (p + q + r + u + v + w + x) + b == (a + p + q + r) + u + (v + w + x + b),
        a + (p + q + r + u + v + w + x) + b == (a + p + q + r + u + v) + w + (x + b),
        a + (p + q + r + u + v + w + x) + b == (a + p + q + r + u + v + w) + x + b,
{
    let t = a + (p + q + r + u + v + w + x) + b;
    assert(t =~= (a + p) + q + r + (u + v + w + x + b));
    assert(t =~= (a + p + q + r) + u + (v + w + x + b));
    assert(t =~= (a + p + q + r + u + v) + w + (x + b));
    assert(t =~= (a + p + q + r + u + v + w) + x + b);
}

/// A member is read.
#[verifier::rlimit(40)]
proof fn lemma_member_is_read(a: Seq<char>, m: Member, b: Seq<char>)
    requires
        m.wf(),
        b.len() > 0 ==> !is_digit_char(b[0]),
    ensures
        vocab_item_at(a + m.text() + b, a.len() as int) == Ok::<
            (VocabItem, int),
            crate::error::Error,
        >(((m.key, m.id), (a.len() + m.text().len()) as int)),
{
    reveal(Member::text);
    let t = a + m.text() + b;
    let digits = decimal_text(m.id as nat);
    let (quote, colon) = (seq!['"'], seq![':']);
    let spelled = flat(m.spellings);
    lemma_layout(a, quote, spelled, quote, m.before_colon, colon, m.behind_colon, digits, b);
    let a1 = a + quote;
    let rest1 = m.before_colon + colon + m.behind_colon + digits + b;
    lemma_key_is_read(a1, m.spellings, m.key, rest1, Seq::empty());
    assert(Seq::<char>::empty() + m.key =~= m.key);
    let a2 = a1 + spelled + quote;
    let rest2 = colon + m.behind_colon + digits + b;
    assert(rest2[0] == ':');
    lemma_blanks_are_skipped(a2, m.before_colon, rest2);
    let a3 = a2 + m.before_colon + colon;
    assert(t[a3.len() - 1] == ':') by {
        assert(t == a2 + m.before_colon + rest2);
    }
    lemma_decimal_round_trip(m.id as nat);
    let rest3 = digits + b;
    assert(rest3[0] == digits[0]);
    lemma_blanks_are_skipped(a3, m.behind_colon, rest3);
    let a4 = a3 + m.behind_colon;
    lemma_digits_are_run(a4, digits, b);
    assert(t.subrange(a4.len() as int, (a4.len() + digits.len()) as int) =~= digits) by {
        assert(t == a4 + digits + b);
    }
}

/// A member starts with a quote.
proof fn lemma_member_starts(m: Member)
    ensures
        m.text().len() > 0,
        m.text()[0] == '"',
{
    reveal(Member::text);
}

/// What stands behind a member is no digit.
proof fn lemma_no_digit_follows(members: Seq<Member>, trail: Seq<char>, rest: Seq<char>)
    requires
        forall|k: int| 0 <= k < members.len() ==> (#[trigger] members[k]).wf(),
        all_separators(trail),
    ensures
        ({
            let b = members_text(members) + (trail + seq!['}'] + rest);
            b.len() > 0 && !is_digit_char(b[0])
        }),
{
    let end = trail + seq!['}'] + rest;
    let b = members_text(members) + end;
    if members.len() > 0 {
        let next = members[0];
        assert(next.wf());
        lemma_member_starts(next);
        let text = next.text();
        let more = members_text(members.drop_first());
        assert(members_text(members) == next.lead + text + more);
        if next.lead.len() > 0 {
            assert(b[0] == next.lead[0]);
        } else {
            assert(b[0] == text[0]);
        }
    } else if trail.len() > 0 {
        assert(b[0] == trail[0]);
    } else {
        assert(b[0] == '}');
    }
}

/// Three texts, one behind the other, between two others.
#[verifier::rlimit(40)]
proof fn lemma_short_layout(
    a: Seq<char>,
    p: Seq<char>,
    q: Seq<char>,
    r: Seq<char>,
    trail: Seq<char>,
    rest: Seq<char>,
)
    ensures
        a + (p + q + r) + trail + seq!['}'] + rest == a + p + (q + (r + (trail + seq!['}']
            + rest))),
        a + (p + q + r) + trail + seq!['}'] + rest == (a + p) + q + (r + (trail + seq!['}']
            + rest)),
        a + (p + q + r) + trail + seq!['}'] + rest == (a + p + q) + r + trail + seq!['}'] + rest,
{
    let t = a + (p + q + r) + trail + seq!['}'] + rest;
    assert(t =~= a + p + (q + (r + (trail + seq!['}'] + rest))));
    assert(t =~= (a + p) + q + (r + (trail + seq!['}'] + rest)));
    assert(t =~= (a + p + q) + r + trail + seq!['}'] + rest);
}

/// What is read from a position on.
#[verifier::opaque]
spec fn read_on(t: Seq<char>, i: int, acc: Seq<VocabItem>) -> Result<Seq<VocabItem>> {
    vocab_tail(t, i, acc)
}

/// Nothing more is read where the object ends.
proof fn lemma_object_ends(a: Seq<char>, trail: Seq<char>, rest: Seq<char>, acc: Seq<VocabItem>)
    requires
        all_separators(trail),
    ensures
        read_on(a + trail + (seq!['}'] + rest), a.len() as int, acc) == Ok::<
            Seq<VocabItem>,
            crate::error::Error,
        >(acc),
{
    reveal(read_on);
    let t = a + trail + (seq!['}'] + rest);
    lemma_separators_are_skipped(a, trail, seq!['}'] + rest);
    assert(t[(a.len() + trail.len()) as int] == '}');
}

/// The first member is read, and reading goes on behind it.
#[verifier::rlimit(40)]
proof fn lemma_first_member_is_read(a: Seq<char>, m: Member, b: Seq<char>, acc: Seq<VocabItem>)
    requires
        m.wf(),
        b.len() > 0,
        !is_digit_char(b[0]),
    ensures
        read_on(a + m.lead + m.text() + b, a.len() as int, acc) == read_on(
            a + m.lead + m.text() + b,
            (a.len() + m.lead.len() + m.text().len()) as int,
            acc.push((m.key, m.id)),
        ),
{
    reveal(read_on);
    let text = m.text();
    let a1 = a + m.lead;
    let t = a1 + text + b;
    lemma_member_starts(m);
    assert(t =~= a + m.lead + (text + b));
    assert((text + b)[0] == '"');
    lemma_separators_are_skipped(a, m.lead, text + b);
    assert(t[a1.len() as int] == '"');
    lemma_member_is_read(a1, m, b);
}

/// The members are read one after the other.
#[verifier::rlimit(40)]
proof fn lemma_members_are_read(
    a: Seq<char>,
    members: Seq<Member>,
    trail: Seq<char>,
    rest: Seq<char>,
    acc: Seq<VocabItem>,
)
    requires
        forall|k: int| 0 <= k < members.len() ==> (#[trigger] members[k]).wf(),
        all_separators(trail),
    ensures
        read_on(a + members_text(members) + trail + seq!['}'] + rest, a.len() as int, acc)
            == Ok::<Seq<VocabItem>, crate::error::Error>(
            acc + members.map_values(|m: Member| (m.key, m.id)),
        ),
    decreases members.len(),
{
    let item = |m: Member| (m.key, m.id);
    if members.len() == 0 {
        let t = a + members_text(members) + trail + seq!['}'] + rest;
        assert(t =~= a + trail + (seq!['}'] + rest));
        lemma_object_ends(a, trail, rest, acc);
        assert(acc + members.map_values(item) =~= acc);
    } else {
        let m = members[0];
        let more = members.drop_first();
        assert(m.wf());
        assert forall|k: int| 0 <= k < more.len() implies (#[trigger] more[k]).wf() by {
            assert(more[k] == members[k + 1]);
        }
        let b = members_text(more) + (trail + seq!['}'] + rest);
        lemma_no_digit_follows(more, trail, rest);
        lemma_short_layout(a, m.lead, m.text(), members_text(more), trail, rest);
        lemma_first_member_is_read(a, m, b, acc);
        lemma_members_are_read(a + m.lead + m.text(), more, trail, rest, acc.push((m.key, m.id)));
        assert(acc.push((m.key, m.id)) + more.map_values(item) =~= acc + members.map_values(item));
    }
}

/// A `vocab.json` lists its members: whatever way each key is written and whatever
/// white space stands between, the keys and the ids come out in file order.
pub proof fn lemma_members_are_listed(members: Seq<Member>, trail: Seq<char>, rest: Seq<char>)
    requires
        forall|k: int| 0 <= k < members.len() ==> (#[trigger] members[k]).wf(),
        all_separators(trail),
    ensures
        vocab_items(seq!['{'] + members_text(members) + trail + seq!['}'] + rest) == Ok::<
            Seq<VocabItem>,
            crate::error::Error,
        >(members.map_values(|m: Member| (m.key, m.id))),
{
    let t = seq!['{'] + members_text(members) + trail + seq!['}'] + rest;
    assert(t[0] == '{');
    reveal(read_on);
    lemma_members_are_read(seq!['{'], members, trail, rest, Seq::empty());
    let items = members.map_values(|m: Member| (m.key, m.id));
    assert(Seq::<VocabItem>::empty() + items =~= items);
}

/// A line of a `merges.txt`: the two tokens of a rule with a space between, or a
/// line without a rule, which is empty or starts with a number sign.
pub open spec fn is_rule_line(line: Seq<char>, rule: Option<MergeRule>) -> bool {
    match rule {
        Some((left, right)) => {
            &&& line == left + seq![' '] + right
            &&& !left.contains(' ')
            &&& left.len() > 0 ==> left[0] != '#'
        },
        None => line.len() == 0 || line[0] == '#',
    }
}

/// The rules among these, in order.
pub open spec fn rules_among(rules: Seq<Option<MergeRule>>) -> Seq<MergeRule>
    decreases rules.len(),
{
    if rules.len() == 0 {
        Seq::empty()
    } else {
        (match rules[0] {
            Some(rule) => seq![rule],
            None => Seq::empty(),
        }) + rules_among(rules.drop_first())
    }
}

/// The trimmed lines of a `merges.txt` list their rules in order. Empty lines and
/// comments list none.
pub proof fn lemma_rules_are_listed(
    lines: Seq<Seq<char>>,
    rules: Seq<Option<MergeRule>>,
    i: int,
    acc: Seq<MergeRule>,
)
    requires
        lines.len() == rules.len(),
        forall|k: int| 0 <= k < lines.len() ==> is_rule_line(#[trigger] lines[k], rules[k]),
        0 <= i <= lines.len(),
    ensures
        rules_from(lines, i, acc) == Ok::<Seq<MergeRule>, crate::error::Error>(
            acc + rules_among(rules.skip(i)),
        ),
    decreases lines.len() - i,
{
    if i < lines.len() {
        let line = lines[i];
        assert(is_rule_line(line, rules[i]));
        let rest = rules.skip(i);
        assert(rest.drop_first() =~= rules.skip(i + 1));
        match rules[i] {
            Some((left, right)) => {
                let k = left.len() as int;
                assert(line[k] == ' ');
                lemma_index_of_char(line, ' ', 0);
                assert forall|j: int| 0 <= j < k implies line[j] != ' ' by {
                    assert(left.contains(left[j]));
                }
                assert(index_of_char(line, ' ', 0) == Some(k));
                assert(line.take(k) =~= left);
                assert(line.skip(k + 1) =~= right);
                if k > 0 {
                    assert(line[0] == left[0]);
                }
                lemma_rules_are_listed(lines, rules, i + 1, acc.push((left, right)));
                assert(acc.push((left, right)) + rules_among(rules.skip(i + 1)) =~= acc
                    + rules_among(rest));
            },
            None => {
                lemma_rules_are_listed(lines, rules, i + 1, acc);
                assert(acc + rules_among(rules.skip(i + 1)) =~= acc + rules_among(rest));
            },
        }
    } else {
        assert(rules.skip(i) =~= Seq::<Option<MergeRule>>::empty());
        assert(acc + rules_among(rules.skip(i)) =~= acc);
    }
}

} // verus!
