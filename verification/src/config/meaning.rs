//! What a `config.json` amounts to: the fields that an object lists.

use vstd::prelude::*;
use crate::config::{
    bool_field, field_rest, field_rest_from, number_run_end, numeral_field, quoted, usize_field,
    value_behind,
};
use crate::text::{
    decimal_text, digit_run_end, is_digit_char, is_white_space, lemma_decimal_round_trip,
    text_stands_at, trim_start,
};

verus! {

/// A character of a key: a letter, a digit or an underscore.
pub open spec fn is_key_char(c: char) -> bool {
    'a' <= c <= 'z' || 'A' <= c <= 'Z' || '0' <= c <= '9' || c == '_'
}

/// A text of one or more of these characters.
pub open spec fn is_key(key: Seq<char>) -> bool {
    key.len() > 0 && forall|i: int| 0 <= i < key.len() ==> is_key_char(#[trigger] key[i])
}

/// A field of an object, with its value as it is written.
pub struct Field {
    pub key: Seq<char>,
    pub value: Seq<char>,
}

/// A value that is not a string: it has no quotes in it, and no white space in front.
pub open spec fn is_plain(value: Seq<char>) -> bool {
    &&& value.len() > 0
    &&& !is_white_space(value[0])
    &&& forall|i: int| 0 <= i < value.len() ==> #[trigger] value[i] != '"'
}

/// A value that is a string of letters, digits and underscores.
pub open spec fn is_word(value: Seq<char>) -> bool {
    exists|word: Seq<char>| is_key(word) && value == #[trigger] quoted(word)
}

impl Field {
    pub open spec fn wf(self) -> bool {
        is_key(self.key) && (is_plain(self.value) || is_word(self.value))
    }

    pub open spec fn text(self) -> Seq<char> {
        quoted(self.key) + seq![':', ' '] + self.value
    }
}

/// The fields as they are written, up to the closing brace.
pub open spec fn fields_text(fields: Seq<Field>) -> Seq<char>
    decreases fields.len(),
{
    if fields.len() == 0 {
        seq!['}']
    } else if fields.len() == 1 {
        fields[0].text() + seq!['}']
    } else {
        fields[0].text() + seq![',', ' '] + fields_text(fields.drop_first())
    }
}

/// An object as it is written.
pub open spec fn object_text(fields: Seq<Field>) -> Seq<char> {
    seq!['{'] + fields_text(fields)
}

/// The value of the first field with this key.
pub open spec fn listed(fields: Seq<Field>, key: Seq<char>) -> Option<Seq<char>>
    decreases fields.len(),
{
    if fields.len() == 0 {
        None
    } else if fields[0].key == key {
        Some(fields[0].value)
    } else {
        listed(fields.drop_first(), key)
    }
}

/// The first field with this key is a number.
pub open spec fn lists_number(fields: Seq<Field>, key: Seq<char>) -> bool {
    exists|n: usize| listed(fields, key) == Some(#[trigger] decimal_text(n as nat))
}

pub open spec fn all_wf(fields: Seq<Field>) -> bool {
    forall|i: int| 0 <= i < fields.len() ==> (#[trigger] fields[i]).wf()
}

/// What stands behind the value of the first field with this key is no part of a
/// number.
spec fn goes_on(rest: Option<Seq<char>>, value: Option<Seq<char>>) -> bool {
    match value {
        Some(v) => rest is Some && rest->0.len() > v.len() && rest->0.take(v.len() as int) == v && (
        rest->0[v.len() as int] == ',' || rest->0[v.len() as int] == '}'),
        None => rest is None,
    }
}

/// Places where no value stands are passed over.
proof fn lemma_passed_over(json: Seq<char>, key: Seq<char>, i: int, j: int)
    requires
        0 <= i <= j <= json.len(),
        forall|k: int| i <= k < j ==> (#[trigger] value_behind(json, key, k)) is None,
    ensures
        field_rest_from(json, key, i) == field_rest_from(json, key, j),
    decreases j - i,
{
    if i < j {
        assert(value_behind(json, key, i) is None);
        lemma_passed_over(json, key, i + 1, j);
    }
}

/// A quoted text stands where a quoted key does only if the two are the same.
proof fn lemma_quoted_differs(json: Seq<char>, key: Seq<char>, word: Seq<char>, k: int)
    requires
        is_key(key),
        is_key(word),
        key != word,
        text_stands_at(json, quoted(word), k),
    ensures
        !text_stands_at(json, quoted(key), k),
{
    if text_stands_at(json, quoted(key), k) {
        let a = json.subrange(k, k + quoted(key).len());
        let b = json.subrange(k, k + quoted(word).len());
        if key.len() < word.len() {
            assert(a[key.len() as int + 1] == '"');
            assert(b[key.len() as int + 1] == word[key.len() as int]);
            assert(is_key_char(word[key.len() as int]));
        } else if word.len() < key.len() {
            assert(b[word.len() as int + 1] == '"');
            assert(a[word.len() as int + 1] == key[word.len() as int]);
            assert(is_key_char(key[word.len() as int]));
        } else {
            assert forall|i: int| 0 <= i < key.len() implies key[i] == word[i] by {
                assert(a[i + 1] == key[i]);
                assert(b[i + 1] == word[i]);
            }
            assert(key =~= word);
        }
    }
}

/// No value stands behind a place without a quote, nor behind a quote that something
/// else than a key follows.
proof fn lemma_no_value(json: Seq<char>, key: Seq<char>, k: int)
    requires
        is_key(key),
        0 <= k < json.len(),
        json[k] != '"' || (k + 1 < json.len() && !is_key_char(json[k + 1])),
    ensures
        value_behind(json, key, k) is None,
{
    if text_stands_at(json, quoted(key), k) {
        let a = json.subrange(k, k + quoted(key).len());
        assert(a[0] == json[k]);
        assert(a[1] == key[0]);
        assert(is_key_char(key[0]));
    }
}

/// A field with another key is passed over.
proof fn lemma_field_is_passed(a: Seq<char>, f: Field, b: Seq<char>, key: Seq<char>)
    requires
        f.wf(),
        is_key(key),
        f.key != key,
        b.len() > 0,
        b[0] == ',' || b[0] == '}',
    ensures
        field_rest_from(a + f.text() + b, key, a.len() as int) == field_rest_from(
            a + f.text() + b,
            key,
            (a.len() + f.text().len()) as int,
        ),
{
    let json = a + f.text() + b;
    let i = a.len() as int;
    let n = f.key.len() as int;
    let v = i + n + 4;
    assert forall|k: int| i <= k < i + f.text().len() implies (#[trigger] value_behind(
        json,
        key,
        k,
    )) is None by {
        assert(json[i] == '"');
        if k == i {
            assert(json.subrange(i, i + quoted(f.key).len()) =~= quoted(f.key));
            lemma_quoted_differs(json, key, f.key, i);
        } else if k < i + n + 1 {
            assert(json[k] == f.key[k - i - 1]);
            assert(is_key_char(f.key[k - i - 1]));
            lemma_no_value(json, key, k);
        } else if k == i + n + 1 {
            assert(json[k + 1] == ':');
            lemma_no_value(json, key, k);
        } else if k < v {
            assert(json[k] == ':' || json[k] == ' ');
            lemma_no_value(json, key, k);
        } else {
            assert(json[k] == f.value[k - v]);
            if is_plain(f.value) {
                lemma_no_value(json, key, k);
            } else {
                let word = choose|word: Seq<char>|
                    is_key(word) && f.value == #[trigger] quoted(word);
                let m = word.len() as int;
                if k == v {
                    assert(json.subrange(k, k + quoted(word).len()) =~= quoted(word));
                    if word == key {
                        let rest = json.skip(k + quoted(key).len());
                        assert(rest =~= b);
                        assert(!is_white_space(b[0]));
                        assert(trim_start(rest) == rest);
                    } else {
                        lemma_quoted_differs(json, key, word, k);
                    }
                } else if k < v + m + 1 {
                    assert(json[k] == word[k - v - 1]);
                    assert(is_key_char(word[k - v - 1]));
                    lemma_no_value(json, key, k);
                } else {
                    assert(json[k + 1] == b[0]);
                    lemma_no_value(json, key, k);
                }
            }
        }
    }
    lemma_passed_over(json, key, i, (i + f.text().len()) as int);
}

/// A field is found at its key.
proof fn lemma_field_is_found(a: Seq<char>, f: Field, b: Seq<char>)
    requires
        f.wf(),
        b.len() > 0,
    ensures
        field_rest_from(a + f.text() + b, f.key, a.len() as int) == Some(f.value + b),
{
    let json = a + f.text() + b;
    let i = a.len() as int;
    let q = quoted(f.key);
    assert(json.subrange(i, i + q.len()) =~= q);
    let rest = json.skip(i + q.len());
    let tail = seq![' '] + f.value + b;
    assert(rest =~= seq![':'] + tail);
    assert(!is_white_space(rest[0]));
    assert(trim_start(rest) == rest);
    assert(rest.skip(1) =~= tail);
    assert(is_white_space(tail[0]));
    assert(tail.drop_first() =~= f.value + b);
    assert((f.value + b)[0] == f.value[0]);
    if is_plain(f.value) {
        assert(!is_white_space(f.value[0]));
    } else {
        let word = choose|word: Seq<char>| is_key(word) && f.value == #[trigger] quoted(word);
        assert(f.value[0] == '"');
    }
    reveal_with_fuel(trim_start, 2);
    assert(trim_start(tail) == f.value + b);
}

/// What a lookup in the fields gives.
proof fn lemma_lookup(a: Seq<char>, fields: Seq<Field>, key: Seq<char>)
    requires
        all_wf(fields),
        is_key(key),
    ensures
        goes_on(
            field_rest_from(a + fields_text(fields), key, a.len() as int),
            listed(fields, key),
        ),
    decreases fields.len(),
{
    let json = a + fields_text(fields);
    let i = a.len() as int;
    if fields.len() == 0 {
        assert(json[i] == '}');
        lemma_no_value(json, key, i);
        assert(field_rest_from(json, key, i + 1) is None);
    } else {
        let f = fields[0];
        assert(f.wf());
        let more = fields.drop_first();
        let b = if fields.len() == 1 {
            seq!['}']
        } else {
            seq![',', ' '] + fields_text(more)
        };
        assert(json =~= a + f.text() + b);
        assert(b[0] == ',' || b[0] == '}');
        if f.key == key {
            lemma_field_is_found(a, f, b);
            assert((f.value + b).take(f.value.len() as int) =~= f.value);
        } else {
            lemma_field_is_passed(a, f, b, key);
            let a1 = a + f.text();
            let j = a1.len() as int;
            assert(all_wf(more)) by {
                assert forall|k: int| 0 <= k < more.len() implies (#[trigger] more[k]).wf() by {
                    assert(more[k] == fields[k + 1]);
                }
            }
            if fields.len() == 1 {
                assert(json[j] == '}');
                lemma_no_value(json, key, j);
                assert(field_rest_from(json, key, j + 1) is None);
                assert(listed(more, key) is None);
            } else {
                assert(json[j] == ',' && json[j + 1] == ' ');
                lemma_no_value(json, key, j);
                lemma_no_value(json, key, j + 1);
                assert(field_rest_from(json, key, j) == field_rest_from(json, key, j + 2)) by {
                    reveal_with_fuel(field_rest_from, 3);
                }
                let a2 = a1 + seq![',', ' '];
                lemma_lookup(a2, more, key);
                assert(json =~= a2 + fields_text(more));
            }
        }
    }
}

proof fn lemma_object_lookup(fields: Seq<Field>, key: Seq<char>)
    requires
        all_wf(fields),
        is_key(key),
    ensures
        goes_on(field_rest(object_text(fields), key), listed(fields, key)),
{
    let json = object_text(fields);
    assert(json[0] == '{');
    lemma_no_value(json, key, 0);
    lemma_lookup(seq!['{'], fields, key);
}

/// A number that an object lists is read as it is.
pub proof fn lemma_number_is_read(fields: Seq<Field>, key: Seq<char>, n: usize)
    requires
        all_wf(fields),
        is_key(key),
        listed(fields, key) == Some(decimal_text(n as nat)),
    ensures
        usize_field(object_text(fields), key) == Some(n),
{
    lemma_object_lookup(fields, key);
    let rest = field_rest(object_text(fields), key)->0;
    let digits = decimal_text(n as nat);
    lemma_decimal_round_trip(n as nat);
    assert forall|i: int| 0 <= i < digits.len() implies is_digit_char(#[trigger] rest[i]) by {
        assert(rest.take(digits.len() as int)[i] == digits[i]);
    }
    lemma_run(rest, 0, digits.len() as int);
}

/// Where an object does not list a key, nothing is read.
pub proof fn lemma_nothing_is_read(fields: Seq<Field>, key: Seq<char>)
    requires
        all_wf(fields),
        is_key(key),
        listed(fields, key) is None,
    ensures
        field_rest(object_text(fields), key) is None,
        usize_field(object_text(fields), key) is None,
        bool_field(object_text(fields), key) is None,
        numeral_field(object_text(fields), key) is None,
{
    lemma_object_lookup(fields, key);
}

/// A truth value that an object lists is read as it is.
pub proof fn lemma_bool_is_read(fields: Seq<Field>, key: Seq<char>, b: bool)
    requires
        all_wf(fields),
        is_key(key),
        listed(fields, key) == Some(
            if b {
                "true"@
            } else {
                "false"@
            },
        ),
    ensures
        bool_field(object_text(fields), key) == Some(b),
{
    lemma_object_lookup(fields, key);
    reveal_strlit("true");
    reveal_strlit("false");
    let rest = field_rest(object_text(fields), key)->0;
    if b {
        assert(rest.subrange(0, 4) =~= rest.take(4));
    } else {
        assert(rest.subrange(0, 5) =~= rest.take(5));
        assert(rest.take(5)[0] == 'f');
        if text_stands_at(rest, "true"@, 0) {
            assert(rest.subrange(0, 4)[0] == 't');
        }
    }
}

/// A numeral that an object lists is read as it is written.
pub proof fn lemma_numeral_is_read(fields: Seq<Field>, key: Seq<char>, numeral: Seq<char>)
    requires
        all_wf(fields),
        is_key(key),
        listed(fields, key) == Some(numeral),
        numeral.len() > 0,
        forall|i: int|
            0 <= i < numeral.len() ==> {
                let c = #[trigger] numeral[i];
                '0' <= c <= '9' || c == '.' || c == '+' || c == '-' || c == 'e' || c == 'E'
            },
    ensures
        numeral_field(object_text(fields), key) == Some(numeral),
{
    lemma_object_lookup(fields, key);
    let rest = field_rest(object_text(fields), key)->0;
    assert forall|i: int| 0 <= i < numeral.len() implies crate::config::is_number_char(
        #[trigger] rest[i],
    ) by {
        assert(rest.take(numeral.len() as int)[i] == numeral[i]);
    }
    lemma_number_run(rest, 0, numeral.len() as int);
}

/// A word that an object lists stands between quotes.
pub proof fn lemma_word_is_read(fields: Seq<Field>, key: Seq<char>, word: Seq<char>)
    requires
        all_wf(fields),
        is_key(key),
        is_key(word),
        listed(fields, key) == Some(quoted(word)),
    ensures
        ({
            let rest = field_rest(object_text(fields), key);
            rest is Some && rest->0.len() > word.len() + 1 && rest->0.take(word.len() as int + 2)
                == quoted(word)
        }),
{
    lemma_object_lookup(fields, key);
}

proof fn lemma_run(s: Seq<char>, i: int, end: int)
    requires
        0 <= i <= end < s.len(),
        forall|k: int| i <= k < end ==> is_digit_char(#[trigger] s[k]),
        !is_digit_char(s[end]),
    ensures
        digit_run_end(s, i) == end,
    decreases end - i,
{
    if i < end {
        lemma_run(s, i + 1, end);
    }
}

proof fn lemma_number_run(s: Seq<char>, i: int, end: int)
    requires
        0 <= i <= end < s.len(),
        forall|k: int| i <= k < end ==> crate::config::is_number_char(#[trigger] s[k]),
        !crate::config::is_number_char(s[end]),
    ensures
        number_run_end(s, i) == end,
    decreases end - i,
{
    if i < end {
        lemma_number_run(s, i + 1, end);
    }
}

} // verus!
