//! Writing safetensors files.

use vstd::prelude::*;
use vstd::utf8::{
    encode_scalar, encode_utf8, encode_utf8_decode_utf8, encode_utf8_first_scalar,
    encode_utf8_valid_utf8, is_ascii_chars, is_ascii_chars_concat, is_ascii_chars_encode_utf8,
};
use crate::ascii::{
    BACKSLASH, CLOSE_BRACE, CLOSE_BRACKET, COLON, COMMA, OPEN_BRACE, OPEN_BRACKET, QUOTE,
};
use crate::bytes::{append_bytes, le_bytes, lemma_le_round_trip, lemma_pow256_values, write_u64};
use crate::error::Error;
use crate::header::{
    EntryView, FieldsView, as_dims, decimal_value, digits_end, dims_fit, entry_at,
    field_value_at, fields_tail, header_entries,
    header_member_at, header_tail, integer_at, integers_at, integers_tail, is_digit,
    lemma_string_tail_step, punct_end,
    stands_at, string_at, string_tail, unescaped,
};
use crate::loader::{Dtype, dtype_named, file_entries};
use crate::tensor::product;
use crate::text::{
    append_chars, chars_of, decimal_chars, decimal_number, decimal_text, is_digit_char,
    lemma_decimal_round_trip, lemma_utf8_concat, string_of,
};

verus! {

/// A tensor to be written.
pub struct OutputTensor {
    pub name: String,
    pub dtype: &'static str,
    pub shape: Vec<usize>,
    pub data: Vec<u8>,
}

/// What a tensor to be written holds.
#[verifier::ext_equal]
pub struct OutputView {
    pub name: Seq<char>,
    pub dtype: Seq<char>,
    pub shape: Seq<usize>,
    pub data: Seq<u8>,
}

impl View for OutputTensor {
    type V = OutputView;

    open spec fn view(&self) -> OutputView {
        OutputView {
            name: self.name@,
            dtype: self.dtype@,
            shape: self.shape@,
            data: self.data@,
        }
    }
}

/// What the tensors of a list hold.
pub open spec fn output_views(tensors: Seq<OutputTensor>) -> Seq<OutputView> {
    tensors.map_values(|t: OutputTensor| t@)
}

/// A control character.
pub open spec fn is_control(c: char) -> bool {
    (c as int) < 0x20 || 0x7F <= (c as int) < 0xA0
}

/// A lower-case hexadecimal digit.
pub open spec fn hex_digit(d: int) -> char {
    if d < 10 {
        ('0' as int + d) as char
    } else {
        ('a' as int + d - 10) as char
    }
}

/// How a character is written inside a JSON string.
pub open spec fn escaped_char(c: char) -> Seq<char> {
    if c == '"' {
        seq!['\\', '"']
    } else if c == '\\' {
        seq!['\\', '\\']
    } else if c == '\n' {
        seq!['\\', 'n']
    } else if c == '\r' {
        seq!['\\', 'r']
    } else if c == '\t' {
        seq!['\\', 't']
    } else if is_control(c) {
        seq!['\\', 'u', '0', '0', hex_digit(c as int / 16), hex_digit(c as int % 16)]
    } else {
        seq![c]
    }
}

/// How a text is written inside a JSON string.
pub open spec fn escaped_text(s: Seq<char>) -> Seq<char>
    decreases s.len(),
{
    if s.len() == 0 {
        Seq::empty()
    } else {
        escaped_text(s.drop_last()) + escaped_char(s.last())
    }
}

/// Numbers with commas between them.
pub open spec fn numbers_text(numbers: Seq<usize>) -> Seq<char>
    decreases numbers.len(),
{
    if numbers.len() == 0 {
        Seq::empty()
    } else if numbers.len() == 1 {
        decimal_text(numbers[0] as nat)
    } else {
        numbers_text(numbers.drop_last()).push(',') + decimal_text(numbers.last() as nat)
    }
}

/// The header member of a tensor whose data takes the bytes from `start` to
/// `end`.
pub open spec fn member_text(tensor: OutputView, start: nat, end: nat) -> Seq<char> {
    seq!['"'] + escaped_text(tensor.name) + "\":{\"dtype\":\""@ + tensor.dtype + "\",\"shape\":["@
        + numbers_text(tensor.shape) + "],\"data_offsets\":["@ + decimal_text(start) + seq![',']
        + decimal_text(end) + "]}"@
}

/// The data of all tensors, one after the other.
pub open spec fn payload_of(tensors: Seq<OutputView>) -> Seq<u8>
    decreases tensors.len(),
{
    if tensors.len() == 0 {
        Seq::empty()
    } else {
        payload_of(tensors.drop_last()) + tensors.last().data
    }
}

/// The header members of all tensors, with commas between them.
pub open spec fn members_text(tensors: Seq<OutputView>) -> Seq<char>
    decreases tensors.len(),
{
    if tensors.len() == 0 {
        Seq::empty()
    } else {
        let before = members_text(tensors.drop_last());
        let start = payload_of(tensors.drop_last()).len();
        (if tensors.len() == 1 {
            before
        } else {
            before.push(',')
        }) + member_text(tensors.last(), start, start + tensors.last().data.len())
    }
}

/// The header of a file that holds the tensors.
pub open spec fn header_text(tensors: Seq<OutputView>) -> Seq<char> {
    seq!['{'] + members_text(tensors) + seq!['}']
}

/// The safetensors file that holds the tensors.
pub open spec fn file_of(tensors: Seq<OutputView>) -> Seq<u8> {
    let header = encode_utf8(header_text(tensors));
    le_bytes(header.len(), 8) + header + payload_of(tensors)
}

/// A lower-case hexadecimal digit.
fn write_hex_digit(d: u32) -> (res: char)
    requires
        d < 16,
    ensures
        res == hex_digit(d as int),
{
    if d < 10 {
        ('0' as u8 + d as u8) as char
    } else {
        ('a' as u8 + (d as u8 - 10)) as char
    }
}

/// Appends a character as it is written inside a JSON string.
fn push_escaped(out: &mut Vec<char>, c: char)
    ensures
        final(out)@ == old(out)@ + escaped_char(c),
{
    let ghost before = out@;
    let code: u32 = c as u32;
    if c == '"' {
        out.push('\\');
        out.push('"');
    } else if c == '\\' {
        out.push('\\');
        out.push('\\');
    } else if c == '\n' {
        out.push('\\');
        out.push('n');
    } else if c == '\r' {
        out.push('\\');
        out.push('r');
    } else if c == '\t' {
        out.push('\\');
        out.push('t');
    } else if code < 0x20 || (0x7F <= code && code < 0xA0) {
        out.push('\\');
        out.push('u');
        out.push('0');
        out.push('0');
        out.push(write_hex_digit(code / 16));
        out.push(write_hex_digit(code % 16));
    } else {
        out.push(c);
    }
    assert(out@ =~= before + escaped_char(c));
}

/// Appends a text as it is written inside a JSON string.
fn push_escaped_text(out: &mut Vec<char>, s: &[char])
    ensures
        final(out)@ == old(out)@ + escaped_text(s@),
{
    let ghost before = out@;
    let n: usize = s.len();
    let mut i: usize = 0;
    assert(out@ =~= before + escaped_text(s@.take(0)));
    while i < n
        invariant
            i <= n,
            n == s@.len(),
            out@ == before + escaped_text(s@.take(i as int)),
        decreases n - i,
    {
        push_escaped(out, s[i]);
        i = i + 1;
        proof {
            assert(s@.take(i as int).drop_last() =~= s@.take(i - 1));
            assert(out@ =~= before + escaped_text(s@.take(i as int)));
        }
    }
    assert(s@.take(n as int) =~= s@);
}

/// A text as it is written inside a JSON string.
pub fn json_escape(s: &str) -> (res: String)
    ensures
        res@ == escaped_text(s@),
{
    let mut out: Vec<char> = Vec::new();
    push_escaped_text(&mut out, chars_of(s).as_slice());
    assert(out@ =~= escaped_text(s@));
    string_of(out.as_slice())
}

/// Appends numbers with commas between them.
fn push_numbers(out: &mut Vec<char>, numbers: &[usize])
    ensures
        final(out)@ == old(out)@ + numbers_text(numbers@),
{
    let ghost before = out@;
    let n: usize = numbers.len();
    let mut i: usize = 0;
    assert(out@ =~= before + numbers_text(numbers@.take(0)));
    while i < n
        invariant
            i <= n,
            n == numbers@.len(),
            out@ == before + numbers_text(numbers@.take(i as int)),
        decreases n - i,
    {
        if i > 0 {
            out.push(',');
        }
        append_chars(out, decimal_chars(numbers[i] as u64).as_slice());
        i = i + 1;
        proof {
            let shown = numbers@.take(i as int);
            assert(shown.drop_last() =~= numbers@.take(i - 1));
            assert(out@ =~= before + numbers_text(shown));
        }
    }
    assert(numbers@.take(n as int) =~= numbers@);
}

/// Appends the header member of a tensor.
fn push_member(out: &mut Vec<char>, tensor: &OutputTensor, start: usize, end: usize)
    ensures
        final(out)@ == old(out)@ + member_text(tensor@, start as nat, end as nat),
{
    let ghost before = out@;
    out.push('"');
    push_escaped_text(out, chars_of(tensor.name.as_str()).as_slice());
    append_chars(out, chars_of("\":{\"dtype\":\"").as_slice());
    append_chars(out, chars_of(tensor.dtype).as_slice());
    append_chars(out, chars_of("\",\"shape\":[").as_slice());
    push_numbers(out, tensor.shape.as_slice());
    append_chars(out, chars_of("],\"data_offsets\":[").as_slice());
    append_chars(out, decimal_chars(start as u64).as_slice());
    out.push(',');
    append_chars(out, decimal_chars(end as u64).as_slice());
    append_chars(out, chars_of("]}").as_slice());
    assert(out@ =~= before + member_text(tensor@, start as nat, end as nat));
}

/// Writes the tensors as a safetensors file.
pub fn write_safetensors(tensors: &[OutputTensor]) -> (res: Vec<u8>)
    ensures
        res@ == file_of(output_views(tensors@)),
{
    let ghost views = output_views(tensors@);
    let n: usize = tensors.len();
    let mut header: Vec<char> = Vec::new();
    header.push('{');
    let mut payload: Vec<u8> = Vec::new();
    let mut i: usize = 0;
    assert(header@ =~= seq!['{'] + members_text(views.take(0)));
    while i < n
        invariant
            i <= n,
            n == tensors@.len(),
            views == output_views(tensors@),
            header@ == seq!['{'] + members_text(views.take(i as int)),
            payload@ == payload_of(views.take(i as int)),
        decreases n - i,
    {
        if i > 0 {
            header.push(',');
        }
        let start: usize = payload.len();
        append_bytes(&mut payload, tensors[i].data.as_slice());
        let end: usize = payload.len();
        push_member(&mut header, &tensors[i], start, end);
        i = i + 1;
        proof {
            let shown = views.take(i as int);
            assert(shown.drop_last() =~= views.take(i - 1));
            assert(shown.last() == tensors@[i - 1]@);
            assert(header@ =~= seq!['{'] + members_text(shown));
        }
    }
    assert(views.take(n as int) =~= views);
    header.push('}');
    assert(header@ =~= header_text(views));
    let text = string_of(header.as_slice());
    let header_bytes = text.as_str().as_bytes();
    let mut out: Vec<u8> = Vec::new();
    write_u64(&mut out, header_bytes.len() as u64);
    append_bytes(&mut out, header_bytes);
    append_bytes(&mut out, payload.as_slice());
    assert(out@ =~= file_of(views));
    out
}

// ---------------------------------------------------------------------------
// Reading back what was written
// ---------------------------------------------------------------------------

/// A text that reads back as it was written: it has no control character but
/// line feed, carriage return and tab.
pub open spec fn is_plain_text(s: Seq<char>) -> bool {
    forall|i: int|
        0 <= i < s.len() ==> (is_control(#[trigger] s[i]) ==> s[i] == '\n' || s[i] == '\r' || s[i]
            == '\t')
}

/// A tensor that reads back as it was written: under a plain name that is not
/// the metadata key, of a known element type, and with as many bytes as its
/// shape says.
pub open spec fn is_readable(tensor: OutputView) -> bool {
    &&& is_plain_text(tensor.name)
    &&& tensor.name != "__metadata__"@
    &&& dtype_named(tensor.dtype) matches Ok(dtype) && product(tensor.shape) * dtype.width()
        == tensor.data.len()
}

/// The entry of a tensor whose data starts at `start` of a file.
pub open spec fn entry_written(tensor: OutputView, start: int) -> EntryView {
    EntryView {
        name: tensor.name,
        dtype: dtype_named(tensor.dtype)->Ok_0,
        shape: tensor.shape,
        data_start: start,
        data_end: start + tensor.data.len(),
    }
}

/// The entries of the tensors of a file whose data starts at `payload_start`.
pub open spec fn entries_written(tensors: Seq<OutputView>, payload_start: int) -> Seq<EntryView>
    decreases tensors.len(),
{
    if tensors.len() == 0 {
        Seq::empty()
    } else {
        entries_written(tensors.drop_last(), payload_start).push(
            entry_written(
                tensors.last(),
                payload_start + payload_of(tensors.drop_last()).len(),
            ),
        )
    }
}

/// The ASCII text `x` stands at position `i` of `s`.
spec fn ascii_at(s: Seq<u8>, i: int, x: Seq<char>) -> bool {
    &&& 0 <= i
    &&& i + x.len() <= s.len()
    &&& forall|k: int|
        0 <= k < x.len() ==> (#[trigger] x[k] as int) < 128 && s[i + k] as int == x[k] as int
}

proof fn lemma_ascii_split(s: Seq<u8>, i: int, a: Seq<char>, b: Seq<char>)
    requires
        ascii_at(s, i, a + b),
    ensures
        ascii_at(s, i, a),
        ascii_at(s, i + a.len(), b),
{
    let x = a + b;
    assert forall|k: int| 0 <= k < a.len() implies (#[trigger] a[k] as int) < 128 && s[i + k] as int
        == a[k] as int by {
        assert(x[k] == a[k]);
    }
    assert forall|k: int| 0 <= k < b.len() implies (#[trigger] b[k] as int) < 128 && s[i + a.len()
        + k] as int == b[k] as int by {
        assert(x[a.len() + k] == b[k]);
        assert(s[i + (a.len() + k)] as int == x[a.len() + k] as int);
    }
}

/// The text `x` stands at position `i` of `s`, encoded as UTF-8.
spec fn text_at(s: Seq<u8>, i: int, x: Seq<char>) -> bool {
    &&& 0 <= i
    &&& i + encode_utf8(x).len() <= s.len()
    &&& s.subrange(i, i + encode_utf8(x).len()) == encode_utf8(x)
}

proof fn lemma_text_split(s: Seq<u8>, i: int, a: Seq<char>, b: Seq<char>)
    requires
        text_at(s, i, a + b),
    ensures
        text_at(s, i, a),
        text_at(s, i + encode_utf8(a).len(), b),
        encode_utf8(a + b).len() == encode_utf8(a).len() + encode_utf8(b).len(),
{
    lemma_utf8_concat(a, b);
    let all = s.subrange(i, i + encode_utf8(a + b).len());
    let m = encode_utf8(a).len() as int;
    assert(s.subrange(i, i + m) =~= all.subrange(0, m));
    assert(all.subrange(0, m) =~= encode_utf8(a));
    assert(s.subrange(i + m, i + m + encode_utf8(b).len()) =~= all.subrange(m, all.len() as int));
    assert(all.subrange(m, all.len() as int) =~= encode_utf8(b));
}

/// ASCII text stands there byte by byte.
proof fn lemma_text_is_ascii(s: Seq<u8>, i: int, x: Seq<char>)
    requires
        text_at(s, i, x),
        is_ascii_chars(x),
    ensures
        ascii_at(s, i, x),
        encode_utf8(x).len() == x.len(),
{
    is_ascii_chars_encode_utf8(x);
    assert forall|k: int| 0 <= k < x.len() implies (#[trigger] x[k] as int) < 128 && s[i + k] as int
        == x[k] as int by {
        assert(x[k] as u8 == encode_utf8(x)[k]);
        assert(s.subrange(i, i + encode_utf8(x).len())[k] == s[i + k]);
    }
}

/// ASCII text that stands there byte by byte stands there as UTF-8.
proof fn lemma_ascii_is_text(s: Seq<u8>, i: int, x: Seq<char>)
    requires
        ascii_at(s, i, x),
    ensures
        text_at(s, i, x),
        encode_utf8(x).len() == x.len(),
{
    assert forall|k: int| 0 <= k < x.len() implies '\0' <= #[trigger] x[k] <= '\u{7f}' by {
        assert((x[k] as int) < 128);
    }
    is_ascii_chars_encode_utf8(x);
    assert forall|k: int| 0 <= k < x.len() implies s.subrange(i, i + x.len())[k]
        == #[trigger] encode_utf8(x)[k] by {
        assert(x[k] as u8 == encode_utf8(x)[k]);
        assert(s[i + k] as int == x[k] as int);
    }
    assert(s.subrange(i, i + x.len()) =~= encode_utf8(x));
}

/// The encoding of a single character: the character itself if it is ASCII, and
/// otherwise bytes that are not.
proof fn lemma_char_bytes(c: char)
    ensures
        (c as int) < 0x80 ==> encode_utf8(seq![c]) == seq![c as u8],
        (c as int) >= 0x80 ==> forall|k: int|
            0 <= k < encode_utf8(seq![c]).len() ==> #[trigger] encode_utf8(seq![c])[k] >= 0x80,
{
    let one = seq![c];
    if (c as int) < 0x80 {
        is_ascii_chars_encode_utf8(one);
        assert(one[0] as u8 == encode_utf8(one)[0]);
        assert(encode_utf8(one) =~= seq![c as u8]);
    } else {
        encode_utf8_first_scalar(one);
        reveal_with_fuel(encode_utf8, 2);
        assert(encode_utf8(one) =~= encode_scalar(c as u32));
    }
}

/// Reading one escaped character.
proof fn lemma_escaped_char_reads(s: Seq<u8>, i: int, c: char, acc: Seq<u8>)
    requires
        text_at(s, i, escaped_char(c)),
        is_control(c) ==> c == '\n' || c == '\r' || c == '\t',
    ensures
        string_tail(s, i, acc) == string_tail(
            s,
            i + encode_utf8(escaped_char(c)).len(),
            acc + encode_utf8(seq![c]),
        ),
{
    let x = escaped_char(c);
    lemma_char_bytes(c);
    if x.len() == 2 {
        lemma_text_is_ascii(s, i, x);
        assert(s[i + 0] as int == x[0] as int);
        assert(s[i + 1] as int == x[1] as int);
        assert(unescaped(s[i + 1]) == Some(c as u8));
        assert(acc.push(c as u8) =~= acc + encode_utf8(seq![c]));
    } else {
        let k = i + encode_utf8(x).len();
        assert(s.subrange(i, k) == encode_utf8(seq![c]));
        assert forall|j: int| i <= j < k implies #[trigger] s[j] != QUOTE && s[j] != BACKSLASH by {
            assert(s[j] == s.subrange(i, k)[j - i]);
            assert(s[j] == encode_utf8(seq![c])[j - i]);
        }
        lemma_string_tail_step(s, i, k, acc);
    }
}

/// Reading an escaped text.
proof fn lemma_escaped_text_reads(s: Seq<u8>, i: int, name: Seq<char>, acc: Seq<u8>)
    requires
        text_at(s, i, escaped_text(name)),
        is_plain_text(name),
    ensures
        string_tail(s, i, acc) == string_tail(
            s,
            i + encode_utf8(escaped_text(name)).len(),
            acc + encode_utf8(name),
        ),
    decreases name.len(),
{
    if name.len() == 0 {
        assert(acc + encode_utf8(name) =~= acc);
    } else {
        let init = name.drop_last();
        lemma_text_split(s, i, escaped_text(init), escaped_char(name.last()));
        assert(is_plain_text(init)) by {
            assert forall|k: int|
                0 <= k < init.len() && is_control(#[trigger] init[k]) implies init[k] == '\n'
                || init[k] == '\r' || init[k] == '\t' by {
                assert(init[k] == name[k]);
            }
        }
        lemma_escaped_text_reads(s, i, init, acc);
        assert(is_control(name[name.len() - 1]) ==> name.last() == '\n' || name.last() == '\r'
            || name.last() == '\t');
        lemma_escaped_char_reads(
            s,
            i + encode_utf8(escaped_text(init)).len(),
            name.last(),
            acc + encode_utf8(init),
        );
        lemma_utf8_concat(init, seq![name.last()]);
        assert(init + seq![name.last()] =~= name);
        assert(acc + encode_utf8(init) + encode_utf8(seq![name.last()]) =~= acc + encode_utf8(
            name,
        ));
    }
}

/// Reading an escaped text between quotes.
proof fn lemma_string_reads(s: Seq<u8>, i: int, name: Seq<char>)
    requires
        stands_at(s, i, QUOTE),
        text_at(s, i + 1, escaped_text(name)),
        stands_at(s, i + 1 + encode_utf8(escaped_text(name)).len(), QUOTE),
        is_plain_text(name),
    ensures
        string_at(s, i) == Ok::<(Seq<char>, int), Error>(
            (name, i + 2 + encode_utf8(escaped_text(name)).len()),
        ),
{
    lemma_escaped_text_reads(s, i + 1, name, Seq::empty());
    assert(Seq::<u8>::empty() + encode_utf8(name) =~= encode_utf8(name));
    encode_utf8_valid_utf8(name);
    encode_utf8_decode_utf8(name);
}

/// A text without quotes, backslashes and control characters is written as it
/// is.
proof fn lemma_unescaped_text(x: Seq<char>)
    requires
        forall|k: int|
            0 <= k < x.len() ==> 0x20 <= (#[trigger] x[k] as int) < 0x7F && x[k] != '"' && x[k]
                != '\\',
    ensures
        escaped_text(x) == x,
        is_plain_text(x),
    decreases x.len(),
{
    if x.len() > 0 {
        lemma_unescaped_text(x.drop_last());
        assert(x.drop_last() + seq![x.last()] =~= x);
    }
}

/// Reading an integer.
proof fn lemma_integer_reads(s: Seq<u8>, i: int, n: nat)
    requires
        ascii_at(s, i, decimal_text(n)),
        n <= u64::MAX,
        i + decimal_text(n).len() < s.len() ==> !is_digit(s[i + decimal_text(n).len()]),
    ensures
        integer_at(s, i) == Ok::<(u64, int), Error>((n as u64, i + decimal_text(n).len())),
{
    let x = decimal_text(n);
    lemma_decimal_round_trip(n);
    assert forall|k: int| i <= k < i + x.len() implies is_digit(#[trigger] s[k]) by {
        assert(is_digit_char(x[k - i]));
        assert(s[i + (k - i)] as int == x[k - i] as int);
    }
    lemma_digits_end_is(s, i, i + x.len());
    assert forall|k: int| 0 <= k < x.len() implies s.subrange(i, i + x.len())[k] as int
        == #[trigger] x[k] as int by {}
    lemma_decimal_value(s.subrange(i, i + x.len()), x);
}

/// Where a run of digits ends.
proof fn lemma_digits_end_is(s: Seq<u8>, i: int, j: int)
    requires
        0 <= i <= j <= s.len(),
        forall|k: int| i <= k < j ==> is_digit(#[trigger] s[k]),
        j < s.len() ==> !is_digit(s[j]),
    ensures
        digits_end(s, i) == j,
    decreases j - i,
{
    if i < j {
        lemma_digits_end_is(s, i + 1, j);
    }
}

/// Digits denote the same number as bytes and as characters.
proof fn lemma_decimal_value(bytes: Seq<u8>, x: Seq<char>)
    requires
        bytes.len() == x.len(),
        forall|k: int| 0 <= k < x.len() ==> bytes[k] as int == #[trigger] x[k] as int,
        forall|k: int| 0 <= k < x.len() ==> is_digit_char(#[trigger] x[k]),
    ensures
        decimal_value(bytes) == decimal_number(x),
    decreases x.len(),
{
    if x.len() > 0 {
        let init = x.drop_last();
        assert forall|k: int| 0 <= k < init.len() implies bytes.drop_last()[k] as int
            == #[trigger] init[k] as int && is_digit_char(init[k]) by {
            assert(init[k] == x[k]);
        }
        lemma_decimal_value(bytes.drop_last(), init);
        assert(is_digit_char(x.last()));
        assert(bytes.last() as int == x[x.len() - 1] as int);
    }
}

/// Sizes as they are read.
pub open spec fn as_integers(numbers: Seq<usize>) -> Seq<u64> {
    numbers.map_values(|n: usize| n as u64)
}

/// Reading numbers of an array that goes on behind them.
proof fn lemma_numbers_read_on(s: Seq<u8>, i: int, numbers: Seq<usize>, acc: Seq<u64>)
    requires
        numbers.len() > 0,
        ascii_at(s, i, numbers_text(numbers)),
        stands_at(s, i + numbers_text(numbers).len(), COMMA),
    ensures
        integers_tail(s, i, acc) == integers_tail(
            s,
            i + numbers_text(numbers).len() + 1,
            acc + as_integers(numbers),
        ),
    decreases numbers.len(),
{
    let last = numbers.last();
    let (at, before) = lemma_last_number_at(s, i, numbers, acc);
    lemma_integer_reads(s, at, last as nat);
    assert(integers_tail(s, at, before) == integers_tail(
        s,
        i + numbers_text(numbers).len() + 1,
        before.push(last as u64),
    ));
    assert(before.push(last as u64) =~= acc + as_integers(numbers));
}

/// Reading the numbers of an array up to the last.
proof fn lemma_last_number_at(
    s: Seq<u8>,
    i: int,
    numbers: Seq<usize>,
    acc: Seq<u64>,
) -> (res: (int, Seq<u64>))
    requires
        numbers.len() > 0,
        ascii_at(s, i, numbers_text(numbers)),
    ensures
        res.0 + decimal_text(numbers.last() as nat).len() == i + numbers_text(numbers).len(),
        res.1 == acc + as_integers(numbers.drop_last()),
        ascii_at(s, res.0, decimal_text(numbers.last() as nat)),
        integers_tail(s, i, acc) == integers_tail(s, res.0, res.1),
    decreases numbers.len(), 0nat,
{
    let init = numbers.drop_last();
    if numbers.len() == 1 {
        assert(acc + as_integers(init) =~= acc);
        (i, acc)
    } else {
        let text = numbers_text(init);
        let tail = decimal_text(numbers.last() as nat);
        lemma_ascii_split(s, i, text.push(','), tail);
        assert(text.push(',') =~= text + seq![',']);
        lemma_ascii_split(s, i, text, seq![',']);
        assert(s[i + text.len() + 0] as int == seq![','][0] as int);
        lemma_numbers_read_on(s, i, init, acc);
        (i + text.len() + 1, acc + as_integers(init))
    }
}

/// Reading an array.
proof fn lemma_array_reads(s: Seq<u8>, i: int, numbers: Seq<usize>)
    requires
        stands_at(s, i, OPEN_BRACKET),
        ascii_at(s, i + 1, numbers_text(numbers)),
        stands_at(s, i + 1 + numbers_text(numbers).len(), CLOSE_BRACKET),
    ensures
        integers_at(s, i) == Ok::<(Seq<u64>, int), Error>(
            (as_integers(numbers), i + 2 + numbers_text(numbers).len()),
        ),
{
    if numbers.len() == 0 {
        assert(as_integers(numbers) =~= Seq::<u64>::empty());
    } else {
        let (at, before) = lemma_last_number_at(s, i + 1, numbers, Seq::empty());
        lemma_integer_reads(s, at, numbers.last() as nat);
        lemma_decimal_round_trip(numbers[0] as nat);
        lemma_first_digit(s, i + 1, numbers);
        assert(before.push(numbers.last() as u64) =~= as_integers(numbers));
    }
}

/// Numbers start with a digit.
proof fn lemma_first_digit(s: Seq<u8>, i: int, numbers: Seq<usize>)
    requires
        numbers.len() > 0,
        ascii_at(s, i, numbers_text(numbers)),
    ensures
        0 <= i < s.len(),
        is_digit(s[i]),
    decreases numbers.len(),
{
    if numbers.len() == 1 {
        lemma_decimal_round_trip(numbers[0] as nat);
        assert(is_digit_char(decimal_text(numbers[0] as nat)[0]));
        assert(s[i + 0] as int == numbers_text(numbers)[0] as int);
    } else {
        let text = numbers_text(numbers.drop_last());
        lemma_ascii_split(s, i, text.push(','), decimal_text(numbers.last() as nat));
        assert(text.push(',') =~= text + seq![',']);
        lemma_ascii_split(s, i, text, seq![',']);
        lemma_first_digit(s, i, numbers.drop_last());
    }
}

/// Reading a field of a tensor object, and where to go on.
proof fn lemma_field_reads(
    s: Seq<u8>,
    i: int,
    key: Seq<char>,
    a: int,
    fields: FieldsView,
    updated: FieldsView,
    c: int,
)
    requires
        0 <= i,
        string_at(s, i) == Ok::<(Seq<char>, int), Error>((key, a)),
        stands_at(s, a, COLON),
        field_value_at(s, a + 1, key, fields) == Ok::<(FieldsView, int), Error>((updated, c)),
    ensures
        stands_at(s, c, COMMA) ==> fields_tail(s, i, fields) == fields_tail(s, c + 1, updated),
        stands_at(s, c, CLOSE_BRACE) ==> fields_tail(s, i, fields) == Ok::<
            (FieldsView, int),
            Error,
        >((updated, c + 1)),
{
}

/// Reading a key of a tensor object.
proof fn lemma_key_reads(s: Seq<u8>, i: int, key: Seq<char>)
    requires
        ascii_at(s, i, seq!['"'] + key + seq!['"', ':']),
        forall|k: int|
            0 <= k < key.len() ==> 0x20 <= (#[trigger] key[k] as int) < 0x7F && key[k] != '"'
                && key[k] != '\\',
    ensures
        string_at(s, i) == Ok::<(Seq<char>, int), Error>((key, i + 2 + key.len())),
        stands_at(s, i + 2 + key.len(), COLON),
{
    lemma_unescaped_text(key);
    lemma_ascii_split(s, i, seq!['"'] + key, seq!['"', ':']);
    lemma_ascii_split(s, i, seq!['"'], key);
    assert(s[i + 0] as int == seq!['"'][0] as int);
    let q = i + 1 + key.len();
    assert(s[q + 0] as int == seq!['"', ':'][0] as int);
    assert(s[q + 1] as int == seq!['"', ':'][1] as int);
    lemma_ascii_is_text(s, i + 1, key);
    lemma_string_reads(s, i, key);
}

/// The names of element types are written as they are.
proof fn lemma_dtype_names_plain(name: Seq<char>)
    requires
        dtype_named(name) is Ok,
    ensures
        forall|k: int|
            0 <= k < name.len() ==> 0x20 <= (#[trigger] name[k] as int) < 0x7F && name[k] != '"'
                && name[k] != '\\',
{
    reveal_strlit("F32");
    reveal_strlit("F16");
    reveal_strlit("BF16");
    reveal_strlit("I8");
    reveal_strlit("U8");
    reveal_strlit("I32");
    reveal_strlit("I64");
    reveal_strlit("BOOL");
}

/// The element type in a tensor object.
spec fn dtype_field(name: Seq<char>) -> Seq<char> {
    seq!['"'] + "dtype"@ + seq!['"', ':'] + (seq!['"'] + name + seq!['"', ','])
}

/// The shape in a tensor object.
spec fn shape_field(shape: Seq<usize>) -> Seq<char> {
    seq!['"'] + "shape"@ + seq!['"', ':'] + (seq!['['] + numbers_text(shape) + seq![']', ','])
}

/// The offsets in a tensor object, and what closes it.
spec fn offsets_field(start: usize, end: usize) -> Seq<char> {
    seq!['"'] + "data_offsets"@ + seq!['"', ':'] + (seq!['['] + numbers_text(seq![start, end])
        + seq![']', '}'])
}

/// A tensor object without its opening brace.
spec fn fields_text(tensor: OutputView, start: nat, end: nat) -> Seq<char> {
    dtype_field(tensor.dtype) + shape_field(tensor.shape) + offsets_field(
        start as usize,
        end as usize,
    )
}

/// Reading the element type.
proof fn lemma_dtype_reads(s: Seq<u8>, i: int, name: Seq<char>, fields: FieldsView)
    requires
        dtype_named(name) is Ok,
        ascii_at(s, i, dtype_field(name)),
    ensures
        fields_tail(s, i, fields) == fields_tail(
            s,
            i + dtype_field(name).len(),
            FieldsView { dtype: Some(dtype_named(name)->Ok_0), ..fields },
        ),
{
    reveal_strlit("dtype");
    lemma_dtype_names_plain(name);
    lemma_unescaped_text(name);
    let key = seq!['"'] + "dtype"@ + seq!['"', ':'];
    lemma_ascii_split(s, i, key, seq!['"'] + name + seq!['"', ',']);
    lemma_key_reads(s, i, "dtype"@);
    let p = i + key.len();
    lemma_ascii_split(s, p, seq!['"'] + name, seq!['"', ',']);
    lemma_ascii_split(s, p, seq!['"'], name);
    assert(s[p + 0] as int == seq!['"'][0] as int);
    let q = p + 1 + name.len();
    assert(s[q + 0] as int == seq!['"', ','][0] as int);
    assert(s[q + 1] as int == seq!['"', ','][1] as int);
    lemma_ascii_is_text(s, p + 1, name);
    lemma_string_reads(s, p, name);
    let updated = FieldsView { dtype: Some(dtype_named(name)->Ok_0), ..fields };
    lemma_field_reads(s, i, "dtype"@, p - 1, fields, updated, q + 1);
}

/// Reading the shape.
proof fn lemma_shape_reads(s: Seq<u8>, i: int, shape: Seq<usize>, fields: FieldsView)
    requires
        ascii_at(s, i, shape_field(shape)),
    ensures
        fields_tail(s, i, fields) == fields_tail(
            s,
            i + shape_field(shape).len(),
            FieldsView { shape: Some(as_integers(shape)), ..fields },
        ),
{
    reveal_strlit("dtype");
    reveal_strlit("shape");
    assert("shape"@[0] != "dtype"@[0]);
    let key = seq!['"'] + "shape"@ + seq!['"', ':'];
    lemma_ascii_split(s, i, key, seq!['['] + numbers_text(shape) + seq![']', ',']);
    lemma_key_reads(s, i, "shape"@);
    let p = i + key.len();
    lemma_bracketed(s, p, numbers_text(shape), ',');
    lemma_array_reads(s, p, shape);
    let updated = FieldsView { shape: Some(as_integers(shape)), ..fields };
    let c = p + 2 + numbers_text(shape).len();
    lemma_field_reads(s, i, "shape"@, p - 1, fields, updated, c);
}

/// Reading the offsets.
proof fn lemma_offsets_read(s: Seq<u8>, i: int, start: usize, end: usize, fields: FieldsView)
    requires
        ascii_at(s, i, offsets_field(start, end)),
    ensures
        fields_tail(s, i, fields) == Ok::<(FieldsView, int), Error>(
            (
                FieldsView { offsets: Some((start as u64, end as u64)), ..fields },
                i + offsets_field(start, end).len(),
            ),
        ),
{
    reveal_strlit("dtype");
    reveal_strlit("shape");
    reveal_strlit("data_offsets");
    let offsets = seq![start, end];
    let key = seq!['"'] + "data_offsets"@ + seq!['"', ':'];
    lemma_ascii_split(s, i, key, seq!['['] + numbers_text(offsets) + seq![']', '}']);
    lemma_key_reads(s, i, "data_offsets"@);
    let p = i + key.len();
    lemma_bracketed(s, p, numbers_text(offsets), '}');
    lemma_array_reads(s, p, offsets);
    let updated = FieldsView { offsets: Some((start as u64, end as u64)), ..fields };
    let c = p + 2 + numbers_text(offsets).len();
    lemma_field_reads(s, i, "data_offsets"@, p - 1, fields, updated, c);
}

/// Reading the fields that a member consists of.
proof fn lemma_fields_read(s: Seq<u8>, i: int, tensor: OutputView, start: nat, end: nat)
    requires
        dtype_named(tensor.dtype) is Ok,
        start <= usize::MAX,
        end <= usize::MAX,
        ascii_at(s, i, fields_text(tensor, start, end)),
    ensures
        fields_tail(s, i, FieldsView { dtype: None, shape: None, offsets: None }) == Ok::<
            (FieldsView, int),
            Error,
        >(
            (
                FieldsView {
                    dtype: Some(dtype_named(tensor.dtype)->Ok_0),
                    shape: Some(as_integers(tensor.shape)),
                    offsets: Some((start as u64, end as u64)),
                },
                i + fields_text(tensor, start, end).len(),
            ),
        ),
{
    let none = FieldsView { dtype: None, shape: None, offsets: None };
    let with_dtype = FieldsView { dtype: Some(dtype_named(tensor.dtype)->Ok_0), ..none };
    let with_shape = FieldsView { shape: Some(as_integers(tensor.shape)), ..with_dtype };
    let t1 = dtype_field(tensor.dtype);
    let t2 = shape_field(tensor.shape);
    let t3 = offsets_field(start as usize, end as usize);
    lemma_ascii_split(s, i, t1 + t2, t3);
    lemma_ascii_split(s, i, t1, t2);
    lemma_dtype_reads(s, i, tensor.dtype, none);
    lemma_shape_reads(s, i + t1.len(), tensor.shape, with_dtype);
    lemma_offsets_read(s, i + t1.len() + t2.len(), start as usize, end as usize, with_shape);
}

/// The punctuation around an array.
proof fn lemma_bracketed(s: Seq<u8>, i: int, text: Seq<char>, next: char)
    requires
        ascii_at(s, i, seq!['['] + text + seq![']', next]),
    ensures
        stands_at(s, i, OPEN_BRACKET),
        ascii_at(s, i + 1, text),
        stands_at(s, i + 1 + text.len(), CLOSE_BRACKET),
        i + 2 + text.len() < s.len(),
        s[i + 2 + text.len()] as int == next as int,
{
    lemma_ascii_split(s, i, seq!['['] + text, seq![']', next]);
    lemma_ascii_split(s, i, seq!['['], text);
    assert(s[i + 0] as int == seq!['['][0] as int);
    let q = i + 1 + text.len();
    assert(s[q + 0] as int == seq![']', next][0] as int);
    assert(s[q + 1] as int == seq![']', next][1] as int);
}

/// Three bracketed values behind their keys, with the brackets taken to the keys
/// or to the values.
proof fn lemma_regrouped(
    head: Seq<char>,
    k1: Seq<char>,
    o1: Seq<char>,
    v1: Seq<char>,
    c1: Seq<char>,
    k2: Seq<char>,
    o2: Seq<char>,
    v2: Seq<char>,
    c2: Seq<char>,
    tail: Seq<char>,
)
    ensures
        head + (k1 + o1) + v1 + (c1 + k2 + o2) + v2 + (c2 + tail) == head + ((k1 + (o1 + v1 + c1))
            + (k2 + (o2 + v2 + c2)) + tail),
{
    assert(head + (k1 + o1) + v1 + (c1 + k2 + o2) + v2 + (c2 + tail) =~= head + ((k1 + (o1 + v1
        + c1)) + (k2 + (o2 + v2 + c2)) + tail));
}

/// A member consists of its name and its fields.
proof fn lemma_member_text(tensor: OutputView, start: nat, end: nat)
    requires
        start <= usize::MAX,
        end <= usize::MAX,
    ensures
        member_text(tensor, start, end) == seq!['"'] + escaped_text(tensor.name) + seq![
            '"',
            ':',
            '{',
        ] + fields_text(tensor, start, end),
{
    let offsets = seq![start as usize, end as usize];
    assert(numbers_text(offsets) =~= decimal_text(start) + seq![','] + decimal_text(end)) by {
        reveal_with_fuel(numbers_text, 2);
        assert(offsets.drop_last() =~= seq![start as usize]);
    }
    let name = seq!['"'] + escaped_text(tensor.name);
    let head = name + seq!['"', ':', '{'];
    let k1 = seq!['"'] + "dtype"@ + seq!['"', ':'];
    let k2 = seq!['"'] + "shape"@ + seq!['"', ':'];
    let k3 = seq!['"'] + "data_offsets"@ + seq!['"', ':'];
    let shape = numbers_text(tensor.shape);
    let numbers = decimal_text(start) + seq![','] + decimal_text(end);
    let tail = k3 + (seq!['['] + numbers + seq![']', '}']);
    assert("\":{\"dtype\":\""@ =~= seq!['"', ':', '{'] + (k1 + seq!['"'])) by {
        reveal_strlit("dtype");
        reveal_strlit("\":{\"dtype\":\"");
    }
    assert("\",\"shape\":["@ =~= seq!['"', ','] + k2 + seq!['[']) by {
        reveal_strlit("shape");
        reveal_strlit("\",\"shape\":[");
    }
    assert("],\"data_offsets\":["@ =~= seq![']', ','] + (k3 + seq!['['])) by {
        reveal_strlit("data_offsets");
        reveal_strlit("],\"data_offsets\":[");
    }
    assert("]}"@ =~= seq![']', '}']) by {
        reveal_strlit("]}");
    }
    let front = head + (k1 + seq!['"']) + tensor.dtype + (seq!['"', ','] + k2 + seq!['[']) + shape;
    assert(name + (seq!['"', ':', '{'] + (k1 + seq!['"'])) =~= head + (k1 + seq!['"']));
    assert(front + (seq![']', ','] + (k3 + seq!['['])) + decimal_text(start) + seq![',']
        + decimal_text(end) + seq![']', '}'] =~= front + (seq![']', ','] + tail));
    lemma_regrouped(
        head,
        k1,
        seq!['"'],
        tensor.dtype,
        seq!['"', ','],
        k2,
        seq!['['],
        shape,
        seq![']', ','],
        tail,
    );
}

/// How many bytes a text takes.
spec fn bytes_in(x: Seq<char>) -> int {
    encode_utf8(x).len() as int
}

/// Sizes that are written and read are the same sizes.
proof fn lemma_dims_round_trip(shape: Seq<usize>)
    ensures
        dims_fit(as_integers(shape)),
        as_dims(as_integers(shape)) == shape,
{
    assert(as_dims(as_integers(shape)) =~= shape);
}

/// Reading a tensor object.
proof fn lemma_entry_reads(
    s: Seq<u8>,
    i: int,
    tensor: OutputView,
    start: nat,
    payload_start: int,
    payload_len: int,
)
    requires
        is_readable(tensor),
        start + tensor.data.len() <= usize::MAX,
        start + tensor.data.len() <= payload_len,
        stands_at(s, i, OPEN_BRACE),
        ascii_at(s, i + 1, fields_text(tensor, start, start + tensor.data.len())),
    ensures
        entry_at(s, i, tensor.name, payload_start, payload_len) == Ok::<(EntryView, int), Error>(
            (
                entry_written(tensor, payload_start + start),
                i + 1 + fields_text(tensor, start, start + tensor.data.len()).len(),
            ),
        ),
{
    let end = start + tensor.data.len();
    let fields = fields_text(tensor, start, end);
    lemma_fields_read(s, i + 1, tensor, start, end);
    lemma_dims_round_trip(tensor.shape);
    assert(fields[0] == '"');
    assert(s[i + 1 + 0] as int == fields[0] as int);
    assert(punct_end(s, i, OPEN_BRACE) == Ok::<int, Error>(i + 1));
}

/// Reading a member of the header.
proof fn lemma_member_reads(
    s: Seq<u8>,
    i: int,
    tensor: OutputView,
    start: nat,
    payload_start: int,
    payload_len: int,
    acc: Seq<EntryView>,
)
    requires
        is_readable(tensor),
        start + tensor.data.len() <= usize::MAX,
        start + tensor.data.len() <= payload_len,
        text_at(s, i, member_text(tensor, start, start + tensor.data.len())),
    ensures
        stands_at(s, i, QUOTE),
        header_member_at(s, i, payload_start, payload_len, acc) == Ok::<
            (Seq<EntryView>, int),
            Error,
        >(
            (
                acc.push(entry_written(tensor, payload_start + start)),
                i + bytes_in(member_text(tensor, start, start + tensor.data.len())),
            ),
        ),
{
    let end = start + tensor.data.len();
    let name_text = escaped_text(tensor.name);
    let fields = fields_text(tensor, start, end);
    let tail = seq!['"', ':', '{'] + fields;
    lemma_member_text(tensor, start, end);
    assert(member_text(tensor, start, end) =~= seq!['"'] + name_text + tail);
    lemma_text_split(s, i, seq!['"'] + name_text, tail);
    lemma_text_split(s, i, seq!['"'], name_text);
    lemma_text_is_ascii(s, i, seq!['"']);
    assert(s[i + 0] as int == seq!['"'][0] as int);
    let q = i + 1 + bytes_in(name_text);
    lemma_fields_ascii(tensor, start, end);
    lemma_text_is_ascii(s, q, tail);
    lemma_ascii_split(s, q, seq!['"', ':', '{'], fields);
    assert(s[q + 0] as int == seq!['"', ':', '{'][0] as int);
    assert(s[q + 1] as int == seq!['"', ':', '{'][1] as int);
    assert(s[q + 2] as int == seq!['"', ':', '{'][2] as int);
    lemma_string_reads(s, i, tensor.name);
    lemma_entry_reads(s, q + 2, tensor, start, payload_start, payload_len);
    assert(punct_end(s, q + 1, COLON) == Ok::<int, Error>(q + 2));
}

/// Reading members of a header that goes on behind them.
proof fn lemma_members_read_on(
    s: Seq<u8>,
    i: int,
    tensors: Seq<OutputView>,
    payload_start: int,
    payload_len: int,
)
    requires
        0 <= i,
        tensors.len() > 0,
        forall|k: int| 0 <= k < tensors.len() ==> is_readable(#[trigger] tensors[k]),
        payload_of(tensors).len() <= usize::MAX,
        payload_of(tensors).len() <= payload_len,
        text_at(s, i, members_text(tensors)),
    ensures
        stands_at(s, i, QUOTE),
        stands_at(s, i + bytes_in(members_text(tensors)), COMMA) ==> header_tail(
            s,
            i,
            payload_start,
            payload_len,
            Seq::empty(),
        ) == header_tail(
            s,
            i + bytes_in(members_text(tensors)) + 1,
            payload_start,
            payload_len,
            entries_written(tensors, payload_start),
        ),
        stands_at(s, i + bytes_in(members_text(tensors)), CLOSE_BRACE) ==> header_tail(
            s,
            i,
            payload_start,
            payload_len,
            Seq::empty(),
        ) == Ok::<Seq<EntryView>, Error>(entries_written(tensors, payload_start)),
    decreases tensors.len(),
{
    let init = tensors.drop_last();
    let start = payload_of(init).len();
    let last = tensors.last();
    let member = member_text(last, start, start + last.data.len());
    let text = members_text(init);
    let before = entries_written(init, payload_start);
    assert(is_readable(tensors[tensors.len() - 1]));
    if tensors.len() == 1 {
        assert(text + member =~= member);
        lemma_member_reads(s, i, last, start, payload_start, payload_len, before);
        assert(before =~= Seq::<EntryView>::empty());
    } else {
        lemma_text_split(s, i, text.push(','), member);
        assert(text.push(',') =~= text + seq![',']);
        lemma_text_split(s, i, text, seq![',']);
        let comma = i + bytes_in(text);
        lemma_text_is_ascii(s, comma, seq![',']);
        assert(s[comma + 0] as int == seq![','][0] as int);
        assert forall|k: int| 0 <= k < init.len() implies is_readable(#[trigger] init[k]) by {
            assert(init[k] == tensors[k]);
        }
        lemma_members_read_on(s, i, init, payload_start, payload_len);
        lemma_member_reads(s, comma + 1, last, start, payload_start, payload_len, before);
    }
}

proof fn lemma_numbers_ascii(numbers: Seq<usize>)
    ensures
        is_ascii_chars(numbers_text(numbers)),
    decreases numbers.len(),
{
    if numbers.len() > 0 {
        lemma_decimal_ascii(numbers.last() as nat);
        if numbers.len() > 1 {
            let text = numbers_text(numbers.drop_last());
            lemma_numbers_ascii(numbers.drop_last());
            is_ascii_chars_concat(
                numbers_text(numbers),
                text.push(','),
                decimal_text(numbers.last() as nat),
            );
        }
    }
}

proof fn lemma_decimal_ascii(n: nat)
    ensures
        is_ascii_chars(decimal_text(n)),
{
    lemma_decimal_round_trip(n);
    assert forall|i: int| 0 <= i < decimal_text(n).len() implies '\0' <= #[trigger] decimal_text(
        n,
    )[i] <= '\u{7f}' by {
        assert(is_digit_char(decimal_text(n)[i]));
    }
}

/// What follows the name of a tensor is ASCII.
proof fn lemma_fields_ascii(tensor: OutputView, start: nat, end: nat)
    requires
        dtype_named(tensor.dtype) is Ok,
    ensures
        is_ascii_chars(seq!['"', ':', '{'] + fields_text(tensor, start, end)),
{
    reveal_strlit("dtype");
    reveal_strlit("shape");
    reveal_strlit("data_offsets");
    lemma_dtype_names_plain(tensor.dtype);
    lemma_numbers_ascii(tensor.shape);
    let offsets = seq![start as usize, end as usize];
    lemma_numbers_ascii(offsets);
    lemma_field_ascii("dtype"@, seq!['"'], tensor.dtype, seq!['"', ',']);
    lemma_field_ascii("shape"@, seq!['['], numbers_text(tensor.shape), seq![']', ',']);
    lemma_field_ascii("data_offsets"@, seq!['['], numbers_text(offsets), seq![']', '}']);
    let d = dtype_field(tensor.dtype);
    let h = shape_field(tensor.shape);
    let o = offsets_field(start as usize, end as usize);
    is_ascii_chars_concat(d + h, d, h);
    is_ascii_chars_concat(d + h + o, d + h, o);
    let fields = fields_text(tensor, start, end);
    is_ascii_chars_concat(seq!['"', ':', '{'] + fields, seq!['"', ':', '{'], fields);
}

proof fn lemma_field_ascii(key: Seq<char>, open: Seq<char>, value: Seq<char>, close: Seq<char>)
    requires
        is_ascii_chars(key),
        is_ascii_chars(open),
        is_ascii_chars(value),
        is_ascii_chars(close),
    ensures
        is_ascii_chars(seq!['"'] + key + seq!['"', ':'] + (open + value + close)),
{
    let a = seq!['"'] + key;
    let b = a + seq!['"', ':'];
    let c = open + value;
    let d = c + close;
    is_ascii_chars_concat(a, seq!['"'], key);
    is_ascii_chars_concat(b, a, seq!['"', ':']);
    is_ascii_chars_concat(c, open, value);
    is_ascii_chars_concat(d, c, close);
    is_ascii_chars_concat(b + d, b, d);
}

/// The data of a tensor lies where its entry says.
proof fn lemma_payload_of(tensors: Seq<OutputView>, payload_start: int, k: int)
    requires
        0 <= k < tensors.len(),
    ensures
        entries_written(tensors, payload_start).len() == tensors.len(),
        ({
            let entry = entries_written(tensors, payload_start)[k];
            let start = entry.data_start - payload_start;
            &&& entry == entry_written(tensors[k], entry.data_start)
            &&& 0 <= start
            &&& start + tensors[k].data.len() <= payload_of(tensors).len()
            &&& payload_of(tensors).subrange(start, start + tensors[k].data.len())
                == tensors[k].data
        }),
    decreases tensors.len(),
{
    let init = tensors.drop_last();
    lemma_entries_len(init, payload_start);
    let entry = entries_written(tensors, payload_start)[k];
    let start = entry.data_start - payload_start;
    if k < init.len() {
        lemma_payload_of(init, payload_start, k);
        assert(payload_of(tensors).subrange(start, start + tensors[k].data.len())
            =~= payload_of(init).subrange(start, start + tensors[k].data.len()));
    } else {
        assert(payload_of(tensors).subrange(start, start + tensors[k].data.len())
            =~= tensors[k].data);
    }
}

proof fn lemma_entries_len(tensors: Seq<OutputView>, payload_start: int)
    ensures
        entries_written(tensors, payload_start).len() == tensors.len(),
    decreases tensors.len(),
{
    if tensors.len() > 0 {
        lemma_entries_len(tensors.drop_last(), payload_start);
    }
}

/// Position in the written file at which the data starts.
pub open spec fn payload_start_of(tensors: Seq<OutputView>) -> int {
    8 + encode_utf8(header_text(tensors)).len() as int
}

/// A written header reads back as the entries of the tensors.
proof fn lemma_header_reads(tensors: Seq<OutputView>, payload_start: int, payload_len: int)
    requires
        forall|k: int| 0 <= k < tensors.len() ==> is_readable(#[trigger] tensors[k]),
        payload_of(tensors).len() <= usize::MAX,
        payload_of(tensors).len() <= payload_len,
    ensures
        header_entries(encode_utf8(header_text(tensors)), payload_start, payload_len) == Ok::<
            Seq<EntryView>,
            Error,
        >(entries_written(tensors, payload_start)),
{
    let text = header_text(tensors);
    let header = encode_utf8(text);
    let members = members_text(tensors);
    assert(header.subrange(0, header.len() as int) =~= header);
    assert(text_at(header, 0, text));
    lemma_text_split(header, 0, seq!['{'] + members, seq!['}']);
    lemma_text_split(header, 0, seq!['{'], members);
    lemma_text_is_ascii(header, 0, seq!['{']);
    let close = 1 + bytes_in(members);
    lemma_text_is_ascii(header, close, seq!['}']);
    assert(header[0int + 0] as int == seq!['{'][0] as int);
    assert(header[close + 0] as int == seq!['}'][0] as int);
    assert(punct_end(header, 0, OPEN_BRACE) == Ok::<int, Error>(1));
    if tensors.len() > 0 {
        lemma_members_read_on(header, 1, tensors, payload_start, payload_len);
    }
}

/// A written file reads back as the tensors that were written: it parses to
/// their entries, in order, and the bytes of each entry are the data of its
/// tensor.
pub proof fn lemma_written_file_reads_back(tensors: Seq<OutputView>)
    requires
        forall|k: int| 0 <= k < tensors.len() ==> is_readable(#[trigger] tensors[k]),
        file_of(tensors).len() <= usize::MAX,
    ensures
        file_entries(file_of(tensors)) == Ok::<Seq<EntryView>, Error>(
            entries_written(tensors, payload_start_of(tensors)),
        ),
        entries_written(tensors, payload_start_of(tensors)).len() == tensors.len(),
        forall|k: int|
            0 <= k < tensors.len() ==> {
                let entry = #[trigger] entries_written(tensors, payload_start_of(tensors))[k];
                &&& entry.name == tensors[k].name
                &&& dtype_named(tensors[k].dtype) == Ok::<Dtype, Error>(entry.dtype)
                &&& entry.shape == tensors[k].shape
                &&& file_of(tensors).subrange(entry.data_start, entry.data_end)
                    == tensors[k].data
            },
{
    let text = header_text(tensors);
    let header = encode_utf8(text);
    let payload = payload_of(tensors);
    let bytes = file_of(tensors);
    let start = payload_start_of(tensors);
    lemma_pow256_values();
    lemma_le_round_trip(header.len(), 8);
    assert(bytes.subrange(0, 8) =~= le_bytes(header.len(), 8));
    assert(bytes.subrange(8, start) =~= header);
    encode_utf8_valid_utf8(text);
    lemma_header_reads(tensors, start, payload.len() as int);
    assert forall|k: int| 0 <= k < tensors.len() implies {
        let entry = #[trigger] entries_written(tensors, start)[k];
        &&& entry.name == tensors[k].name
        &&& dtype_named(tensors[k].dtype) == Ok::<Dtype, Error>(entry.dtype)
        &&& entry.shape == tensors[k].shape
        &&& bytes.subrange(entry.data_start, entry.data_end) == tensors[k].data
    } by {
        lemma_payload_of(tensors, start, k);
        assert(is_readable(tensors[k]));
        let entry = entries_written(tensors, start)[k];
        assert(bytes.subrange(entry.data_start, entry.data_end) =~= payload.subrange(
            entry.data_start - start,
            entry.data_end - start,
        ));
    }
    lemma_entries_len(tensors, start);
}

} // verus!
