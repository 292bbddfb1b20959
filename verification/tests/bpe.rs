use wasmicro::error::Error;
use wasmicro::tokenizer::bpe::{pre_tokenize, BpeTokenizer};
use wasmicro::tokenizer::bytelevel::{make_byte_decoder, make_byte_encoder};
use wasmicro::tokenizer::vocabfile::{
    collect_rules, parse_json_string, parse_merges_txt, parse_vocab_json, parse_vocab_text,
    read_hex,
};

fn tiny_vocab_and_merges() -> (Vec<u8>, Vec<u8>) {
    // Minimal vocab.json covering letters h, e, l, o, space (Ġ = byte 32 → U+0120)
    let vocab = r#"{"h": 0, "e": 1, "l": 2, "o": 3, "Ġ": 4, "he": 5, "hel": 6, "hell": 7, "hello": 8, "Ġworld": 9, "w": 10, "r": 11, "d": 12, "wo": 13, "wor": 14, "worl": 15, "world": 16, "<|endoftext|>": 50256}"#;
    let merges = b"#version: 0\nh e\nhe l\nhel l\nhell o\n\xc4\xa0 w\nwo r\nwor l\nworl d\n";
    // Note: Ġ = U+0120 = 0xC4 0xA0 in UTF-8
    (vocab.as_bytes().to_vec(), merges.to_vec())
}

fn chars(text: &str) -> Vec<char> {
    text.chars().collect()
}

#[test]
fn byte_encoder_roundtrip() {
    let enc = make_byte_encoder();
    let dec = make_byte_decoder(&enc);
    for b in 0u8..=255 {
        let c = enc[b as usize];
        assert_eq!(dec[&(c as u32)], b, "byte {b} roundtrip failed");
    }
}

#[test]
fn pre_tokenize_attaches_space_to_next_word() {
    let words = pre_tokenize("hello world");
    assert_eq!(words, vec!["hello", " world"]);
}

#[test]
fn pre_tokenize_single_word() {
    let words = pre_tokenize("hello");
    assert_eq!(words, vec!["hello"]);
}

#[test]
fn encode_hello_merges_to_single_token() {
    let (vocab, merges) = tiny_vocab_and_merges();
    let tok = BpeTokenizer::from_bytes(&vocab, &merges).unwrap();
    // h+e→he, he+l→hel, hel+l→hell, hell+o→hello → id 8, then EOS 50256 is appended
    let enc = tok.encode("hello", 128).unwrap();
    assert_eq!(enc.input_ids[0], 8);
    assert_eq!(*enc.input_ids.last().unwrap(), 50256); // <|endoftext|>
}

#[test]
fn parse_merges_counts_ranks() {
    let txt = b"#version: gpt2\na b\nc d\ne f\n";
    let m = parse_merges_txt(txt).unwrap();
    // The rank of a rule is its position.
    let rank = |left: &str, right: &str| {
        m.lines
            .iter()
            .zip(&m.seps)
            .position(|(line, &sep)| &line[..sep] == left && &line[sep + 1..] == right)
    };
    assert_eq!(rank("a", "b"), Some(0));
    assert_eq!(rank("c", "d"), Some(1));
    assert_eq!(rank("e", "f"), Some(2));
}

#[test]
fn byte_alphabet_samples() {
    let enc = make_byte_encoder();
    assert_eq!(enc[b'A' as usize], 'A');
    assert_eq!(enc[0], '\u{100}');
    assert_eq!(enc[32], '\u{120}');
    assert_eq!(enc[127], '\u{121}');
    assert_eq!(enc[160], '\u{142}');
    assert_eq!(enc[173], '\u{143}');
    assert_eq!(enc[255], 'ÿ');
}

#[test]
fn pre_tokenize_edge_cases() {
    assert_eq!(pre_tokenize(""), Vec::<String>::new());
    assert_eq!(pre_tokenize("  \t"), Vec::<String>::new());
    assert_eq!(pre_tokenize(" a\n\tb "), vec![" a", " b"]);
}

#[test]
fn vocab_json_escapes() {
    let file = parse_vocab_json("  {\"a\\n\\\"\\u0041\\/\\q\": 1 ,\n\"\\ud800\":2}x".as_bytes()).unwrap();
    assert_eq!(file.tokens, vec!["a\n\"A/q", "\u{fffd}"]);
    assert_eq!(file.ids, vec![1, 2]);
    // A missing brace ends the object as well.
    assert_eq!(parse_vocab_text(&chars("{\"a\":\t7")).ok().unwrap().ids, vec![7]);
    assert_eq!(parse_json_string(&chars("ab\\t\"rest"), 0), Ok((chars("ab\t"), 5)));
    assert_eq!(read_hex(&chars("+aF")), Some(0xaf));
    assert_eq!(read_hex(&chars("+")), None);
    assert_eq!(read_hex(&chars("12g")), None);
}

#[test]
fn vocab_json_errors() {
    let cases: [(&[u8], &str); 10] = [
        (b"\xff", "vocab.json is not valid UTF-8"),
        (b" [", "vocab.json: expected '{'"),
        (b"{1", "vocab.json: expected string key"),
        (b"{\"a", "vocab.json: unterminated string"),
        (b"{\"a\\", "vocab.json: bad escape"),
        (b"{\"\\u12", "vocab.json: short \\u escape"),
        (b"{\"\\u12g4\":1}", "vocab.json: bad \\u hex"),
        (b"{\"a\" 1}", "vocab.json: expected ':'"),
        (b"{\"a\":x}", "vocab.json: expected integer value"),
        (b"{\"a\":4294967296}", "vocab.json: token id overflow"),
    ];
    for (bytes, reason) in cases {
        assert_eq!(parse_vocab_json(bytes).err(), Some(Error::InvalidTokenizer(reason)));
        assert_eq!(
            BpeTokenizer::from_bytes(bytes, b"").err(),
            Some(Error::InvalidTokenizer(reason))
        );
    }
}

#[test]
fn merges_txt_errors_and_trimming() {
    assert_eq!(
        parse_merges_txt(b"a b\nab\n").err(),
        Some(Error::InvalidTokenizer("merges.txt: line missing space"))
    );
    assert_eq!(
        parse_merges_txt(b"\xff").err(),
        Some(Error::InvalidTokenizer("merges.txt is not valid UTF-8"))
    );
    assert_eq!(
        BpeTokenizer::from_bytes(b"{}", b"ab").err(),
        Some(Error::InvalidTokenizer("merges.txt: line missing space"))
    );
    let file = parse_merges_txt("\u{a0}a b c \r\n\n# comment\nd e".as_bytes()).unwrap();
    assert_eq!(file.lines, vec!["a b c", "d e"]);
    assert_eq!(file.seps, vec![1, 1]);
    let file = collect_rules(&[chars("#x"), chars("x y")]).ok().unwrap();
    assert_eq!(file.lines, vec!["x y"]);
}

#[test]
fn lower_rank_merges_first_and_last_rule_counts() {
    let vocab = br#"{"a":1,"b":2,"c":3,"ab":4,"bc":5,"aa":6}"#;
    let tok = BpeTokenizer::from_bytes(vocab, b"b c\na b\na a").unwrap();
    assert_eq!(tok.encode("abc", 9).unwrap().input_ids, vec![1, 5]);
    assert_eq!(tok.encode("aaa", 9).unwrap().input_ids, vec![6, 1]);
    // A repeated rule takes the rank of its last occurrence.
    let tok = BpeTokenizer::from_bytes(vocab, b"b c\na b\nb c").unwrap();
    assert_eq!(tok.encode("abc", 9).unwrap().input_ids, vec![4, 3]);
}

#[test]
fn unknown_tokens_fall_back_to_their_characters() {
    let (vocab, merges) = tiny_vocab_and_merges();
    let tok = BpeTokenizer::from_bytes(&vocab, &merges).unwrap();
    // The merged token Ġw is not listed, so Ġ and w are encoded one by one.
    assert_eq!(
        tok.encode("hello world", 128).unwrap().input_ids,
        vec![8, 4, 10, 3, 11, 2, 12, 50256]
    );
    assert_eq!(tok.encode("hello world", 3).unwrap().input_ids, vec![8, 4, 50256]);
    let tok = BpeTokenizer::from_bytes(br#"{"a":3,"b":4}"#, b"a b\nab z").unwrap();
    assert_eq!(tok.encode("ab", 9).unwrap().input_ids, vec![3, 4]);
    assert_eq!(tok.encode("abz", 9).unwrap().input_ids, vec![3, 4, 0]);
    assert_eq!(tok.encode("z", 9).unwrap().input_ids, vec![0]);
    assert_eq!(tok.eos_token_id, None);
    assert_eq!(tok.encode("aaaa", 2).unwrap().input_ids, vec![3, 3]);
}

#[test]
fn encoding_truncates_and_pads() {
    let (vocab, merges) = tiny_vocab_and_merges();
    let tok = BpeTokenizer::from_bytes(&vocab, &merges).unwrap();
    assert_eq!(tok.encode("hello hello hello", 2).unwrap().input_ids, vec![8, 50256]);
    assert_eq!(tok.encode("hello", 1).unwrap().input_ids, vec![50256]);
    assert_eq!(
        tok.encode("hello", 0).err(),
        Some(Error::InvalidTokenizer("max_len must be > 0"))
    );
    let padded = tok.encode_padded("hello", 4).unwrap();
    assert_eq!(padded.input_ids, vec![8, 50256, 0, 0]);
    assert_eq!(padded.attention_mask, vec![1, 1, 0, 0]);
    assert_eq!(
        tok.encode_padded("hello", 0).err(),
        Some(Error::InvalidTokenizer("max_len must be > 0"))
    );
    assert_eq!(tok.bos_token_id, Some(50256));
    assert_eq!(tok.pad_token_id, None);
    let tok = BpeTokenizer::from_bytes(br#"{"<|padding|>":7,"a":1}"#, b"").unwrap();
    assert_eq!(tok.encode_padded("a", 3).unwrap().input_ids, vec![1, 7, 7]);
}

#[test]
fn decoding_gives_back_what_was_encoded() {
    let (vocab, merges) = tiny_vocab_and_merges();
    let tok = BpeTokenizer::from_bytes(&vocab, &merges).unwrap();
    let encoded = tok.encode("hello hello", 128).unwrap();
    assert_eq!(tok.decode(&encoded.input_ids), "hello hello");
    // A merged token that is not listed makes no difference.
    for text in ["hello world", " world hello", ""] {
        assert_eq!(tok.decode(&tok.encode(text, 128).unwrap().input_ids), text);
    }
    // White space between words becomes one space, and none stays at the end.
    let spaced = tok.encode("hello \t\nworld \n", 128).unwrap();
    assert_eq!(tok.decode(&spaced.input_ids), "hello world");
    let copy = tok.clone();
    assert_eq!(copy.decode(&encoded.input_ids), "hello hello");
    assert_eq!(tok.vocab_size(), 18);
    assert_eq!(tok.token_id("hello"), Some(8));
    assert_eq!(tok.token_id("hellos"), None);
    // Ids without a token, and special tokens, stand for nothing.
    assert_eq!(tok.decode(&[8, 49, 50256, 4000000000]), "hello");
}

#[test]
fn invalid_bytes_are_replaced() {
    // U+00FF stands for byte 255, which is never valid UTF-8.
    let tok = BpeTokenizer::from_bytes("{\"ÿ\":0,\"é世\":1}".as_bytes(), b"").unwrap();
    assert_eq!(tok.decode(&[0]), "\u{fffd}");
    assert_eq!(tok.decode_bytes(&[0, 1]), vec![255, 233]);
}

#[test]
fn repeated_keys_take_the_last_id() {
    let tok = BpeTokenizer::from_bytes(br#"{"a":1,"b":2,"a":2}"#, b"").unwrap();
    assert_eq!(tok.vocab_size(), 2);
    assert_eq!(tok.token_id("a"), Some(2));
    assert_eq!(tok.decode(&[1]), "");
    assert_eq!(tok.decode(&[2]), "a");
}

#[test]
fn single_byte_tokens_spell_any_text() {
    let alphabet = make_byte_encoder();
    let members: Vec<String> = (0usize..256)
        .map(|b| match alphabet[b] {
            '"' => format!("\"\\\"\":{b}"),
            '\\' => format!("\"\\\\\":{b}"),
            c => format!("\"{c}\":{b}"),
        })
        .collect();
    let vocab = format!("{{{}}}", members.join(","));
    let tok = BpeTokenizer::from_bytes(vocab.as_bytes(), b"a b\nb c").unwrap();
    assert_eq!(tok.vocab_size(), 256);
    for text in ["caf\u{e9} \u{4e16}\u{754c} \u{1f600}", "abc \"\\", "\u{1}\u{7f}"] {
        let ids = tok.encode(text, 128).unwrap().input_ids;
        assert_eq!(ids.len(), text.len());
        assert_eq!(tok.decode(&ids), text);
    }
}

#[test]
fn vocab_json_white_space_around_colons() {
    let file = parse_vocab_json(b"{\"a\":\n1,\"b\"\r\n\t : \r2}").unwrap();
    assert_eq!(file.tokens, vec!["a", "b"]);
    assert_eq!(file.ids, vec![1, 2]);
}

#[test]
fn vocab_json_control_escapes() {
    assert_eq!(parse_json_string(&chars("\\b\""), 0), Ok((chars("\u{8}"), 3)));
    assert_eq!(parse_json_string(&chars("\\f\""), 0), Ok((chars("\u{c}"), 3)));
    let file = parse_vocab_json(br#"{"x\b\fy":5}"#).unwrap();
    assert_eq!(file.tokens, vec!["x\u{8}\u{c}y"]);
}

#[test]
fn vocab_json_surrogate_pairs() {
    let file = parse_vocab_json(br#"{"a\ud83d\ude00b":1,"\uDBFF\uDFFF":2,"\ud800\udc00":3}"#).unwrap();
    assert_eq!(file.tokens, vec!["a\u{1f600}b", "\u{10ffff}", "\u{10000}"]);
    // A surrogate without its other half is replaced.
    let file = parse_vocab_json(br#"{"\ud83d":1,"\ude00":2,"\ud83dx":3,"\ud83d\u0041":4,"\ud83d\ud83d\ude00":5}"#).unwrap();
    assert_eq!(
        file.tokens,
        vec!["\u{fffd}", "\u{fffd}", "\u{fffd}x", "\u{fffd}A", "\u{fffd}\u{1f600}"]
    );
    assert_eq!(
        parse_vocab_json(br#"{"\ud83d\u12g4":1}"#).err(),
        Some(Error::InvalidTokenizer("vocab.json: bad \\u hex"))
    );
}

#[test]
fn decoding_gives_back_texts_of_a_byte_vocabulary() {
    let mut items: Vec<String> = Vec::new();
    for (b, c) in make_byte_encoder().iter().enumerate() {
        let escaped = match c {
            '"' | '\\' => format!("\\{c}"),
            _ => c.to_string(),
        };
        items.push(format!("\"{escaped}\": {b}"));
    }
    items.push("\"he\": 256".to_string());
    items.push("\"<|endoftext|>\": 257".to_string());
    let vocab = format!("{{{}}}", items.join(", "));
    // The product of the second rule is not listed: its characters are encoded.
    let tok = BpeTokenizer::from_bytes(vocab.as_bytes(), b"h e\nl l\n").unwrap();
    for text in ["", "hello", "<b> \"w\u{f6}rld\" \\ \u{1f600}", "he <|endoftext|> ll"] {
        let enc = tok.encode(text, 128).unwrap();
        assert_eq!(enc.input_ids.last(), Some(&257));
        assert_eq!(tok.decode(&enc.input_ids), text);
    }
    assert_eq!(tok.encode("hell", 9).unwrap().input_ids, vec![256, 108, 108, 257]);
}
