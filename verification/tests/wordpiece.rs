use wasmicro::error::Error;
use wasmicro::tokenizer::basic::{
    basic_tokens, group_glyphs, is_punctuation, is_punctuation_given, push_glyphs, Glyph,
};
use wasmicro::tokenizer::{WordPieceOptions, WordPieceTokenizer};

fn test_tokenizer() -> WordPieceTokenizer {
    WordPieceTokenizer::from_vocab_bytes(
        b"[PAD]\n[UNK]\n[CLS]\n[SEP]\n[MASK]\nhello\nworld\n##s\n,\nun\n##aff\n##able\n",
    )
    .unwrap()
}

#[test]
fn parses_vocab_and_special_ids() {
    let tokenizer = test_tokenizer();
    assert_eq!(tokenizer.len(), 12);
    assert_eq!(tokenizer.pad_id(), 0);
    assert_eq!(tokenizer.unk_id(), 1);
    assert_eq!(tokenizer.cls_id(), 2);
    assert_eq!(tokenizer.sep_id(), 3);
    assert_eq!(tokenizer.mask_id(), 4);
    assert_eq!(tokenizer.token_id("hello"), Some(5));
}

#[test]
fn encodes_with_basic_split_and_wordpieces() {
    let tokenizer = test_tokenizer();
    let encoded = tokenizer.encode("Hello, worlds", 8).unwrap();
    assert_eq!(encoded.input_ids, vec![2, 5, 8, 6, 7, 3]);
    assert_eq!(encoded.token_type_ids, vec![0; 6]);
    assert_eq!(encoded.attention_mask, vec![1; 6]);
}

#[test]
fn encodes_unknown_token() {
    let tokenizer = test_tokenizer();
    let encoded = tokenizer.encode("missing", 8).unwrap();
    assert_eq!(encoded.input_ids, vec![2, 1, 3]);
}

#[test]
fn pads_to_requested_length() {
    let tokenizer = test_tokenizer();
    let encoded = tokenizer.encode_padded("hello", 6).unwrap();
    assert_eq!(encoded.input_ids, vec![2, 5, 3, 0, 0, 0]);
    assert_eq!(encoded.attention_mask, vec![1, 1, 1, 0, 0, 0]);
}

#[test]
fn truncates_before_sep() {
    let tokenizer = test_tokenizer();
    let encoded = tokenizer.encode("hello hello hello", 4).unwrap();
    assert_eq!(encoded.input_ids, vec![2, 5, 5, 3]);
}

#[test]
fn basic_tokens_unicode_lowercases_cyrillic() {
    // Russian word "Привет" must lowercase to "привет".
    let tokens = basic_tokens("Привет", true);
    assert_eq!(tokens, vec!["привет"]);
}

#[test]
fn basic_tokens_unicode_lowercases_spanish_n_tilde() {
    // Spanish "ESPAÑOL" -> "español".
    let tokens = basic_tokens("ESPAÑOL", true);
    assert_eq!(tokens, vec!["español"]);
}

#[test]
fn basic_tokens_splits_cjk_chars() {
    // Each CJK char becomes its own token.
    let tokens = basic_tokens("你好世界", true);
    assert_eq!(tokens, vec!["你", "好", "世", "界"]);
}

#[test]
fn basic_tokens_splits_mixed_cjk_and_latin() {
    let tokens = basic_tokens("hello 你好 world", true);
    assert_eq!(tokens, vec!["hello", "你", "好", "world"]);
}

#[test]
fn basic_tokens_treats_unicode_whitespace_as_break() {
    // U+00A0 NO-BREAK SPACE and U+3000 IDEOGRAPHIC SPACE.
    let tokens = basic_tokens("hello\u{00A0}world\u{3000}foo", true);
    assert_eq!(tokens, vec!["hello", "world", "foo"]);
}

#[test]
fn basic_tokens_splits_non_ascii_punctuation() {
    // Chinese full-width comma is treated as its own token.
    let tokens = basic_tokens("hello，world", true);
    assert_eq!(tokens, vec!["hello", "\u{ff0c}", "world"]);
}

#[test]
fn basic_tokens_keeps_spanish_inverted_marks_separate() {
    // Inverted question/exclamation marks are punctuation.
    let tokens = basic_tokens("¿hola?", true);
    assert_eq!(tokens, vec!["¿", "hola", "?"]);
}

#[test]
fn control_characters_separate_words() {
    assert_eq!(basic_tokens("a\u{0}b\u{7f}c\td", false), vec!["a", "b", "c", "d"]);
    assert_eq!(basic_tokens("", true), Vec::<String>::new());
    assert_eq!(basic_tokens("Don't", false), vec!["Don", "'", "t"]);
}

#[test]
fn lowercase_may_yield_several_characters() {
    // U+0130 lowercases to `i` and U+0307, which is a mark of its own.
    assert_eq!(basic_tokens("\u{130}x", true), vec!["i", "\u{307}", "x"]);
    assert_eq!(basic_tokens("\u{130}x", false), vec!["\u{130}x"]);
}

#[test]
fn punctuation_depends_on_the_unicode_classes_beyond_ascii_only() {
    assert!(is_punctuation('!'));
    assert!(!is_punctuation('a'));
    assert!(!is_punctuation(' '));
    assert!(is_punctuation('€'));
    assert!(!is_punctuation('ß'));
    assert!(is_punctuation_given('~', true, true));
    assert!(!is_punctuation_given('a', false, false));
    assert!(is_punctuation_given('\u{2014}', false, false));
    assert!(!is_punctuation_given('\u{2014}', true, false));
    assert!(!is_punctuation_given('\u{2014}', false, true));
    assert!(!is_punctuation_given('\u{85}', false, false));
    assert!(!is_punctuation_given('世', false, false));
}

#[test]
fn glyphs_group_into_tokens() {
    let mut glyphs = Vec::new();
    push_glyphs('世', false, &[('世', false)], &mut glyphs);
    push_glyphs('x', false, &[('x', false), ('!', true)], &mut glyphs);
    push_glyphs('y', false, &[('y', false)], &mut glyphs);
    push_glyphs(' ', true, &[], &mut glyphs);
    push_glyphs('z', false, &[('z', false)], &mut glyphs);
    assert_eq!(
        glyphs,
        vec![
            Glyph::Alone('世'),
            Glyph::Letter('x'),
            Glyph::Alone('!'),
            Glyph::Letter('y'),
            Glyph::Break,
            Glyph::Letter('z'),
        ]
    );
    assert_eq!(group_glyphs(&glyphs), vec!["世", "x", "!", "y", "z"]);
}

#[test]
fn vocabulary_errors() {
    let cases: [(&[u8], &str); 9] = [
        (b"\xff", "vocab is not valid UTF-8"),
        (b"", "vocab is empty"),
        (b"[PAD]\n\n[UNK]", "vocab contains an empty token"),
        (b"[PAD]\n[UNK]\n[CLS]\n[SEP]\n[MASK]\na\nb\na\n", "vocab contains duplicate tokens"),
        (b"[UNK]\n[CLS]\n[SEP]\n[MASK]", "vocab is missing [PAD]"),
        (b"[PAD]\n[CLS]\n[SEP]\n[MASK]", "vocab is missing [UNK]"),
        (b"[PAD]\n[UNK]\n[SEP]\n[MASK]", "vocab is missing [CLS]"),
        (b"[PAD]\n[UNK]\n[CLS]\n[MASK]", "vocab is missing [SEP]"),
        (b"[PAD]\n[UNK]\n[CLS]\n[SEP]", "vocab is missing [MASK]"),
    ];
    for (bytes, reason) in cases {
        assert_eq!(
            WordPieceTokenizer::from_vocab_bytes(bytes).err(),
            Some(Error::InvalidTokenizer(reason))
        );
    }
}

#[test]
fn windows_line_ends_and_options() {
    let options = WordPieceOptions { lowercase: false, max_input_chars_per_word: 3 };
    let tokenizer = WordPieceTokenizer::from_vocab_bytes_with_options(
        b"[PAD]\r\n[UNK]\r\n[CLS]\r\n[SEP]\r\n[MASK]\r\nabc\r\nabcd\r",
        options,
    )
    .unwrap();
    assert_eq!(tokenizer.len(), 7);
    assert!(!tokenizer.is_empty());
    assert_eq!(tokenizer.token_id("abcd"), Some(6));
    // Words of more than three characters become `[UNK]`.
    assert_eq!(tokenizer.encode("abc abcd ABC", 10).unwrap().input_ids, vec![2, 5, 1, 1, 3]);
    let copy = tokenizer.clone();
    assert_eq!(copy.encode("abc", 10), tokenizer.encode("abc", 10));
    assert!(WordPieceOptions::default().lowercase);
    assert_eq!(WordPieceOptions::default().max_input_chars_per_word, 100);
}

#[test]
fn longest_piece_wins_and_pieces_are_truncated() {
    let tokenizer = test_tokenizer();
    assert_eq!(tokenizer.encode("unaffable", 10).unwrap().input_ids, vec![2, 9, 10, 11, 3]);
    assert_eq!(tokenizer.encode("unaffable", 4).unwrap().input_ids, vec![2, 9, 10, 3]);
    assert_eq!(tokenizer.encode("unaffable", 2).unwrap().input_ids, vec![2, 3]);
    assert_eq!(
        tokenizer.encode("hello", 1).err(),
        Some(Error::InvalidTokenizer("max_len must be at least 2"))
    );
    assert_eq!(
        tokenizer.encode_padded("hello", 1).err(),
        Some(Error::InvalidTokenizer("max_len must be at least 2"))
    );
}

#[test]
fn words_can_be_encoded_directly() {
    let tokenizer = test_tokenizer();
    let words = vec!["hello".to_string(), "worlds".to_string()];
    let encoded = tokenizer.encode_words(&words, 8).unwrap();
    assert_eq!(encoded.input_ids, vec![2, 5, 6, 7, 3]);
    let padded = tokenizer.padded(encoded, 7);
    assert_eq!(padded.input_ids, vec![2, 5, 6, 7, 3, 0, 0]);
    assert_eq!(padded.token_type_ids, vec![0; 7]);
    assert_eq!(padded.attention_mask, vec![1, 1, 1, 1, 1, 0, 0]);
}

#[test]
fn separators_split_ids() {
    let tokenizer = test_tokenizer();
    let inner = |text: &str| {
        let ids = tokenizer.encode(text, 64).unwrap().input_ids;
        ids[1..ids.len() - 1].to_vec()
    };
    for separator in [" ", "\t", "\n\r", "\u{a0}", "\u{2003}\u{3000}", "\u{1}", "\u{85} \u{7f}"] {
        for (a, b) in [("hello", "worlds"), ("unaffable", ""), ("", "world,"), ("he", "llo")] {
            let both = [inner(a), inner(b)].concat();
            assert_eq!(inner(&format!("{a}{separator}{b}")), both);
        }
    }
    assert_ne!(inner("hello"), [inner("he"), inner("llo")].concat());
    assert_eq!(basic_tokens("ab\u{4e16}c", false), vec!["ab", "\u{4e16}", "c"]);
}

#[test]
fn white_space_is_the_unicode_property() {
    let listed: Vec<char> = "\t\n\u{b}\u{c}\r \u{85}\u{a0}\u{1680}\u{2000}\u{2001}\u{2002}\u{2003}\u{2004}\u{2005}\u{2006}\u{2007}\u{2008}\u{2009}\u{200a}\u{2028}\u{2029}\u{202f}\u{205f}\u{3000}"
        .chars()
        .collect();
    for code in 0u32..=0x10ffff {
        if let Some(c) = char::from_u32(code) {
            assert_eq!(c.is_whitespace(), listed.contains(&c), "U+{code:04X}");
        }
    }
}

#[test]
fn separators_split_what_is_encoded() {
    let tokenizer = test_tokenizer();
    let between = |text: &str| {
        let ids = tokenizer.encode(text, usize::MAX).unwrap().input_ids;
        ids[1..ids.len() - 1].to_vec()
    };
    let (a, b) = ("Hello, worlds", "unaffable hello");
    for s in [" ", "\t\u{1}", "\n \r\n", "\u{a0}"] {
        let mut both = between(a);
        both.extend(between(b));
        assert_eq!(between(&format!("{a}{s}{b}")), both);
        assert!(between(s).is_empty());
    }
}
