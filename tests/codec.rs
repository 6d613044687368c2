use hanzi_store::codec::{decode_segments, encode_segments};
use hanzi_store::{AppError, TextSegment, Word};

fn word(characters: &str, pinyin: &str) -> TextSegment {
    TextSegment::Word {
        word: Word {
            characters: characters.to_string(),
            pinyin: pinyin.to_string(),
        },
    }
}

fn plain(text: &str) -> TextSegment {
    TextSegment::Plain {
        text: text.to_string(),
    }
}

fn same(a: &[TextSegment], b: &[TextSegment]) -> bool {
    a.len() == b.len()
        && a.iter().zip(b.iter()).all(|(x, y)| match (x, y) {
            (TextSegment::Word { word: u }, TextSegment::Word { word: w }) => {
                u.characters == w.characters && u.pinyin == w.pinyin
            }
            (TextSegment::Plain { text: s }, TextSegment::Plain { text: t }) => s == t,
            _ => false,
        })
}

#[test]
fn empty_list_encodes_as_empty_array() {
    assert_eq!(encode_segments(&vec![]).unwrap(), "[]");
    assert!(decode_segments("[]").unwrap().is_empty());
}

#[test]
fn encoding_is_tagged_json() {
    let s = encode_segments(&vec![word("你好", "nǐhǎo"), plain("，")]).unwrap();
    assert_eq!(
        s,
        "[{\"type\":\"word\",\"word\":{\"characters\":\"你好\",\"pinyin\":\"nǐhǎo\"}},{\"type\":\"plain\",\"text\":\"，\"}]"
    );
    let v: serde_json::Value = serde_json::from_str(&s).unwrap();
    assert_eq!(v[0]["type"], "word");
    assert_eq!(v[0]["word"]["characters"], "你好");
    assert_eq!(v[1]["type"], "plain");
    assert_eq!(v[1]["text"], "，");
}

#[test]
fn special_characters_are_escaped() {
    let s = encode_segments(&vec![plain("a\"b\\c\nd\u{1}")]).unwrap();
    assert_eq!(s, "[{\"type\":\"plain\",\"text\":\"a\\\"b\\\\c\\nd\\u0001\"}]");
}

#[test]
fn round_trip_keeps_every_segment() {
    let cases = vec![
        vec![],
        vec![plain("")],
        vec![word("", "")],
        vec![word("你好", "nǐhǎo"), plain("，"), word("世界", "shìjiè")],
        vec![plain("\"}],{\\"), word("\t\r\u{8}\u{c}\u{1f}", "\\u0041")],
    ];
    for segments in cases {
        let s = encode_segments(&segments).unwrap();
        let back = decode_segments(&s).unwrap();
        assert!(same(&segments, &back), "round trip of {:?}", segments);
    }
}

#[test]
fn unknown_tag_is_rejected() {
    assert_eq!(
        decode_segments("[{\"type\":\"video\",\"text\":\"x\"}]").unwrap_err(),
        AppError::DecodingFailure
    );
}

#[test]
fn missing_field_is_rejected() {
    assert_eq!(
        decode_segments("[{\"type\":\"word\",\"word\":{\"characters\":\"你\"}}]").unwrap_err(),
        AppError::DecodingFailure
    );
}

#[test]
fn malformed_text_is_rejected() {
    for s in ["", "[", "]", "[,]", "{}", "[{\"type\":\"plain\",\"text\":\"a}]"] {
        assert_eq!(decode_segments(s).unwrap_err(), AppError::DecodingFailure, "{}", s);
    }
}

#[test]
fn trailing_comma_is_rejected() {
    assert_eq!(
        decode_segments("[{\"type\":\"plain\",\"text\":\"a\"},]").unwrap_err(),
        AppError::DecodingFailure
    );
}

#[test]
fn other_json_layouts_are_read() {
    for s in [
        "[ {\"type\":\"plain\",\"text\":\"a\"}]",
        "[{\"text\":\"a\",\"type\":\"plain\"}]",
        "[{\"type\":\"plain\",\"text\":\"\\u0061\"}]",
        "\n[\n  {\"type\": \"plain\", \"text\": \"a\", \"note\": 1}\n]\n",
    ] {
        let back = decode_segments(s).unwrap();
        assert!(same(&back, &[plain("a")]), "{}", s);
    }
    let back = decode_segments(
        "[{\"word\":{\"pinyin\":\"n\\u01d0\",\"characters\":\"\\u4f60\"},\"type\":\"word\"}]",
    )
    .unwrap();
    assert!(same(&back, &[word("你", "nǐ")]));
    let back = decode_segments("[{\"type\":\"plain\",\"text\":\"a\\/b\"}]").unwrap();
    assert!(same(&back, &[plain("a/b")]));
}

#[test]
fn non_segment_json_is_rejected() {
    for s in [
        "{\"type\":\"plain\",\"text\":\"a\"}",
        "[{\"type\":\"plain\"}]",
        "[{\"type\":\"plain\",\"text\":1}]",
        "[{\"type\":\"word\",\"word\":\"x\"}]",
        "[1]",
        "null",
    ] {
        assert_eq!(decode_segments(s).unwrap_err(), AppError::DecodingFailure, "{}", s);
    }
}
