use std::path::Path;

use raven_gaming::collections::{NameSet, TextMap};
use raven_gaming::json::{read_json, Json};
use raven_gaming::number::{decimal_of, padded_decimal, padded_hex, read_u32, read_u64, reads_as_real};
use raven_gaming::order::no_later;
use raven_gaming::path::{
    extended, extension_of, is_same_path, joined_path, leads_through, name_of_path, no_later_path,
    parent_of, parts_of, stem_of,
};
use raven_gaming::text::{chars_of, joined, lines_of, pieces, string_of, trimmed, words_of};

#[test]
fn texts_are_taken_apart_as_std_does() {
    for text in ["", " a b ", "a\r\nb\n\nc", "\u{3000}x\u{a0}", "one\ntwo\r", "\n", "a::b:"] {
        let chars = chars_of(text);
        let lines: Vec<String> = lines_of(&chars).into_iter().map(string_of).collect();
        assert_eq!(lines, text.lines().collect::<Vec<_>>(), "{text:?}");
        let words: Vec<String> = words_of(&chars).into_iter().map(string_of).collect();
        assert_eq!(words, text.split_whitespace().collect::<Vec<_>>(), "{text:?}");
        let parts: Vec<String> = pieces(&chars, ':').into_iter().map(string_of).collect();
        assert_eq!(parts, text.split(':').collect::<Vec<_>>(), "{text:?}");
        assert_eq!(string_of(trimmed(&chars)), text.trim(), "{text:?}");
    }
    assert_eq!(joined(&vec!["a".into(), "b".into()], ", "), "a, b");
}

#[test]
fn numbers_are_read_and_written_as_std_does() {
    for text in ["0", "42", "+7", "", "-1", " 1", "4294967296", "18446744073709551616", "1_0"] {
        let chars = chars_of(text);
        assert_eq!(read_u64(&chars), text.parse::<u64>().ok(), "{text:?}");
        assert_eq!(read_u32(&chars), text.parse::<u32>().ok(), "{text:?}");
    }
    for text in ["41.1", "1e5", ".5", "5.", "-3", "+.1e-2", "inf", "NaN", "1e", "", ".", "0x1", "1.2.3"] {
        assert_eq!(reads_as_real(&chars_of(text)), text.parse::<f64>().is_ok(), "{text:?}");
    }
    assert_eq!(decimal_of(u64::MAX), u64::MAX.to_string());
    assert_eq!(padded_decimal(5, 2), "05");
    assert_eq!(padded_hex(0xabc, 4), "0abc");
}

#[test]
fn paths_are_read_as_std_does() {
    for path in ["/a/b.c", "/a/b", "a", "/", "", "/a/..", "/a/.hidden", "/a//b/./c.tar.gz", "/a/b/"] {
        let p = Path::new(path);
        assert_eq!(
            name_of_path(path).as_deref(),
            p.file_name().and_then(|n| n.to_str()),
            "{path:?}"
        );
        assert_eq!(
            parent_of(path).map(|d| Path::new(&d).to_path_buf()).as_deref(),
            p.parent(),
            "{path:?}"
        );
        for other in ["/a", "/a/b", "/", "a"] {
            assert_eq!(leads_through(path, other), p.starts_with(other), "{path:?} {other:?}");
            assert_eq!(is_same_path(path, other), p == Path::new(other), "{path:?} {other:?}");
            assert_eq!(no_later_path(path, other), p <= Path::new(other), "{path:?} {other:?}");
        }
    }
    for name in ["b.c", "b", ".hidden", "c.tar.gz", "x."] {
        let p = Path::new(name);
        assert_eq!(Some(stem_of(name).as_str()), p.file_stem().and_then(|s| s.to_str()), "{name}");
        assert_eq!(
            extension_of(name).as_deref(),
            p.extension().and_then(|s| s.to_str()),
            "{name}"
        );
    }
    for path in ["/v/run.rvr", "/v/run", "/v/a.b.rvr", "run.rvr"] {
        assert_eq!(
            extended(path, "mp4"),
            Path::new(path).with_extension("mp4").to_str().unwrap(),
            "{path}"
        );
    }
    assert_eq!(joined_path("/a", "b"), "/a/b");
    assert_eq!(joined_path("/a/", "b"), "/a/b");
    assert_eq!(joined_path("/a", "/b"), "/b");
    assert_eq!(parts_of("/a//b/./c"), ["a", "b", "c"]);
}

#[test]
fn texts_are_ordered_as_std_does() {
    for a in ["", "a", "ab", "b", "é", "z", "Z"] {
        for b in ["", "a", "ab", "b", "é", "z", "Z"] {
            assert_eq!(no_later(a, b), a <= b, "{a} {b}");
        }
    }
}

#[test]
fn collections_hold_what_was_put_in() {
    let mut set = NameSet::new();
    assert!(set.is_empty());
    set.insert("a".into());
    set.insert("a".into());
    set.insert("b".into());
    assert_eq!(set.len(), 2);
    assert!(set.clone().contains("b") && !set.contains("c"));
    let mut map = TextMap::new();
    map.insert("k".into(), "1".into());
    map.insert("k".into(), "2".into());
    assert_eq!(map.get("k").map(String::as_str), Some("2"));
    let mut other = TextMap::new();
    other.insert("k".into(), "3".into());
    other.insert("l".into(), "4".into());
    map.extend(&other);
    assert_eq!((map.len(), map.get("k").map(String::as_str)), (2, Some("3")));
    assert!(map.contains_key("l") && !map.is_empty());
}

#[test]
fn json_is_read_by_its_kinds() {
    let value = read_json(
        r#"{"n":7,"neg":-1,"real":1.5,"t":"text","b":true,"z":null,"l":[1,"x"],"o":{"k":"v"}}"#,
    )
    .unwrap();
    assert_eq!(value.get("n").and_then(|v| v.number()), Some(7));
    // Only a whole number of 64 bits without a sign is one here.
    assert_eq!(value.get("neg").and_then(|v| v.number()), None);
    assert_eq!(value.get("real").and_then(|v| v.number()), None);
    assert_eq!(value.text_at("t").map(String::as_str), Some("text"));
    assert!(matches!(value.get("b"), Some(Json::Bool(true))));
    assert!(matches!(value.get("z"), Some(Json::Null)));
    assert_eq!(value.get("l").and_then(|v| v.list()).map(|l| l.len()), Some(2));
    assert_eq!(value.get("o").and_then(|o| o.text_at("k")).map(String::as_str), Some("v"));
    assert!(value.get("missing").is_none());
    assert!(read_json("{").is_none());
    assert!(read_json("").is_none());
    // Of a key given twice the last value counts.
    let twice = read_json(r#"{"a":1,"a":2}"#).unwrap();
    assert_eq!(twice.get("a").and_then(|v| v.number()), Some(2));
}
