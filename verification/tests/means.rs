use p2p_dir_sync::hex::encode;
use p2p_dir_sync::path_text::{components, join_path, last_name, parent, strip_path};
use p2p_dir_sync::table::Table;
use p2p_dir_sync::text::{decimal, padded, signed_decimal, split};
use std::path::Path;

#[test]
fn hex_is_two_lower_case_digits_for_each_byte() {
    assert_eq!(encode(&[0x00, 0x0f, 0xa5, 0xff]), "000fa5ff");
    assert_eq!(encode(&[]), "");
}

#[test]
fn numerals() {
    assert_eq!(decimal(0), "0");
    assert_eq!(decimal(u64::MAX), u64::MAX.to_string());
    assert_eq!(padded(42, 5), "00042");
    assert_eq!(signed_decimal(i64::MIN), i64::MIN.to_string());
    assert_eq!(signed_decimal(-7), "-7");
}

#[test]
fn splitting_keeps_empty_pieces() {
    assert_eq!(split("a//b/", '/'), vec!["a", "", "b", ""]);
    assert_eq!(split("", '/'), vec![""]);
}

#[test]
fn paths_are_taken_apart_as_the_standard_library_does() {
    let samples = [
        "", "/", "a", "/a", "a/b", "/a/b/", "/a//b", "./a", "a/./b", "..", "/..", "a/..", "/.",
        ".", "a/.", "//a", "./", "/tmp/x/../y",
    ];
    for s in samples {
        let p = Path::new(s);
        let text = |q: &Path| q.to_str().unwrap().to_string();
        assert_eq!(parent(s), p.parent().map(text), "parent of {s:?}");
        let name = p.file_name().map(|n| n.to_str().unwrap().to_string());
        assert_eq!(last_name(s), name, "name of {s:?}");
        assert_eq!(components(s).len(), p.components().count(), "components of {s:?}");
        for t in samples {
            let joined = p.join(t);
            assert_eq!(join_path(s, t), text(&joined), "{s:?} with {t:?}");
            let stripped = p.strip_prefix(t).ok().map(text);
            assert_eq!(strip_path(s, t), stripped, "{s:?} without {t:?}");
        }
    }
}

#[test]
fn tables_hold_one_value_for_each_key() {
    let mut t: Table<String, u8> = Table::new();
    assert_eq!(t.insert("a".into(), 1), None);
    assert_eq!(t.insert("b".into(), 2), None);
    assert_eq!(t.insert("a".into(), 3), Some(1));
    assert_eq!(t.len(), 2);
    assert_eq!(t.get(&"a".to_string()), Some(&3));
    assert_eq!(t.entry(1), (&"b".to_string(), &2));
    assert_eq!(t.remove(&"a".to_string()), Some(3));
    assert_eq!(t.remove(&"a".to_string()), None);
    assert!(!t.contains_key(&"a".to_string()));
    assert!(t.contains_key(&"b".to_string()));
}
