use wsvc::digest::fingerprint;
use wsvc::json::{put_int, put_string};
use wsvc::model::{Blob, ObjectId, Record, Tree};

fn text(bytes: Vec<u8>) -> String {
    String::from_utf8(bytes).unwrap()
}

fn id(byte: u8) -> ObjectId {
    ObjectId([byte; 32])
}

#[test]
fn blob_json_has_name_then_hash() {
    let blob = Blob { name: "hello.txt".to_string(), hash: id(0xab) };
    let expected = format!("{{\"name\":\"hello.txt\",\"hash\":\"{}\"}}", "ab".repeat(32));
    assert_eq!(text(blob.to_json()), expected);
}

#[test]
fn tree_json_has_the_fixed_field_order() {
    let tree = Tree {
        name: "dir".to_string(),
        hash: id(0),
        trees: vec![id(1), id(2)],
        blobs: vec![
            Blob { name: "a".to_string(), hash: id(3) },
            Blob { name: "b".to_string(), hash: id(4) },
        ],
    };
    let expected = format!(
        "{{\"name\":\"dir\",\"hash\":\"{}\",\"trees\":[\"{}\",\"{}\"],\"blobs\":[{{\"name\":\"a\",\"hash\":\"{}\"}},{{\"name\":\"b\",\"hash\":\"{}\"}}]}}",
        "00".repeat(32),
        "01".repeat(32),
        "02".repeat(32),
        "03".repeat(32),
        "04".repeat(32)
    );
    assert_eq!(text(tree.to_json()), expected);
}

#[test]
fn empty_tree_json_has_empty_arrays() {
    let tree = Tree { name: ".".to_string(), hash: id(0), trees: vec![], blobs: vec![] };
    let expected = format!("{{\"name\":\".\",\"hash\":\"{}\",\"trees\":[],\"blobs\":[]}}", "00".repeat(32));
    assert_eq!(text(tree.to_json()), expected);
}

#[test]
fn record_json_has_the_fixed_field_order() {
    let record = Record {
        hash: id(0x10),
        message: "m".to_string(),
        author: "a".to_string(),
        date: 1700000000,
        root: id(0x20),
    };
    let expected = format!(
        "{{\"hash\":\"{}\",\"message\":\"m\",\"author\":\"a\",\"date\":1700000000,\"root\":\"{}\"}}",
        "10".repeat(32),
        "20".repeat(32)
    );
    assert_eq!(text(record.to_json()), expected);
}

#[test]
fn record_json_is_valid_json_for_serde() {
    let record = Record {
        hash: id(0x10),
        message: "line one\nline \"two\" \\ end\t\u{1}".to_string(),
        author: "Zoë 😀".to_string(),
        date: -5,
        root: id(0x20),
    };
    let value: serde_json::Value = serde_json::from_slice(&record.to_json()).unwrap();
    assert_eq!(value["message"].as_str().unwrap(), record.message);
    assert_eq!(value["author"].as_str().unwrap(), record.author);
    assert_eq!(value["date"].as_i64().unwrap(), -5);
    assert_eq!(value["root"].as_str().unwrap(), "20".repeat(32));
}

#[test]
fn strings_are_escaped_as_serde_json_does() {
    let samples = [
        "",
        "plain",
        "quote \" and backslash \\",
        "\u{8}\u{c}\n\r\t",
        "\u{0}\u{1}\u{1f}\u{7f}",
        "slash / stays",
        "Zoë 😀 日本語",
    ];
    for s in samples {
        let mut out = Vec::new();
        put_string(&mut out, s);
        assert_eq!(text(out), serde_json::to_string(s).unwrap());
    }
}

#[test]
fn control_characters_use_lowercase_hex() {
    let mut out = Vec::new();
    put_string(&mut out, "\u{1b}");
    assert_eq!(text(out), "\"\\u001b\"");
}

#[test]
fn integers_are_written_in_decimal() {
    for (n, expected) in [
        (0i64, "0"),
        (7, "7"),
        (10, "10"),
        (1700000000, "1700000000"),
        (-1, "-1"),
        (-120, "-120"),
        (i64::MAX, "9223372036854775807"),
        (i64::MIN, "-9223372036854775808"),
    ] {
        let mut out = b"x".to_vec();
        put_int(&mut out, n);
        assert_eq!(text(out), format!("x{}", expected));
    }
}

#[test]
fn tree_fingerprint_is_the_digest_of_the_form_with_zero_hash() {
    let tree = Tree {
        name: "dir".to_string(),
        hash: id(0x77),
        trees: vec![id(1)],
        blobs: vec![Blob { name: "a".to_string(), hash: id(3) }],
    };
    let zeroed = Tree { hash: ObjectId::default(), ..tree.clone() };
    assert_eq!(tree.fingerprint(), fingerprint(&zeroed.to_json()));
    assert!(!tree.is_sealed());
    let sealed = Tree { hash: tree.fingerprint(), ..tree.clone() };
    assert!(sealed.is_sealed());
}

#[test]
fn record_fingerprint_is_the_digest_of_the_form_with_zero_hash() {
    let record = Record {
        hash: id(0x10),
        message: "m".to_string(),
        author: "a".to_string(),
        date: 12,
        root: id(0x20),
    };
    let zeroed = Record { hash: ObjectId::default(), ..record.clone() };
    assert_eq!(record.fingerprint(), fingerprint(&zeroed.to_json()));
    let later = Record { date: 13, ..record.clone() };
    assert_ne!(record.fingerprint(), later.fingerprint());
    assert!(!record.is_sealed());
}

#[test]
fn same_name_and_children_give_the_same_tree_fingerprint() {
    let make = |hash: ObjectId| Tree {
        name: "src".to_string(),
        hash,
        trees: vec![id(9), id(8)],
        blobs: vec![Blob { name: "x".to_string(), hash: id(5) }],
    };
    assert_eq!(make(id(1)).fingerprint(), make(id(2)).fingerprint());
    let reordered = Tree { trees: vec![id(8), id(9)], ..make(id(1)) };
    assert_ne!(make(id(1)).fingerprint(), reordered.fingerprint());
    let renamed = Tree { name: "lib".to_string(), ..make(id(1)) };
    assert_ne!(make(id(1)).fingerprint(), renamed.fingerprint());
}
