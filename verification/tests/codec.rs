use chacha20poly1305::aead::{Aead, KeyInit, Payload};
use chacha20poly1305::XChaCha20Poly1305;
use hecate::cipher::{open_with, seal_with};
use hecate::codec::{decode, encode};
use hecate::json::{node_text, plaintext_text, push_string, row_text};
use hecate::like::{escape_like, matches_text, search_pattern};
use hecate::node::{Node, NodeKind, NodeRow};
use hecate::page::trim_to_byte_budget;
use hecate::text::{is_blank, parse_i64, trim};

#[test]
fn base64_texts() {
    assert_eq!(encode(b""), "");
    assert_eq!(encode(b"f"), "Zg==");
    assert_eq!(encode(b"fo"), "Zm8=");
    assert_eq!(encode(b"foo"), "Zm9v");
    assert_eq!(encode(b"foob"), "Zm9vYg==");
    assert_eq!(encode(&[0xfb, 0xff, 0xfe]), "+//+");
    for n in 0..70u8 {
        let bytes: Vec<u8> = (0..n).map(|i| i.wrapping_mul(37)).collect();
        assert_eq!(decode(&encode(&bytes)).unwrap(), bytes);
    }
}

#[test]
fn base64_decoding_is_strict() {
    assert_eq!(decode("").unwrap(), Vec::<u8>::new());
    for bad in ["Zg", "Zg=", "Zh==", "Zm9", "Zm8", "Zm9=", "Z===", "====", "Zg==Zg==", "Zm 9v", "Zm9v\n", "-__-", "\u{e9}aaa"] {
        assert!(decode(bad).is_none(), "{bad}");
    }
}

#[test]
fn sealed_messages_open_again() {
    let key = [1u8; 32];
    let nonce = [2u8; 24];
    let ct = seal_with(&key, &nonce, b"ad", b"message").unwrap();
    assert_eq!(ct.len(), 7 + 16);
    assert_ne!(&ct[..7], b"message");
    assert_eq!(open_with(&key, &nonce, b"ad", &ct).unwrap(), b"message");
    assert!(open_with(&key, &nonce, b"other", &ct).is_none());
    assert!(open_with(&key, &[3u8; 24], b"ad", &ct).is_none());
    assert!(open_with(&[0u8; 32], &nonce, b"ad", &ct).is_none());
    assert!(open_with(&key, &nonce[..23], b"ad", &ct).is_none());
    assert!(open_with(&key, &nonce, b"ad", &ct[..15]).is_none());
    let mut bent = ct.clone();
    bent[3] ^= 1;
    assert!(open_with(&key, &nonce, b"ad", &bent).is_none());
}

#[test]
fn sealing_is_xchacha20poly1305() {
    let key = [9u8; 32];
    let nonce = [4u8; 24];
    let want = XChaCha20Poly1305::new(&key.into())
        .encrypt(&nonce.into(), Payload { msg: b"m", aad: b"a" })
        .unwrap();
    assert_eq!(seal_with(&key, &nonce, b"a", b"m").unwrap(), want);
}

fn node(title: &str) -> Node {
    Node {
        id: 3,
        parent_id: Some(1),
        kind: NodeKind::Bookmark,
        title: title.to_string(),
        url: Some("u/\"".to_string()),
        position: -2,
        created: 0,
        modified: 10,
        children: Vec::new(),
    }
}

#[test]
fn json_of_a_node() {
    assert_eq!(
        node_text(&node("t")),
        "{\"created\":0,\"id\":3,\"kind\":\"bookmark\",\"modified\":10,\"parent_id\":1,\"position\":-2,\"title\":\"t\",\"url\":\"u/\\\"\"}"
    );
    let root = Node {
        id: 1,
        parent_id: None,
        kind: NodeKind::Folder,
        title: String::new(),
        url: None,
        position: 0,
        created: 1,
        modified: 2,
        children: vec![node("a"), node("b")],
    };
    let text = node_text(&root);
    let v: serde_json::Value = serde_json::from_str(&text).unwrap();
    assert_eq!(v["children"][1]["title"], "b");
    assert_eq!(v.as_object().unwrap().len(), 7);
    assert!(text.starts_with("{\"children\":[{\"created\":0,"));
    assert!(text.ends_with("],\"created\":1,\"id\":1,\"kind\":\"folder\",\"modified\":2,\"position\":0,\"title\":\"\"}"));
    // The text is what a JSON value of these members is written as.
    assert_eq!(serde_json::to_string(&v).unwrap(), text);
}

#[test]
fn json_of_a_row() {
    let r = NodeRow {
        id: 1,
        parent_id: None,
        kind: NodeKind::Folder,
        title: "a\tb".to_string(),
        url: None,
        position: 0,
        created: 5,
        modified: 6,
    };
    assert_eq!(
        row_text(&r),
        "{\"id\":1,\"parent_id\":null,\"kind\":\"folder\",\"title\":\"a\\tb\",\"url\":null,\"position\":0,\"created\":5,\"modified\":6}"
    );
    assert_eq!(plaintext_text(1, &Vec::new()), "{\"v\":1,\"nodes\":[]}");
    let two = plaintext_text(1, &vec![r.clone(), r]);
    assert!(two.contains("},{\"id\":1,"));
}

#[test]
fn json_strings_escape_what_they_must() {
    let mut out = "x".to_string();
    push_string(&mut out, "\"\\/\u{8}\u{c}\n\r\t\u{0}\u{1f}\u{7f}\u{2028}\u{1f512}");
    assert_eq!(out, "x\"\\\"\\\\/\\b\\f\\n\\r\\t\\u0000\\u001f\u{7f}\u{2028}\u{1f512}\"");
}

#[test]
fn like_patterns() {
    assert_eq!(escape_like("50%_\\x"), "50\\%\\_\\\\x");
    let p = search_pattern("a%");
    assert_eq!(p.iter().collect::<String>(), "%a\\%%");
    assert!(matches_text(&p, "xA%y"));
    assert!(!matches_text(&p, "xa"));
    let chars = |s: &str| s.chars().collect::<Vec<char>>();
    assert!(matches_text(&chars("_b%"), "aBcd"));
    assert!(!matches_text(&chars("_b"), "abc"));
    assert!(matches_text(&chars("%"), ""));
    assert!(!matches_text(&chars("a\\"), "a\\"));
    assert!(matches_text(&chars("%a%b%"), "xxaxxbxx"));
}

#[test]
fn texts() {
    assert_eq!(trim(" \t\u{2003}a b\n").iter().collect::<String>(), "a b");
    assert!(trim(" \u{85}\u{a0}").is_empty());
    assert!(is_blank("") && is_blank("\u{1680}\u{2029}\u{205f}") && !is_blank(" x "));
    assert!(!is_blank("\u{200b}"));
    assert_eq!(parse_i64("-9223372036854775808"), Some(i64::MIN));
    assert_eq!(parse_i64("+9223372036854775807"), Some(i64::MAX));
    for bad in ["", "+", "-", "9223372036854775808", "-9223372036854775809", " 1", "1 ", "1_0", "0x1"] {
        assert_eq!(parse_i64(bad), None, "{bad}");
    }
    for n in [0i64, 1, -1, 10, 99, 100, -100, 1234567890123] {
        assert_eq!(parse_i64(&n.to_string()), Some(n));
    }
}

#[test]
fn white_space_is_that_of_std() {
    for u in 0..0x3100u32 {
        if let Some(c) = char::from_u32(u) {
            assert_eq!(is_blank(&c.to_string()), c.is_whitespace(), "{u:x}");
        }
    }
}

#[test]
fn pages_are_cut_at_the_budget() {
    assert!(trim_to_byte_budget(Vec::new()).is_empty());
    let one = node_text(&node("")).len() + 1;
    // Two nodes that take exactly the budget stay; one byte more and the second goes.
    let fill = 768 * 1024 - 2 * one;
    let kept = trim_to_byte_budget(vec![node(""), node(&"x".repeat(fill)), node("")]);
    assert_eq!(kept.len(), 2);
    let kept = trim_to_byte_budget(vec![node(""), node(&"x".repeat(fill + 1)), node("")]);
    assert_eq!(kept.len(), 1);
    let kept = trim_to_byte_budget(vec![node(&"x".repeat(900 * 1024)), node("")]);
    assert_eq!(kept.len(), 1);
}
