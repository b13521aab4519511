use tanoshi_vm::input::Input;
use tanoshi_vm::numfmt::u64_to_dec;
use tanoshi_vm::prefs::{decode_inputs, encode_inputs};
use tanoshi_vm::version::Version;

#[test]
fn renders_decimals() {
    assert_eq!(u64_to_dec(0), "0");
    assert_eq!(u64_to_dec(7), "7");
    assert_eq!(u64_to_dec(12345), "12345");
    assert_eq!(u64_to_dec(u64::MAX), "18446744073709551615");
}

#[test]
fn encodes_text_entry() {
    let entries = vec![Input::Text { name: "user".to_string(), state: None }];
    assert_eq!(encode_inputs(&entries), "1:t4:usern");
}

#[test]
fn encodes_checkbox_entry() {
    let entries = vec![Input::Checkbox { name: "ok".to_string(), state: Some(true) }];
    assert_eq!(encode_inputs(&entries), "1:b2:okt");
}

#[test]
fn encodes_select_entry() {
    let entries = vec![Input::Select {
        name: "m".to_string(),
        values: vec!["a".to_string(), "bb".to_string()],
        state: Some(-3),
    }];
    assert_eq!(encode_inputs(&entries), "1:c1:m2:1:a2:bbs-3");
}

#[test]
fn empty_list_encodes_to_count_only() {
    assert_eq!(encode_inputs(&Vec::new()), "0:");
    assert_eq!(decode_inputs("0:"), Some(Vec::new()));
}

#[test]
fn decode_of_encode_is_identity() {
    let entries = vec![
        Input::Text { name: "user name".to_string(), state: Some("a:b:c".to_string()) },
        Input::Checkbox { name: String::new(), state: None },
        Input::Select {
            name: "lang".to_string(),
            values: vec!["en".to_string(), String::new(), "12:34".to_string()],
            state: Some(i64::MIN),
        },
        Input::Select { name: "empty".to_string(), values: Vec::new(), state: None },
    ];
    let text = encode_inputs(&entries);
    assert_eq!(decode_inputs(&text), Some(entries));
}

#[test]
fn decode_rejects_malformed_text() {
    assert_eq!(decode_inputs(""), None);
    assert_eq!(decode_inputs("junk"), None);
    assert_eq!(decode_inputs("1:"), None);
    assert_eq!(decode_inputs("2:t0:n"), None);
    assert_eq!(decode_inputs("1:x0:n"), None);
    assert_eq!(decode_inputs("1:t4:usrn"), None);
    // trailing content after the announced entries
    assert_eq!(decode_inputs("1:t4:usernX"), None);
    // a length that cannot fit
    assert_eq!(decode_inputs("99999999999999999999:"), None);
}

#[test]
fn decode_accepts_exact_text() {
    let got = decode_inputs("1:t4:users5:alice");
    assert_eq!(
        got,
        Some(vec![Input::Text { name: "user".to_string(), state: Some("alice".to_string()) }])
    );
}

#[test]
fn parses_versions() {
    assert_eq!(Version::parse("1.2.3"), Some(Version { major: 1, minor: 2, patch: 3 }));
    assert_eq!(Version::parse("0.0.0"), Some(Version { major: 0, minor: 0, patch: 0 }));
    assert_eq!(Version::parse("10.20.30"), Some(Version { major: 10, minor: 20, patch: 30 }));
    assert_eq!(Version::parse("1.2"), None);
    assert_eq!(Version::parse("1.2.3.4"), None);
    assert_eq!(Version::parse("1.2.x"), None);
    assert_eq!(Version::parse(""), None);
    assert_eq!(Version::parse("v1.2.3"), None);
}

#[test]
fn orders_versions() {
    let a = Version { major: 1, minor: 2, patch: 3 };
    let b = Version { major: 1, minor: 3, patch: 0 };
    let c = Version { major: 2, minor: 0, patch: 0 };
    assert!(b.newer_than(&a));
    assert!(c.newer_than(&b));
    assert!(!a.newer_than(&a));
    assert!(!a.newer_than(&b));
}

#[test]
fn renders_versions() {
    let v = Version { major: 1, minor: 22, patch: 333 };
    let text = v.to_text();
    assert_eq!(text, "1.22.333");
    assert_eq!(Version::parse(&text), Some(v));
}
