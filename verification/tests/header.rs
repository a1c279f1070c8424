use base64::engine::general_purpose::STANDARD as BASE64_STANDARD;
use base64::Engine;
use mcpg_plugin_identity_ldap::header::{
    lookup_header, parse_basic, split_at_colon, strip_basic_prefix, ParsedBasic,
};
use mcpg_plugin_identity_ldap::octets::{base64_decode, utf8_decode};

fn basic_header(creds: &str) -> Vec<(String, String)> {
    let encoded = BASE64_STANDARD.encode(creds.as_bytes());
    vec![("Authorization".into(), format!("Basic {encoded}"))]
}

fn header(name: &str, value: &str) -> (String, String) {
    (name.to_string(), value.to_string())
}

fn invalid_reason(headers: &[(String, String)]) -> String {
    match parse_basic(headers) {
        ParsedBasic::Invalid(reason) => reason,
        _ => panic!("expected invalid"),
    }
}

#[test]
fn no_authorization_header_is_none() {
    assert!(matches!(parse_basic(&[]), ParsedBasic::Absent));
}

#[test]
fn bearer_scheme_is_none() {
    let h = vec![header("Authorization", "Bearer xyz")];
    assert!(matches!(parse_basic(&h), ParsedBasic::Absent));
}

#[test]
fn malformed_base64_is_invalid() {
    let h = vec![header("Authorization", "Basic !!nope!!")];
    match parse_basic(&h) {
        ParsedBasic::Invalid(r) => assert!(r.contains("base64")),
        other => panic!("unexpected: {}", matches!(other, ParsedBasic::Absent)),
    }
}

#[test]
fn no_colon_is_invalid() {
    match parse_basic(&basic_header("alicenocolon")) {
        ParsedBasic::Invalid(r) => assert!(r.contains("no colon")),
        _ => panic!("expected invalid"),
    }
}

#[test]
fn empty_password_is_invalid_not_attempted() {
    // "alice:" must never reach the directory.
    match parse_basic(&basic_header("alice:")) {
        ParsedBasic::Invalid(r) => assert_eq!(r, "empty password"),
        _ => panic!("expected invalid"),
    }
}

#[test]
fn empty_username_is_invalid() {
    match parse_basic(&basic_header(":secret")) {
        ParsedBasic::Invalid(r) => assert_eq!(r, "empty username"),
        _ => panic!("expected invalid"),
    }
}

#[test]
fn well_formed_credential_parses() {
    match parse_basic(&basic_header("alice:hunter2")) {
        ParsedBasic::Credentials { username, password } => {
            assert_eq!(username, "alice");
            assert_eq!(password, "hunter2");
        }
        _ => panic!("expected credentials"),
    }
}

#[test]
fn password_may_contain_colons() {
    match parse_basic(&basic_header("alice:a:b:c")) {
        ParsedBasic::Credentials { username, password } => {
            assert_eq!(username, "alice");
            assert_eq!(password, "a:b:c");
        }
        _ => panic!("expected credentials"),
    }
}

#[test]
fn reasons_of_malformed_credentials() {
    let h = vec![header("Authorization", "Basic !!nope!!")];
    assert_eq!(invalid_reason(&h), "malformed Basic credential (base64)");
    let encoded = BASE64_STANDARD.encode([0xffu8, 0x3a, 0x61]);
    let h = vec![("Authorization".to_string(), format!("Basic {encoded}"))];
    assert_eq!(invalid_reason(&h), "malformed Basic credential (non-utf8)");
    assert_eq!(
        invalid_reason(&basic_header("alice")),
        "malformed Basic credential (no colon)"
    );
    // With both fields empty the user name is named first.
    assert_eq!(invalid_reason(&basic_header(":")), "empty username");
}

#[test]
fn credentials_keep_every_character() {
    let creds = "\u{fc}ser \u{1f511}:p\u{e4}ss w\u{f6}rd: ";
    match parse_basic(&basic_header(creds)) {
        ParsedBasic::Credentials { username, password } => {
            assert_eq!(username, "\u{fc}ser \u{1f511}");
            assert_eq!(password, "p\u{e4}ss w\u{f6}rd: ");
        }
        _ => panic!("expected credentials"),
    }
}

#[test]
fn header_names_and_schemes_ignore_case() {
    let encoded = BASE64_STANDARD.encode("a:b");
    for (name, scheme) in [("AUTHORIZATION", "BASIC"), ("authorization", "basic"), ("aUtHorization", "bAsIc")] {
        let h = vec![(name.to_string(), format!("{scheme} {encoded}"))];
        assert!(matches!(parse_basic(&h), ParsedBasic::Credentials { .. }));
    }
}

#[test]
fn the_first_authorization_header_counts() {
    let mut h = vec![header("X-Other", "1"), header("authorization", "Bearer t")];
    h.extend(basic_header("alice:hunter2"));
    assert_eq!(lookup_header(&h, "Authorization"), Some("Bearer t"));
    assert!(matches!(parse_basic(&h), ParsedBasic::Absent));
    assert_eq!(lookup_header(&h, "x-other"), Some("1"));
    assert_eq!(lookup_header(&h, "x-missing"), None);
}

#[test]
fn the_scheme_ends_at_one_space() {
    assert_eq!(strip_basic_prefix("Basic abc"), Some("abc"));
    assert_eq!(strip_basic_prefix("bASIC  abc"), Some(" abc"));
    assert_eq!(strip_basic_prefix("Basic "), Some(""));
    assert_eq!(strip_basic_prefix("Basic"), None);
    assert_eq!(strip_basic_prefix("Basic\tabc"), None);
    assert_eq!(strip_basic_prefix("Basicabc"), None);
    assert_eq!(strip_basic_prefix("Bas"), None);
    assert_eq!(strip_basic_prefix(""), None);
    assert_eq!(strip_basic_prefix("B\u{e4}sic abc"), None);
    assert_eq!(strip_basic_prefix("Basi\u{fd83} abc"), None);
}

#[test]
fn an_empty_credential_is_none() {
    let h = vec![header("Authorization", "Basic ")];
    assert!(matches!(parse_basic(&h), ParsedBasic::Absent));
    // A second space is part of the credential and no base64.
    let h = vec![header("Authorization", "Basic  YTpi")];
    assert_eq!(invalid_reason(&h), "malformed Basic credential (base64)");
}

#[test]
fn base64_is_padded_and_canonical() {
    assert_eq!(base64_decode(""), Some(vec![]));
    assert_eq!(base64_decode("YTpi"), Some(b"a:b".to_vec()));
    assert_eq!(base64_decode("YQ=="), Some(b"a".to_vec()));
    assert_eq!(base64_decode("YWI="), Some(b"ab".to_vec()));
    assert_eq!(base64_decode("+/+/"), Some(vec![0xfb, 0xff, 0xbf]));
    for bad in ["YQ", "YQ=", "YWI", "YQ===", "YR==", "YWJ=", "Y===", "====", "YQ==YQ==", "-_-_", "YTp", "Y", "YTpi\n", "YT pi"] {
        assert_eq!(base64_decode(bad), None);
    }
}

#[test]
fn base64_agrees_with_its_encoder() {
    let mut bytes: Vec<u8> = Vec::new();
    for i in 0..200u32 {
        let text = BASE64_STANDARD.encode(&bytes);
        assert_eq!(base64_decode(&text), Some(bytes.clone()));
        bytes.push((i * 167 + 13) as u8);
    }
}

#[test]
fn utf8_is_decoded_or_refused() {
    assert_eq!(utf8_decode(&b"a\xc3\xa4".to_vec()), Some("a\u{e4}"));
    assert_eq!(utf8_decode(&vec![]), Some(""));
    assert_eq!(utf8_decode(&vec![0xc3]), None);
    assert_eq!(utf8_decode(&vec![0xed, 0xa0, 0x80]), None);
    assert_eq!(utf8_decode(&vec![0xc0, 0x80]), None);
}

#[test]
fn a_decoded_credential_splits_at_its_first_colon() {
    assert!(matches!(
        split_at_colon("a:b:"),
        ParsedBasic::Credentials { username, password } if username == "a" && password == "b:"
    ));
    assert!(matches!(split_at_colon(""), ParsedBasic::Invalid(r) if r == "malformed Basic credential (no colon)"));
}
