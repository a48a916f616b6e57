use filtermail::message::{
    check_encrypted, is_securejoin, recipient_matches_passthrough, Header, ParsedMessage,
};

fn part(mimetype: &str, body: &str) -> ParsedMessage {
    ParsedMessage {
        mimetype: mimetype.to_string(),
        headers: Vec::new(),
        body: Some(body.to_string()),
        subparts: Vec::new(),
    }
}

fn multipart(mimetype: &str, headers: &[(&str, &str)], subparts: Vec<ParsedMessage>) -> ParsedMessage {
    ParsedMessage {
        mimetype: mimetype.to_string(),
        headers: headers
            .iter()
            .map(|(key, value)| Header { key: key.to_string(), value: value.to_string() })
            .collect(),
        body: Some(String::new()),
        subparts,
    }
}

/// An armored message that holds one data packet with a body of one octet.
const ARMOR: &str = "-----BEGIN PGP MESSAGE-----\r\n\r\n0gGq\r\n-----END PGP MESSAGE-----\r\n";

/// The same with a version header.
const ARMOR_WITH_VERSION: &str =
    "-----BEGIN PGP MESSAGE-----\r\nVersion: 1\r\n\r\n0gGq\r\n-----END PGP MESSAGE-----\r\n";

fn encrypted(armor: &str) -> ParsedMessage {
    multipart(
        "multipart/encrypted",
        &[("From", "a@example.org")],
        vec![
            part("application/pgp-encrypted", "Version: 1\r\n"),
            part("application/octet-stream", armor),
        ],
    )
}

fn securejoin(request: &str, body: &str) -> ParsedMessage {
    multipart("multipart/mixed", &[("Secure-Join", request)], vec![part("text/plain", body)])
}

#[test]
fn encrypted_message_is_recognized() {
    assert!(check_encrypted(&encrypted(ARMOR), false));
    assert!(check_encrypted(&encrypted(ARMOR), true));
}

#[test]
fn encrypted_content_type_is_matched_without_case() {
    let mut mail = encrypted(ARMOR);
    mail.mimetype = "Multipart/ENCRYPTED".to_string();
    mail.subparts[0].mimetype = "Application/PGP-Encrypted".to_string();
    assert!(check_encrypted(&mail, true));
}

#[test]
fn octet_stream_content_type_is_matched_exactly() {
    let mut mail = encrypted(ARMOR);
    mail.subparts[1].mimetype = "Application/Octet-Stream".to_string();
    assert!(!check_encrypted(&mail, false));
}

#[test]
fn armor_version_header_is_refused_on_the_way_out() {
    assert!(check_encrypted(&encrypted(ARMOR_WITH_VERSION), false));
    assert!(!check_encrypted(&encrypted(ARMOR_WITH_VERSION), true));
}

#[test]
fn encrypted_needs_exactly_two_parts() {
    let mut one = encrypted(ARMOR);
    one.subparts.pop();
    assert!(!check_encrypted(&one, false));

    let mut three = encrypted(ARMOR);
    three.subparts.push(part("text/plain", "hello"));
    assert!(!check_encrypted(&three, false));

    let mut none = encrypted(ARMOR);
    none.subparts.clear();
    assert!(!check_encrypted(&none, false));
}

#[test]
fn encrypted_parts_must_not_be_multipart() {
    let mut mail = encrypted(ARMOR);
    mail.subparts[0].subparts.push(part("text/plain", "hidden"));
    assert!(!check_encrypted(&mail, false));

    let mut mail = encrypted(ARMOR);
    mail.subparts[1].subparts.push(part("text/plain", "hidden"));
    assert!(!check_encrypted(&mail, false));
}

#[test]
fn control_part_must_say_version_one() {
    let mut mail = encrypted(ARMOR);
    mail.subparts[0].body = Some("  \tVersion: 1 \r\n\r\n".to_string());
    assert!(check_encrypted(&mail, false));
    mail.subparts[0].body = Some("Version: 2".to_string());
    assert!(!check_encrypted(&mail, false));
    mail.subparts[0].body = Some("version: 1".to_string());
    assert!(!check_encrypted(&mail, false));
    mail.subparts[0].body = None;
    assert!(!check_encrypted(&mail, false));
}

#[test]
fn control_part_must_have_its_content_type() {
    let mut mail = encrypted(ARMOR);
    mail.subparts[0].mimetype = "text/plain".to_string();
    assert!(!check_encrypted(&mail, false));
}

#[test]
fn payload_must_be_armored_packets() {
    assert!(!check_encrypted(&encrypted("Definitely not encrypted."), false));
    let mut mail = encrypted(ARMOR);
    mail.subparts[1].body = None;
    assert!(!check_encrypted(&mail, false));
}

#[test]
fn other_top_level_type_is_not_encrypted() {
    let mut mail = encrypted(ARMOR);
    mail.mimetype = "multipart/mixed".to_string();
    assert!(!check_encrypted(&mail, false));
}

#[test]
fn securejoin_request_is_recognized() {
    assert!(is_securejoin(&securejoin("vc-request", "Secure-Join: vc-request")));
    assert!(is_securejoin(&securejoin("vg-request", "secure-join: vg-request\r\n")));
    assert!(is_securejoin(&securejoin("vc-request", "\r\n  SECURE-JOIN: VC-REQUEST \r\n")));
    // The header and the body need not name the same request.
    assert!(is_securejoin(&securejoin("vc-request", "Secure-Join: vg-request")));
}

#[test]
fn securejoin_body_is_trimmed_of_any_white_space() {
    // A no-break space, a line separator and an ideographic space.
    assert!(is_securejoin(&securejoin("vc-request", "\u{a0}secure-join: vc-request\u{2028}\u{3000}")));
    assert!(is_securejoin(&securejoin("vg-request", "\u{b}Secure-Join: VG-Request\u{85}")));
    // White space within the body is not dropped.
    assert!(!is_securejoin(&securejoin("vc-request", "secure-join:\u{a0}vc-request")));
    assert!(!is_securejoin(&securejoin("vc-request", "secure-join:  vc-request")));
}

#[test]
fn securejoin_header_is_found_without_case() {
    let mut mail = securejoin("vc-request", "Secure-Join: vc-request");
    mail.headers[0].key = "SECURE-JOIN".to_string();
    assert!(is_securejoin(&mail));
}

#[test]
fn securejoin_takes_the_first_header() {
    let mut mail = securejoin("vc-request", "Secure-Join: vc-request");
    mail.headers.insert(
        0,
        Header { key: "secure-join".to_string(), value: "vc-auth-required".to_string() },
    );
    assert!(!is_securejoin(&mail));
}

#[test]
fn securejoin_header_value_is_matched_exactly() {
    assert!(!is_securejoin(&securejoin("VC-REQUEST", "Secure-Join: vc-request")));
    assert!(!is_securejoin(&securejoin("vc-request ", "Secure-Join: vc-request")));
    assert!(!is_securejoin(&securejoin("vc-auth-required", "Secure-Join: vc-request")));
}

#[test]
fn securejoin_needs_its_header() {
    let mut mail = securejoin("vc-request", "Secure-Join: vc-request");
    mail.headers.clear();
    assert!(!is_securejoin(&mail));
}

#[test]
fn securejoin_needs_one_plain_part() {
    let mut mail = securejoin("vc-request", "Secure-Join: vc-request");
    mail.subparts.push(part("text/plain", "more"));
    assert!(!is_securejoin(&mail));

    let mut mail = securejoin("vc-request", "Secure-Join: vc-request");
    mail.subparts.clear();
    assert!(!is_securejoin(&mail));

    let mut mail = securejoin("vc-request", "Secure-Join: vc-request");
    mail.subparts[0].mimetype = "text/html".to_string();
    assert!(!is_securejoin(&mail));

    let mut mail = securejoin("vc-request", "Secure-Join: vc-request");
    mail.subparts[0].subparts.push(part("text/plain", "nested"));
    assert!(!is_securejoin(&mail));
}

#[test]
fn securejoin_body_must_repeat_the_request() {
    assert!(!is_securejoin(&securejoin("vc-request", "Secure-Join: vc-request and more")));
    assert!(!is_securejoin(&securejoin("vc-request", "")));
    let mut mail = securejoin("vc-request", "Secure-Join: vc-request");
    mail.subparts[0].body = None;
    assert!(!is_securejoin(&mail));
}

#[test]
fn securejoin_and_encrypted_exclude_each_other() {
    let samples = vec![
        encrypted(ARMOR),
        encrypted(ARMOR_WITH_VERSION),
        securejoin("vc-request", "Secure-Join: vc-request"),
        securejoin("vg-request", "Secure-Join: vg-request"),
        multipart(
            "multipart/encrypted",
            &[("Secure-Join", "vc-request")],
            vec![part("text/plain", "Secure-Join: vc-request")],
        ),
        multipart(
            "multipart/encrypted",
            &[("Secure-Join", "vc-request")],
            vec![
                part("application/pgp-encrypted", "Version: 1"),
                part("application/octet-stream", ARMOR),
            ],
        ),
    ];
    for mail in samples.iter() {
        for outgoing in [false, true] {
            assert!(!(is_securejoin(mail) && check_encrypted(mail, outgoing)));
            if check_encrypted(mail, true) {
                assert!(check_encrypted(mail, false));
            }
        }
    }
}

fn passthrough_recipients() -> Vec<String> {
    vec!["pass@example.org".to_string(), "@example.com".to_string()]
}

#[test]
fn test_recipient_matches_passthrough() {
    let patterns = passthrough_recipients();
    assert_eq!(recipient_matches_passthrough("pass@example.org", &patterns), true);
    assert_eq!(recipient_matches_passthrough("other@example.org", &patterns), false);
    assert_eq!(recipient_matches_passthrough("anything@example.com", &patterns), true);
    assert_eq!(recipient_matches_passthrough("anything@sub.example.com", &patterns), false);
}

#[test]
fn passthrough_suffix_needs_the_at_sign() {
    let patterns = vec!["example.com".to_string()];
    assert!(!recipient_matches_passthrough("a@example.com", &patterns));
    assert!(recipient_matches_passthrough("example.com", &patterns));
    assert!(!recipient_matches_passthrough("a@example.com", &[]));
    let patterns = vec!["@".to_string(), String::new()];
    assert!(!recipient_matches_passthrough("a@example.com", &patterns));
    assert!(recipient_matches_passthrough("a@", &patterns));
    assert!(recipient_matches_passthrough("", &patterns));
}
