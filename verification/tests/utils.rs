use filtermail::error::Error;
use filtermail::utils::{extract_address, format_smtp_error};

#[test]
fn test_extract_address() {
    assert_eq!(extract_address("MAIL FROM:<t1@example.org>"), Some("t1@example.org".to_string()));
    assert_eq!(
        extract_address("MAIL FROM:<t2@example.org> SOMETHING=SOMETHING OTHER=OTHER"),
        Some("t2@example.org".to_string())
    );
    assert_eq!(extract_address("RCPT TO:<t3@example.org>"), Some("t3@example.org".to_string()));
    assert_eq!(extract_address("mail from:<t4@example.org>"), Some("t4@example.org".to_string()));
    assert_eq!(extract_address("Foo Bar <t5@example.org>"), Some("t5@example.org".to_string()));
    assert_eq!(extract_address("t6@example.org"), Some("t6@example.org".to_string()));
}

#[test]
fn extract_address_drops_the_size_parameter() {
    assert_eq!(extract_address("MAIL FROM:<a@b.c> SIZE=123"), Some("a@b.c".to_string()));
}

#[test]
fn extract_address_lowers_the_case() {
    assert_eq!(extract_address("MAIL FROM:<Alice@Example.ORG>"), Some("alice@example.org".to_string()));
    assert_eq!(extract_address("RCPT TO:<\u{c4}rger@example.org>"), Some("\u{e4}rger@example.org".to_string()));
}

#[test]
fn extract_address_takes_the_first_of_many() {
    assert_eq!(
        extract_address("first@example.org, second@example.org"),
        Some("first@example.org".to_string())
    );
    assert_eq!(
        extract_address("friends: one@example.org, two@example.org;"),
        Some("one@example.org".to_string())
    );
}

#[test]
fn extract_address_fails_without_an_address() {
    assert_eq!(extract_address(""), None);
    assert_eq!(extract_address("MAIL FROM:"), None);
    assert_eq!(extract_address("MAIL FROM:<>"), None);
    assert_eq!(extract_address("nobody"), None);
    assert_eq!(extract_address("empty:;"), None);
}

#[test]
fn extract_address_is_idempotent_on_samples() {
    let samples = [
        "MAIL FROM:<t1@example.org>",
        "MAIL FROM:<T2@Example.org> SIZE=5",
        "RCPT TO:<t3@example.org>",
        "Foo Bar <t5@example.org>",
        "t6@example.org",
        "friends: one@example.org, two@example.org;",
    ];
    for sample in samples {
        let first = extract_address(sample).unwrap();
        assert_eq!(extract_address(&format!("<{}>", first)), Some(first));
    }
}

#[test]
fn smtp_error_with_status_and_cause() {
    assert_eq!(
        format_smtp_error(Some("554"), Some("Transaction failed")),
        "554 Transaction failed"
    );
}

#[test]
fn smtp_error_without_status_is_a_451() {
    assert_eq!(format_smtp_error(None, Some("milter unavailable")), "451 milter unavailable");
}

#[test]
fn smtp_error_without_cause() {
    assert_eq!(format_smtp_error(Some("550"), None), "550 Unknown error");
    assert_eq!(format_smtp_error(None, None), "451 Unknown error");
}

#[test]
fn error_as_smtp_response() {
    let refused = Error::MailSend {
        context: "RCPT TO".to_string(),
        raw_smtp_answer: "550 5.1.1 no such user\r\n".to_string(),
    };
    assert_eq!(refused.smtp_response(), "550 5.1.1 no such user\r\n");
    assert_eq!(
        Error::TruncatedHeader.smtp_response(),
        "500 OpenPGP packet header is truncated - can't validate!"
    );
    assert_eq!(Error::Io("broken pipe".to_string()).smtp_response(), "451 Local error");
    assert_eq!(Error::Config("no such key".to_string()).smtp_response(), "451 Local error");
}
