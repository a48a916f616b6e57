use filtermail::config::{split_list, Config, MailboxState};
use filtermail::inbound::IncomingBeforeQueueHandler;
use filtermail::outbound::{rate_limit_reply, OutgoingBeforeQueueHandler};
use filtermail::smtp_server::{Envelope, SmtpHandler};
use filtermail::ENCRYPTION_NEEDED_523;

const OPEN: MailboxState = MailboxState { exists: true, enforce_e2ee: false };
const STRICT: MailboxState = MailboxState { exists: true, enforce_e2ee: true };
const MISSING: MailboxState = MailboxState { exists: false, enforce_e2ee: false };

fn config() -> Config {
    let mut config = Config::new(60, "ex.org".to_string());
    config.passthrough_senders = vec!["bot@ex.org".to_string()];
    config.passthrough_recipients = vec!["pass@example.org".to_string(), "@example.com".to_string()];
    config
}

fn envelope(mail_from: &str, rcpt_to: &[&str], data: &str) -> Envelope {
    Envelope {
        mail_from: mail_from.to_string(),
        rcpt_to: rcpt_to.iter().map(|r| r.to_string()).collect(),
        data: data.replace('\n', "\r\n").into_bytes(),
    }
}

fn encrypted_mail(from: &str, armor_header: &str) -> String {
    format!(
        "From: {from}
To: bob@ex.org
Subject: ...
Content-Type: multipart/encrypted; protocol=\"application/pgp-encrypted\"; boundary=\"xyz\"

--xyz
Content-Type: application/pgp-encrypted

Version: 1

--xyz
Content-Type: application/octet-stream; name=\"encrypted.asc\"

-----BEGIN PGP MESSAGE-----
{armor_header}
0gGq
-----END PGP MESSAGE-----

--xyz--
"
    )
}

fn plain_mail(from: &str) -> String {
    format!("From: {from}\nTo: bob@ex.org\nSubject: hello\n\nA text that anyone can read.\n")
}

fn bounce(from: &str, content_type: &str, auto_submitted: &str) -> String {
    format!(
        "From: {from}
To: alice@ex.org
Auto-Submitted: {auto_submitted}
Subject: Undelivered Mail Returned to Sender
Content-Type: {content_type}; report-type=delivery-status; boundary=\"bb\"

--bb
Content-Type: text/plain

I'm sorry to have to inform you that your message could not be delivered.

--bb--
"
    )
}

fn securejoin_mail(from: &str) -> String {
    format!(
        "From: {from}
To: bob@ex.org
Secure-Join: vc-request
Content-Type: multipart/mixed; boundary=\"sj\"

--sj
Content-Type: text/plain; charset=utf-8

Secure-Join: vc-request

--sj--
"
    )
}

fn setup_message(from: &str, subject: &str, content_type: &str) -> String {
    format!(
        "From: {from}
To: {from}
Subject: {subject}
Autocrypt-Setup-Message: v1
Content-Type: {content_type}; boundary=\"asm\"

--asm
Content-Type: text/plain

This is the Autocrypt Setup Message.

--asm
Content-Type: application/autocrypt-setup

<html><body>-----BEGIN PGP MESSAGE-----</body></html>

--asm--
"
    )
}

fn refused() -> Result<(), String> {
    Err(ENCRYPTION_NEEDED_523.to_string())
}

#[test]
fn encryption_needed_reply() {
    assert_eq!(ENCRYPTION_NEEDED_523, "523 Encryption Needed: Invalid Unencrypted Mail");
}

#[test]
fn incoming_accepts_every_sender() {
    let handler = IncomingBeforeQueueHandler::new(config());
    assert_eq!(handler.handle_mail("anyone@example.net"), Ok(()));
    assert_eq!(handler.handle_mail("not an address"), Ok(()));
}

#[test]
fn incoming_encrypted_mail_is_accepted() {
    let handler = IncomingBeforeQueueHandler::new(config());
    let mail = envelope("a@example.net", &["bob@ex.org"], &encrypted_mail("a@example.net", ""));
    assert_eq!(handler.check_data(&mail, &[OPEN]), Ok(()));
    // Whatever the mailbox of the recipient says.
    assert_eq!(handler.check_data(&mail, &[STRICT]), Ok(()));
    assert_eq!(handler.check_data(&mail, &[]), Ok(()));
}

#[test]
fn incoming_encrypted_mail_may_have_an_armor_version() {
    let handler = IncomingBeforeQueueHandler::new(config());
    let mail =
        envelope("a@example.net", &["bob@ex.org"], &encrypted_mail("a@example.net", "Version: 1\n"));
    assert_eq!(handler.check_data(&mail, &[STRICT]), Ok(()));
}

#[test]
fn incoming_cleartext_to_strict_address_is_refused() {
    let handler = IncomingBeforeQueueHandler::new(config());
    let mail = envelope("a@example.net", &["alice@ex.org"], &plain_mail("a@example.net"));
    assert_eq!(handler.check_data(&mail, &[STRICT]), refused());
}

#[test]
fn incoming_cleartext_to_open_address_is_accepted() {
    let handler = IncomingBeforeQueueHandler::new(config());
    let mail = envelope("a@example.net", &["alice@ex.org"], &plain_mail("a@example.net"));
    assert_eq!(handler.check_data(&mail, &[OPEN]), Ok(()));
}

#[test]
fn incoming_cleartext_needs_every_recipient_to_be_open() {
    let handler = IncomingBeforeQueueHandler::new(config());
    let mail =
        envelope("a@example.net", &["alice@ex.org", "bob@ex.org"], &plain_mail("a@example.net"));
    assert_eq!(handler.check_data(&mail, &[OPEN, OPEN]), Ok(()));
    assert_eq!(handler.check_data(&mail, &[OPEN, STRICT]), refused());
    assert_eq!(handler.check_data(&mail, &[STRICT, OPEN]), refused());
    assert_eq!(handler.check_data(&mail, &[OPEN, MISSING]), refused());
    // Nothing is known of the second mailbox.
    assert_eq!(handler.check_data(&mail, &[OPEN]), refused());
}

#[test]
fn incoming_cleartext_without_recipients_is_accepted() {
    let handler = IncomingBeforeQueueHandler::new(config());
    let mail = envelope("a@example.net", &[], &plain_mail("a@example.net"));
    assert_eq!(handler.check_data(&mail, &[]), Ok(()));
}

#[test]
fn incoming_cleartext_to_odd_recipient_is_refused() {
    let handler = IncomingBeforeQueueHandler::new(config());
    for recipient in ["../alice@ex.org", "alice@ex.org/..", "alice", ""] {
        let mail = envelope("a@example.net", &[recipient], &plain_mail("a@example.net"));
        assert_eq!(handler.check_data(&mail, &[OPEN]), refused());
    }
}

#[test]
fn incoming_bounce_is_accepted() {
    let handler = IncomingBeforeQueueHandler::new(config());
    let mail = envelope(
        "",
        &["alice@ex.org"],
        &bounce("mailer-daemon@ex.org", "multipart/report", "auto-replied"),
    );
    assert_eq!(handler.check_data(&mail, &[STRICT]), Ok(()));
    let mail = envelope(
        "",
        &["alice@ex.org"],
        &bounce("Mail Delivery System <MAILER-DAEMON@example.net>", "multipart/report", "auto-replied"),
    );
    assert_eq!(handler.check_data(&mail, &[STRICT]), Ok(()));
}

#[test]
fn incoming_bounce_needs_all_its_marks() {
    let handler = IncomingBeforeQueueHandler::new(config());
    let not_the_daemon = bounce("someone@ex.org", "multipart/report", "auto-replied");
    let not_a_report = bounce("mailer-daemon@ex.org", "multipart/mixed", "auto-replied");
    let not_automatic =
        bounce("mailer-daemon@ex.org", "multipart/report", "auto-replied").replace("Auto-Submitted", "X-Other");
    for data in [not_the_daemon, not_a_report, not_automatic] {
        let mail = envelope("", &["alice@ex.org"], &data);
        assert_eq!(handler.check_data(&mail, &[STRICT]), refused());
        assert_eq!(handler.check_data(&mail, &[OPEN]), Ok(()));
    }
}

#[test]
fn incoming_securejoin_is_accepted() {
    let handler = IncomingBeforeQueueHandler::new(config());
    let mail = envelope("a@example.net", &["alice@ex.org"], &securejoin_mail("a@example.net"));
    assert_eq!(handler.check_data(&mail, &[STRICT]), Ok(()));
}

#[test]
fn outgoing_sender_must_be_a_mailbox() {
    let handler = OutgoingBeforeQueueHandler::new(config());
    assert_eq!(handler.handle_mail("nobody"), Err("500 Invalid from address <nobody>".to_string()));
    assert_eq!(handler.handle_mail("a@b@c"), Err("500 Invalid from address <a@b@c>".to_string()));
    assert_eq!(handler.handle_mail(""), Err("500 Invalid from address <>".to_string()));
    assert_eq!(handler.handle_mail("u@ex.org"), Ok(()));
}

#[test]
fn outgoing_rate_limit() {
    let handler = OutgoingBeforeQueueHandler::new(Config::new(2, "ex.org".to_string()));
    assert_eq!(handler.handle_mail("u@ex.org"), Ok(()));
    assert_eq!(handler.handle_mail("u@ex.org"), Ok(()));
    let third = handler.handle_mail("u@ex.org").unwrap_err();
    assert!(third.starts_with("450 4.7.1: Too much mail from <u@ex.org>, "), "{}", third);
    assert!(third.len() > "450 4.7.1: Too much mail from <u@ex.org>, ".len());
    // Another sender has a bucket of its own.
    assert_eq!(handler.handle_mail("v@ex.org"), Ok(()));
}

#[test]
fn outgoing_nothing_is_sent_with_a_limit_of_zero() {
    let handler = OutgoingBeforeQueueHandler::new(Config::new(0, "ex.org".to_string()));
    assert_eq!(
        handler.handle_mail("u@ex.org"),
        Err("450 4.7.1: Too much mail from <u@ex.org>, no mail may be sent".to_string())
    );
}

#[test]
fn rate_limit_reply_wording() {
    assert_eq!(rate_limit_reply("u@ex.org", None), Ok(()));
    assert_eq!(
        rate_limit_reply("u@ex.org", Some("rate-limited until later".to_string())),
        Err("450 4.7.1: Too much mail from <u@ex.org>, rate-limited until later".to_string())
    );
}

#[test]
fn outgoing_encrypted_mail_is_accepted() {
    let handler = OutgoingBeforeQueueHandler::new(config());
    let mail = envelope("u@ex.org", &["far@example.net"], &encrypted_mail("u@ex.org", ""));
    assert_eq!(handler.check_data(&mail, &[]), Ok(()));
}

#[test]
fn outgoing_encrypted_mail_with_armor_version_is_refused() {
    let handler = OutgoingBeforeQueueHandler::new(config());
    let mail = envelope("u@ex.org", &["far@example.net"], &encrypted_mail("u@ex.org", "Version: 1\n"));
    assert_eq!(handler.check_data(&mail, &[]), refused());
}

#[test]
fn outgoing_from_header_must_name_the_sender() {
    let handler = OutgoingBeforeQueueHandler::new(config());
    let mail = envelope("u@ex.org", &["far@example.net"], &encrypted_mail("other@ex.org", ""));
    assert_eq!(
        handler.check_data(&mail, &[]),
        Err("500 Invalid FROM <other@ex.org> for <u@ex.org>".to_string())
    );
    // The case of the letters does not count.
    let mail = envelope("U@ex.org", &["far@example.net"], &encrypted_mail("Someone <u@EX.org>", ""));
    assert_eq!(handler.check_data(&mail, &[]), Ok(()));
}

#[test]
fn outgoing_from_header_must_hold_an_address() {
    let handler = OutgoingBeforeQueueHandler::new(config());
    let mail = envelope("u@ex.org", &["far@example.net"], &encrypted_mail("  nobody  ", ""));
    assert_eq!(handler.check_data(&mail, &[]), Err("500 Invalid FROM header: nobody".to_string()));
    let without = "To: bob@ex.org\nSubject: hi\n\nhello\n";
    let mail = envelope("u@ex.org", &["far@example.net"], without);
    assert_eq!(handler.check_data(&mail, &[]), Err("500 Invalid FROM header: ".to_string()));
}

#[test]
fn outgoing_securejoin_is_accepted() {
    let handler = OutgoingBeforeQueueHandler::new(config());
    let mail = envelope("u@ex.org", &["far@example.net"], &securejoin_mail("u@ex.org"));
    assert_eq!(handler.check_data(&mail, &[]), Ok(()));
}

#[test]
fn outgoing_cleartext_is_refused() {
    let handler = OutgoingBeforeQueueHandler::new(config());
    let mail = envelope("u@ex.org", &["far@example.net"], &plain_mail("u@ex.org"));
    assert_eq!(handler.check_data(&mail, &[]), refused());
}

#[test]
fn outgoing_cleartext_from_passthrough_sender_is_accepted() {
    let handler = OutgoingBeforeQueueHandler::new(config());
    let mail = envelope("bot@ex.org", &["far@example.net"], &plain_mail("bot@ex.org"));
    assert_eq!(handler.check_data(&mail, &[]), Ok(()));
}

#[test]
fn outgoing_cleartext_to_passthrough_recipients_is_accepted() {
    let handler = OutgoingBeforeQueueHandler::new(config());
    let mail =
        envelope("u@ex.org", &["pass@example.org", "x@example.com"], &plain_mail("u@ex.org"));
    assert_eq!(handler.check_data(&mail, &[]), Ok(()));
    let mail =
        envelope("u@ex.org", &["pass@example.org", "x@example.net"], &plain_mail("u@ex.org"));
    assert_eq!(handler.check_data(&mail, &[]), refused());
}

#[test]
fn outgoing_setup_message_to_oneself_is_accepted() {
    let handler = OutgoingBeforeQueueHandler::new(config());
    let data = setup_message("u@ex.org", "Autocrypt Setup Message", "multipart/mixed");
    let mail = envelope("u@ex.org", &["u@ex.org"], &data);
    assert_eq!(handler.check_data(&mail, &[]), Ok(()));
}

#[test]
fn outgoing_setup_message_needs_all_its_marks() {
    let handler = OutgoingBeforeQueueHandler::new(config());
    let data = setup_message("u@ex.org", "Autocrypt Setup Message", "multipart/mixed");
    // To someone else.
    let mail = envelope("u@ex.org", &["v@ex.org"], &data);
    assert_eq!(handler.check_data(&mail, &[]), refused());
    // To oneself and someone else.
    let mail = envelope("u@ex.org", &["u@ex.org", "v@ex.org"], &data);
    assert_eq!(handler.check_data(&mail, &[]), refused());
    // Under another subject.
    let other = setup_message("u@ex.org", "autocrypt setup message", "multipart/mixed");
    let mail = envelope("u@ex.org", &["u@ex.org"], &other);
    assert_eq!(handler.check_data(&mail, &[]), refused());
    // With another content type.
    let other = setup_message("u@ex.org", "Autocrypt Setup Message", "multipart/alternative");
    let mail = envelope("u@ex.org", &["u@ex.org"], &other);
    assert_eq!(handler.check_data(&mail, &[]), refused());
}

#[test]
fn cleartext_needs_an_open_mailbox() {
    let config = config();
    assert!(config.is_cleartext_ok("alice@ex.org", OPEN));
    assert!(!config.is_cleartext_ok("alice@ex.org", STRICT));
    assert!(!config.is_cleartext_ok("alice@ex.org", MISSING));
    assert!(!config.is_cleartext_ok("alice", OPEN));
    assert!(!config.is_cleartext_ok("", OPEN));
    assert!(!config.is_cleartext_ok("a/../b@ex.org", OPEN));
    assert!(Config::names_mailbox("alice@ex.org"));
    assert!(!Config::names_mailbox("alice"));
    assert!(!Config::names_mailbox("../alice@ex.org"));
    assert!(!Config::names_mailbox(""));
}

#[test]
fn mailbox_paths() {
    let mut config = config();
    assert_eq!(config.mailboxes_dir(), "/home/vmail/mail/ex.org");
    assert_eq!(config.mailbox_path("alice@ex.org"), "/home/vmail/mail/ex.org/alice@ex.org");
    assert_eq!(
        config.enforce_marker_path("alice@ex.org"),
        "/home/vmail/mail/ex.org/alice@ex.org/enforceE2EEincoming"
    );
    config.mailboxes_dir = Some("/srv/mail".to_string());
    assert_eq!(config.mailboxes_dir(), "/srv/mail");
    assert_eq!(config.enforce_marker_path("bob@ex.org"), "/srv/mail/bob@ex.org/enforceE2EEincoming");
}

#[test]
fn configuration_defaults() {
    let config = Config::new(30, "ex.org".to_string());
    assert_eq!(config.filtermail_smtp_port, 10080);
    assert_eq!(config.filtermail_smtp_port_incoming, 10081);
    assert_eq!(config.postfix_reinject_port, 10025);
    assert_eq!(config.postfix_reinject_port_incoming, 10026);
    assert_eq!(config.max_message_size, 31457280);
    assert_eq!(config.max_user_send_per_minute, 30);
    assert!(config.passthrough_senders.is_empty());
    assert!(config.passthrough_recipients.is_empty());
    assert_eq!(Config::default_filtermail_smtp_port(), 10080);
    assert_eq!(Config::default_filtermail_smtp_port_incoming(), 10081);
    assert_eq!(Config::default_postfix_reinject_port(), 10025);
    assert_eq!(Config::default_postfix_reinject_port_incoming(), 10026);
    assert_eq!(Config::default_max_message_size(), 31457280);
}

#[test]
fn lists_are_split_at_spaces() {
    assert_eq!(split_list("a@ex.org b@ex.org"), vec!["a@ex.org".to_string(), "b@ex.org".to_string()]);
    assert_eq!(split_list("  a@ex.org   @example.com  "), vec!["a@ex.org".to_string(), "@example.com".to_string()]);
    assert_eq!(split_list("one"), vec!["one".to_string()]);
    assert_eq!(split_list(""), Vec::<String>::new());
    assert_eq!(split_list("   "), Vec::<String>::new());
    // Only a space parts two items; other white space is dropped at their ends.
    assert_eq!(split_list("a\tb \tc\r\n"), vec!["a\tb".to_string(), "c".to_string()]);
    assert_eq!(
        split_list("\u{a0}a@ex.org\u{2003} \u{3000} b@ex.org\u{a0}"),
        vec!["a@ex.org".to_string(), "b@ex.org".to_string()]
    );
    assert_eq!(split_list("\u{e4}@ex.org \u{20ac}"), vec!["\u{e4}@ex.org".to_string(), "\u{20ac}".to_string()]);
}

#[test]
fn outgoing_from_header_is_trimmed() {
    let handler = OutgoingBeforeQueueHandler::new(config());
    // The encoded word holds a space, "nobody", and a no-break space.
    let data = "From: =?utf-8?q?=20nobody=C2=A0?=\nSubject: hi\n\nhello\n";
    let mail = envelope("u@ex.org", &["far@example.net"], data);
    assert_eq!(handler.check_data(&mail, &[]), Err("500 Invalid FROM header: nobody".to_string()));
}

#[test]
fn unparsable_message_is_refused() {
    // A header line cannot start with a space.
    let mail = envelope("u@ex.org", &["far@example.net"], " Subject: hi\n\nhello\n");
    let outgoing = OutgoingBeforeQueueHandler::new(config());
    let incoming = IncomingBeforeQueueHandler::new(config());
    for verdict in [outgoing.check_data(&mail, &[]), incoming.check_data(&mail, &[OPEN])] {
        let reply = verdict.unwrap_err();
        assert!(reply.starts_with("500 Failed to parse message: "), "{}", reply);
        assert!(reply.len() > "500 Failed to parse message: ".len());
    }
}
