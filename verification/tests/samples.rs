use filtermail::message::{check_encrypted, is_securejoin, parse_mail, ParsedMessage};

fn parsed(raw: &str) -> ParsedMessage {
    parse_mail(raw.replace('\n', "\r\n").as_bytes()).unwrap()
}

fn encrypted_with(payload: &str) -> String {
    format!(
        "From: <alice@example.org>
To: <bob@example.org>
Subject: ...
Date: Sun, 15 Oct 2023 16:41:44 +0000
Message-ID: <Mr.78MWtlV7RAi.goFv8sFDBrx@c2.testrun.org>
Chat-Version: 1.0
MIME-Version: 1.0
Content-Type: multipart/encrypted; protocol=\"application/pgp-encrypted\";
\tboundary=\"YOvJw8ziXWo5PxYSBvDqmFG2pjJbXI\"


--YOvJw8ziXWo5PxYSBvDqmFG2pjJbXI
Content-Description: PGP/MIME version identification
Content-Type: application/pgp-encrypted

Version: 1


--YOvJw8ziXWo5PxYSBvDqmFG2pjJbXI
Content-Description: OpenPGP encrypted message
Content-Disposition: inline; filename=\"encrypted.asc\";
Content-Type: application/octet-stream; name=\"encrypted.asc\"

-----BEGIN PGP MESSAGE-----

{payload}
-----END PGP MESSAGE-----


--YOvJw8ziXWo5PxYSBvDqmFG2pjJbXI--

"
    )
}

/// A session key packet and a data packet.
fn encrypted() -> String {
    encrypted_with("wQMBAgPSBAECAwQ=\n=6iHb")
}

/// The armor holds text, not packets.
fn fake_encrypted() -> String {
    encrypted_with("VGhpcyBpcyBub3QgZW5jcnlwdGVkIGF0IGFsbC4=\n=6iHb")
}

/// The armor holds a literal data packet.
fn literal() -> String {
    encrypted_with("yxJiAGUWxUloZWxsbyB3b3JsZCE=\n=6iHb")
}

const ASM: &str = "From: alice@example.org
To: alice@example.org
Subject: Autocrypt Setup Message
Autocrypt-Setup-Message: v1
Content-Type: multipart/mixed; boundary=\"Y6fyGi9SoGeH8WwRaEdC6bbBcYOedDzrQ\"

--Y6fyGi9SoGeH8WwRaEdC6bbBcYOedDzrQ
Content-Type: text/plain

This message contains all information to transfer your Autocrypt
settings along with your secret key securely from your first
device.

--Y6fyGi9SoGeH8WwRaEdC6bbBcYOedDzrQ
Content-Type: application/autocrypt-setup
Content-Disposition: attachment; filename=\"autocrypt-setup-message.html\"

<html><body>
<pre>
-----BEGIN PGP MESSAGE-----
Passphrase-Format: numeric9x4
Passphrase-Begin: 17

wy4ECQMI0jNRBQfVKHVg1+a2Yihd6JAjR9H0kk3oDVeX7nc4Oi+IjEtonUJt
=AUIU
-----END PGP MESSAGE-----
</pre></body></html>

--Y6fyGi9SoGeH8WwRaEdC6bbBcYOedDzrQ--
";

const MAILER_DAEMON: &str = "Return-Path: <>
Date: Thu, 19 Oct 2023 14:45:24 +0000 (UTC)
From: MAILER-DAEMON@c2.testrun.org (Mail Delivery System)
Subject: Undelivered Mail Returned to Sender
To: alice@example.org
Auto-Submitted: auto-replied
MIME-Version: 1.0
Content-Type: multipart/report; report-type=delivery-status;
\tboundary=\"2EFE41B3C5A.1697726724/c2.testrun.org\"

This is a MIME-encapsulated message.

--2EFE41B3C5A.1697726724/c2.testrun.org
Content-Description: Notification
Content-Type: text/plain; charset=us-ascii

This is the mail system at host c2.testrun.org.

I'm sorry to have to inform you that your message could not
be delivered to one or more recipients.

--2EFE41B3C5A.1697726724/c2.testrun.org
Content-Description: Delivery report
Content-Type: message/delivery-status

Reporting-MTA: dns; c2.testrun.org

Final-Recipient: rfc822; bob@example.org
Action: failed
Status: 5.1.1

--2EFE41B3C5A.1697726724/c2.testrun.org--
";

const MDN: &str = "From: <alice@example.org>
To: <bob@example.org>
Subject: Message opened
Chat-Version: 1.0
Auto-Submitted: auto-replied
MIME-Version: 1.0
Content-Type: multipart/report; report-type=disposition-notification;
\tboundary=\"SNIPP\"


--SNIPP
Content-Type: text/plain; charset=utf-8

The message was displayed on the screen of the recipient.

--SNIPP
Content-Type: message/disposition-notification

Reporting-UA: Delta Chat
Original-Recipient: rfc822;bob@example.org
Disposition: manual-action/MDN-sent-automatically; displayed

--SNIPP--
";

const PLAIN: &str = "From: <alice@example.org>
To: <bob@example.org>
Subject: hello
Content-Type: text/plain; charset=utf-8

Just a plain message.
";

const SECUREJOIN_VC: &str = "From: <alice@example.org>
To: <bob@example.org>
Subject: Message from alice@example.org
Chat-Version: 1.0
Secure-Join: vc-request
Secure-Join-Invitenumber: RANDOM-TOKEN
MIME-Version: 1.0
Content-Type: multipart/mixed; boundary=\"Rjf4kw8VK5eHMdoFqJosHzhOqosYJq\"


--Rjf4kw8VK5eHMdoFqJosHzhOqosYJq
Content-Type: text/plain; charset=utf-8

Secure-Join: vc-request

--Rjf4kw8VK5eHMdoFqJosHzhOqosYJq--
";

const SECUREJOIN_VC_FAKE: &str = "From: <alice@example.org>
To: <bob@example.org>
Subject: Message from alice@example.org
Chat-Version: 1.0
Secure-Join: vc-request
Secure-Join-Invitenumber: RANDOM-TOKEN
MIME-Version: 1.0
Content-Type: multipart/mixed; boundary=\"Rjf4kw8VK5eHMdoFqJosHzhOqosYJq\"


--Rjf4kw8VK5eHMdoFqJosHzhOqosYJq
Content-Type: text/plain; charset=utf-8

Secure-Join: vc-request

Buy my coins, they are the best!

--Rjf4kw8VK5eHMdoFqJosHzhOqosYJq--
";

fn samples() -> Vec<(&'static str, String)> {
    vec![
        ("asm", ASM.to_string()),
        ("encrypted", encrypted()),
        ("fake_encrypted", fake_encrypted()),
        ("literal", literal()),
        ("mailer_daemon", MAILER_DAEMON.to_string()),
        ("mdn", MDN.to_string()),
        ("plain", PLAIN.to_string()),
        ("securejoin_vc", SECUREJOIN_VC.to_string()),
        ("securejoin_vc_fake", SECUREJOIN_VC_FAKE.to_string()),
    ]
}

#[test]
fn test_is_securejoin() {
    for (name, raw) in samples() {
        let expected = name == "securejoin_vc";
        assert_eq!(is_securejoin(&parsed(&raw)), expected, "{}", name);
    }
}

#[test]
fn test_check_encrypted() {
    for (name, raw) in samples() {
        let expected = name == "encrypted";
        assert_eq!(check_encrypted(&parsed(&raw), false), expected, "{}", name);
    }
}

#[test]
fn samples_pass_the_stricter_check_only_if_they_pass_the_other() {
    for (name, raw) in samples() {
        let mail = parsed(&raw);
        if check_encrypted(&mail, true) {
            assert!(check_encrypted(&mail, false), "{}", name);
        }
        assert!(!(is_securejoin(&mail) && check_encrypted(&mail, false)), "{}", name);
    }
}
