//! The policy for incoming mail.

use crate::config::{is_mailbox_name, Config, MailboxState};
use crate::message::{
    check_encrypted, encrypted_spec, first_value, is_securejoin, lemma_view, parse_mail,
    parsed_mail, securejoin_spec, MessageView, ParsedMessage,
};
use crate::smtp_server::{Envelope, EnvelopeView, SmtpHandler};
use crate::text::{
    bytes, bytes_eq, lowercased, starts_with, text, to_lowercase, trim_chars, trim_str,
};
use crate::utils::{extract_address, extracted_address};
use crate::ENCRYPTION_NEEDED_523;
use vstd::prelude::*;
use vstd::string::*;

verus! {

/// Handler for incoming SMTP messages.
pub struct IncomingBeforeQueueHandler {
    pub config: Config,
}

/// The `From` header of a message without surrounding white space; empty
/// where the message has none.
pub open spec fn from_header(mail: MessageView) -> Seq<char> {
    match first_value(mail.headers, "From"@) {
        Some(value) => trim_chars(value),
        None => trim_chars(Seq::empty()),
    }
}

/// A delivery status notification: an automatically submitted report that
/// comes from the mailer daemon.
pub open spec fn is_bounce(mail: MessageView) -> bool {
    &&& first_value(mail.headers, "Auto-Submitted"@) matches Some(value) && value.len() > 0
    &&& extracted_address(from_header(mail)) matches Some(from) && text(
        "mailer-daemon@"@,
    ).is_prefix_of(text(lowercased(from)))
    &&& text(mail.mimetype) == text("multipart/report"@)
}

/// Whether cleartext may be delivered to the recipient `addr`, the `i`th of
/// the envelope. A recipient of whose mailbox nothing is known has none.
pub open spec fn cleartext_ok(addr: Seq<char>, mailboxes: Seq<MailboxState>, i: int) -> bool {
    i < mailboxes.len() && is_mailbox_name(addr) && mailboxes[i].exists
        && !mailboxes[i].enforce_e2ee
}

/// Whether cleartext may be delivered to every recipient.
pub open spec fn all_cleartext_ok(rcpt_to: Seq<Seq<char>>, mailboxes: Seq<MailboxState>) -> bool {
    forall|i: int| 0 <= i < rcpt_to.len() ==> cleartext_ok(#[trigger] rcpt_to[i], mailboxes, i)
}

/// What the relay does with an incoming message that was parsed.
///
/// Encrypted mail and secure-join requests pass, and so do bounces. Anything
/// else is cleartext and passes only if every recipient takes cleartext.
pub open spec fn incoming_decision(
    mail: MessageView,
    rcpt_to: Seq<Seq<char>>,
    mailboxes: Seq<MailboxState>,
) -> Result<(), Seq<char>> {
    if encrypted_spec(mail, false) || securejoin_spec(mail) {
        Ok(())
    } else if is_bounce(mail) {
        Ok(())
    } else if all_cleartext_ok(rcpt_to, mailboxes) {
        Ok(())
    } else {
        Err(ENCRYPTION_NEEDED_523@)
    }
}

/// What the relay does with an incoming message.
pub open spec fn incoming_verdict(envelope: EnvelopeView, mailboxes: Seq<MailboxState>) -> Result<
    (),
    Seq<char>,
> {
    match parsed_mail(envelope.data) {
        Err(reason) => Err("500 Failed to parse message: "@ + reason),
        Ok(mail) => incoming_decision(mail, envelope.rcpt_to, mailboxes),
    }
}

/// A result with its refusal as plain text.
pub open spec fn verdict_view(r: Result<(), String>) -> Result<(), Seq<char>> {
    match r {
        Ok(_) => Ok(()),
        Err(refusal) => Err(refusal@),
    }
}

/// Whether the message is a report of the mailer daemon.
pub fn is_mailer_daemon_report(mail: &ParsedMessage) -> (r: bool)
    ensures
        r == is_bounce(mail@),
{
    proof {
        lemma_view(*mail);
    }
    match mail.get_first_value("Auto-Submitted") {
        None => false,
        Some(auto_submitted) => {
            if auto_submitted.as_str().unicode_len() == 0 {
                return false;
            }
            let header = match mail.get_first_value("From") {
                Some(value) => trim_str(value.as_str()),
                None => trim_str(""),
            };
            proof {
                reveal_strlit("");
                assert(""@ =~= Seq::<char>::empty());
            }
            match extract_address(header) {
                None => false,
                Some(from) => {
                    let lower = to_lowercase(from.as_str());
                    starts_with(bytes(&lower), "mailer-daemon@".as_bytes()) && bytes_eq(
                        bytes(&mail.mimetype),
                        "multipart/report".as_bytes(),
                    )
                },
            }
        },
    }
}

impl IncomingBeforeQueueHandler {
    /// A handler for this configuration.
    pub fn new(config: Config) -> (r: Self)
        ensures
            r.config == config,
    {
        Self { config }
    }

    /// Decides on a message that was parsed.
    #[verifier::loop_isolation(false)]
    pub fn decide(&self, mail: &ParsedMessage, rcpt_to: &Vec<String>, mailboxes: &[MailboxState]) -> (r:
        Result<(), String>)
        ensures
            verdict_view(r) == incoming_decision(
                mail@,
                rcpt_to@.map_values(|s: String| s@),
                mailboxes@,
            ),
    {
        // Allow encrypted or securejoin messages.
        if check_encrypted(mail, false) || is_securejoin(mail) {
            return Ok(());
        }
        // Allow cleartext mailer-daemon messages.
        if is_mailer_daemon_report(mail) {
            return Ok(());
        }
        let ghost recipients = rcpt_to@.map_values(|s: String| s@);
        let mut i: usize = 0;
        while i < rcpt_to.len()
            invariant
                i <= rcpt_to@.len(),
                recipients == rcpt_to@.map_values(|s: String| s@),
                forall|j: int| 0 <= j < i ==> cleartext_ok(#[trigger] recipients[j], mailboxes@, j),
            decreases rcpt_to@.len() - i,
        {
            if i >= mailboxes.len() || !self.config.is_cleartext_ok(
                rcpt_to[i].as_str(),
                mailboxes[i],
            ) {
                assert(!cleartext_ok(recipients[i as int], mailboxes@, i as int));
                return Err(String::from_str(ENCRYPTION_NEEDED_523));
            }
            i += 1;
        }
        Ok(())
    }
}

impl SmtpHandler for IncomingBeforeQueueHandler {
    /// Every sender may send to the relay.
    open spec fn admits(&self, address: Seq<char>) -> bool {
        true
    }

    /// Every sender may send to the relay.
    fn handle_mail(&self, address: &str) -> (r: Result<(), String>)
        ensures
            r is Ok,
    {
        Ok(())
    }

    /// What is done with an incoming message.
    open spec fn decides(&self, envelope: EnvelopeView, mailboxes: Seq<MailboxState>) -> Result<
        (),
        Seq<char>,
    > {
        incoming_verdict(envelope, mailboxes)
    }

    /// Parses the message and decides on it: `Err` holds the reply that
    /// refuses it.
    fn check_data(&self, envelope: &Envelope, mailboxes: &[MailboxState]) -> (r: Result<(), String>)
        ensures
            verdict_view(r) == incoming_verdict(envelope@, mailboxes@),
    {
        match parse_mail(envelope.data.as_slice()) {
            Err(reason) => {
                let mut reply = String::from_str("500 Failed to parse message: ");
                reply.append(reason.as_str());
                Err(reply)
            },
            Ok(message) => self.decide(&message, &envelope.rcpt_to, mailboxes),
        }
    }
}

} // verus!
