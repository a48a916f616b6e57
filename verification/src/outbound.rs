//! The policy for outgoing mail.

use crate::config::{Config, MailboxState};
use crate::inbound::{from_header, verdict_view};
use crate::message::{
    check_encrypted, encrypted_spec, first_value, is_securejoin, lemma_view, matches_passthrough,
    parse_mail, parsed_mail, recipient_matches_passthrough, securejoin_spec, MessageView,
    ParsedMessage,
};
use crate::smtp_server::{Envelope, EnvelopeView, SmtpHandler};
use crate::text::{
    bytes, bytes_eq, count, count_byte, eq_ignore_ascii_case, eq_ignore_case, text, trim_str,
};
use crate::utils::{extract_address, extracted_address};
use crate::ENCRYPTION_NEEDED_523;
use vstd::prelude::*;
use vstd::string::*;

verus! {

/// The keyed rate limiter of `governor`, with one bucket per sender, on
/// `governor`'s default clock. What it holds changes with time, so nothing of
/// it is visible to the proofs.
#[verifier::external_body]
pub struct SenderLimiter {
    inner: governor::DefaultKeyedRateLimiter<String>,
}

/// The number of mails per minute that a limiter was made to let through.
pub uninterp spec fn quota_of(limiter: SenderLimiter) -> nat;

/// Makes a limiter with `governor::RateLimiter::keyed` from
/// `governor::Quota::per_minute`: `per_minute` cells in 60 seconds, which is
/// also the largest burst. The contract names that number as the quota of
/// the limiter.
#[verifier::external_body]
fn new_limiter(per_minute: u32) -> (r: SenderLimiter)
    requires
        per_minute > 0,
    ensures
        quota_of(r) == per_minute,
{
    SenderLimiter {
        inner: governor::RateLimiter::keyed(
            governor::Quota::per_minute(std::num::NonZeroU32::new(per_minute).unwrap()),
        ),
    }
}

/// Asks `governor::RateLimiter::check_key` to let one mail of `sender`
/// through. Returns `None` where it does, else the text of `governor`'s
/// answer, which says until when the sender is limited. The answer depends on
/// the clock and on what was asked before: nothing is promised of it.
#[verifier::external_body]
fn check_sender(limiter: &SenderLimiter, sender: &str) -> Option<String> {
    limiter.inner.check_key(&sender.to_string()).err().map(|until| until.to_string())
}

/// Drops with `governor::RateLimiter::retain_recent` the senders whose
/// state can no longer be told from a fresh one.
#[verifier::external_body]
fn forget_idle_senders(limiter: &SenderLimiter) {
    limiter.inner.retain_recent()
}

/// The quota of the limiter for a configured number of mails per minute: that
/// number, as far as the limiter can count.
pub open spec fn limiter_quota(max_user_send_per_minute: usize) -> nat {
    if max_user_send_per_minute > 0xffff_ffff {
        0xffff_ffff
    } else {
        max_user_send_per_minute as nat
    }
}

/// Handler for outgoing SMTP messages.
pub struct OutgoingBeforeQueueHandler {
    pub config: Config,
    /// The limiter, or `None` where the configuration allows no mail at all.
    pub send_rate_limiter: Option<SenderLimiter>,
}

/// Whether `address` has the form of a mailbox: exactly one `@`.
pub open spec fn is_mailbox(address: Seq<char>) -> bool {
    count(text(address), 64) == 1
}

/// The reply to a sender address that is no mailbox.
pub open spec fn invalid_sender_reply(address: Seq<char>) -> Seq<char> {
    "500 Invalid from address <"@ + address + ">"@
}

/// What the relay answers a sender, given what the limiter said: `None`
/// where it lets the mail through, else until when the sender is limited.
pub open spec fn rate_limit_verdict(address: Seq<char>, limited: Option<Seq<char>>) -> Result<
    (),
    Seq<char>,
> {
    match limited {
        None => Ok(()),
        Some(until) => Err("450 4.7.1: Too much mail from <"@ + address + ">, "@ + until),
    }
}

/// The answer to a sender, given what the limiter said.
pub fn rate_limit_reply(address: &str, limited: Option<String>) -> (r: Result<(), String>)
    ensures
        verdict_view(r) == rate_limit_verdict(
            address@,
            match limited {
                Some(until) => Some(until@),
                None => None,
            },
        ),
{
    match limited {
        None => Ok(()),
        Some(until) => {
            let mut reply = String::from_str("450 4.7.1: Too much mail from <");
            reply.append(address);
            reply.append(">, ");
            reply.append(until.as_str());
            Err(reply)
        },
    }
}

/// Whether `sender` is one of the senders that may send cleartext.
pub open spec fn is_passthrough_sender(sender: Seq<char>, senders: Seq<String>) -> bool {
    exists|i: int| 0 <= i < senders.len() && (#[trigger] senders[i])@ == sender
}

/// A message by which a user sends a key backup to themselves.
pub open spec fn is_setup_message(mail: MessageView, envelope: EnvelopeView) -> bool {
    &&& envelope.rcpt_to.len() == 1
    &&& envelope.rcpt_to[0] == envelope.mail_from
    &&& text(
        match first_value(mail.headers, "Subject"@) {
            Some(subject) => subject,
            None => Seq::empty(),
        },
    ) == text("Autocrypt Setup Message"@)
    &&& text(mail.mimetype) == text("multipart/mixed"@)
}

/// Whether every recipient is one to whom cleartext may be sent.
pub open spec fn all_passthrough(rcpt_to: Seq<Seq<char>>, patterns: Seq<String>) -> bool {
    forall|i: int| 0 <= i < rcpt_to.len() ==> matches_passthrough(#[trigger] rcpt_to[i], patterns)
}

/// What the relay does with an outgoing message that was parsed.
///
/// The `From` header must name the sender of the envelope. Encrypted mail
/// and secure-join requests pass. Cleartext passes from a passthrough sender,
/// as a setup message to oneself, or to passthrough recipients only.
pub open spec fn outgoing_decision(config: Config, mail: MessageView, envelope: EnvelopeView) -> Result<
    (),
    Seq<char>,
> {
    match extracted_address(from_header(mail)) {
        None => Err("500 Invalid FROM header: "@ + from_header(mail)),
        Some(from) => if !eq_ignore_case(text(envelope.mail_from), text(from)) {
            Err("500 Invalid FROM <"@ + from + "> for <"@ + envelope.mail_from + ">"@)
        } else if encrypted_spec(mail, true) || securejoin_spec(mail) {
            Ok(())
        } else if is_passthrough_sender(envelope.mail_from, config.passthrough_senders@) {
            Ok(())
        } else if is_setup_message(mail, envelope) {
            Ok(())
        } else if all_passthrough(envelope.rcpt_to, config.passthrough_recipients@) {
            Ok(())
        } else {
            Err(ENCRYPTION_NEEDED_523@)
        },
    }
}

/// What the relay does with an outgoing message.
pub open spec fn outgoing_verdict(config: Config, envelope: EnvelopeView) -> Result<(), Seq<char>> {
    match parsed_mail(envelope.data) {
        Err(reason) => Err("500 Failed to parse message: "@ + reason),
        Ok(mail) => outgoing_decision(config, mail, envelope),
    }
}

/// Whether `sender` is one of `senders`.
fn contains_sender(senders: &Vec<String>, sender: &String) -> (r: bool)
    ensures
        r == is_passthrough_sender(sender@, senders@),
{
    let mut i: usize = 0;
    while i < senders.len()
        invariant
            i <= senders@.len(),
            forall|j: int| 0 <= j < i ==> (#[trigger] senders@[j])@ != sender@,
        decreases senders@.len() - i,
    {
        if senders[i] == *sender {
            return true;
        }
        i += 1;
    }
    false
}

/// Whether the message is a setup message that its sender sends to themselves.
fn is_self_sent_setup_message(mail: &ParsedMessage, envelope: &Envelope) -> (r: bool)
    ensures
        r == is_setup_message(mail@, envelope@),
{
    proof {
        lemma_view(*mail);
    }
    if envelope.rcpt_to.len() != 1 {
        return false;
    }
    if envelope.rcpt_to[0] != envelope.mail_from {
        return false;
    }
    let subject_is_setup = match mail.get_first_value("Subject") {
        Some(subject) => bytes_eq(bytes(subject), "Autocrypt Setup Message".as_bytes()),
        None => bytes_eq("".as_bytes(), "Autocrypt Setup Message".as_bytes()),
    };
    proof {
        reveal_strlit("");
        assert(""@ =~= Seq::<char>::empty());
    }
    subject_is_setup && bytes_eq(bytes(&mail.mimetype), "multipart/mixed".as_bytes())
}

impl OutgoingBeforeQueueHandler {
    /// A handler for this configuration. Its limiter lets each sender send
    /// `max_user_send_per_minute` mails in a minute; with a limit of zero
    /// there is no limiter, and no mail is let through.
    pub fn new(config: Config) -> (r: Self)
        ensures
            r.config == config,
            r.send_rate_limiter is None <==> config.max_user_send_per_minute == 0,
            r.send_rate_limiter matches Some(limiter) ==> quota_of(limiter) == limiter_quota(
                config.max_user_send_per_minute,
            ),
    {
        let send_rate_limiter = if config.max_user_send_per_minute == 0 {
            None
        } else if config.max_user_send_per_minute > 0xffff_ffff {
            Some(new_limiter(0xffff_ffff))
        } else {
            Some(new_limiter(config.max_user_send_per_minute as u32))
        };
        Self { config, send_rate_limiter }
    }

    /// Decides on a message that was parsed.
    #[verifier::loop_isolation(false)]
    pub fn decide(&self, mail: &ParsedMessage, envelope: &Envelope) -> (r: Result<(), String>)
        ensures
            verdict_view(r) == outgoing_decision(self.config, mail@, envelope@),
    {
        let header = match mail.get_first_value("From") {
            Some(value) => trim_str(value.as_str()),
            None => trim_str(""),
        };
        proof {
            reveal_strlit("");
            assert(""@ =~= Seq::<char>::empty());
        }
        let from = match extract_address(header) {
            Some(from) => from,
            None => {
                let mut reply = String::from_str("500 Invalid FROM header: ");
                reply.append(header);
                return Err(reply);
            },
        };
        if !eq_ignore_ascii_case(bytes(&envelope.mail_from), bytes(&from)) {
            let mut reply = String::from_str("500 Invalid FROM <");
            reply.append(from.as_str());
            reply.append("> for <");
            reply.append(envelope.mail_from.as_str());
            reply.append(">");
            return Err(reply);
        }
        // Allow encrypted or securejoin messages.
        if check_encrypted(mail, true) || is_securejoin(mail) {
            return Ok(());
        }
        // Allow passthrough senders.
        if contains_sender(&self.config.passthrough_senders, &envelope.mail_from) {
            return Ok(());
        }
        // Allow a self-sent Autocrypt Setup Message.
        if is_self_sent_setup_message(mail, envelope) {
            return Ok(());
        }
        let ghost recipients = envelope@.rcpt_to;
        let mut i: usize = 0;
        while i < envelope.rcpt_to.len()
            invariant
                i <= envelope.rcpt_to@.len(),
                forall|j: int|
                    0 <= j < i ==> matches_passthrough(
                        #[trigger] recipients[j],
                        self.config.passthrough_recipients@,
                    ),
            decreases envelope.rcpt_to@.len() - i,
        {
            if !recipient_matches_passthrough(
                envelope.rcpt_to[i].as_str(),
                self.config.passthrough_recipients.as_slice(),
            ) {
                assert(!matches_passthrough(recipients[i as int], self.config.passthrough_recipients@));
                return Err(String::from_str(ENCRYPTION_NEEDED_523));
            }
            i += 1;
        }
        Ok(())
    }
}

impl SmtpHandler for OutgoingBeforeQueueHandler {
    /// Only a mailbox may send.
    open spec fn admits(&self, address: Seq<char>) -> bool {
        is_mailbox(address)
    }

    /// Turns away a sender that is no mailbox, and one that has sent too much.
    fn handle_mail(&self, address: &str) -> (r: Result<(), String>)
        ensures
            !is_mailbox(address@) ==> verdict_view(r) == Err::<(), Seq<char>>(
                invalid_sender_reply(address@),
            ),
            is_mailbox(address@) ==> exists|limited: Option<Seq<char>>|
                verdict_view(r) == rate_limit_verdict(address@, limited),
            is_mailbox(address@) && self.send_rate_limiter is None ==> verdict_view(r)
                == rate_limit_verdict(address@, Some("no mail may be sent"@)),
    {
        if count_byte(address.as_bytes(), 64) != 1 {
            let mut reply = String::from_str("500 Invalid from address <");
            reply.append(address);
            reply.append(">");
            return Err(reply);
        }
        let limited = match &self.send_rate_limiter {
            None => Some(String::from_str("no mail may be sent")),
            Some(limiter) => {
                let limited = check_sender(limiter, address);
                if limited.is_none() {
                    // Cleanup runs only after a successful check, so a sender
                    // that is being turned away cannot cause it.
                    forget_idle_senders(limiter);
                }
                limited
            },
        };
        rate_limit_reply(address, limited)
    }

    /// What is done with an outgoing message. Nothing is asked of the mailboxes.
    open spec fn decides(&self, envelope: EnvelopeView, mailboxes: Seq<MailboxState>) -> Result<
        (),
        Seq<char>,
    > {
        outgoing_verdict(self.config, envelope)
    }

    /// Parses the message and decides on it: `Err` holds the reply that
    /// refuses it. Nothing is asked of the mailboxes.
    fn check_data(&self, envelope: &Envelope, mailboxes: &[MailboxState]) -> (r: Result<(), String>)
        ensures
            verdict_view(r) == outgoing_verdict(self.config, envelope@),
    {
        match parse_mail(envelope.data.as_slice()) {
            Err(reason) => {
                let mut reply = String::from_str("500 Failed to parse message: ");
                reply.append(reason.as_str());
                Err(reply)
            },
            Ok(message) => self.decide(&message, envelope),
        }
    }
}

} // verus!
