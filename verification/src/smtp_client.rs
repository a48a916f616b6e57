//! The SMTP dialogue by which an accepted message is handed on.
//!
//! Plain SMTP with `HELO`: no extension is used. The client is a state machine
//! over the lines that the server answers; whoever owns the socket feeds it and
//! writes what it hands out. The message is sent as it was received: nothing is
//! escaped or rewritten.

use crate::error::Error;
use crate::smtp_server::{Envelope, EnvelopeView};
use crate::text::{bytes, starts_with, text};
use vstd::prelude::*;
use vstd::string::*;

verus! {

/// Which answer of the server the client waits for.
#[derive(Debug, Clone, Copy, PartialEq, Eq)]
pub enum Stage {
    /// The greeting of the server.
    Greeting,
    /// The answer to `HELO`.
    Hello,
    /// The answer to `MAIL FROM`.
    Sender,
    /// The answer to `RCPT TO` for the recipient with this index.
    Recipient(usize),
    /// The answer to `DATA`.
    Data,
    /// The answer to the message.
    Body,
    /// None: the exchange is over.
    Done,
}

/// What the owner of the socket is to do next.
#[derive(Debug)]
pub enum ClientAction {
    /// Write these bytes, then read a line and hand it to `on_reply`.
    Send(Vec<u8>),
    /// The server has taken the message.
    Done,
}

/// The outcome of one step of the client, as plain values.
pub enum ClientOutcome {
    Send(Seq<u8>),
    Done,
    /// The server answered `answer` where another code was expected.
    Failed { context: Seq<char>, answer: Seq<char> },
    /// Any other error. No step of the client ends so.
    Broken,
}

/// The code with which the awaited answer has to begin.
pub open spec fn expected_code(stage: Stage) -> Seq<char> {
    match stage {
        Stage::Greeting => "220"@,
        Stage::Data => "354"@,
        _ => "250"@,
    }
}

/// What the client was doing when it waited for an answer in `stage`.
pub open spec fn context_of(stage: Stage) -> Seq<char> {
    match stage {
        Stage::Greeting => "initial greeting"@,
        Stage::Hello => "HELO"@,
        Stage::Sender => "MAIL FROM"@,
        Stage::Recipient(_) => "RCPT TO"@,
        Stage::Data => "DATA"@,
        _ => "end of DATA"@,
    }
}

/// The command that names the sender.
pub open spec fn mail_from_command(envelope: EnvelopeView) -> Seq<u8> {
    text("MAIL FROM:<"@) + text(envelope.mail_from) + text(">\r\n"@)
}

/// The command that names one recipient.
pub open spec fn rcpt_to_command(recipient: Seq<char>) -> Seq<u8> {
    text("RCPT TO:<"@) + text(recipient) + text(">\r\n"@)
}

/// The message as it is sent: the data of the envelope, byte for byte, and
/// the line that ends it.
pub open spec fn message_bytes(envelope: EnvelopeView) -> Seq<u8> {
    envelope.data + text(".\r\n"@)
}

/// What follows once the recipients before the `k`th are named: the `k`th,
/// or the message where there is no more.
pub open spec fn after_recipients(envelope: EnvelopeView, k: int) -> (Stage, ClientOutcome) {
    if 0 <= k < envelope.rcpt_to.len() && k <= usize::MAX {
        (Stage::Recipient(k as usize), ClientOutcome::Send(rcpt_to_command(envelope.rcpt_to[k])))
    } else {
        (Stage::Data, ClientOutcome::Send(text("DATA\r\n"@)))
    }
}

/// What an answer of the server does to the client.
pub open spec fn client_step(stage: Stage, envelope: EnvelopeView, reply: Seq<char>) -> (
    Stage,
    ClientOutcome,
) {
    if stage == Stage::Done {
        (Stage::Done, ClientOutcome::Done)
    } else if !text(expected_code(stage)).is_prefix_of(text(reply)) {
        (Stage::Done, ClientOutcome::Failed { context: context_of(stage), answer: reply })
    } else {
        match stage {
            Stage::Greeting => (Stage::Hello, ClientOutcome::Send(text("HELO localhost\r\n"@))),
            Stage::Hello => (Stage::Sender, ClientOutcome::Send(mail_from_command(envelope))),
            Stage::Sender => after_recipients(envelope, 0),
            Stage::Recipient(i) => after_recipients(envelope, i + 1),
            Stage::Data => (Stage::Body, ClientOutcome::Send(message_bytes(envelope))),
            _ => (Stage::Done, ClientOutcome::Done),
        }
    }
}

/// The result of a step with its parts as plain values.
pub open spec fn outcome_of(r: Result<ClientAction, Error>) -> ClientOutcome {
    match r {
        Ok(ClientAction::Send(out)) => ClientOutcome::Send(out@),
        Ok(ClientAction::Done) => ClientOutcome::Done,
        Err(Error::MailSend { context, raw_smtp_answer }) => ClientOutcome::Failed {
            context: context@,
            answer: raw_smtp_answer@,
        },
        Err(_) => ClientOutcome::Broken,
    }
}

/// No step of the client ends with an error other than an unexpected answer
/// of the server: where every answer is as expected, every step succeeds.
pub proof fn lemma_client_fails_on_answers_only(
    stage: Stage,
    envelope: EnvelopeView,
    reply: Seq<char>,
)
    ensures
        client_step(stage, envelope, reply).1 != ClientOutcome::Broken,
        client_step(stage, envelope, reply).1 is Failed <==> stage != Stage::Done && !text(
            expected_code(stage),
        ).is_prefix_of(text(reply)),
{
}

/// An accepted message is handed on byte for byte: once the server asks for
/// the data, what is sent is the data of the envelope and the line that ends it.
pub proof fn lemma_message_sent_verbatim(envelope: EnvelopeView, reply: Seq<char>)
    requires
        text("354"@).is_prefix_of(text(reply)),
    ensures
        client_step(Stage::Data, envelope, reply) == (
            Stage::Body,
            ClientOutcome::Send(envelope.data + text(".\r\n"@)),
        ),
{
}

/// What a step hands out to be sent; nothing where it hands out no bytes.
pub open spec fn sent_by(outcome: ClientOutcome) -> Seq<u8> {
    match outcome {
        ClientOutcome::Send(out) => out,
        _ => Seq::empty(),
    }
}

/// Everything that the client sends when the server gives the answers
/// `replies` in turn, starting in `stage`.
pub open spec fn sent_from(stage: Stage, envelope: EnvelopeView, replies: Seq<Seq<char>>) -> Seq<u8>
    decreases replies.len(),
{
    if replies.len() == 0 {
        Seq::empty()
    } else {
        let (next, outcome) = client_step(stage, envelope, replies[0]);
        sent_by(outcome) + sent_from(next, envelope, replies.drop_first())
    }
}

/// Where the client stands after the answers `replies`, starting in `stage`.
pub open spec fn stage_after(stage: Stage, envelope: EnvelopeView, replies: Seq<Seq<char>>) -> Stage
    decreases replies.len(),
{
    if replies.len() == 0 {
        stage
    } else {
        stage_after(client_step(stage, envelope, replies[0]).0, envelope, replies.drop_first())
    }
}

/// Whether each of the answers `replies` begins with the code that the
/// client expects when it comes, starting in `stage`.
pub open spec fn all_accepted(stage: Stage, envelope: EnvelopeView, replies: Seq<Seq<char>>) -> bool
    decreases replies.len(),
{
    replies.len() > 0 ==> {
        &&& text(expected_code(stage)).is_prefix_of(text(replies[0]))
        &&& all_accepted(client_step(stage, envelope, replies[0]).0, envelope, replies.drop_first())
    }
}

/// The commands that name the recipients from the `k`th on.
pub open spec fn recipients_from(envelope: EnvelopeView, k: int) -> Seq<u8>
    decreases envelope.rcpt_to.len() - k,
{
    if 0 <= k < envelope.rcpt_to.len() {
        rcpt_to_command(envelope.rcpt_to[k]) + recipients_from(envelope, k + 1)
    } else {
        Seq::empty()
    }
}

/// Everything that is sent in an exchange that hands on the message of
/// `envelope`, up to and with the message.
pub open spec fn whole_exchange(envelope: EnvelopeView) -> Seq<u8> {
    text("HELO localhost\r\n"@) + mail_from_command(envelope) + recipients_from(envelope, 0) + text(
        "DATA\r\n"@,
    ) + message_bytes(envelope)
}

/// From the answer to the command that starts the data on.
proof fn lemma_exchange_from_data(envelope: EnvelopeView, replies: Seq<Seq<char>>)
    requires
        replies.len() == 1,
        all_accepted(Stage::Data, envelope, replies),
    ensures
        sent_from(Stage::Data, envelope, replies) == message_bytes(envelope),
        stage_after(Stage::Data, envelope, replies) == Stage::Body,
{
    let rest = replies.drop_first();
    assert(sent_from(Stage::Body, envelope, rest) =~= Seq::<u8>::empty());
    assert(stage_after(Stage::Body, envelope, rest) == Stage::Body);
    assert(sent_from(Stage::Data, envelope, replies) =~= message_bytes(envelope));
}

/// From the answer to the command that names the `k`th recipient on.
proof fn lemma_exchange_from_recipient(envelope: EnvelopeView, k: int, replies: Seq<Seq<char>>)
    requires
        0 <= k < envelope.rcpt_to.len() <= usize::MAX,
        replies.len() == envelope.rcpt_to.len() - k + 1,
        all_accepted(Stage::Recipient(k as usize), envelope, replies),
    ensures
        sent_from(Stage::Recipient(k as usize), envelope, replies) == recipients_from(
            envelope,
            k + 1,
        ) + text("DATA\r\n"@) + message_bytes(envelope),
        stage_after(Stage::Recipient(k as usize), envelope, replies) == Stage::Body,
    decreases envelope.rcpt_to.len() - k,
{
    let rest = replies.drop_first();
    if k + 1 < envelope.rcpt_to.len() {
        lemma_exchange_from_recipient(envelope, k + 1, rest);
        assert(sent_from(Stage::Recipient(k as usize), envelope, replies) =~= recipients_from(
            envelope,
            k + 1,
        ) + text("DATA\r\n"@) + message_bytes(envelope));
    } else {
        lemma_exchange_from_data(envelope, rest);
        assert(recipients_from(envelope, k + 1) =~= Seq::<u8>::empty());
        assert(sent_from(Stage::Recipient(k as usize), envelope, replies) =~= recipients_from(
            envelope,
            k + 1,
        ) + text("DATA\r\n"@) + message_bytes(envelope));
    }
}

/// From the answer to the command that names the sender on.
proof fn lemma_exchange_from_sender(envelope: EnvelopeView, replies: Seq<Seq<char>>)
    requires
        envelope.rcpt_to.len() <= usize::MAX,
        replies.len() == envelope.rcpt_to.len() + 2,
        all_accepted(Stage::Sender, envelope, replies),
    ensures
        sent_from(Stage::Sender, envelope, replies) == recipients_from(envelope, 0) + text(
            "DATA\r\n"@,
        ) + message_bytes(envelope),
        stage_after(Stage::Sender, envelope, replies) == Stage::Body,
{
    let rest = replies.drop_first();
    if envelope.rcpt_to.len() > 0 {
        lemma_exchange_from_recipient(envelope, 0, rest);
    } else {
        lemma_exchange_from_data(envelope, rest);
        assert(recipients_from(envelope, 0) =~= Seq::<u8>::empty());
    }
    assert(sent_from(Stage::Sender, envelope, replies) =~= recipients_from(envelope, 0) + text(
        "DATA\r\n"@,
    ) + message_bytes(envelope));
}

/// From the answer to the greeting of the client on.
proof fn lemma_exchange_from_hello(envelope: EnvelopeView, replies: Seq<Seq<char>>)
    requires
        envelope.rcpt_to.len() <= usize::MAX,
        replies.len() == envelope.rcpt_to.len() + 3,
        all_accepted(Stage::Hello, envelope, replies),
    ensures
        sent_from(Stage::Hello, envelope, replies) == mail_from_command(envelope)
            + recipients_from(envelope, 0) + text("DATA\r\n"@) + message_bytes(envelope),
        stage_after(Stage::Hello, envelope, replies) == Stage::Body,
{
    lemma_exchange_from_sender(envelope, replies.drop_first());
    assert(sent_from(Stage::Hello, envelope, replies) =~= mail_from_command(envelope)
        + recipients_from(envelope, 0) + text("DATA\r\n"@) + message_bytes(envelope));
}

/// Where the server accepts every step, the client sends the greeting, the
/// sender, each recipient in order, and the message byte for byte as it
/// stands in the envelope; then it waits for the answer to the message.
pub proof fn lemma_exchange_hands_on_the_message(envelope: EnvelopeView, replies: Seq<Seq<char>>)
    requires
        envelope.rcpt_to.len() <= usize::MAX,
        replies.len() == envelope.rcpt_to.len() + 4,
        all_accepted(Stage::Greeting, envelope, replies),
    ensures
        sent_from(Stage::Greeting, envelope, replies) == whole_exchange(envelope),
        stage_after(Stage::Greeting, envelope, replies) == Stage::Body,
{
    lemma_exchange_from_hello(envelope, replies.drop_first());
    assert(sent_from(Stage::Greeting, envelope, replies) =~= whole_exchange(envelope));
}

/// An exchange can be read in two parts: what happens on the answers `first`,
/// and what happens on the answers `then` from where the client stands after
/// `first`.
pub proof fn lemma_exchange_in_parts(
    stage: Stage,
    envelope: EnvelopeView,
    first: Seq<Seq<char>>,
    then: Seq<Seq<char>>,
)
    ensures
        stage_after(stage, envelope, first + then) == stage_after(
            stage_after(stage, envelope, first),
            envelope,
            then,
        ),
        sent_from(stage, envelope, first + then) == sent_from(stage, envelope, first) + sent_from(
            stage_after(stage, envelope, first),
            envelope,
            then,
        ),
        all_accepted(stage, envelope, first + then) <==> all_accepted(stage, envelope, first)
            && all_accepted(stage_after(stage, envelope, first), envelope, then),
    decreases first.len(),
{
    if first.len() == 0 {
        assert(first + then =~= then);
        assert(sent_from(stage, envelope, first) + sent_from(stage, envelope, then) =~= sent_from(
            stage,
            envelope,
            then,
        ));
    } else {
        let next = client_step(stage, envelope, first[0]).0;
        assert((first + then)[0] == first[0]);
        assert((first + then).drop_first() =~= first.drop_first() + then);
        lemma_exchange_in_parts(next, envelope, first.drop_first(), then);
        assert(sent_from(stage, envelope, first + then) =~= sent_from(stage, envelope, first)
            + sent_from(stage_after(stage, envelope, first), envelope, then));
    }
}

/// Where the server accepts every step and the message, the exchange ends
/// well: the client has sent the whole exchange and nothing else, it is done,
/// and its last step hands out that the server has taken the message.
pub proof fn lemma_accepted_exchange_succeeds(envelope: EnvelopeView, replies: Seq<Seq<char>>)
    requires
        envelope.rcpt_to.len() <= usize::MAX,
        replies.len() == envelope.rcpt_to.len() + 5,
        all_accepted(Stage::Greeting, envelope, replies),
    ensures
        stage_after(Stage::Greeting, envelope, replies) == Stage::Done,
        sent_from(Stage::Greeting, envelope, replies) == whole_exchange(envelope),
        client_step(Stage::Body, envelope, replies.last()) == (Stage::Done, ClientOutcome::Done),
{
    let first = replies.drop_last();
    let then = seq![replies.last()];
    assert(replies =~= first + then);
    lemma_exchange_in_parts(Stage::Greeting, envelope, first, then);
    lemma_exchange_hands_on_the_message(envelope, first);
    assert(then.drop_first() =~= Seq::<Seq<char>>::empty());
    assert(then[0] == replies.last());
    assert(all_accepted(Stage::Body, envelope, then));
    assert(client_step(Stage::Body, envelope, then[0]) == (Stage::Done, ClientOutcome::Done));
    assert(stage_after(Stage::Done, envelope, then.drop_first()) == Stage::Done);
    assert(stage_after(Stage::Body, envelope, then) == Stage::Done);
    assert(sent_from(Stage::Done, envelope, then.drop_first()) =~= Seq::<u8>::empty());
    assert(sent_from(Stage::Body, envelope, then) =~= Seq::<u8>::empty());
    assert(sent_from(Stage::Greeting, envelope, replies) =~= whole_exchange(envelope));
}

/// The client side of one exchange.
#[derive(Debug)]
pub struct Client {
    pub stage: Stage,
}

/// The bytes of `head`, `middle` and `tail` in a row.
fn framed(head: &str, middle: &[u8], tail: &str) -> (r: Vec<u8>)
    ensures
        r@ == text(head@) + middle@ + text(tail@),
{
    let mut out: Vec<u8> = Vec::new();
    out.extend_from_slice(head.as_bytes());
    out.extend_from_slice(middle);
    out.extend_from_slice(tail.as_bytes());
    assert(out@ =~= text(head@) + middle@ + text(tail@));
    out
}

/// The bytes of a command that is the same for every envelope.
fn fixed(command: &str) -> (r: Vec<u8>)
    ensures
        r@ == text(command@),
{
    let mut out: Vec<u8> = Vec::new();
    out.extend_from_slice(command.as_bytes());
    assert(out@ =~= text(command@));
    out
}

/// The bytes of a message and of the line that ends it.
fn closed_message(data: &[u8]) -> (r: Vec<u8>)
    ensures
        r@ == data@ + text(".\r\n"@),
{
    let mut out: Vec<u8> = Vec::new();
    out.extend_from_slice(data);
    out.extend_from_slice(".\r\n".as_bytes());
    assert(out@ =~= data@ + text(".\r\n"@));
    out
}

impl Client {
    /// A client that waits for the greeting of the server.
    pub fn new() -> (r: Self)
        ensures
            r.stage == Stage::Greeting,
    {
        Client { stage: Stage::Greeting }
    }

    /// The name of what the client is doing, for an error.
    fn context(&self) -> (r: String)
        ensures
            r@ == context_of(self.stage),
    {
        match self.stage {
            Stage::Greeting => String::from_str("initial greeting"),
            Stage::Hello => String::from_str("HELO"),
            Stage::Sender => String::from_str("MAIL FROM"),
            Stage::Recipient(_) => String::from_str("RCPT TO"),
            Stage::Data => String::from_str("DATA"),
            _ => String::from_str("end of DATA"),
        }
    }

    /// Names the `k`th recipient, or starts the message where there is none.
    fn name_recipient(&mut self, envelope: &Envelope, k: usize) -> (r: ClientAction)
        ensures
            (final(self).stage, outcome_of(Ok(r))) == after_recipients(envelope@, k as int),
    {
        if k < envelope.rcpt_to.len() {
            self.stage = Stage::Recipient(k);
            ClientAction::Send(framed("RCPT TO:<", bytes(&envelope.rcpt_to[k]), ">\r\n"))
        } else {
            self.stage = Stage::Data;
            ClientAction::Send(fixed("DATA\r\n"))
        }
    }

    /// Sends an email to an SMTP server, one step for each line that the
    /// server answers.
    ///
    /// # Errors
    ///
    /// Returns [`Error::MailSend`] with the server's line where it does not
    /// begin with the code that was expected; the exchange is then over.
    pub fn on_reply(&mut self, envelope: &Envelope, reply: &str) -> (r: Result<ClientAction, Error>)
        ensures
            (final(self).stage, outcome_of(r)) == client_step(old(self).stage, envelope@, reply@),
            r is Err ==> r matches Err(Error::MailSend { .. }),
            r is Ok <==> (old(self).stage == Stage::Done || text(
                expected_code(old(self).stage),
            ).is_prefix_of(text(reply@))),
    {
        let code = match self.stage {
            Stage::Done => {
                return Ok(ClientAction::Done);
            },
            Stage::Greeting => "220",
            Stage::Data => "354",
            _ => "250",
        };
        if !starts_with(reply.as_bytes(), code.as_bytes()) {
            let context = self.context();
            self.stage = Stage::Done;
            return Err(Error::MailSend { context, raw_smtp_answer: String::from_str(reply) });
        }
        match self.stage {
            Stage::Greeting => {
                self.stage = Stage::Hello;
                Ok(ClientAction::Send(fixed("HELO localhost\r\n")))
            },
            Stage::Hello => {
                self.stage = Stage::Sender;
                Ok(ClientAction::Send(framed("MAIL FROM:<", bytes(&envelope.mail_from), ">\r\n")))
            },
            Stage::Sender => Ok(self.name_recipient(envelope, 0)),
            Stage::Recipient(i) => {
                if i == usize::MAX {
                    self.stage = Stage::Data;
                    Ok(ClientAction::Send(fixed("DATA\r\n")))
                } else {
                    Ok(self.name_recipient(envelope, i + 1))
                }
            },
            Stage::Data => {
                self.stage = Stage::Body;
                Ok(ClientAction::Send(closed_message(envelope.data.as_slice())))
            },
            _ => {
                self.stage = Stage::Done;
                Ok(ClientAction::Done)
            },
        }
    }
}

} // verus!
