//! The SMTP dialogue that the filter holds with the server that hands it mail.
//!
//! A deliberately small dialect: no extensions, one reply per line. The session
//! is a state machine over the lines read; whoever owns the socket feeds it and
//! does what it says.

use crate::config::MailboxState;
use crate::text::{
    bytes, bytes_eq, chars_of, crlf, ends_with, lemma_crlf, starts_with, str_until, text, to_uppercase,
    uppercased,
};
use crate::utils::{extract_address, extracted_address};
use vstd::prelude::*;
use vstd::string::*;
use vstd::utf8::{is_ascii_chars, is_ascii_chars_encode_utf8};

verus! {

/// An SMTP envelope with sender, recipients, and raw message data.
#[derive(Debug, Clone)]
pub struct Envelope {
    pub mail_from: String,
    pub rcpt_to: Vec<String>,
    pub data: Vec<u8>,
}

/// An envelope as plain values.
pub struct EnvelopeView {
    pub mail_from: Seq<char>,
    pub rcpt_to: Seq<Seq<char>>,
    pub data: Seq<u8>,
}

impl View for Envelope {
    type V = EnvelopeView;

    open spec fn view(&self) -> EnvelopeView {
        EnvelopeView {
            mail_from: self.mail_from@,
            rcpt_to: self.rcpt_to@.map_values(|s: String| s@),
            data: self.data@,
        }
    }
}

/// The envelope of a session in which nothing has been said yet.
pub open spec fn empty_envelope() -> EnvelopeView {
    EnvelopeView { mail_from: Seq::empty(), rcpt_to: Seq::empty(), data: Seq::empty() }
}

impl Envelope {
    /// An envelope without sender, recipients or data.
    pub fn new() -> (r: Self)
        ensures
            r@ == empty_envelope(),
    {
        let r = Envelope { mail_from: String::new(), rcpt_to: Vec::new(), data: Vec::new() };
        assert(r@.rcpt_to =~= Seq::empty());
        r
    }
}

/// The policy of one direction of mail, as the session consults it.
pub trait SmtpHandler {
    /// Whether the handler can let the sender `address` through at all.
    spec fn admits(&self, address: Seq<char>) -> bool;

    /// Handles the MAIL FROM command: `Err` holds the reply that turns the
    /// sender away.
    fn handle_mail(&self, address: &str) -> (r: Result<(), String>)
        ensures
            r is Ok ==> self.admits(address@),
    ;

    /// Checks the message once its data is complete, before it is handed on:
    /// `Err` holds the reply that refuses it. `mailboxes` says what is known
    /// of each recipient's mailbox, in the order of the recipients.
    fn check_data(&self, envelope: &Envelope, mailboxes: &[MailboxState]) -> (r: Result<
        (),
        String,
    >)
        ensures
            outcome_view(r) == self.decides(envelope@, mailboxes@),
    ;

    /// What the handler decides on a complete message: to let it through, or
    /// the reply that refuses it.
    spec fn decides(&self, envelope: EnvelopeView, mailboxes: Seq<MailboxState>) -> Result<
        (),
        Seq<char>,
    >;
}

/// Where a session stands.
#[derive(Debug, Clone, Copy, PartialEq, Eq)]
pub enum Phase {
    /// Commands are read.
    Command,
    /// The lines of a message are read.
    Data,
    /// The connection is to be closed; nothing more is read.
    Closed,
}

/// The commands that the session knows.
pub enum Command {
    Hello,
    MailFrom,
    RcptTo,
    Data,
    Quit,
    Reset,
    Noop,
    Unknown,
}

/// What the owner of the socket is to do next.
#[derive(Debug)]
pub enum Action {
    /// Write the reply, then read the next line.
    Reply(String),
    /// Read the next line.
    Continue,
    /// Write the reply, then close the connection.
    ReplyAndClose(String),
    /// Close the connection.
    Close,
    /// Ask the handler whether this sender may send, then report with
    /// `sender_checked`.
    CheckSender(String),
    /// The message is complete: have it checked with `handle_data`.
    Deliver,
    /// The message has passed the check: hand it on, then report with
    /// `delivered`.
    Reinject,
}

/// An action as plain values.
pub enum Reaction {
    Reply(Seq<char>),
    Continue,
    ReplyAndClose(Seq<char>),
    Close,
    CheckSender(Seq<char>),
    Deliver,
    Reinject,
}

impl View for Action {
    type V = Reaction;

    open spec fn view(&self) -> Reaction {
        match self {
            Action::Reply(line) => Reaction::Reply(line@),
            Action::Continue => Reaction::Continue,
            Action::ReplyAndClose(line) => Reaction::ReplyAndClose(line@),
            Action::Close => Reaction::Close,
            Action::CheckSender(address) => Reaction::CheckSender(address@),
            Action::Deliver => Reaction::Deliver,
            Action::Reinject => Reaction::Reinject,
        }
    }
}

/// One SMTP session: the phase it is in, the envelope gathered so far, and
/// the largest message it takes.
#[derive(Debug)]
pub struct Session {
    pub phase: Phase,
    pub envelope: Envelope,
    pub max_size: usize,
}

/// A session as plain values.
pub struct SessionState {
    pub phase: Phase,
    pub envelope: EnvelopeView,
    pub max_size: int,
}

impl View for Session {
    type V = SessionState;

    open spec fn view(&self) -> SessionState {
        SessionState {
            phase: self.phase,
            envelope: self.envelope@,
            max_size: self.max_size as int,
        }
    }
}

/// The line that greets a new connection.
pub open spec fn greeting() -> Seq<char> {
    "220 filtermail SMTP\r\n"@
}

/// The reply to a command that was carried out.
pub open spec fn reply_ok() -> Seq<char> {
    "250 OK\r\n"@
}

/// Whether `line` ends as every line of the dialogue must.
pub open spec fn ends_line(line: Seq<char>) -> bool {
    crlf().is_suffix_of(text(line))
}

/// The command in a line: the line without its end.
pub open spec fn command_text(line: Seq<char>) -> Seq<char> {
    chars_of(text(line).take(text(line).len() - crlf().len()))
}

/// Which command a command line holds. It is known by how the line begins,
/// whatever the case of its letters.
pub open spec fn command_of(cmd: Seq<char>) -> Command {
    let verb = text(uppercased(cmd));
    if text("HELO"@).is_prefix_of(verb) || text("EHLO"@).is_prefix_of(verb) {
        Command::Hello
    } else if text("MAIL FROM:"@).is_prefix_of(verb) {
        Command::MailFrom
    } else if text("RCPT TO:"@).is_prefix_of(verb) {
        Command::RcptTo
    } else if text("DATA"@).is_prefix_of(verb) {
        Command::Data
    } else if text("QUIT"@).is_prefix_of(verb) {
        Command::Quit
    } else if text("RSET"@).is_prefix_of(verb) {
        Command::Reset
    } else if text("NOOP"@).is_prefix_of(verb) {
        Command::Noop
    } else {
        Command::Unknown
    }
}

/// The session `s` after its connection was given up.
pub open spec fn closed(s: SessionState) -> SessionState {
    SessionState { phase: Phase::Closed, ..s }
}

/// The session `s` with the envelope `envelope`.
pub open spec fn with_envelope(s: SessionState, envelope: EnvelopeView) -> SessionState {
    SessionState { envelope, ..s }
}

/// What a command does to a session that reads commands.
pub open spec fn command_step(s: SessionState, cmd: Seq<char>) -> (SessionState, Reaction) {
    match command_of(cmd) {
        Command::Hello => (s, Reaction::Reply(reply_ok())),
        Command::MailFrom => match extracted_address(cmd) {
            Some(from) => (s, Reaction::CheckSender(from)),
            None => (s, Reaction::Reply("500 Invalid address in MAIL FROM\r\n"@)),
        },
        Command::RcptTo => match extracted_address(cmd) {
            Some(to) => (
                with_envelope(
                    s,
                    EnvelopeView { rcpt_to: s.envelope.rcpt_to.push(to), ..s.envelope },
                ),
                Reaction::Reply(reply_ok()),
            ),
            None => (s, Reaction::Continue),
        },
        Command::Data => (
            SessionState {
                phase: Phase::Data,
                envelope: EnvelopeView { data: Seq::empty(), ..s.envelope },
                ..s
            },
            Reaction::Reply("354 End data with <CR><LF>.<CR><LF>\r\n"@),
        ),
        Command::Quit => (closed(s), Reaction::ReplyAndClose("221 OK\r\n"@)),
        Command::Reset => (with_envelope(s, empty_envelope()), Reaction::Reply(reply_ok())),
        Command::Noop => (s, Reaction::Reply(reply_ok())),
        Command::Unknown => (s, Reaction::Reply("500 Command not recognized\r\n"@)),
    }
}

/// What a line of a message does to a session that reads data.
///
/// A line that holds a single dot ends the message. Any other line is added
/// to the data as it came; nothing is unescaped.
pub open spec fn data_step(s: SessionState, line: Seq<char>) -> (SessionState, Reaction) {
    if text(line) == text(".\r\n"@) {
        (SessionState { phase: Phase::Command, ..s }, Reaction::Deliver)
    } else if !ends_line(line) {
        (closed(s), Reaction::Close)
    } else {
        let grown = with_envelope(
            s,
            EnvelopeView { data: s.envelope.data + text(line), ..s.envelope },
        );
        if grown.envelope.data.len() > s.max_size {
            (closed(grown), Reaction::ReplyAndClose("552 Message exceeds maximum size\r\n"@))
        } else {
            (grown, Reaction::Continue)
        }
    }
}

/// What a line read from the connection does to a session. A line is what
/// was read up to and with the next line feed; it is empty at the end of the
/// input.
pub open spec fn step(s: SessionState, line: Seq<char>) -> (SessionState, Reaction) {
    match s.phase {
        Phase::Closed => (s, Reaction::Close),
        Phase::Command => if ends_line(line) {
            command_step(s, command_text(line))
        } else {
            (closed(s), Reaction::Close)
        },
        Phase::Data => data_step(s, line),
    }
}

/// A reply as a line: with the line end added where the reply has none. An
/// answer that is handed on as it came from another server has one already.
pub open spec fn as_line(reply: Seq<char>) -> Seq<char> {
    if ends_line(reply) {
        reply
    } else {
        reply + "\r\n"@
    }
}

/// What the handler's answer on a sender does to a session.
pub open spec fn sender_step(s: SessionState, address: Seq<char>, outcome: Result<(), Seq<char>>) -> (
    SessionState,
    Reaction,
) {
    match outcome {
        Ok(_) => (
            with_envelope(s, EnvelopeView { mail_from: address, ..s.envelope }),
            Reaction::Reply(reply_ok()),
        ),
        Err(refusal) => (closed(s), Reaction::ReplyAndClose(as_line(refusal))),
    }
}

/// What the verdict on a complete message does to a session: a message that
/// is refused is answered with the refusal and given up; only one that has
/// passed is to be handed on.
pub open spec fn check_step(s: SessionState, verdict: Result<(), Seq<char>>) -> (
    SessionState,
    Reaction,
) {
    match verdict {
        Ok(_) => (s, Reaction::Reinject),
        Err(refusal) => (
            with_envelope(s, empty_envelope()),
            Reaction::Reply(as_line(refusal)),
        ),
    }
}

/// The reply that reports how checking and handing on a message ended.
pub open spec fn delivery_reply(outcome: Result<(), Seq<char>>) -> Seq<char> {
    match outcome {
        Ok(_) => reply_ok(),
        Err(refusal) => as_line(refusal),
    }
}

/// An outcome with its refusal as plain text.
pub open spec fn outcome_view(outcome: Result<(), String>) -> Result<(), Seq<char>> {
    match outcome {
        Ok(_) => Ok(()),
        Err(refusal) => Err(refusal@),
    }
}

/// A line that does not end with carriage return and line feed ends the
/// session, whatever the phase, and nothing is replied to it.
pub proof fn lemma_unterminated_line_closes(s: SessionState, line: Seq<char>)
    requires
        !ends_line(line),
    ensures
        step(s, line).1 == Reaction::Close,
        step(s, line).0.phase == Phase::Closed,
{
    if text(line) == text(".\r\n"@) {
        lemma_crlf();
        reveal_strlit(".\r\n");
        let chars = ".\r\n"@;
        assert(is_ascii_chars(chars));
        is_ascii_chars_encode_utf8(chars);
        assert(text(chars).subrange(1, 3) =~= crlf());
    }
}

/// The bytes of the lines, one behind the other.
pub open spec fn joined(lines: Seq<Seq<char>>) -> Seq<u8>
    decreases lines.len(),
{
    if lines.len() == 0 {
        Seq::empty()
    } else {
        joined(lines.drop_last()) + text(lines.last())
    }
}

/// The session `s` after it has read the lines in turn.
pub open spec fn after_lines(s: SessionState, lines: Seq<Seq<char>>) -> SessionState
    decreases lines.len(),
{
    if lines.len() == 0 {
        s
    } else {
        step(after_lines(s, lines.drop_last()), lines.last()).0
    }
}

/// The lines of a message are taken into the data of the envelope as they
/// came, byte for byte: every line that is properly ended and is not the
/// closing line, as long as the message stays within the size that is allowed.
pub proof fn lemma_data_is_kept_verbatim(s: SessionState, lines: Seq<Seq<char>>)
    requires
        s.phase == Phase::Data,
        forall|i: int|
            0 <= i < lines.len() ==> ends_line(#[trigger] lines[i]) && text(lines[i]) != text(
                ".\r\n"@,
            ),
        s.envelope.data.len() + joined(lines).len() <= s.max_size,
    ensures
        after_lines(s, lines) == with_envelope(
            s,
            EnvelopeView { data: s.envelope.data + joined(lines), ..s.envelope },
        ),
    decreases lines.len(),
{
    if lines.len() == 0 {
        assert(s.envelope.data + joined(lines) =~= s.envelope.data);
    } else {
        let before = lines.drop_last();
        assert forall|i: int| 0 <= i < before.len() implies ends_line(#[trigger] before[i])
            && text(before[i]) != text(".\r\n"@) by {
            assert(before[i] == lines[i]);
        }
        assert(lines.last() == lines[lines.len() - 1]);
        lemma_data_is_kept_verbatim(s, before);
        assert((s.envelope.data + joined(before)) + text(lines.last()) =~= s.envelope.data
            + joined(lines));
    }
}

/// A session never holds more data than it may take, unless it is closed.
pub open spec fn within_limit(s: SessionState) -> bool {
    s.phase != Phase::Closed ==> s.envelope.data.len() <= s.max_size
}

/// No line makes a session hold more data than it may take: a message that
/// is complete is never larger than the limit.
pub proof fn lemma_size_limit_holds(s: SessionState, line: Seq<char>)
    requires
        within_limit(s),
    ensures
        within_limit(step(s, line).0),
        step(s, line).1 == Reaction::Deliver ==> step(s, line).0.envelope.data.len() <= s.max_size,
{
}

/// Whether a session that asked about the sender `from` in the state `asked`
/// went on, for some answer of the handler, to the state `after` with
/// `action`. The handler lets through only a sender that it admits.
pub open spec fn answered(
    asked: SessionState,
    from: Seq<char>,
    admitted: bool,
    after: SessionState,
    action: Reaction,
) -> bool {
    exists|outcome: Result<(), Seq<char>>|
        (outcome is Ok ==> admitted) && sender_step(asked, from, outcome) == (after, action)
}

/// Takes a line from the connection and asks the handler where the session
/// wants the sender checked. What the handler answers depends on the handler
/// alone; whatever it is, the session goes on as `sender_step` says.
pub fn handle_line<H: SmtpHandler>(session: &mut Session, handler: &H, line: &str) -> (action:
    Action)
    ensures
        step(old(session)@, line@).1 matches Reaction::CheckSender(from) ==> answered(
            step(old(session)@, line@).0,
            from,
            handler.admits(from),
            final(session)@,
            action@,
        ),
        !(step(old(session)@, line@).1 is CheckSender) ==> (final(session)@, action@) == step(
            old(session)@,
            line@,
        ),
{
    match session.on_line(line) {
        Action::CheckSender(from) => {
            let outcome = handler.handle_mail(from.as_str());
            let ghost said = outcome_view(outcome);
            let ghost sender = from@;
            let action = session.sender_checked(from, outcome);
            assert((said is Ok ==> handler.admits(sender)) && sender_step(
                step(old(session)@, line@).0,
                sender,
                said,
            ) == (session@, action@));
            action
        },
        action => action,
    }
}

/// Makes a line of a reply.
fn line_of(reply: String) -> (r: String)
    ensures
        r@ == as_line(reply@),
{
    if ends_with(bytes(&reply), "\r\n".as_bytes()) {
        reply
    } else {
        let mut line = reply;
        line.append("\r\n");
        line
    }
}

/// Has the handler check the message that the session holds, and says what
/// to do next: to hand the message on where it has passed, or to write the
/// refusal. No message is handed on that the handler has refused.
pub fn handle_data<H: SmtpHandler>(
    session: &mut Session,
    handler: &H,
    mailboxes: &[MailboxState],
) -> (action: Action)
    ensures
        (final(session)@, action@) == check_step(
            old(session)@,
            handler.decides(old(session)@.envelope, mailboxes@),
        ),
{
    let verdict = handler.check_data(&session.envelope, mailboxes);
    session.checked(verdict)
}

impl Session {
    /// A session for a connection that was just accepted.
    pub fn new(max_size: usize) -> (r: Self)
        ensures
            r@ == (SessionState {
                phase: Phase::Command,
                envelope: empty_envelope(),
                max_size: max_size as int,
            }),
    {
        Session { phase: Phase::Command, envelope: Envelope::new(), max_size }
    }

    /// The line to write when the connection is accepted.
    pub fn greeting() -> (r: String)
        ensures
            r@ == greeting(),
    {
        String::from_str("220 filtermail SMTP\r\n")
    }

    /// Takes a line from the connection and says what to do next.
    pub fn on_line(&mut self, line: &str) -> (action: Action)
        ensures
            (final(self)@, action@) == step(old(self)@, line@),
    {
        let raw = line.as_bytes();
        let line_end = "\r\n".as_bytes();
        match self.phase {
            Phase::Closed => Action::Close,
            Phase::Command => {
                // A line without its proper end is most likely an attempt to
                // smuggle something past the server.
                if !ends_with(raw, line_end) {
                    self.phase = Phase::Closed;
                    return Action::Close;
                }
                proof {
                    lemma_crlf();
                }
                let cmd = str_until(line, raw.len() - 2);
                self.on_command(cmd)
            },
            Phase::Data => self.on_data(line),
        }
    }

    /// Takes a command line, without its end.
    fn on_command(&mut self, cmd: &str) -> (action: Action)
        ensures
            (final(self)@, action@) == command_step(old(self)@, cmd@),
    {
        let upper = to_uppercase(cmd);
        let verb = upper.as_str().as_bytes();
        if starts_with(verb, "HELO".as_bytes()) || starts_with(verb, "EHLO".as_bytes()) {
            Action::Reply(String::from_str("250 OK\r\n"))
        } else if starts_with(verb, "MAIL FROM:".as_bytes()) {
            match extract_address(cmd) {
                Some(from) => Action::CheckSender(from),
                None => Action::Reply(String::from_str("500 Invalid address in MAIL FROM\r\n")),
            }
        } else if starts_with(verb, "RCPT TO:".as_bytes()) {
            match extract_address(cmd) {
                Some(to) => {
                    self.envelope.rcpt_to.push(to);
                    assert(self.envelope@.rcpt_to =~= old(self).envelope@.rcpt_to.push(to@));
                    Action::Reply(String::from_str("250 OK\r\n"))
                },
                None => Action::Continue,
            }
        } else if starts_with(verb, "DATA".as_bytes()) {
            self.envelope.data = Vec::new();
            self.phase = Phase::Data;
            Action::Reply(String::from_str("354 End data with <CR><LF>.<CR><LF>\r\n"))
        } else if starts_with(verb, "QUIT".as_bytes()) {
            self.phase = Phase::Closed;
            Action::ReplyAndClose(String::from_str("221 OK\r\n"))
        } else if starts_with(verb, "RSET".as_bytes()) {
            self.envelope = Envelope::new();
            Action::Reply(String::from_str("250 OK\r\n"))
        } else if starts_with(verb, "NOOP".as_bytes()) {
            Action::Reply(String::from_str("250 OK\r\n"))
        } else {
            Action::Reply(String::from_str("500 Command not recognized\r\n"))
        }
    }

    /// Takes a line of the message.
    fn on_data(&mut self, line: &str) -> (action: Action)
        ensures
            (final(self)@, action@) == data_step(old(self)@, line@),
    {
        let raw = line.as_bytes();
        if bytes_eq(raw, ".\r\n".as_bytes()) {
            self.phase = Phase::Command;
            return Action::Deliver;
        }
        if !ends_with(raw, "\r\n".as_bytes()) {
            self.phase = Phase::Closed;
            return Action::Close;
        }
        self.envelope.data.extend_from_slice(raw);
        assert(self.envelope@.data =~= old(self).envelope@.data + text(line@));
        if self.envelope.data.len() > self.max_size {
            self.phase = Phase::Closed;
            return Action::ReplyAndClose(String::from_str("552 Message exceeds maximum size\r\n"));
        }
        Action::Continue
    }

    /// Takes the handler's answer on the sender `address`.
    pub fn sender_checked(&mut self, address: String, outcome: Result<(), String>) -> (action:
        Action)
        ensures
            (final(self)@, action@) == sender_step(old(self)@, address@, outcome_view(outcome)),
    {
        match outcome {
            Ok(_) => {
                self.envelope.mail_from = address;
                Action::Reply(String::from_str("250 OK\r\n"))
            },
            Err(refusal) => {
                self.phase = Phase::Closed;
                Action::ReplyAndClose(line_of(refusal))
            },
        }
    }

    /// Takes the verdict on the message that is complete.
    pub fn checked(&mut self, verdict: Result<(), String>) -> (action: Action)
        ensures
            (final(self)@, action@) == check_step(old(self)@, outcome_view(verdict)),
    {
        match verdict {
            Ok(_) => Action::Reinject,
            Err(refusal) => {
                self.envelope = Envelope::new();
                Action::Reply(line_of(refusal))
            },
        }
    }

    /// Takes the outcome of checking and handing on the message, and starts
    /// a new envelope. Returns the reply to write.
    pub fn delivered(&mut self, outcome: Result<(), String>) -> (action: Action)
        ensures
            final(self)@ == with_envelope(old(self)@, empty_envelope()),
            action@ == Reaction::Reply(delivery_reply(outcome_view(outcome))),
    {
        self.envelope = Envelope::new();
        match outcome {
            Ok(_) => Action::Reply(String::from_str("250 OK\r\n")),
            Err(refusal) => Action::Reply(line_of(refusal)),
        }
    }
}

} // verus!
