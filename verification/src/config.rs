//! Configuration of the filter.

use crate::text::{chars_of, contains_byte, str_range, text, trim_chars, trim_str};
use vstd::prelude::*;
use vstd::string::*;

verus! {

/// The subset of the relay's configuration that the filter uses.
#[derive(Debug, Clone)]
pub struct Config {
    /// Port on which the filter listens for outgoing mail.
    pub filtermail_smtp_port: u16,
    /// Port on which the filter listens for incoming mail.
    pub filtermail_smtp_port_incoming: u16,
    /// Port that takes accepted outgoing mail.
    pub postfix_reinject_port: u16,
    /// Port that takes accepted incoming mail.
    pub postfix_reinject_port_incoming: u16,
    /// Largest message, in bytes, that is accepted.
    pub max_message_size: usize,
    /// How many mails a user may send per minute.
    pub max_user_send_per_minute: usize,
    /// Senders whose outgoing mail is never held to be encrypted.
    pub passthrough_senders: Vec<String>,
    /// Recipients to whom cleartext may be sent: a mailbox, or `@` and a domain.
    pub passthrough_recipients: Vec<String>,
    /// The domain that the relay serves.
    pub mail_domain: String,
    /// Where the mailboxes are kept, if not at the default place.
    pub mailboxes_dir: Option<String>,
}

/// What the file system says of a recipient's mailbox.
#[derive(Debug, Clone, Copy, PartialEq, Eq)]
pub struct MailboxState {
    /// The mailbox directory is there.
    pub exists: bool,
    /// The mailbox holds the marker by which its owner refuses cleartext.
    pub enforce_e2ee: bool,
}

/// The pieces of `s` between the bytes `sep`.
pub open spec fn split(s: Seq<u8>, sep: u8) -> Seq<Seq<u8>>
    decreases s.len(),
{
    if s.len() == 0 {
        seq![Seq::empty()]
    } else if s.last() == sep {
        split(s.drop_last(), sep).push(Seq::empty())
    } else {
        let before = split(s.drop_last(), sep);
        before.drop_last().push(before.last().push(s.last()))
    }
}

/// The pieces as text without white space at their ends, but for those of
/// which nothing is left.
pub open spec fn items(pieces: Seq<Seq<u8>>) -> Seq<Seq<char>>
    decreases pieces.len(),
{
    if pieces.len() == 0 {
        Seq::empty()
    } else if trim_chars(chars_of(pieces.last())).len() == 0 {
        items(pieces.drop_last())
    } else {
        items(pieces.drop_last()).push(trim_chars(chars_of(pieces.last())))
    }
}

/// The items of a list that is written with spaces between its items.
pub open spec fn list_items(value: Seq<char>) -> Seq<Seq<char>> {
    items(split(text(value), 32))
}

/// The strings as plain texts.
pub open spec fn texts(list: Seq<String>) -> Seq<Seq<char>> {
    list.map_values(|item: String| item@)
}

/// Parses a list written with spaces between its items, as the lists of
/// passthrough senders and recipients are.
pub fn split_list(value: &str) -> (r: Vec<String>)
    ensures
        texts(r@) == list_items(value@),
{
    let raw = value.as_bytes();
    let n = raw.len();
    let mut out: Vec<String> = Vec::new();
    let mut start: usize = 0;
    let mut i: usize = 0;
    let ghost mut done: Seq<Seq<u8>> = Seq::empty();
    assert(raw@.take(0) =~= Seq::<u8>::empty());
    assert(split(raw@.take(0), 32) =~= done.push(raw@.subrange(0, 0)));
    assert(texts(out@) =~= items(done));
    while i < n
        invariant
            n == raw@.len(),
            raw@ == text(value@),
            start <= i <= n,
            start == 0 || raw@[start - 1] == 32,
            split(raw@.take(i as int), 32) == done.push(raw@.subrange(start as int, i as int)),
            texts(out@) == items(done),
        decreases n - i,
    {
        let ghost piece = raw@.subrange(start as int, i as int);
        assert(raw@.take(i + 1).drop_last() =~= raw@.take(i as int));
        assert(raw@.take(i + 1).last() == raw@[i as int]);
        assert(done.push(piece).drop_last() =~= done);
        if raw[i] == 32 {
            let item = trim_str(str_range(value, start, i));
            if !item.is_empty() {
                let ghost before = out@;
                out.push(String::from_str(item));
                assert(texts(out@) =~= texts(before).push(trim_chars(chars_of(piece))));
            }
            proof {
                done = done.push(piece);
            }
            start = i + 1;
            assert(raw@.subrange(start as int, i + 1) =~= Seq::<u8>::empty());
        } else {
            assert(raw@.subrange(start as int, i + 1) =~= piece.push(raw@[i as int]));
        }
        i += 1;
    }
    assert(raw@.take(n as int) =~= raw@);
    let ghost piece = raw@.subrange(start as int, n as int);
    assert(done.push(piece).drop_last() =~= done);
    let item = trim_str(str_range(value, start, n));
    if !item.is_empty() {
        let ghost before = out@;
        out.push(String::from_str(item));
        assert(texts(out@) =~= texts(before).push(trim_chars(chars_of(piece))));
    }
    out
}

/// An address that can name a mailbox directory: it holds an `@` and no `/`.
pub open spec fn is_mailbox_name(addr: Seq<char>) -> bool {
    text(addr).contains(64) && !text(addr).contains(47)
}

impl Config {
    /// The directory of the mailboxes: the configured one, or `dir` where
    /// none is configured.
    pub open spec fn mailboxes_dir_spec(&self) -> Seq<char> {
        match self.mailboxes_dir {
            Some(dir) => dir@,
            None => "/home/vmail/mail/"@ + self.mail_domain@,
        }
    }

    /// The directory of the mailbox of `addr`.
    pub open spec fn mailbox_path_spec(&self, addr: Seq<char>) -> Seq<char> {
        self.mailboxes_dir_spec() + "/"@ + addr
    }

    /// The marker file in the mailbox of `addr`.
    pub open spec fn enforce_marker_spec(&self, addr: Seq<char>) -> Seq<char> {
        self.mailbox_path_spec(addr) + "/enforceE2EEincoming"@
    }

    /// A configuration with the given required values and the default for
    /// every other.
    pub fn new(max_user_send_per_minute: usize, mail_domain: String) -> (r: Self)
        ensures
            r.filtermail_smtp_port == 10080,
            r.filtermail_smtp_port_incoming == 10081,
            r.postfix_reinject_port == 10025,
            r.postfix_reinject_port_incoming == 10026,
            r.max_message_size == 31457280,
            r.max_user_send_per_minute == max_user_send_per_minute,
            r.passthrough_senders@.len() == 0,
            r.passthrough_recipients@.len() == 0,
            r.mail_domain == mail_domain,
            r.mailboxes_dir is None,
    {
        Config {
            filtermail_smtp_port: Self::default_filtermail_smtp_port(),
            filtermail_smtp_port_incoming: Self::default_filtermail_smtp_port_incoming(),
            postfix_reinject_port: Self::default_postfix_reinject_port(),
            postfix_reinject_port_incoming: Self::default_postfix_reinject_port_incoming(),
            max_message_size: Self::default_max_message_size(),
            max_user_send_per_minute,
            passthrough_senders: Vec::new(),
            passthrough_recipients: Vec::new(),
            mail_domain,
            mailboxes_dir: None,
        }
    }

    /// Gets the mailboxes directory, `/home/vmail/mail/<mail_domain>` if not set.
    pub fn mailboxes_dir(&self) -> (r: String)
        ensures
            r@ == self.mailboxes_dir_spec(),
    {
        match &self.mailboxes_dir {
            Some(dir) => dir.clone(),
            None => {
                let mut dir = String::from_str("/home/vmail/mail/");
                dir.append(self.mail_domain.as_str());
                dir
            },
        }
    }

    /// The directory of the mailbox of `addr`.
    pub fn mailbox_path(&self, addr: &str) -> (r: String)
        ensures
            r@ == self.mailbox_path_spec(addr@),
    {
        let mut path = self.mailboxes_dir();
        path.append("/");
        path.append(addr);
        path
    }

    /// The file whose presence in the mailbox of `addr` makes the relay
    /// refuse cleartext for it.
    pub fn enforce_marker_path(&self, addr: &str) -> (r: String)
        ensures
            r@ == self.enforce_marker_spec(addr@),
    {
        let mut path = self.mailbox_path(addr);
        path.append("/enforceE2EEincoming");
        path
    }

    /// Whether `addr` can name a mailbox directory. For any other address
    /// there is nothing to look up in the file system.
    pub fn names_mailbox(addr: &str) -> (r: bool)
        ensures
            r == is_mailbox_name(addr@),
    {
        let name = addr.as_bytes();
        contains_byte(name, 64) && !contains_byte(name, 47)
    }

    /// Checks if mail that is not encrypted is allowed for the given address.
    ///
    /// It is where the address can name a mailbox, the mailbox is there, and
    /// its owner has not asked for encrypted mail only.
    pub fn is_cleartext_ok(&self, addr: &str, mailbox: MailboxState) -> (r: bool)
        ensures
            r == (is_mailbox_name(addr@) && mailbox.exists && !mailbox.enforce_e2ee),
    {
        Self::names_mailbox(addr) && mailbox.exists && !mailbox.enforce_e2ee
    }

    /// The port for outgoing mail where none is configured.
    pub fn default_filtermail_smtp_port() -> (r: u16)
        ensures
            r == 10080,
    {
        10080
    }

    /// The port for incoming mail where none is configured.
    pub fn default_filtermail_smtp_port_incoming() -> (r: u16)
        ensures
            r == 10081,
    {
        10081
    }

    /// The reinjection port for outgoing mail where none is configured.
    pub fn default_postfix_reinject_port() -> (r: u16)
        ensures
            r == 10025,
    {
        10025
    }

    /// The reinjection port for incoming mail where none is configured.
    pub fn default_postfix_reinject_port_incoming() -> (r: u16)
        ensures
            r == 10026,
    {
        10026
    }

    /// The largest message size where none is configured: 30 MiB.
    pub fn default_max_message_size() -> (r: usize)
        ensures
            r == 31457280,
    {
        31457280
    }
}

} // verus!
