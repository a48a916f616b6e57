//! Addresses in SMTP commands and headers, and the wording of SMTP errors.

use crate::text::{
    find, is_first_occurrence, lemma_ascii_text, lemma_text_concat, lowercased, occurs_at,
    skip_leading, strip_leading, text, through_first, to_lowercase,
};
use vstd::prelude::*;
use vstd::string::*;

verus! {

/// One entry of an address list: a single mailbox, or a named group of them.
/// Only the addresses are kept, not the display names.
#[derive(Debug)]
pub enum AddressEntry {
    Single(String),
    Group(Vec<String>),
}

/// An entry of an address list as plain values.
pub enum AddressView {
    Single(Seq<char>),
    Group(Seq<Seq<char>>),
}

impl View for AddressEntry {
    type V = AddressView;

    open spec fn view(&self) -> AddressView {
        match self {
            AddressEntry::Single(addr) => AddressView::Single(addr@),
            AddressEntry::Group(addrs) => AddressView::Group(addrs@.map_values(|a: String| a@)),
        }
    }
}

/// The entries of an address list as plain values.
pub open spec fn entries(list: Seq<AddressEntry>) -> Seq<AddressView> {
    list.map_values(|entry: AddressEntry| entry@)
}

/// What `mailparse` makes of an address list in the form of RFC 5322; `None`
/// where it refuses the text, or where the bytes are no text at all.
pub uninterp spec fn address_list(input: Seq<u8>) -> Option<Seq<AddressView>>;

/// Parses an address list with `mailparse::addrparse` and keeps the `addr` of
/// each mailbox. The result depends on the bytes alone; the contract only
/// gives it its name.
#[verifier::external_body]
fn parse_addresses(input: &[u8]) -> (r: Option<Vec<AddressEntry>>)
    ensures
        match r {
            Some(list) => address_list(input@) == Some(entries(list@)),
            None => address_list(input@) is None,
        },
{
    let list = mailparse::addrparse(std::str::from_utf8(input).ok()?).ok()?;
    Some(list.iter().map(|entry| match entry {
        mailparse::MailAddr::Single(single) => AddressEntry::Single(single.addr.clone()),
        mailparse::MailAddr::Group(group) => AddressEntry::Group(
            group.addrs.iter().map(|single| single.addr.clone()).collect(),
        ),
    }).collect())
}

/// The first mailbox of an address list: a single one, or the first of a group.
pub open spec fn first_mailbox(list: Seq<AddressView>) -> Option<Seq<char>> {
    if list.len() == 0 {
        None
    } else {
        match list[0] {
            AddressView::Single(addr) => Some(addr),
            AddressView::Group(addrs) => if addrs.len() == 0 {
                None
            } else {
                Some(addrs[0])
            },
        }
    }
}

/// The part of a command or header line that holds the address: the line in
/// lower case, without a leading `mail from:` or `rcpt to:`, up to the first
/// `>`. Parameters behind the address in angle brackets are thereby dropped.
pub open spec fn address_part(input: Seq<char>) -> Seq<u8> {
    through_first(
        strip_leading(
            strip_leading(text(lowercased(input)), text("mail from:"@)),
            text("rcpt to:"@),
        ),
        text(">"@),
    )
}

/// The address that `extract_address` finds in `input`.
pub open spec fn extracted_address(input: Seq<char>) -> Option<Seq<char>> {
    match address_list(address_part(input)) {
        None => None,
        Some(list) => match first_mailbox(list) {
            None => None,
            Some(addr) => Some(lowercased(addr)),
        },
    }
}

/// The address `a` in angle brackets.
pub open spec fn bracketed(a: Seq<char>) -> Seq<char> {
    "<"@ + a + ">"@
}

/// What is found in a line of which nothing is cut off before it is parsed.
pub open spec fn parsed_whole(line: Seq<char>) -> Option<Seq<char>> {
    match address_list(text(line)) {
        None => None,
        Some(list) => match first_mailbox(list) {
            None => None,
            Some(addr) => Some(lowercased(addr)),
        },
    }
}

/// An address in angle brackets goes to the parser whole, where it holds no
/// `>` and is in lower case already: nothing is cut off in front of it or
/// behind it. So what is extracted from an extracted address in angle
/// brackets is what the parser finds in exactly that text.
pub proof fn lemma_bracketed_address_is_parsed_whole(a: Seq<char>)
    requires
        !text(a).contains(62),
        lowercased(bracketed(a)) == bracketed(a),
    ensures
        address_part(bracketed(a)) == text(bracketed(a)),
        extracted_address(bracketed(a)) == parsed_whole(bracketed(a)),
{
    reveal_strlit("<");
    reveal_strlit(">");
    reveal_strlit("mail from:");
    reveal_strlit("rcpt to:");
    lemma_ascii_text("<"@);
    lemma_ascii_text(">"@);
    lemma_ascii_text("mail from:"@);
    lemma_ascii_text("rcpt to:"@);
    lemma_text_concat("<"@ + a, ">"@);
    lemma_text_concat("<"@, a);
    let line = text(bracketed(a));
    let close = text(">"@);
    let last = line.len() - 1;
    assert(line =~= text("<"@) + text(a) + close);
    assert(line[0] == 60);
    assert(line[last] == 62);
    assert(text("mail from:"@)[0] == 109);
    assert(text("rcpt to:"@)[0] == 114);
    assert(!text("mail from:"@).is_prefix_of(line)) by {
        if text("mail from:"@).is_prefix_of(line) {
            assert(line.subrange(0, text("mail from:"@).len() as int)[0] == line[0]);
        }
    }
    assert(!text("rcpt to:"@).is_prefix_of(line)) by {
        if text("rcpt to:"@).is_prefix_of(line) {
            assert(line.subrange(0, text("rcpt to:"@).len() as int)[0] == line[0]);
        }
    }
    assert(occurs_at(line, close, last)) by {
        assert(line.subrange(last, last + 1) =~= close);
    }
    assert forall|j: int| 0 <= j < last implies !occurs_at(line, close, j) by {
        if occurs_at(line, close, j) {
            assert(line.subrange(j, j + 1)[0] == line[j]);
            if j > 0 {
                assert(line[j] == text(a)[j - 1]);
                assert(text(a).contains(62));
            }
        }
    }
    assert(is_first_occurrence(line, close, last));
    let found = choose|i: int| is_first_occurrence(line, close, i);
    assert(found == last);
    assert(line.take(last + close.len()) =~= line);
}

/// Picks the first mailbox of an address list.
pub fn pick_first_mailbox(list: &Vec<AddressEntry>) -> (r: Option<&String>)
    ensures
        match r {
            Some(addr) => first_mailbox(entries(list@)) == Some(addr@),
            None => first_mailbox(entries(list@)) is None,
        },
{
    if list.len() == 0 {
        return None;
    }
    match &list[0] {
        AddressEntry::Single(addr) => Some(addr),
        AddressEntry::Group(addrs) => if addrs.len() == 0 {
            None
        } else {
            Some(&addrs[0])
        },
    }
}

/// Extracts the first email address found in an SMTP command or email header.
///
/// Returns `None` if parsing fails, and the first address if multiple are
/// present. The address comes back in lower case.
pub fn extract_address(input: &str) -> (r: Option<String>)
    ensures
        match r {
            Some(addr) => extracted_address(input@) == Some(addr@),
            None => extracted_address(input@) is None,
        },
{
    let lower = to_lowercase(input);
    let line = lower.as_str().as_bytes();
    let stripped = skip_leading(skip_leading(line, "mail from:".as_bytes()), "rcpt to:".as_bytes());
    let close = ">".as_bytes();
    let whole: usize = stripped.len();
    let part = match find(stripped, close) {
        Some(at) => &stripped[0..at + close.len()],
        None => stripped,
    };
    assert(part@ == address_part(input@));
    match parse_addresses(part) {
        None => None,
        Some(list) => match pick_first_mailbox(&list) {
            None => None,
            Some(addr) => Some(to_lowercase(addr.as_str())),
        },
    }
}

/// The reply line for a failed SMTP exchange: the status code that the
/// server gave, `451` where it gave none, then the cause, `Unknown error`
/// where none is known.
pub open spec fn smtp_error_line(status: Option<Seq<char>>, cause: Option<Seq<char>>) -> Seq<char> {
    (match status {
        Some(code) => code,
        None => "451"@,
    }) + " "@ + (match cause {
        Some(reason) => reason,
        None => "Unknown error"@,
    })
}

/// Formats an SMTP error so that it can be sent back to the sending server.
///
/// Without a status code the reply is a 451: most probably some internal
/// service failed.
pub fn format_smtp_error(status: Option<&str>, cause: Option<&str>) -> (r: String)
    ensures
        r@ == smtp_error_line(
            match status {
                Some(code) => Some(code@),
                None => None,
            },
            match cause {
                Some(reason) => Some(reason@),
                None => None,
            },
        ),
{
    let mut line = String::from_str(
        match status {
            Some(code) => code,
            None => "451",
        },
    );
    line.append(" ");
    line.append(
        match cause {
            Some(reason) => reason,
            None => "Unknown error",
        },
    );
    line
}

} // verus!
