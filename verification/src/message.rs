//! Message-related checks: parsing a raw message into the tree of its
//! parts, and the two gates that tell encrypted mail and secure-join requests
//! from everything else.

use crate::openpgp::{
    armored_payload_valid, check_armored_payload, lemma_outgoing_armor_is_stricter,
};
use crate::text::{
    bytes, bytes_eq, ends_with, eq_ignore_ascii_case, eq_ignore_case, lowercased, str_eq, text,
    to_lowercase, trim, trim_chars, trim_str, trimmed,
};
use vstd::prelude::*;
use vstd::string::*;

verus! {

/// One header line of a message: its name, and its value with folded lines
/// joined and encoded words decoded.
#[derive(Debug, Clone)]
pub struct Header {
    pub key: String,
    pub value: String,
}

/// A message, or one part of a multipart message, as far as the filter reads it.
#[derive(Debug)]
pub struct ParsedMessage {
    /// The media type named by the content type header, and the default
    /// where there is none: `text/plain` for all but the parts of a digest.
    pub mimetype: String,
    /// The headers, in the order in which they stand in the message.
    pub headers: Vec<Header>,
    /// The body with its transfer encoding and character set undone, `None`
    /// where that failed.
    pub body: Option<String>,
    /// The parts of a multipart message, in order; empty for any other.
    pub subparts: Vec<ParsedMessage>,
}

/// A message as plain values. A header is its name and its value.
pub struct MessageView {
    pub mimetype: Seq<char>,
    pub headers: Seq<(Seq<char>, Seq<char>)>,
    pub body: Option<Seq<char>>,
    pub subparts: Seq<MessageView>,
}

impl View for ParsedMessage {
    type V = MessageView;

    open spec fn view(&self) -> MessageView
        decreases self,
    {
        MessageView {
            mimetype: self.mimetype@,
            headers: self.headers@.map_values(|h: Header| (h.key@, h.value@)),
            body: match self.body {
                Some(b) => Some(b@),
                None => None,
            },
            subparts: views(self.subparts, self.subparts.len() as nat),
        }
    }
}

/// The views of the first `n` of `parts`.
pub open spec fn views(parts: Vec<ParsedMessage>, n: nat) -> Seq<MessageView>
    decreases parts, n,
{
    if n == 0 {
        Seq::empty()
    } else if n <= parts.len() {
        views(parts, (n - 1) as nat).push(parts[n - 1].view())
    } else {
        views(parts, (n - 1) as nat)
    }
}

/// The views of parts are the views of each of them, in order.
pub proof fn lemma_views(parts: Vec<ParsedMessage>, n: nat)
    requires
        n <= parts.len(),
    ensures
        views(parts, n).len() == n,
        forall|i: int| 0 <= i < n ==> views(parts, n)[i] == parts[i]@,
    decreases n,
{
    reveal_with_fuel(views, 2);
    if n > 0 {
        lemma_views(parts, (n - 1) as nat);
    }
}

/// The view of a message, one level unfolded.
pub proof fn lemma_view(mail: ParsedMessage)
    ensures
        mail@.mimetype == mail.mimetype@,
        mail@.headers == mail.headers@.map_values(|h: Header| (h.key@, h.value@)),
        mail@.body == match mail.body {
            Some(b) => Some(b@),
            None => None,
        },
        mail@.subparts.len() == mail.subparts@.len(),
        forall|i: int| 0 <= i < mail.subparts@.len() ==> mail@.subparts[i] == mail.subparts@[i]@,
{
    lemma_views(mail.subparts, mail.subparts.len() as nat);
}

/// One part of a message as the parser hands it out: what the filter reads
/// of it, and the number of its own parts, which follow it.
#[derive(Debug)]
pub struct FlatPart {
    pub mimetype: String,
    pub headers: Vec<Header>,
    pub body: Option<String>,
    pub children: usize,
}

/// A part as plain values.
pub struct PartView {
    pub mimetype: Seq<char>,
    pub headers: Seq<(Seq<char>, Seq<char>)>,
    pub body: Option<Seq<char>>,
    pub children: nat,
}

impl View for FlatPart {
    type V = PartView;

    open spec fn view(&self) -> PartView {
        PartView {
            mimetype: self.mimetype@,
            headers: self.headers@.map_values(|h: Header| (h.key@, h.value@)),
            body: match self.body {
                Some(b) => Some(b@),
                None => None,
            },
            children: self.children as nat,
        }
    }
}

/// The parts as plain values.
pub open spec fn part_views(parts: Seq<FlatPart>) -> Seq<PartView> {
    parts.map_values(|part: FlatPart| part@)
}

/// What `mailparse` makes of a raw message: its parts, each before its own
/// parts, or the text of its error.
pub uninterp spec fn parsed_parts(data: Seq<u8>) -> Result<Seq<PartView>, Seq<char>>;

/// Parses a raw message with `mailparse::parse_mail` and walks its parts
/// with `ParsedMail::parts`, which yields each part before its own parts. Of
/// each part it keeps the `mimetype` of the content type, each header's
/// `get_key` and `get_value`, the result of `get_body`, and the number of
/// `subparts`. The result depends on the bytes alone; the contract only gives
/// it its name.
#[verifier::external_body]
fn parse_parts(data: &[u8]) -> (r: Result<Vec<FlatPart>, String>)
    ensures
        match r {
            Ok(parts) => parsed_parts(data@) == Ok::<Seq<PartView>, Seq<char>>(part_views(parts@)),
            Err(reason) => parsed_parts(data@) == Err::<Seq<PartView>, Seq<char>>(reason@),
        },
{
    match mailparse::parse_mail(data) {
        Ok(mail) => Ok(mail.parts().map(|part| FlatPart {
            mimetype: part.ctype.mimetype.clone(),
            headers: part.headers.iter().map(|h| Header { key: h.get_key(), value: h.get_value() }).collect(),
            body: part.get_body().ok(),
            children: part.subparts.len(),
        }).collect()),
        Err(e) => Err(e.to_string()),
    }
}

/// How many of the trees `behind` a part are its own parts.
pub open spec fn own_parts(part: PartView, behind: Seq<MessageView>) -> int {
    if part.children <= behind.len() {
        part.children as int
    } else {
        behind.len() as int
    }
}

/// The trees that a list of parts stands for, in which each part is
/// followed by its own parts: the first part takes as many of the trees
/// behind it as it has parts.
pub open spec fn forest(parts: Seq<PartView>) -> Seq<MessageView>
    decreases parts.len(),
{
    if parts.len() == 0 {
        Seq::empty()
    } else {
        let behind = forest(parts.drop_first());
        let own = own_parts(parts[0], behind);
        seq![
            MessageView {
                mimetype: parts[0].mimetype,
                headers: parts[0].headers,
                body: parts[0].body,
                subparts: behind.take(own),
            },
        ] + behind.skip(own)
    }
}

/// A message without anything in it.
pub open spec fn empty_message() -> MessageView {
    MessageView {
        mimetype: Seq::empty(),
        headers: Seq::empty(),
        body: None,
        subparts: Seq::empty(),
    }
}

/// The message that a list of parts stands for: the tree of its first part.
pub open spec fn tree(parts: Seq<PartView>) -> MessageView {
    if forest(parts).len() > 0 {
        forest(parts)[0]
    } else {
        empty_message()
    }
}

/// What `mailparse` makes of a raw message: the message as a tree of parts,
/// or the text of its error.
pub open spec fn parsed_mail(data: Seq<u8>) -> Result<MessageView, Seq<char>> {
    match parsed_parts(data) {
        Ok(parts) => Ok(tree(parts)),
        Err(reason) => Err(reason),
    }
}

/// The views of trees that lie on a stack, the topmost first.
pub open spec fn stacked(stack: Seq<ParsedMessage>) -> Seq<MessageView> {
    Seq::new(stack.len(), |i: int| stack[stack.len() - 1 - i]@)
}

/// Builds the message that a list of parts stands for.
pub fn build_tree(parts: Vec<FlatPart>) -> (r: ParsedMessage)
    ensures
        r@ == tree(part_views(parts@)),
{
    let ghost all = part_views(parts@);
    let mut parts = parts;
    let mut stack: Vec<ParsedMessage> = Vec::new();
    assert(all.skip(all.len() as int) =~= Seq::<PartView>::empty());
    assert(stacked(stack@) =~= Seq::<MessageView>::empty());
    while parts.len() > 0
        invariant
            parts@.len() <= all.len(),
            part_views(parts@) == all.take(parts@.len() as int),
            stacked(stack@) == forest(all.skip(parts@.len() as int)),
        decreases parts@.len(),
    {
        let ghost n = parts@.len() as int;
        let ghost behind = stacked(stack@);
        let part = parts.pop().unwrap();
        assert(part@ == all[n - 1]) by {
            assert(all.take(n)[n - 1] == all[n - 1]);
        }
        assert(part_views(parts@) =~= all.take(n - 1));
        assert(all.skip(n - 1).drop_first() =~= all.skip(n));
        assert(all.skip(n - 1)[0] == all[n - 1]);
        let mut children: Vec<ParsedMessage> = Vec::new();
        let mut k: usize = 0;
        assert(behind.take(0) =~= Seq::<MessageView>::empty());
        assert(behind.skip(0) =~= behind);
        while k < part.children && stack.len() > 0
            invariant
                k <= part.children,
                k <= behind.len(),
                children@.len() == k,
                forall|j: int| 0 <= j < k ==> (#[trigger] children@[j])@ == behind[j],
                stacked(stack@) == behind.skip(k as int),
            decreases stack@.len(),
        {
            let ghost before = stack@;
            let child = stack.pop().unwrap();
            assert(child@ == stacked(before)[0]);
            assert(stacked(stack@) =~= stacked(before).skip(1));
            assert(behind.skip(k as int).skip(1) =~= behind.skip(k + 1));
            assert(behind.skip(k as int)[0] == behind[k as int]);
            children.push(child);
            k += 1;
        }
        let ghost own = own_parts(part@, behind);
        assert(k == own) by {
            assert(stacked(stack@).len() == stack@.len());
        }
        let node = ParsedMessage {
            mimetype: part.mimetype,
            headers: part.headers,
            body: part.body,
            subparts: children,
        };
        proof {
            lemma_view(node);
            assert(node@.subparts =~= behind.take(own));
        }
        let ghost below = stack@;
        stack.push(node);
        assert(stacked(stack@) =~= seq![node@] + stacked(below));
    }
    assert(all.skip(0) =~= all);
    match stack.pop() {
        Some(root) => root,
        None => {
            let root = ParsedMessage {
                mimetype: String::new(),
                headers: Vec::new(),
                body: None,
                subparts: Vec::new(),
            };
            proof {
                lemma_view(root);
                assert(root@.headers =~= Seq::empty());
                assert(root@.subparts =~= Seq::empty());
            }
            root
        },
    }
}

/// Parses a raw message.
pub fn parse_mail(data: &[u8]) -> (r: Result<ParsedMessage, String>)
    ensures
        match r {
            Ok(mail) => parsed_mail(data@) == Ok::<MessageView, Seq<char>>(mail@),
            Err(reason) => parsed_mail(data@) == Err::<MessageView, Seq<char>>(reason@),
        },
{
    match parse_parts(data) {
        Ok(parts) => Ok(build_tree(parts)),
        Err(reason) => Err(reason),
    }
}

/// The value of the first header called `name`, whatever the case of its letters.
pub open spec fn first_value(headers: Seq<(Seq<char>, Seq<char>)>, name: Seq<char>) -> Option<
    Seq<char>,
>
    decreases headers.len(),
{
    if headers.len() == 0 {
        None
    } else if eq_ignore_case(text(headers[0].0), text(name)) {
        Some(headers[0].1)
    } else {
        first_value(headers.drop_first(), name)
    }
}

impl ParsedMessage {
    /// The value of the first header called `name`, whatever the case of its letters.
    pub fn get_first_value(&self, name: &str) -> (r: Option<&String>)
        ensures
            match r {
                Some(v) => first_value(self@.headers, name@) == Some(v@),
                None => first_value(self@.headers, name@) is None,
            },
    {
        let ghost headers = self@.headers;
        let mut i: usize = 0;
        assert(headers.skip(0) =~= headers);
        while i < self.headers.len()
            invariant
                i <= self.headers@.len(),
                headers == self@.headers,
                headers.len() == self.headers@.len(),
                first_value(headers, name@) == first_value(headers.skip(i as int), name@),
            decreases self.headers@.len() - i,
        {
            assert(headers.skip(i as int)[0] == (
                self.headers@[i as int].key@,
                self.headers@[i as int].value@,
            ));
            if eq_ignore_ascii_case(bytes(&self.headers[i].key), name.as_bytes()) {
                return Some(&self.headers[i].value);
            }
            assert(headers.skip(i as int).drop_first() =~= headers.skip(i + 1));
            i += 1;
        }
        None
    }
}

/// Whether `value` is one of the two requests that open a secure-join handshake.
pub open spec fn is_join_request(value: Seq<u8>) -> bool {
    value == text("vc-request"@) || value == text("vg-request"@)
}

/// Whether `body` is, up to case and surrounding white space, the body of a
/// secure-join request: what is left of it without the white space at its
/// ends, in lower case, is `secure-join:` and one of the two requests.
pub open spec fn is_join_body(body: Seq<char>) -> bool {
    lowercased(trim_chars(body)) == "secure-join: vc-request"@ || lowercased(trim_chars(body))
        == "secure-join: vg-request"@
}

/// A message that opens a secure-join handshake: the `Secure-Join` header
/// names a request, and the single part is plain text that repeats it.
pub open spec fn securejoin_spec(mail: MessageView) -> bool {
    &&& first_value(mail.headers, "Secure-Join"@) matches Some(v) && is_join_request(text(v))
    &&& mail.subparts.len() == 1
    &&& mail.subparts[0].subparts.len() == 0
    &&& text(mail.subparts[0].mimetype) == text("text/plain"@)
    &&& mail.subparts[0].body matches Some(b) && is_join_body(b)
}

/// A message in the form of RFC 3156: `multipart/encrypted` with exactly two
/// parts, neither of them multipart; the first the control part with the body
/// `Version: 1`, the second an octet stream that holds a valid armored message.
pub open spec fn encrypted_spec(mail: MessageView, outgoing: bool) -> bool {
    &&& eq_ignore_case(text(mail.mimetype), text("multipart/encrypted"@))
    &&& mail.subparts.len() == 2
    &&& mail.subparts[0].subparts.len() == 0
    &&& mail.subparts[1].subparts.len() == 0
    &&& eq_ignore_case(text(mail.subparts[0].mimetype), text("application/pgp-encrypted"@))
    &&& mail.subparts[0].body matches Some(b) && trim(text(b)) == text("Version: 1"@)
    &&& text(mail.subparts[1].mimetype) == text("application/octet-stream"@)
    &&& mail.subparts[1].body matches Some(b) && armored_payload_valid(text(b), outgoing)
}

/// A message that passes as encrypted on the way out also passes on the way
/// in: the check for outgoing mail is the stricter one.
pub proof fn lemma_outgoing_is_stricter(mail: MessageView)
    ensures
        encrypted_spec(mail, true) ==> encrypted_spec(mail, false),
{
    if encrypted_spec(mail, true) {
        let body = mail.subparts[1].body->Some_0;
        lemma_outgoing_armor_is_stricter(text(body));
    }
}

/// No message is both a secure-join request and encrypted: the one has a
/// single part, the other two.
pub proof fn lemma_securejoin_excludes_encrypted(mail: MessageView, outgoing: bool)
    ensures
        !(securejoin_spec(mail) && encrypted_spec(mail, outgoing)),
{
}

/// Checks if the message is a secure-join message (vc-request or vg-request).
pub fn is_securejoin(mail: &ParsedMessage) -> (r: bool)
    ensures
        r == securejoin_spec(mail@),
{
    proof {
        lemma_view(*mail);
        if mail.subparts@.len() > 0 {
            lemma_view(mail.subparts@[0]);
        }
    }
    // Check for the secure-join header.
    match mail.get_first_value("Secure-Join") {
        Some(value) => {
            if !bytes_eq(bytes(value), "vc-request".as_bytes()) && !bytes_eq(
                bytes(value),
                "vg-request".as_bytes(),
            ) {
                return false;
            }
        },
        None => {
            return false;
        },
    }
    // Must have exactly one part.
    if mail.subparts.len() != 1 {
        return false;
    }
    let part = &mail.subparts[0];
    // The part must not be multipart.
    if part.subparts.len() != 0 {
        return false;
    }
    // The part must be text/plain.
    if !bytes_eq(bytes(&part.mimetype), "text/plain".as_bytes()) {
        return false;
    }
    // Check the payload content.
    match &part.body {
        Some(body) => {
            let payload = to_lowercase(trim_str(body.as_str()));
            str_eq(payload.as_str(), "secure-join: vc-request") || str_eq(
                payload.as_str(),
                "secure-join: vg-request",
            )
        },
        None => false,
    }
}

/// Checks that the message is an OpenPGP-encrypted message.
///
/// The MIME structure must correspond to RFC 3156.
pub fn check_encrypted(mail: &ParsedMessage, outgoing: bool) -> (r: bool)
    ensures
        r == encrypted_spec(mail@, outgoing),
{
    proof {
        lemma_view(*mail);
        if mail.subparts@.len() == 2 {
            lemma_view(mail.subparts@[0]);
            lemma_view(mail.subparts@[1]);
        }
    }
    if !eq_ignore_ascii_case(bytes(&mail.mimetype), "multipart/encrypted".as_bytes()) {
        return false;
    }
    if mail.subparts.len() != 2 {
        return false;
    }
    let control = &mail.subparts[0];
    let data = &mail.subparts[1];
    // Each part must not be multipart.
    if control.subparts.len() != 0 || data.subparts.len() != 0 {
        return false;
    }
    // The first part must be application/pgp-encrypted.
    if !eq_ignore_ascii_case(bytes(&control.mimetype), "application/pgp-encrypted".as_bytes()) {
        return false;
    }
    // Its payload must be "Version: 1".
    match &control.body {
        Some(body) => {
            if !bytes_eq(trimmed(bytes(body)), "Version: 1".as_bytes()) {
                return false;
            }
        },
        None => {
            return false;
        },
    }
    // The second part must be application/octet-stream.
    if !bytes_eq(bytes(&data.mimetype), "application/octet-stream".as_bytes()) {
        return false;
    }
    // Check the armored payload.
    match &data.body {
        Some(body) => check_armored_payload(body.as_str(), outgoing),
        None => false,
    }
}

/// Whether `recipient` is what the passthrough pattern `pattern` lets through:
/// the pattern itself, or, for a pattern that starts with `@`, any address
/// that ends with it.
pub open spec fn matches_pattern(recipient: Seq<u8>, pattern: Seq<u8>) -> bool {
    recipient == pattern || (pattern.len() > 0 && pattern[0] == 64 && pattern.is_suffix_of(
        recipient,
    ))
}

/// Whether one of `patterns` lets `recipient` through.
pub open spec fn matches_passthrough(recipient: Seq<char>, patterns: Seq<String>) -> bool {
    exists|i: int|
        0 <= i < patterns.len() && matches_pattern(text(recipient), text(#[trigger] patterns[i]@))
}

/// Checks if the recipient matches a passthrough pattern.
pub fn recipient_matches_passthrough(recipient: &str, passthrough_recipients: &[String]) -> (r:
    bool)
    ensures
        r == matches_passthrough(recipient@, passthrough_recipients@),
{
    let address = recipient.as_bytes();
    let mut i: usize = 0;
    while i < passthrough_recipients.len()
        invariant
            address@ == text(recipient@),
            i <= passthrough_recipients@.len(),
            forall|j: int|
                0 <= j < i ==> !matches_pattern(
                    text(recipient@),
                    text(#[trigger] passthrough_recipients@[j]@),
                ),
        decreases passthrough_recipients@.len() - i,
    {
        let pattern = bytes(&passthrough_recipients[i]);
        if bytes_eq(address, pattern) {
            return true;
        }
        if pattern.len() > 0 && pattern[0] == 64 && ends_with(address, pattern) {
            return true;
        }
        i += 1;
    }
    false
}

} // verus!
