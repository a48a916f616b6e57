//! OpenPGP payload checker.
//!
//! A structural check only: nothing is decrypted. It rejects messages whose
//! "encrypted" wrapper hides anything but session keys followed by one
//! encrypted data packet.

use crate::error::Error;
use crate::text::{
    crlf, ends_with, find, first_occurrence, rfind_byte, skip_leading, skip_trailing,
    starts_with, strip_leading, strip_line_breaks, strip_trailing, without_line_breaks,
};
use vstd::arithmetic::power2::*;
use vstd::bits::*;
use vstd::prelude::*;
use vstd::string::*;

verus! {

/// Outcome of scanning a packet stream.
pub enum Scan {
    /// Session key packets followed by exactly one encrypted data packet.
    Valid,
    /// Well delimited, but not of that shape.
    Invalid,
    /// A length field or a body runs past the end of the payload.
    Truncated,
}

/// A first octet with both high bits set starts a new-format packet.
pub open spec fn is_new_format(first: u8) -> bool {
    first >= 192
}

/// The packet tag: the low six bits of a new-format first octet.
pub open spec fn packet_tag(first: u8) -> int {
    first - 192
}

/// Tag of a public-key encrypted session key packet.
pub const TAG_PKESK: u8 = 1;

/// Tag of a symmetric-key encrypted session key packet.
pub const TAG_SKESK: u8 = 3;

/// Tag of a symmetrically encrypted, integrity protected data packet.
pub const TAG_SEIPD: u8 = 18;

/// Length octets from 224 up to 254 announce a partial body chunk.
pub open spec fn is_partial_length(octet: u8) -> bool {
    224 <= octet < 255
}

/// The position just behind the packet body whose length field starts at `i`,
/// or `None` where a length octet or the body lies past the end of `p`.
///
/// A partial length octet stands for a chunk of `2^(octet - 224)` octets and
/// is followed, behind the chunk, by another length field.
pub open spec fn body_end(p: Seq<u8>, i: int) -> Option<int>
    decreases p.len() - i,
{
    if i < 0 || i >= p.len() {
        None
    } else if is_partial_length(p[i]) {
        let next = i + 1 + pow2((p[i] - 224) as nat);
        if next >= p.len() {
            None
        } else {
            body_end(p, next)
        }
    } else if p[i] < 192 {
        within(p, i + 1 + p[i])
    } else if p[i] < 224 {
        if i + 1 >= p.len() {
            None
        } else {
            within(p, i + 2 + (p[i] - 192) * 256 + p[i + 1] + 192)
        }
    } else {
        if i + 4 >= p.len() {
            None
        } else {
            within(
                p,
                i + 5 + p[i + 1] * 16777216 + p[i + 2] * 65536 + p[i + 3] * 256 + p[i + 4],
            )
        }
    }
}

/// `end`, if it does not lie past the end of `p`.
pub open spec fn within(p: Seq<u8>, end: int) -> Option<int> {
    if end <= p.len() {
        Some(end)
    } else {
        None
    }
}

/// Scans the packets of `p` from position `i` on.
///
/// A packet must be in the new format. One that ends with the payload must
/// be an encrypted data packet; any other must be a session key packet, and
/// the scan goes on behind it. (A body always ends behind the octet at which
/// its packet starts, so the scan moves on with every packet.)
pub open spec fn scan_from(p: Seq<u8>, i: int) -> Scan
    decreases p.len() - i,
{
    if i < 0 || i >= p.len() {
        Scan::Invalid
    } else if !is_new_format(p[i]) {
        Scan::Invalid
    } else {
        match body_end(p, i + 1) {
            None => Scan::Truncated,
            Some(end) => if end == p.len() {
                if packet_tag(p[i]) == TAG_SEIPD {
                    Scan::Valid
                } else {
                    Scan::Invalid
                }
            } else if i < end < p.len() && (packet_tag(p[i]) == TAG_PKESK || packet_tag(p[i])
                == TAG_SKESK) {
                scan_from(p, end)
            } else {
                Scan::Invalid
            },
        }
    }
}

/// Scans a whole payload.
pub open spec fn scan(p: Seq<u8>) -> Scan {
    scan_from(p, 0)
}

/// What `check_openpgp_payload` returns for each outcome of the scan.
pub open spec fn scan_result(s: Scan) -> Result<bool, Error> {
    match s {
        Scan::Valid => Ok(true),
        Scan::Invalid => Ok(false),
        Scan::Truncated => Err(Error::TruncatedHeader),
    }
}

/// A body never ends before the octet behind its length field.
pub proof fn lemma_body_end_bounds(p: Seq<u8>, i: int)
    ensures
        body_end(p, i) matches Some(end) ==> i < end <= p.len(),
    decreases p.len() - i,
{
    if 0 <= i < p.len() && is_partial_length(p[i]) {
        let next = i + 1 + pow2((p[i] - 224) as nat);
        if next < p.len() {
            lemma_body_end_bounds(p, next);
        }
    }
}

/// Where the packet that starts at `i` ends: just behind its body. `None`
/// where no new-format packet starts at `i`, or where it is cut short.
pub open spec fn packet_end(p: Seq<u8>, i: int) -> Option<int> {
    if 0 <= i < p.len() && is_new_format(p[i]) {
        body_end(p, i + 1)
    } else {
        None
    }
}

/// `starts` are the positions at which packets stand in `p` from `first`
/// on, one behind the other and up to the end of `p`. All are session key
/// packets but the last, which is an encrypted data packet.
pub open spec fn is_encrypted_run(p: Seq<u8>, first: int, starts: Seq<int>) -> bool {
    &&& starts.len() > 0
    &&& starts[0] == first
    &&& forall|k: int|
        0 <= k < starts.len() - 1 ==> {
            &&& packet_end(p, #[trigger] starts[k]) == Some(starts[k + 1])
            &&& (packet_tag(p[starts[k]]) == TAG_PKESK || packet_tag(p[starts[k]]) == TAG_SKESK)
        }
    &&& packet_end(p, starts.last()) == Some(p.len() as int)
    &&& packet_tag(p[starts.last()]) == TAG_SEIPD
}

/// The positions at which the packets stand that a scan from `i` passes.
pub open spec fn scanned_starts(p: Seq<u8>, i: int) -> Seq<int>
    decreases p.len() - i,
{
    match packet_end(p, i) {
        Some(end) => if i < end < p.len() {
            seq![i] + scanned_starts(p, end)
        } else {
            seq![i]
        },
        None => seq![i],
    }
}

/// A scan that ends well has passed session key packets and one data packet.
proof fn lemma_valid_scan_passes_run(p: Seq<u8>, i: int)
    requires
        scan_from(p, i) == Scan::Valid,
    ensures
        is_encrypted_run(p, i, scanned_starts(p, i)),
    decreases p.len() - i,
{
    let end = packet_end(p, i)->Some_0;
    lemma_body_end_bounds(p, i + 1);
    if end < p.len() {
        lemma_valid_scan_passes_run(p, end);
        let rest = scanned_starts(p, end);
        let starts = seq![i] + rest;
        assert(starts.last() == rest.last());
        assert forall|k: int| 0 <= k < starts.len() - 1 implies {
            &&& packet_end(p, #[trigger] starts[k]) == Some(starts[k + 1])
            &&& (packet_tag(p[starts[k]]) == TAG_PKESK || packet_tag(p[starts[k]]) == TAG_SKESK)
        } by {
            if k > 0 {
                assert(starts[k] == rest[k - 1]);
                assert(starts[k + 1] == rest[k]);
            } else {
                assert(starts[1] == rest[0]);
            }
        }
    }
}

/// Where session key packets and one data packet fill the payload from `i`
/// on, the scan from `i` ends well.
proof fn lemma_run_scans_valid(p: Seq<u8>, i: int, starts: Seq<int>)
    requires
        is_encrypted_run(p, i, starts),
    ensures
        scan_from(p, i) == Scan::Valid,
    decreases starts.len(),
{
    if starts.len() > 1 {
        let next = starts[1];
        let rest = starts.skip(1);
        assert(packet_end(p, starts[0]) == Some(next));
        lemma_body_end_bounds(p, i + 1);
        assert(rest.last() == starts.last());
        assert forall|k: int| 0 <= k < rest.len() - 1 implies {
            &&& packet_end(p, #[trigger] rest[k]) == Some(rest[k + 1])
            &&& (packet_tag(p[rest[k]]) == TAG_PKESK || packet_tag(p[rest[k]]) == TAG_SKESK)
        } by {
            assert(rest[k] == starts[k + 1]);
            assert(rest[k + 1] == starts[k + 2]);
        }
        if rest.len() == 1 {
            assert(packet_end(p, next) is Some);
        } else {
            assert(rest[0] == starts[1]);
            assert(packet_end(p, rest[0]) is Some);
        }
        lemma_run_scans_valid(p, next, rest);
    }
}

/// A payload is valid exactly if it is a run of packets without a gap and
/// without a rest: session key packets, as many as there may be, and then
/// one encrypted data packet.
pub proof fn lemma_valid_is_encrypted_run(p: Seq<u8>)
    ensures
        scan(p) == Scan::Valid <==> exists|starts: Seq<int>| is_encrypted_run(p, 0, starts),
{
    if scan(p) == Scan::Valid {
        lemma_valid_scan_passes_run(p, 0);
    }
    if exists|starts: Seq<int>| is_encrypted_run(p, 0, starts) {
        let starts = choose|starts: Seq<int>| is_encrypted_run(p, 0, starts);
        lemma_run_scans_valid(p, 0, starts);
    }
}

/// Checks the OpenPGP payload.
///
/// The payload must consist of session key packets (`PKESK`, `SKESK`) only,
/// terminated by a single `SEIPD` packet, with no octet left over. Returns
/// `Ok(true)` for such a payload and `Ok(false)` for any other that is well
/// delimited.
///
/// # Errors
///
/// Returns [`Error::TruncatedHeader`] if a length field or a packet body runs
/// past the end of the payload.
pub fn check_openpgp_payload(payload: &[u8]) -> (r: Result<bool, Error>)
    ensures
        r == scan_result(scan(payload@)),
{
    let n = payload.len();
    let mut i: usize = 0;
    while i < n
        invariant
            n == payload@.len(),
            i <= n,
            scan(payload@) == scan_from(payload@, i as int),
        decreases n - i,
    {
        let first = payload[i];
        if first < 192 {
            return Ok(false);
        }
        let tag: u8 = first - 192;
        let mut j: usize = i + 1;
        let mut partial: bool = true;
        while partial
            invariant
                n == payload@.len(),
                i < n,
                i < j,
                is_new_format(payload@[i as int]),
                scan(payload@) == scan_from(payload@, i as int),
                partial ==> j <= n,
                !partial ==> j < n && !is_partial_length(payload@[j as int]),
                body_end(payload@, i + 1) == body_end(payload@, j as int),
            decreases n - j + (if partial { 1int } else { 0int }),
        {
            if j >= n {
                return Err(Error::TruncatedHeader);
            }
            let octet = payload[j];
            if octet >= 224 && octet < 255 {
                let shift: u64 = (octet - 224) as u64;
                proof {
                    lemma_u64_pow2_no_overflow(shift as nat);
                    lemma_u64_shl_is_mul(1, shift);
                }
                let chunk: u64 = 1u64 << shift;
                if chunk >= (n - j - 1) as u64 {
                    return Err(Error::TruncatedHeader);
                }
                j = j + 1 + chunk as usize;
            } else {
                partial = false;
            }
        }
        let octet = payload[j];
        let rest: usize = n - j;
        let body: u64;
        let header: usize;
        if octet < 192 {
            header = 1;
            body = octet as u64;
        } else if octet < 224 {
            if rest < 2 {
                return Err(Error::TruncatedHeader);
            }
            header = 2;
            body = (octet - 192) as u64 * 256 + payload[j + 1] as u64 + 192;
        } else {
            if rest < 5 {
                return Err(Error::TruncatedHeader);
            }
            header = 5;
            body = payload[j + 1] as u64 * 16777216 + payload[j + 2] as u64 * 65536 + payload[j
                + 3] as u64 * 256 + payload[j + 4] as u64;
        }
        if body > (rest - header) as u64 {
            return Err(Error::TruncatedHeader);
        }
        let end: usize = j + header + body as usize;
        assert(body_end(payload@, i + 1) == Some(end as int));
        if end == n {
            return Ok(tag == TAG_SEIPD);
        }
        if tag != TAG_PKESK && tag != TAG_SKESK {
            return Ok(false);
        }
        i = end;
    }
    Ok(false)
}

/// The line that opens an armored message.
pub open spec fn armor_begin() -> Seq<u8> {
    "-----BEGIN PGP MESSAGE-----\r\n".spec_bytes()
}

/// The line that closes an armored message.
pub open spec fn armor_end() -> Seq<u8> {
    "-----END PGP MESSAGE-----".spec_bytes()
}

/// The start of an armor header that names the producing software.
pub open spec fn armor_version() -> Seq<u8> {
    "Version: ".spec_bytes()
}

/// What stands behind the leftmost `pat` in `s`; all of `s` where there is none.
pub open spec fn after_first(s: Seq<u8>, pat: Seq<u8>) -> Seq<u8> {
    match first_occurrence(s, pat) {
        Some(i) => s.skip(i + pat.len()),
        None => s,
    }
}

/// What stands before the rightmost byte `b` in `s`; all of `s` where there is none.
pub open spec fn before_last(s: Seq<u8>, b: u8) -> Seq<u8> {
    match s.index_of_last(b) {
        Some(i) => s.take(i),
        None => s,
    }
}

/// What is between the armor lines of `payload`, or `None` where one of the
/// two lines is missing. Line breaks behind the closing line are ignored.
pub open spec fn armor_inner(payload: Seq<u8>) -> Option<Seq<u8>> {
    if !armor_begin().is_prefix_of(payload) {
        None
    } else {
        let framed = strip_trailing(payload.skip(armor_begin().len() as int), crlf());
        if !armor_end().is_suffix_of(framed) {
            None
        } else {
            Some(framed.take(framed.len() - armor_end().len()))
        }
    }
}

/// The base64 text of what is between the armor lines.
///
/// A version header is dropped up to the end of its line, leading line
/// breaks are dropped, then the checksum: everything from the last `=` on.
/// What remains is taken without its line breaks.
pub open spec fn armor_base64(inner: Seq<u8>) -> Seq<u8> {
    let headless = if armor_version().is_prefix_of(inner) {
        after_first(inner, crlf())
    } else {
        inner
    };
    strip_line_breaks(before_last(strip_leading(headless, crlf()), 61))
}

/// The base64 text of an armored message, or `None` where the armor is
/// refused: a missing armor line, or a version header in an outgoing message.
pub open spec fn armor_text(payload: Seq<u8>, outgoing: bool) -> Option<Seq<u8>> {
    match armor_inner(payload) {
        None => None,
        Some(inner) => if outgoing && armor_version().is_prefix_of(inner) {
            None
        } else {
            Some(armor_base64(inner))
        },
    }
}

/// What the standard base64 engine decodes `input` to; `None` where it
/// refuses the input.
pub uninterp spec fn base64_decoded(input: Seq<u8>) -> Option<Seq<u8>>;

/// Whether `payload` is an armored message that holds a valid packet stream.
pub open spec fn armored_payload_valid(payload: Seq<u8>, outgoing: bool) -> bool {
    match armor_text(payload, outgoing) {
        None => false,
        Some(text) => match base64_decoded(text) {
            None => false,
            Some(packets) => scan(packets) == Scan::Valid,
        },
    }
}

/// An armored message that is valid on the way out is valid on the way in:
/// the way out only refuses more.
pub proof fn lemma_outgoing_armor_is_stricter(payload: Seq<u8>)
    ensures
        armored_payload_valid(payload, true) ==> armored_payload_valid(payload, false),
{
}

/// Decodes with `base64::Engine::decode` of `base64::engine::general_purpose::STANDARD`:
/// the standard alphabet, with padding required. The result depends on the
/// input alone; the contract only gives it its name.
#[verifier::external_body]
fn base64_decode(input: &[u8]) -> (r: Option<Vec<u8>>)
    ensures
        match r {
            Some(v) => base64_decoded(input@) == Some(v@),
            None => base64_decoded(input@) is None,
        },
{
    base64::Engine::decode(&base64::engine::general_purpose::STANDARD, input).ok()
}

/// Checks the armored PGP message for invalid content.
///
/// Returns `true` if `payload` is a valid PGP message. `outgoing` tells
/// whether the message leaves the relay: then armor headers are not accepted,
/// so that the relay's own users leak nothing in them.
pub fn check_armored_payload(payload: &str, outgoing: bool) -> (r: bool)
    ensures
        r == armored_payload_valid(payload.spec_bytes(), outgoing),
{
    let bytes = payload.as_bytes();
    let begin = "-----BEGIN PGP MESSAGE-----\r\n".as_bytes();
    let end = "-----END PGP MESSAGE-----".as_bytes();
    let version = "Version: ".as_bytes();
    let line_end = "\r\n".as_bytes();
    if !starts_with(bytes, begin) {
        return false;
    }
    let framed = skip_trailing(&bytes[begin.len()..bytes.len()], line_end);
    if !ends_with(framed, end) {
        return false;
    }
    let inner = &framed[0..framed.len() - end.len()];
    assert(armor_inner(bytes@) == Some(inner@));
    let mut rest = inner;
    if starts_with(inner, version) {
        // Comments are not accepted in outgoing messages.
        if outgoing {
            return false;
        }
        // They are dropped from incoming messages.
        if let Some(at) = find(inner, line_end) {
            rest = &inner[at + line_end.len()..inner.len()];
        }
    }
    assert(rest@ == if armor_version().is_prefix_of(inner@) {
        after_first(inner@, crlf())
    } else {
        inner@
    });
    let ghost headless = rest@;
    let led = skip_leading(rest, line_end);
    assert(led@ == strip_leading(headless, crlf()));
    // Remove the checksum.
    let data = match rfind_byte(led, 61) {
        Some(at) => &led[0..at],
        None => led,
    };
    assert(data@ == before_last(led@, 61));
    let text = without_line_breaks(data);
    assert(text@ == armor_base64(inner@));
    match base64_decode(text.as_slice()) {
        None => false,
        Some(packets) => match check_openpgp_payload(packets.as_slice()) {
            Ok(valid) => valid,
            Err(_) => false,
        },
    }
}

} // verus!
