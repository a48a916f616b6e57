//! Module for rate limiting.

use crate::text::str_eq;
use vstd::prelude::*;
use vstd::string::*;

verus! {

/// The length of the window over which sends are counted, in nanoseconds.
pub const ONE_MINUTE: u128 = 60_000_000_000;

/// The sends of one address that the limiter remembers, oldest first.
#[derive(Debug)]
pub struct SenderRecord {
    pub address: String,
    /// When each send was allowed, in nanoseconds since the Unix epoch.
    pub timestamps: Vec<u128>,
}

/// A rate limiter tracking send timestamps per address.
#[derive(Debug)]
pub struct SendRateLimiter {
    pub records: Vec<SenderRecord>,
}

/// Whether a send at time `t` still counts at time `now`: it is at most a
/// minute old. A send that lies in the future, as after the clock was set
/// back, counts too.
pub open spec fn in_window(t: u128, now: u128) -> bool {
    now <= t || now - t <= ONE_MINUTE
}

/// The sends among `times` that still count at time `now`.
pub open spec fn recent(times: Seq<u128>, now: u128) -> Seq<u128>
    decreases times.len(),
{
    if times.len() == 0 {
        times
    } else if in_window(times.last(), now) {
        recent(times.drop_last(), now).push(times.last())
    } else {
        recent(times.drop_last(), now)
    }
}

/// Whether a record is worth keeping at time `now`: its latest send still counts.
pub open spec fn is_live(record: SenderRecord, now: u128) -> bool {
    record.timestamps@.len() > 0 && in_window(record.timestamps@.last(), now)
}

/// The records among `records` that are worth keeping at time `now`.
pub open spec fn live(records: Seq<SenderRecord>, now: u128) -> Seq<SenderRecord>
    decreases records.len(),
{
    if records.len() == 0 {
        records
    } else if is_live(records.last(), now) {
        live(records.drop_last(), now).push(records.last())
    } else {
        live(records.drop_last(), now)
    }
}

/// The sends that `records` remembers of `address`: those of its record
/// for the address, none where there is no such record.
pub open spec fn sends_of(records: Seq<SenderRecord>, address: Seq<char>) -> Seq<u128>
    decreases records.len(),
{
    if records.len() == 0 {
        Seq::empty()
    } else if records.last().address@ == address {
        records.last().timestamps@
    } else {
        sends_of(records.drop_last(), address)
    }
}

/// No address has two records.
pub open spec fn distinct(records: Seq<SenderRecord>) -> bool {
    forall|i: int, j: int|
        0 <= i < j < records.len() ==> (#[trigger] records[i]).address@ != (
        #[trigger] records[j]).address@
}

/// What is remembered at time `now` of an address of which `times` were
/// remembered and which does not ask to send: everything where the latest
/// send still counts, else nothing.
pub open spec fn kept(times: Seq<u128>, now: u128) -> Seq<u128> {
    if times.len() > 0 && in_window(times.last(), now) {
        times
    } else {
        Seq::empty()
    }
}

/// Whether `records` holds a record for `address`.
pub open spec fn knows(records: Seq<SenderRecord>, address: Seq<char>) -> bool {
    exists|i: int| 0 <= i < records.len() && (#[trigger] records[i]).address@ == address
}

/// The sends of an address that count at time `now`, given the sends
/// `times` that were remembered of it: none where the latest is too old,
/// which makes the limiter forget the address.
pub open spec fn counted(times: Seq<u128>, now: u128) -> Seq<u128> {
    if times.len() > 0 && in_window(times.last(), now) {
        recent(times, now)
    } else {
        Seq::empty()
    }
}

/// Whether a send is allowed at time `now` to an address of which `times`
/// were remembered: fewer than `max` sends of it count, so that with this
/// one there are at most `max`.
pub open spec fn allowed(times: Seq<u128>, max: nat, now: u128) -> bool {
    counted(times, now).len() < max
}

/// What is remembered of an address after it asked to send at time `now`.
pub open spec fn after_request(times: Seq<u128>, max: nat, now: u128) -> Seq<u128> {
    if allowed(times, max, now) {
        counted(times, now).push(now)
    } else {
        counted(times, now)
    }
}

/// Whether the records `before` became the records `after` by a request of
/// `address` at time `now`, which was allowed or not as `ok` says.
pub open spec fn requested_at(
    before: Seq<SenderRecord>,
    after: Seq<SenderRecord>,
    address: Seq<char>,
    max: nat,
    now: u128,
    ok: bool,
) -> bool {
    &&& ok == allowed(sends_of(before, address), max, now)
    &&& sends_of(after, address) == after_request(sends_of(before, address), max, now)
    &&& forall|other: Seq<char>|
        other != address ==> #[trigger] sends_of(after, other) == kept(
            sends_of(before, other),
            now,
        )
}

/// The current time of `std::time::SystemTime::now`, in nanoseconds since
/// the Unix epoch, 0 for a clock that stands before it. Nothing is promised
/// of the clock.
#[verifier::external_body]
fn now_nanos() -> u128 {
    std::time::SystemTime::now().duration_since(std::time::UNIX_EPOCH).unwrap_or_default().as_nanos()
}

/// Of an address without a record nothing is remembered.
pub proof fn lemma_unknown_has_no_sends(records: Seq<SenderRecord>, address: Seq<char>)
    requires
        !knows(records, address),
    ensures
        sends_of(records, address) == Seq::<u128>::empty(),
    decreases records.len(),
{
    if records.len() > 0 {
        assert(records.last() == records[records.len() - 1]);
        assert forall|i: int| 0 <= i < records.drop_last().len() implies (
        #[trigger] records.drop_last()[i]).address@ != address by {
            assert(records.drop_last()[i] == records[i]);
        }
        lemma_unknown_has_no_sends(records.drop_last(), address);
    }
}

/// Where no address has two records, the sends of an address are those of
/// any record for it.
pub proof fn lemma_sends_of_record(records: Seq<SenderRecord>, i: int)
    requires
        distinct(records),
        0 <= i < records.len(),
    ensures
        sends_of(records, records[i].address@) == records[i].timestamps@,
    decreases records.len(),
{
    if i < records.len() - 1 {
        assert(records.last() == records[records.len() - 1]);
        assert(records.drop_last()[i] == records[i]);
        assert forall|a: int, b: int| 0 <= a < b < records.drop_last().len() implies (
        #[trigger] records.drop_last()[a]).address@ != (
        #[trigger] records.drop_last()[b]).address@ by {
            assert(records.drop_last()[a] == records[a]);
            assert(records.drop_last()[b] == records[b]);
        }
        lemma_sends_of_record(records.drop_last(), i);
    }
}

/// Dropping the records that are not worth keeping forgets exactly the
/// addresses whose latest send no longer counts.
pub proof fn lemma_live(records: Seq<SenderRecord>, now: u128)
    requires
        distinct(records),
    ensures
        distinct(live(records, now)),
        forall|address: Seq<char>|
            knows(live(records, now), address) ==> knows(records, address),
        forall|address: Seq<char>| #[trigger]
            sends_of(live(records, now), address) == kept(sends_of(records, address), now),
    decreases records.len(),
{
    if records.len() > 0 {
        let init = records.drop_last();
        let last = records.last();
        assert(last == records[records.len() - 1]);
        assert forall|a: int, b: int| 0 <= a < b < init.len() implies (#[trigger] init[a]).address@
            != (#[trigger] init[b]).address@ by {
            assert(init[a] == records[a]);
            assert(init[b] == records[b]);
        }
        lemma_live(init, now);
        let kept_init = live(init, now);
        assert forall|address: Seq<char>| knows(init, address) implies knows(records, address) by {
            let i = choose|i: int| 0 <= i < init.len() && (#[trigger] init[i]).address@ == address;
            assert(records[i] == init[i]);
        }
        if knows(init, last.address@) {
            let i = choose|i: int|
                0 <= i < init.len() && (#[trigger] init[i]).address@ == last.address@;
            assert(records[i] == init[i]);
            assert(false);
        }
        lemma_unknown_has_no_sends(init, last.address@);
        if is_live(last, now) {
            let out = kept_init.push(last);
            assert(out.drop_last() =~= kept_init);
            assert(out.last() == last);
            assert forall|a: int, b: int| 0 <= a < b < out.len() implies (#[trigger] out[a]).address@
                != (#[trigger] out[b]).address@ by {
                if b == out.len() - 1 {
                    assert(out[a] == kept_init[a]);
                    assert(knows(kept_init, kept_init[a].address@));
                } else {
                    assert(out[a] == kept_init[a]);
                    assert(out[b] == kept_init[b]);
                }
            }
            assert forall|address: Seq<char>| knows(out, address) implies knows(
                records,
                address,
            ) by {
                let i = choose|i: int| 0 <= i < out.len() && (#[trigger] out[i]).address@ == address;
                if i == out.len() - 1 {
                } else {
                    assert(out[i] == kept_init[i]);
                    assert(knows(kept_init, address));
                }
            }
            assert forall|address: Seq<char>| #[trigger]
                sends_of(out, address) == kept(sends_of(records, address), now) by {
                if last.address@ != address {
                    assert(sends_of(kept_init, address) == kept(sends_of(init, address), now));
                }
            }
        } else {
            assert forall|address: Seq<char>| #[trigger]
                sends_of(kept_init, address) == kept(sends_of(records, address), now) by {
                assert(sends_of(kept_init, address) == kept(sends_of(init, address), now));
            }
        }
    }
}

/// What is remembered of an address of which nothing was remembered, after
/// it asked to send at each of the times `asked` in turn.
pub open spec fn remembered_after(asked: Seq<u128>, max: nat) -> Seq<u128>
    decreases asked.len(),
{
    if asked.len() == 0 {
        Seq::empty()
    } else {
        after_request(remembered_after(asked.drop_last(), max), max, asked.last())
    }
}

/// The times among `asked` at which the address was allowed to send.
pub open spec fn allowed_sends(asked: Seq<u128>, max: nat) -> Seq<u128>
    decreases asked.len(),
{
    if asked.len() == 0 {
        Seq::empty()
    } else if allowed(remembered_after(asked.drop_last(), max), max, asked.last()) {
        allowed_sends(asked.drop_last(), max).push(asked.last())
    } else {
        allowed_sends(asked.drop_last(), max)
    }
}

/// Times in the order of a clock that does not go back, none later than `now`.
pub open spec fn ordered_until(times: Seq<u128>, now: u128) -> bool {
    &&& forall|i: int, j: int| 0 <= i <= j < times.len() ==> times[i] <= times[j]
    &&& forall|i: int| 0 <= i < times.len() ==> times[i] <= now
}

/// The sends that still count are some of the sends, in their order.
proof fn lemma_recent_is_part(times: Seq<u128>, at: u128, now: u128)
    requires
        ordered_until(times, now),
    ensures
        ordered_until(recent(times, at), now),
        recent(times, at).len() <= times.len(),
        forall|i: int|
            0 <= i < recent(times, at).len() ==> in_window(#[trigger] recent(times, at)[i], at),
        times.len() > 0 ==> forall|i: int|
            0 <= i < recent(times, at).len() ==> #[trigger] recent(times, at)[i] <= times.last(),
    decreases times.len(),
{
    if times.len() > 0 {
        let init = times.drop_last();
        assert(times.last() == times[times.len() - 1]);
        assert forall|i: int| 0 <= i < init.len() implies init[i] == times[i] by {}
        assert(ordered_until(init, now));
        lemma_recent_is_part(init, at, now);
        if init.len() > 0 {
            assert(init.last() == times[times.len() - 2]);
        }
    }
}

/// Of sends in the order of the clock, either the latest still counts or none does.
proof fn lemma_counted_is_recent(times: Seq<u128>, now: u128)
    requires
        ordered_until(times, now),
    ensures
        counted(times, now) == recent(times, now),
    decreases times.len(),
{
    if times.len() > 0 {
        let init = times.drop_last();
        assert(times.last() == times[times.len() - 1]);
        assert forall|i: int| 0 <= i < init.len() implies init[i] == times[i] by {}
        assert(ordered_until(init, now));
        lemma_counted_is_recent(init, now);
        if !in_window(times.last(), now) {
            if init.len() > 0 {
                assert(init.last() == times[times.len() - 2]);
                assert(!in_window(init.last(), now));
            }
            assert(counted(init, now) =~= Seq::<u128>::empty());
        }
    } else {
        assert(recent(times, now) =~= Seq::<u128>::empty());
    }
}

/// What counted at an earlier time and still counts now is what counts now.
proof fn lemma_recent_twice(times: Seq<u128>, earlier: u128, now: u128)
    requires
        ordered_until(times, earlier),
        earlier <= now,
    ensures
        recent(recent(times, earlier), now) == recent(times, now),
    decreases times.len(),
{
    if times.len() > 0 {
        let init = times.drop_last();
        let last = times.last();
        assert(last == times[times.len() - 1]);
        assert forall|i: int| 0 <= i < init.len() implies init[i] == times[i] by {}
        assert(ordered_until(init, earlier));
        lemma_recent_twice(init, earlier, now);
        if in_window(last, earlier) {
            let once = recent(init, earlier).push(last);
            assert(once.drop_last() =~= recent(init, earlier));
            assert(once.last() == last);
        }
    }
}

/// On a clock that does not go back, what is remembered of an address are
/// its allowed sends of the last minute, and never more than `max`.
proof fn lemma_remembered_are_recent_sends(asked: Seq<u128>, max: nat)
    requires
        asked.len() > 0,
        ordered_until(asked, asked.last()),
    ensures
        remembered_after(asked, max) == recent(allowed_sends(asked, max), asked.last()),
        remembered_after(asked, max).len() <= max,
        ordered_until(allowed_sends(asked, max), asked.last()),
    decreases asked.len(),
{
    let init = asked.drop_last();
    let now = asked.last();
    assert(now == asked[asked.len() - 1]);
    let before = remembered_after(init, max);
    let sends = allowed_sends(init, max);
    if init.len() == 0 {
        assert(counted(before, now) =~= Seq::<u128>::empty());
        assert(recent(sends, now) =~= Seq::<u128>::empty());
        let out = sends.push(now);
        assert(out.drop_last() =~= sends);
        assert(out.last() == now);
    } else {
        let earlier = init.last();
        assert(earlier == asked[asked.len() - 2]);
        assert forall|i: int| 0 <= i < init.len() implies init[i] == asked[i] by {}
        assert(ordered_until(init, earlier));
        lemma_remembered_are_recent_sends(init, max);
        assert(ordered_until(sends, now));
        lemma_recent_is_part(sends, earlier, now);
        lemma_counted_is_recent(before, now);
        lemma_recent_twice(sends, earlier, now);
        lemma_recent_is_part(before, now, now);
        assert(counted(before, now) == recent(sends, now));
        let out = sends.push(now);
        assert(out.drop_last() =~= sends);
        assert(out.last() == now);
    }
}

/// Across the sends of one address that are allowed within one minute, there
/// are never more than `max`, the limit per minute. The times `asked` are
/// those at which the address asked to send, read from a clock that does not
/// go back; the minute is the one that ends with the last of them.
pub proof fn lemma_sends_per_minute_bounded(asked: Seq<u128>, max: nat)
    requires
        asked.len() > 0,
        ordered_until(asked, asked.last()),
    ensures
        recent(allowed_sends(asked, max), asked.last()).len() <= max,
{
    lemma_remembered_are_recent_sends(asked, max);
}

/// The sends among `times` that lie in the minute that begins at `start`.
pub open spec fn in_minute(times: Seq<u128>, start: u128) -> Seq<u128>
    decreases times.len(),
{
    if times.len() == 0 {
        times
    } else if start <= times.last() <= start + ONE_MINUTE {
        in_minute(times.drop_last(), start).push(times.last())
    } else {
        in_minute(times.drop_last(), start)
    }
}

/// Of sends none of which is later than `now`, those of a minute that holds
/// `now` are among those that still count at `now`.
proof fn lemma_minute_is_recent(times: Seq<u128>, start: u128, now: u128)
    requires
        start <= now <= start + ONE_MINUTE,
        forall|i: int| 0 <= i < times.len() ==> times[i] <= now,
    ensures
        in_minute(times, start).len() <= recent(times, now).len(),
    decreases times.len(),
{
    if times.len() > 0 {
        let init = times.drop_last();
        assert(times.last() == times[times.len() - 1]);
        assert forall|i: int| 0 <= i < init.len() implies init[i] <= now by {
            assert(init[i] == times[i]);
        }
        lemma_minute_is_recent(init, start, now);
    }
}

/// Across the sends of one address that are allowed within any one minute,
/// there are never more than `max`, the limit per minute. The times `asked`
/// are those at which the address asked to send, read from a clock that does
/// not go back; the minute is the one that begins at `start`.
pub proof fn lemma_sends_in_any_minute_bounded(asked: Seq<u128>, max: nat, start: u128)
    requires
        asked.len() > 0 ==> ordered_until(asked, asked.last()),
    ensures
        in_minute(allowed_sends(asked, max), start).len() <= max,
    decreases asked.len(),
{
    if asked.len() > 0 {
        let init = asked.drop_last();
        let now = asked.last();
        assert(now == asked[asked.len() - 1]);
        if start <= now <= start + ONE_MINUTE {
            lemma_remembered_are_recent_sends(asked, max);
            lemma_minute_is_recent(allowed_sends(asked, max), start, now);
        } else {
            if init.len() > 0 {
                assert(init.last() == asked[asked.len() - 2]);
                assert forall|i: int| 0 <= i < init.len() implies init[i] == asked[i] by {}
                assert(ordered_until(init, init.last()));
            }
            lemma_sends_in_any_minute_bounded(init, max, start);
            if allowed(remembered_after(init, max), max, now) {
                let sends = allowed_sends(init, max).push(now);
                assert(sends.drop_last() =~= allowed_sends(init, max));
                assert(sends.last() == now);
            }
        }
    }
}

/// Taking out the record of one address leaves every other address as it was.
pub proof fn lemma_remove_record(records: Seq<SenderRecord>, i: int)
    requires
        distinct(records),
        0 <= i < records.len(),
    ensures
        distinct(records.remove(i)),
        !knows(records.remove(i), records[i].address@),
        forall|other: Seq<char>|
            other != records[i].address@ ==> #[trigger] sends_of(records.remove(i), other)
                == sends_of(records, other),
    decreases records.len(),
{
    let out = records.remove(i);
    assert forall|a: int| 0 <= a < out.len() implies #[trigger] out[a] == records[if a < i {
        a
    } else {
        a + 1
    }] by {}
    assert(distinct(out)) by {
        assert forall|a: int, b: int| 0 <= a < b < out.len() implies (#[trigger] out[a]).address@
            != (#[trigger] out[b]).address@ by {
            let ra = if a < i { a } else { a + 1 };
            let rb = if b < i { b } else { b + 1 };
            assert(out[a] == records[ra]);
            assert(out[b] == records[rb]);
        }
    }
    assert(!knows(out, records[i].address@)) by {
        if knows(out, records[i].address@) {
            let a = choose|a: int|
                0 <= a < out.len() && (#[trigger] out[a]).address@ == records[i].address@;
            let ra = if a < i { a } else { a + 1 };
            assert(out[a] == records[ra]);
            assert(false);
        }
    }
    assert(records.last() == records[records.len() - 1]);
    if i == records.len() - 1 {
        assert(out =~= records.drop_last());
    } else {
        let init = records.drop_last();
        assert(init[i] == records[i]);
        assert forall|a: int, b: int| 0 <= a < b < init.len() implies (#[trigger] init[a]).address@
            != (#[trigger] init[b]).address@ by {
            assert(init[a] == records[a]);
            assert(init[b] == records[b]);
        }
        lemma_remove_record(init, i);
        assert(out.drop_last() =~= init.remove(i));
        assert(out.last() == records.last());
        assert forall|other: Seq<char>| other != records[i].address@ implies #[trigger] sends_of(
            out,
            other,
        ) == sends_of(records, other) by {
            if records.last().address@ != other {
                assert(sends_of(init.remove(i), other) == sends_of(init, other));
            }
        }
    }
}

/// The sends among `times` that still count at time `now`.
pub fn retain_recent(times: &Vec<u128>, now: u128) -> (r: Vec<u128>)
    ensures
        r@ == recent(times@, now),
{
    let mut out: Vec<u128> = Vec::new();
    let mut i: usize = 0;
    assert(times@.take(0) =~= Seq::<u128>::empty());
    while i < times.len()
        invariant
            i <= times@.len(),
            out@ == recent(times@.take(i as int), now),
        decreases times@.len() - i,
    {
        assert(times@.take(i + 1).drop_last() =~= times@.take(i as int));
        assert(times@.take(i + 1).last() == times@[i as int]);
        if within(times[i], now) {
            out.push(times[i]);
        }
        i += 1;
    }
    assert(times@.take(i as int) =~= times@);
    out
}

impl SendRateLimiter {
    /// Where the record of `address` stands, if there is one.
    fn position(&self, address: &str) -> (r: Option<usize>)
        ensures
            match r {
                Some(i) => i < self.records@.len() && self.records@[i as int].address@ == address@,
                None => !knows(self.records@, address@),
            },
    {
        let mut i: usize = 0;
        while i < self.records.len()
            invariant
                i <= self.records@.len(),
                forall|j: int| 0 <= j < i ==> (#[trigger] self.records@[j]).address@ != address@,
            decreases self.records@.len() - i,
        {
            if str_eq(self.records[i].address.as_str(), address) {
                return Some(i);
            }
            i += 1;
        }
        None
    }

    /// Decides whether `mail_from` may send at time `now`, and remembers the
    /// send where it may.
    ///
    /// A send is allowed while fewer than `max_send_per_minute` sends of the
    /// address count, so that never more than that number are sent within a
    /// minute. Addresses whose latest send no longer counts are forgotten.
    pub fn is_sending_allowed_at(&mut self, mail_from: &str, max_send_per_minute: usize, now: u128) -> (ok:
        bool)
        requires
            distinct(old(self).records@),
        ensures
            distinct(final(self).records@),
            requested_at(
                old(self).records@,
                final(self).records@,
                mail_from@,
                max_send_per_minute as nat,
                now,
                ok,
            ),
    {
        self.forget_idle(now);
        let ghost alive = self.records@;
        proof {
            lemma_live(old(self).records@, now);
        }
        let remembered: Vec<u128> = match self.position(mail_from) {
            Some(i) => {
                proof {
                    lemma_sends_of_record(alive, i as int);
                    lemma_remove_record(alive, i as int);
                }
                self.records.remove(i).timestamps
            },
            None => {
                proof {
                    lemma_unknown_has_no_sends(alive, mail_from@);
                }
                Vec::new()
            },
        };
        let ghost others = self.records@;
        assert(remembered@ == kept(sends_of(old(self).records@, mail_from@), now));
        let mut times = retain_recent(&remembered, now);
        assert(times@ == counted(sends_of(old(self).records@, mail_from@), now)) by {
            assert(recent(Seq::<u128>::empty(), now) =~= Seq::<u128>::empty());
        }
        let ok = times.len() < max_send_per_minute;
        if ok {
            times.push(now);
        }
        if times.len() == 0 {
            // Nothing counts of the address, and nothing is remembered of it.
            proof {
                lemma_unknown_has_no_sends(others, mail_from@);
                assert forall|other: Seq<char>| other != mail_from@ implies #[trigger] sends_of(
                    others,
                    other,
                ) == kept(sends_of(old(self).records@, other), now) by {
                    assert(sends_of(others, other) == sends_of(alive, other));
                    assert(sends_of(alive, other) == kept(
                        sends_of(old(self).records@, other),
                        now,
                    ));
                }
            }
            return ok;
        }
        self.records.push(SenderRecord { address: String::from_str(mail_from), timestamps: times });
        proof {
            let out = self.records@;
            assert(out.drop_last() =~= others);
            assert(out.last().address@ == mail_from@);
            assert forall|a: int, b: int| 0 <= a < b < out.len() implies (#[trigger] out[a]).address@
                != (#[trigger] out[b]).address@ by {
                assert(out[a] == others[a]);
                if b < out.len() - 1 {
                    assert(out[b] == others[b]);
                }
            }
            assert forall|other: Seq<char>| other != mail_from@ implies #[trigger] sends_of(
                out,
                other,
            ) == kept(sends_of(old(self).records@, other), now) by {
                assert(sends_of(out, other) == sends_of(others, other));
                assert(sends_of(others, other) == sends_of(alive, other));
                assert(sends_of(alive, other) == kept(sends_of(old(self).records@, other), now));
            }
        }
        ok
    }

    /// Decides whether `mail_from` may send now, by the clock of the system,
    /// and remembers the send where it may. Whatever the clock says, the
    /// limiter does what `is_sending_allowed_at` does at that time.
    pub fn is_sending_allowed(&mut self, mail_from: &str, max_send_per_minute: usize) -> (ok: bool)
        requires
            distinct(old(self).records@),
        ensures
            distinct(final(self).records@),
            exists|now: u128|
                requested_at(
                    old(self).records@,
                    final(self).records@,
                    mail_from@,
                    max_send_per_minute as nat,
                    now,
                    ok,
                ),
    {
        let now = now_nanos();
        let ok = self.is_sending_allowed_at(mail_from, max_send_per_minute, now);
        assert(requested_at(
            old(self).records@,
            self.records@,
            mail_from@,
            max_send_per_minute as nat,
            now,
            ok,
        ));
        ok
    }

    /// A limiter that remembers nothing.
    pub fn new() -> (r: Self)
        ensures
            r.records@.len() == 0,
            distinct(r.records@),
    {
        SendRateLimiter { records: Vec::new() }
    }

    /// Forgets the addresses whose latest send no longer counts at time `now`.
    fn forget_idle(&mut self, now: u128)
        ensures
            final(self).records@ == live(old(self).records@, now),
    {
        let ghost before = self.records@;
        let mut i: usize = 0;
        let ghost mut seen: int = 0;
        assert(before.take(0) =~= Seq::<SenderRecord>::empty());
        assert(before.skip(0) =~= before);
        while i < self.records.len()
            invariant
                0 <= seen <= before.len(),
                i <= self.records@.len(),
                self.records@.take(i as int) == live(before.take(seen), now),
                self.records@.skip(i as int) == before.skip(seen),
            decreases self.records@.len() - i,
        {
            let ghost current = self.records@;
            assert(current.skip(i as int).len() == current.len() - i);
            assert(before.skip(seen).len() == before.len() - seen);
            assert(seen < before.len());
            assert(current[i as int] == current.skip(i as int)[0]);
            assert(before.skip(seen)[0] == before[seen]);
            assert(before.take(seen + 1).drop_last() =~= before.take(seen));
            assert(before.take(seen + 1).last() == before[seen]);
            let n = self.records[i].timestamps.len();
            if n > 0 && within(self.records[i].timestamps[n - 1], now) {
                assert(current.take(i + 1) =~= current.take(i as int).push(current[i as int]));
                assert(current.skip(i + 1) =~= current.skip(i as int).skip(1));
                assert(before.skip(seen + 1) =~= before.skip(seen).skip(1));
                i += 1;
            } else {
                self.records.remove(i);
                assert(self.records@.take(i as int) =~= current.take(i as int));
                assert(self.records@.skip(i as int) =~= current.skip(i as int).skip(1));
                assert(before.skip(seen + 1) =~= before.skip(seen).skip(1));
            }
            proof {
                seen = seen + 1;
            }
        }
        assert(self.records@.take(i as int) =~= self.records@);
        assert(before.skip(seen).len() == 0);
        assert(before.take(seen) =~= before);
    }
}

impl Default for SendRateLimiter {
    /// A limiter that remembers nothing.
    fn default() -> (r: Self)
        ensures
            r.records@.len() == 0,
            distinct(r.records@),
    {
        SendRateLimiter::new()
    }
}

/// Whether a send at time `t` still counts at time `now`.
pub fn within(t: u128, now: u128) -> (r: bool)
    ensures
        r == in_window(t, now),
{
    now <= t || now - t <= ONE_MINUTE
}

} // verus!
