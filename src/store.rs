//! Bookkeeping of the in-memory stream server: per-subject ordered logs,
//! per-group cursors, pending sets and redelivery queues, batch collection,
//! acknowledgement, dead-letter routing and retention trimming. The caller
//! serialises access (one lock per transport) and wakes idle consumers.
use vstd::prelude::*;
use vstd::string::*;

use crate::envelope::{opt_view, Envelope, EnvelopeView};
use crate::clock::unix_millis;
use crate::error::TransportError;
use crate::options::{PublishOpts, StartPosition, StreamConfig};
use crate::text::{second_token, second_token_of, wrap};

verus! {

/// A consumer group's position and unacknowledged messages.
#[derive(Debug)]
pub struct ConsumerGroup {
    /// Index of the last delivered message; `None` is before the first.
    pub cursor: Option<usize>,
    /// Ids delivered but not yet acknowledged.
    pub pending: Vec<String>,
    /// Ids to resend before new deliveries, oldest first.
    pub redeliver: Vec<String>,
}

/// One subject's log and its consumer groups.
#[derive(Debug)]
pub struct StreamData {
    pub subject: String,
    /// Messages in insertion order; the index is the cursor position.
    pub messages: Vec<Envelope>,
    /// Consumer groups by name.
    pub groups: Vec<(String, ConsumerGroup)>,
    pub config: Option<StreamConfig>,
}

/// All subjects of one in-memory transport.
#[derive(Debug)]
pub struct StreamStore {
    pub streams: Vec<StreamData>,
}

pub open spec fn str_views(v: Seq<String>) -> Seq<Seq<char>> {
    v.map_values(|s: String| s@)
}

pub open spec fn env_views(v: Seq<Envelope>) -> Seq<EnvelopeView> {
    v.map_values(|e: Envelope| e@)
}

pub open spec fn opt_int(o: Option<usize>) -> Option<int> {
    match o {
        Some(c) => Some(c as int),
        None => None,
    }
}

/// Index of the last message in `msgs[0..n)` with this id.
pub open spec fn last_with_id(msgs: Seq<Envelope>, id: Seq<char>, n: int) -> Option<int>
    decreases n,
{
    if n <= 0 {
        None
    } else if msgs[n - 1].message_id@ == id {
        Some(n - 1)
    } else {
        last_with_id(msgs, id, n - 1)
    }
}

/// Index of the last message in `msgs[0..n)` published before `ts`.
pub open spec fn last_before(msgs: Seq<Envelope>, ts: u64, n: int) -> Option<int>
    decreases n,
{
    if n <= 0 {
        None
    } else if msgs[n - 1].timestamp < ts {
        Some(n - 1)
    } else {
        last_before(msgs, ts, n - 1)
    }
}

/// The cursor a new group starts with.
pub open spec fn initial_cursor(msgs: Seq<Envelope>, start: StartPosition) -> Option<int> {
    match start {
        StartPosition::Latest => if msgs.len() == 0 { None } else { Some(msgs.len() - 1) },
        StartPosition::Earliest => None,
        StartPosition::Timestamp(ts) => last_before(msgs, ts, msgs.len() as int),
        StartPosition::Id(id) => last_with_id(msgs, id@, msgs.len() as int),
    }
}

/// How many messages one delivery cycle may hand out: none once `pending`
/// reaches `max_inflight`, else `batch_size` capped by the room left.
pub open spec fn batch_take(pending_len: int, batch_size: u32, max_inflight: u32) -> int {
    if pending_len >= max_inflight {
        0
    } else if (batch_size as int) < max_inflight - pending_len {
        batch_size as int
    } else {
        max_inflight - pending_len
    }
}

/// Redelivery phase: the envelopes for the queued ids `rq`, oldest first,
/// at most `take` of them, skipping ids no longer in the log; and how many
/// ids of the queue that consumes.
pub open spec fn replay(msgs: Seq<Envelope>, rq: Seq<Seq<char>>, take: int) -> (Seq<EnvelopeView>, int)
    decreases rq.len(),
{
    if take <= 0 || rq.len() == 0 {
        (Seq::empty(), 0)
    } else {
        match last_with_id(msgs, rq[0], msgs.len() as int) {
            Some(i) => {
                let rest = replay(msgs, rq.drop_first(), take - 1);
                (seq![msgs[i]@] + rest.0, rest.1 + 1)
            },
            None => {
                let rest = replay(msgs, rq.drop_first(), take);
                (rest.0, rest.1 + 1)
            },
        }
    }
}

/// New-message phase: the indices in `[i, end)` whose ids are not pending,
/// in log order; each chosen id counts as pending for the rest.
pub open spec fn fresh(msgs: Seq<Envelope>, pending: Seq<Seq<char>>, i: int, end: int) -> Seq<int>
    decreases end - i,
{
    if i >= end {
        Seq::empty()
    } else if pending.contains(msgs[i].message_id@) {
        fresh(msgs, pending, i + 1, end)
    } else {
        seq![i] + fresh(msgs, pending.push(msgs[i].message_id@), i + 1, end)
    }
}

/// The log index after the cursor.
pub open spec fn next_index(cursor: Option<usize>) -> int {
    match cursor {
        Some(c) => c + 1,
        None => 0,
    }
}

pub open spec fn min(a: int, b: int) -> int {
    if a < b { a } else { b }
}

/// The indices that the new-message phase of a cycle picks.
pub open spec fn fresh_of(msgs: Seq<Envelope>, g: ConsumerGroup, batch_size: u32, max_inflight: u32) -> Seq<int> {
    let take = batch_take(g.pending@.len() as int, batch_size, max_inflight);
    let p1 = replay(msgs, str_views(g.redeliver@), take).0;
    let start = next_index(g.cursor);
    fresh(msgs, str_views(g.pending@), start, min(start + take - p1.len(), msgs.len() as int))
}

/// One delivery cycle of group `g` over `msgs` took it to `g2` and handed out `r`.
pub open spec fn collected(
    msgs: Seq<Envelope>,
    g: ConsumerGroup,
    g2: ConsumerGroup,
    r: Seq<Envelope>,
    batch_size: u32,
    max_inflight: u32,
) -> bool {
    let take = batch_take(g.pending@.len() as int, batch_size, max_inflight);
    let (p1, used) = replay(msgs, str_views(g.redeliver@), take);
    let chosen = fresh_of(msgs, g, batch_size, max_inflight);
    &&& env_views(r) == p1 + chosen.map_values(|i: int| msgs[i]@)
    &&& str_views(g2.pending@) == str_views(g.pending@) + chosen.map_values(|i: int| msgs[i].message_id@)
    &&& str_views(g2.redeliver@) == str_views(g.redeliver@).skip(used)
    &&& g2.cursor == if chosen.len() == 0 { g.cursor } else { Some(chosen.last() as usize) }
}

proof fn lemma_replay_bounds(msgs: Seq<Envelope>, rq: Seq<Seq<char>>, take: int)
    ensures
        replay(msgs, rq, take).0.len() <= if take < 0 { 0 } else { take },
        0 <= replay(msgs, rq, take).1 <= rq.len(),
    decreases rq.len(),
{
    if take > 0 && rq.len() > 0 {
        lemma_replay_bounds(msgs, rq.drop_first(), take - 1);
        lemma_replay_bounds(msgs, rq.drop_first(), take);
    }
}

/// The new-message phase picks indices in strictly increasing log order,
/// all within `[i, end)`, at most `end - i` of them.
pub proof fn lemma_fresh_in_log_order(msgs: Seq<Envelope>, pending: Seq<Seq<char>>, i: int, end: int)
    ensures
        fresh(msgs, pending, i, end).len() <= if end < i { 0 } else { end - i },
        forall|a: int|
            0 <= a < fresh(msgs, pending, i, end).len() ==> i <= #[trigger] fresh(msgs, pending, i, end)[a] < end,
        forall|a: int, b: int|
            0 <= a < b < fresh(msgs, pending, i, end).len() ==> #[trigger] fresh(msgs, pending, i, end)[a]
                < #[trigger] fresh(msgs, pending, i, end)[b],
    decreases end - i,
{
    if i < end {
        lemma_fresh_in_log_order(msgs, pending, i + 1, end);
        lemma_fresh_in_log_order(msgs, pending.push(msgs[i].message_id@), i + 1, end);
    }
}

fn contains_id(v: &Vec<String>, id: &String) -> (r: bool)
    ensures
        r == str_views(v@).contains(id@),
{
    let mut k: usize = 0;
    while k < v.len()
        invariant
            0 <= k <= v@.len(),
            forall|j: int| 0 <= j < k ==> (#[trigger] v@[j])@ != id@,
        decreases v@.len() - k,
    {
        if v[k] == *id {
            assert(str_views(v@)[k as int] == id@);
            return true;
        }
        k += 1;
    }
    assert forall|j: int| 0 <= j < str_views(v@).len() implies str_views(v@)[j] != id@ by {
        assert(v@[j]@ != id@);
    }
    false
}

/// One delivery cycle for a group: first the redelivery queue, then new
/// messages after the cursor, never more than the in-flight cap allows.
fn collect_from(msgs: &Vec<Envelope>, g: &mut ConsumerGroup, batch_size: u32, max_inflight: u32) -> (r: Vec<Envelope>)
    requires
        cursor_in(old(g).cursor, msgs@.len()),
    ensures
        collected(msgs@, *old(g), *final(g), r@, batch_size, max_inflight),
        cursor_in(final(g).cursor, msgs@.len()),
{
    let ghost g0 = *g;
    let ghost take_s = batch_take(g.pending@.len() as int, batch_size, max_inflight);
    let take: usize = if g.pending.len() >= max_inflight as usize {
        0
    } else if (batch_size as usize) < max_inflight as usize - g.pending.len() {
        batch_size as usize
    } else {
        max_inflight as usize - g.pending.len()
    };
    assert(take as int == take_s);
    let ghost rq0 = str_views(g.redeliver@);
    let ghost mut used: int = 0;
    let mut batch: Vec<Envelope> = Vec::new();
    proof {
        lemma_replay_bounds(msgs@, rq0, take_s);
        assert(rq0.skip(0) =~= rq0);
        assert(env_views(batch@) =~= Seq::<EnvelopeView>::empty());
    }
    while batch.len() < take && g.redeliver.len() > 0
        invariant
            g.pending == g0.pending,
            g.cursor == g0.cursor,
            cursor_in(g.cursor, msgs@.len()),
            take as int == take_s,
            rq0 == str_views(g0.redeliver@),
            0 <= used <= rq0.len(),
            str_views(g.redeliver@) == rq0.skip(used),
            batch@.len() <= take,
            env_views(batch@) + replay(msgs@, str_views(g.redeliver@), take - batch@.len()).0 == replay(
                msgs@,
                rq0,
                take_s,
            ).0,
            used + replay(msgs@, str_views(g.redeliver@), take - batch@.len()).1 == replay(msgs@, rq0, take_s).1,
        decreases g.redeliver@.len(),
    {
        let ghost rq = str_views(g.redeliver@);
        let ghost t = take - batch@.len();
        let ghost bv = env_views(batch@);
        let id = g.redeliver.remove(0);
        proof {
            lemma_last_with_id_bound(msgs@, id@, msgs@.len() as int);
            assert(str_views(g.redeliver@) =~= rq.drop_first());
            assert(rq0.skip(used + 1) =~= rq0.skip(used).drop_first());
            assert(rq[0] == id@);
        }
        match find_id(msgs, &id) {
            Some(i) => {
                let e = msgs[i].clone();
                batch.push(e);
                proof {
                    assert(env_views(batch@) =~= bv.push(msgs@[i as int]@));
                    let rest = replay(msgs@, rq.drop_first(), t - 1);
                    assert(bv + replay(msgs@, rq, t).0 =~= env_views(batch@) + rest.0);
                }
            },
            None => {},
        }
        proof {
            used = used + 1;
        }
    }
    let ghost p1 = env_views(batch@);
    proof {
        assert(replay(msgs@, str_views(g.redeliver@), take - batch@.len()).0 =~= Seq::<EnvelopeView>::empty());
        assert(replay(msgs@, str_views(g.redeliver@), take - batch@.len()).1 == 0);
        assert(p1 =~= replay(msgs@, rq0, take_s).0);
    }
    let n = msgs.len();
    let start: usize = match g.cursor {
        Some(c) => {
            assert((c as int) < n);
            c + 1
        },
        None => 0,
    };
    let room = take - batch.len();
    let end: usize = if msgs.len() - start < room {
        msgs.len()
    } else {
        start + room
    };
    assert(end as int == min(start + take_s - p1.len(), msgs@.len() as int));
    let ghost p0 = str_views(g.pending@);
    let ghost rd = g.redeliver@;
    let ghost mut chosen: Seq<int> = Seq::empty();
    let mut i = start;
    proof {
        assert(chosen + fresh(msgs@, p0, start as int, end as int) =~= fresh(msgs@, p0, start as int, end as int));
        assert(p0 + chosen.map_values(|k: int| msgs@[k].message_id@) =~= p0);
        assert(p1 + chosen.map_values(|k: int| msgs@[k]@) =~= p1);
    }
    while i < end
        invariant
            start <= i <= end <= msgs@.len(),
            start as int == next_index(g0.cursor),
            chosen + fresh(msgs@, str_views(g.pending@), i as int, end as int) == fresh(msgs@, p0, start as int, end as int),
            str_views(g.pending@) == p0 + chosen.map_values(|k: int| msgs@[k].message_id@),
            env_views(batch@) == p1 + chosen.map_values(|k: int| msgs@[k]@),
            g.cursor == if chosen.len() == 0 { g0.cursor } else { Some(chosen.last() as usize) },
            chosen.len() > 0 ==> chosen.last() < i,
            cursor_in(g.cursor, msgs@.len()),
            g.redeliver@ == rd,
        decreases end - i,
    {
        let ghost pv = str_views(g.pending@);
        if !contains_id(&g.pending, &msgs[i].message_id) {
            let ghost bv = env_views(batch@);
            let ghost cm = chosen.map_values(|k: int| msgs@[k].message_id@);
            let ghost ce = chosen.map_values(|k: int| msgs@[k]@);
            g.pending.push(msgs[i].message_id.clone());
            g.cursor = Some(i);
            let e = msgs[i].clone();
            batch.push(e);
            proof {
                let rest = fresh(msgs@, pv.push(msgs@[i as int].message_id@), i + 1, end as int);
                assert(chosen.push(i as int) + rest =~= chosen + (seq![i as int] + rest));
                chosen = chosen.push(i as int);
                assert(chosen.map_values(|k: int| msgs@[k].message_id@) =~= cm.push(msgs@[i as int].message_id@));
                assert(chosen.map_values(|k: int| msgs@[k]@) =~= ce.push(msgs@[i as int]@));
                assert(str_views(g.pending@) =~= pv.push(msgs@[i as int].message_id@));
                assert(env_views(batch@) =~= bv.push(msgs@[i as int]@));
            }
        }
        i += 1;
    }
    proof {
        assert(fresh(msgs@, str_views(g.pending@), i as int, end as int) =~= Seq::<int>::empty());
        assert(chosen =~= fresh(msgs@, p0, start as int, end as int));
        let pr = replay(msgs@, rq0, take_s);
        assert(p0 == str_views(g0.pending@));
        assert(chosen == fresh_of(msgs@, g0, batch_size, max_inflight));
        assert(env_views(batch@) == pr.0 + chosen.map_values(|k: int| msgs@[k]@));
        assert(str_views(g.redeliver@) == rq0.skip(pr.1));
    }
    batch
}

/// Stream `si` carries `subject` and its group `gi` is named `group`.
pub open spec fn locates(streams: Seq<StreamData>, subject: Seq<char>, group: Seq<char>, si: int, gi: int) -> bool {
    &&& 0 <= si < streams.len()
    &&& streams[si].subject@ == subject
    &&& 0 <= gi < streams[si].groups@.len()
    &&& streams[si].groups@[gi].0@ == group
}

/// Some stream of `subject` has a group named `group`.
pub open spec fn has_subscription(streams: Seq<StreamData>, subject: Seq<char>, group: Seq<char>) -> bool {
    exists|si: int, gi: int| locates(streams, subject, group, si, gi)
}

/// `new` differs from `old` at most in the state of group `gi` of stream `si`.
pub open spec fn only_group_changed(old: Seq<StreamData>, new: Seq<StreamData>, si: int, gi: int) -> bool {
    &&& new.len() == old.len()
    &&& forall|a: int| 0 <= a < old.len() && a != si ==> new[a] == old[a]
    &&& new[si].subject == old[si].subject
    &&& new[si].messages == old[si].messages
    &&& new[si].config == old[si].config
    &&& new[si].groups@.len() == old[si].groups@.len()
    &&& forall|b: int| 0 <= b < old[si].groups@.len() && b != gi ==> new[si].groups@[b] == old[si].groups@[b]
    &&& new[si].groups@[gi].0 == old[si].groups@[gi].0
}

/// `p` without the entries equal to `id`.
pub open spec fn without(p: Seq<Seq<char>>, id: Seq<char>) -> Seq<Seq<char>>
    decreases p.len(),
{
    if p.len() == 0 {
        p
    } else {
        let w = without(p.drop_last(), id);
        if p.last() == id {
            w
        } else {
            w.push(p.last())
        }
    }
}

/// Declaring `config` took the streams from `old` to `new`; `r` is its stream.
pub open spec fn ensured(old: Seq<StreamData>, new: Seq<StreamData>, config: StreamConfig, r: int) -> bool {
    &&& 0 <= r < new.len()
    &&& new[r].subject@ == config.subject@
    &&& new[r].config == Some(config)
    &&& has_stream(old, config.subject@) ==> {
        &&& new.len() == old.len()
        &&& new[r].subject == old[r].subject
        &&& new[r].messages == old[r].messages
        &&& new[r].groups == old[r].groups
    }
    &&& !has_stream(old, config.subject@) ==> {
        &&& new.len() == old.len() + 1
        &&& new[r].messages@.len() == 0
        &&& new[r].groups@.len() == 0
    }
    &&& forall|a: int| 0 <= a < old.len() && a != r ==> new[a] == old[a]
}

/// Trimming `subject` at `cutoff` took the streams from `old` to `new` and removed `r` messages.
pub open spec fn trimmed(old: Seq<StreamData>, new: Seq<StreamData>, subject: Seq<char>, cutoff: u64, r: u64) -> bool {
    &&& !has_stream(old, subject) ==> r == 0 && new == old
    &&& forall|si: int|
        0 <= si < old.len() && #[trigger] old[si].subject@ == subject ==> {
            let st = old[si];
            let st2 = new[si];
            let k = expired_from(st.messages@, cutoff, 0);
            &&& r as int == k
            &&& new.len() == old.len()
            &&& forall|a: int| 0 <= a < old.len() && a != si ==> new[a]
                == old[a]
            &&& st2.subject == st.subject
            &&& st2.config == st.config
            &&& env_views(st2.messages@) == env_views(st.messages@).skip(k)
            &&& st2.groups@.len() == st.groups@.len()
            &&& forall|b: int|
                0 <= b < st.groups@.len() ==> {
                    let g = (#[trigger] st.groups@[b]).1;
                    let g2 = st2.groups@[b].1;
                    &&& st2.groups@[b].0 == st.groups@[b].0
                    &&& str_views(g2.pending@) == without_all(str_views(g.pending@), ids_of(st.messages@.take(k)))
                    &&& g2.redeliver == g.redeliver
                    &&& opt_int(g2.cursor) == shifted(g.cursor, k)
                }
        }
}

/// Acknowledging `id` for (`subject`, `group`) took the streams from `old` to `new`.
pub open spec fn acked(old: Seq<StreamData>, new: Seq<StreamData>, subject: Seq<char>, group: Seq<char>, id: Seq<char>) -> bool {
    &&& !has_subscription(old, subject, group) ==> new == old
    &&& forall|si: int, gi: int|
        #[trigger] locates(old, subject, group, si, gi) ==> {
            let g = old[si].groups@[gi].1;
            let g2 = new[si].groups@[gi].1;
            &&& only_group_changed(old, new, si, gi)
            &&& str_views(g2.pending@) == without(str_views(g.pending@), id)
            &&& g2.redeliver == g.redeliver
            &&& g2.cursor == g.cursor
        }
}

/// Appending `e` took the streams from `old` to `new`; `r` is its stream.
pub open spec fn appended(old: Seq<StreamData>, new: Seq<StreamData>, e: Envelope, r: int) -> bool {
    &&& 0 <= r < new.len()
    &&& new[r].subject@ == e.subject@
    &&& env_views(new[r].messages@) == env_views(
        if has_stream(old, e.subject@) {
            old[r].messages@
        } else {
            Seq::<Envelope>::empty()
        },
    ).push(e@)
    &&& has_stream(old, e.subject@) ==> {
        &&& new.len() == old.len()
        &&& new[r].groups == old[r].groups
        &&& new[r].config == old[r].config
    }
    &&& !has_stream(old, e.subject@) ==> {
        &&& new.len() == old.len() + 1
        &&& r == old.len()
        &&& new[r].groups@.len() == 0
        &&& new[r].config is None
    }
    &&& forall|a: int| 0 <= a < old.len() && a != r ==> new[a] == old[a]
}

/// How many messages from `i` on, up to the first one newer than `cutoff`.
pub open spec fn expired_from(msgs: Seq<Envelope>, cutoff: u64, i: int) -> int
    decreases msgs.len() - i,
{
    if i < 0 || i >= msgs.len() || msgs[i].timestamp > cutoff {
        i
    } else {
        expired_from(msgs, cutoff, i + 1)
    }
}

/// The ids of `msgs`, in order.
pub open spec fn ids_of(msgs: Seq<Envelope>) -> Seq<Seq<char>> {
    msgs.map_values(|e: Envelope| e.message_id@)
}

/// `gbe._deadletter.{domain}`, where the domain is the second dot-delimited
/// token of the source subject (`unknown` if absent).
pub open spec fn dead_letter_subject(subject: Seq<char>) -> Seq<char> {
    "gbe._deadletter."@ + second_token(subject, '.')
}

/// The domain (second token) of a dot-delimited subject, or `unknown`.
pub fn extract_domain(subject: &str) -> (r: &str)
    ensures
        r@ == second_token(subject@, '.'),
{
    second_token_of(subject, '.')
}

/// The dead-letter subject for messages of `subject`.
pub fn dead_letter_subject_of(subject: &str) -> (r: String)
    ensures
        r@ == dead_letter_subject(subject@),
{
    let mut s = String::from_str("gbe._deadletter.");
    s.append(extract_domain(subject));
    s
}

/// `p` without the entries listed in `ids`.
pub open spec fn without_all(p: Seq<Seq<char>>, ids: Seq<Seq<char>>) -> Seq<Seq<char>>
    decreases p.len(),
{
    if p.len() == 0 {
        p
    } else {
        let w = without_all(p.drop_last(), ids);
        if ids.contains(p.last()) {
            w
        } else {
            w.push(p.last())
        }
    }
}

/// A cursor after dropping the first `k` messages.
pub open spec fn shifted(cursor: Option<usize>, k: int) -> Option<int> {
    match cursor {
        Some(c) => if (c as int) < k { None } else { Some(c - k) },
        None => None,
    }
}

proof fn lemma_expired_bounds(msgs: Seq<Envelope>, cutoff: u64, i: int)
    requires
        0 <= i <= msgs.len(),
    ensures
        i <= expired_from(msgs, cutoff, i) <= msgs.len(),
    decreases msgs.len() - i,
{
    if i < msgs.len() && msgs[i].timestamp <= cutoff {
        lemma_expired_bounds(msgs, cutoff, i + 1);
    }
}

fn remove_id(p: &Vec<String>, id: &str) -> (r: Vec<String>)
    ensures
        str_views(r@) == without(str_views(p@), id@),
{
    let key = id.to_string();
    let mut out: Vec<String> = Vec::new();
    let mut k: usize = 0;
    while k < p.len()
        invariant
            key@ == id@,
            0 <= k <= p@.len(),
            str_views(out@) == without(str_views(p@.subrange(0, k as int)), id@),
        decreases p@.len() - k,
    {
        let ghost ov = str_views(out@);
        assert(str_views(p@.subrange(0, k + 1)).drop_last() =~= str_views(p@.subrange(0, k as int)));
        if p[k] != key {
            out.push(p[k].clone());
            assert(str_views(out@) =~= ov.push(p@[k as int]@));
        }
        k += 1;
    }
    assert(p@.subrange(0, p@.len() as int) =~= p@);
    out
}

fn remove_ids(p: &Vec<String>, ids: &Vec<String>) -> (r: Vec<String>)
    ensures
        str_views(r@) == without_all(str_views(p@), str_views(ids@)),
{
    let mut out: Vec<String> = Vec::new();
    let mut k: usize = 0;
    while k < p.len()
        invariant
            0 <= k <= p@.len(),
            str_views(out@) == without_all(str_views(p@.subrange(0, k as int)), str_views(ids@)),
        decreases p@.len() - k,
    {
        let ghost ov = str_views(out@);
        assert(str_views(p@.subrange(0, k + 1)).drop_last() =~= str_views(p@.subrange(0, k as int)));
        if !contains_id(ids, &p[k]) {
            out.push(p[k].clone());
            assert(str_views(out@) =~= ov.push(p@[k as int]@));
        }
        k += 1;
    }
    assert(p@.subrange(0, p@.len() as int) =~= p@);
    out
}

/// Declaring the same stream twice succeeds both times, and the second
/// declaration changes nothing.
pub proof fn lemma_ensure_stream_idempotent(
    s0: Seq<StreamData>,
    s1: Seq<StreamData>,
    s2: Seq<StreamData>,
    config: StreamConfig,
    r1: int,
    r2: int,
)
    requires
        streams_wf(s1),
        ensured(s0, s1, config, r1),
        ensured(s1, s2, config, r2),
    ensures
        s2 == s1,
{
    assert(has_stream(s1, config.subject@)) by {
        assert(s1[r1].subject@ == config.subject@);
    }
    assert(s2[r2] == s1[r2]);
    assert(s2 =~= s1);
}

/// Removing an id twice is the same as removing it once.
pub proof fn lemma_without_idempotent(p: Seq<Seq<char>>, id: Seq<char>)
    ensures
        without(without(p, id), id) == without(p, id),
    decreases p.len(),
{
    if p.len() > 0 {
        lemma_without_idempotent(p.drop_last(), id);
        let w = without(p.drop_last(), id);
        if p.last() != id {
            assert(w.push(p.last()).drop_last() =~= w);
        }
    }
}

/// A second acknowledgement of the same message leaves every pending set
/// as the first one left it.
pub proof fn lemma_ack_idempotent(
    s0: Seq<StreamData>,
    s1: Seq<StreamData>,
    s2: Seq<StreamData>,
    subject: Seq<char>,
    group: Seq<char>,
    id: Seq<char>,
)
    requires
        acked(s0, s1, subject, group, id),
        acked(s1, s2, subject, group, id),
    ensures
        forall|si: int, gi: int|
            #[trigger] locates(s1, subject, group, si, gi) ==> str_views(s2[si].groups@[gi].1.pending@) == str_views(
                s1[si].groups@[gi].1.pending@,
            ),
        !has_subscription(s0, subject, group) ==> s2 == s0,
{
    assert forall|si: int, gi: int| #[trigger] locates(s1, subject, group, si, gi) implies str_views(
        s2[si].groups@[gi].1.pending@,
    ) == str_views(s1[si].groups@[gi].1.pending@) by {
        if locates(s0, subject, group, si, gi) {
            lemma_without_idempotent(str_views(s0[si].groups@[gi].1.pending@), id);
        } else {
            assert(s1 == s0) by {
                if has_subscription(s0, subject, group) {
                    let (sj, gj) = choose|sj: int, gj: int| locates(s0, subject, group, sj, gj);
                    assert(only_group_changed(s0, s1, sj, gj));
                    if sj == si {
                        assert(s1[si].groups@[gi].0 == s0[si].groups@[gi].0 || gi == gj);
                        assert(s0[si].groups@[gi].0@ == group || gi == gj);
                    } else {
                        assert(s1[si] == s0[si]);
                    }
                }
            }
            lemma_without_idempotent(str_views(s0[si].groups@[gi].1.pending@), id);
        }
    }
}

/// Without redeliveries, every message a cycle hands out joins the pending
/// set, and the pending set never grows past the in-flight cap.
pub proof fn lemma_cycle_respects_cap(
    msgs: Seq<Envelope>,
    g: ConsumerGroup,
    g2: ConsumerGroup,
    r: Seq<Envelope>,
    batch_size: u32,
    max_inflight: u32,
)
    requires
        collected(msgs, g, g2, r, batch_size, max_inflight),
        g.redeliver@.len() == 0,
        g.pending@.len() <= max_inflight,
    ensures
        g2.redeliver@.len() == 0,
        g2.pending@.len() == g.pending@.len() + r.len(),
        g2.pending@.len() <= max_inflight,
{
    let take = batch_take(g.pending@.len() as int, batch_size, max_inflight);
    assert(str_views(g.redeliver@) =~= Seq::<Seq<char>>::empty());
    let start = next_index(g.cursor);
    let end = min(start + take, msgs.len() as int);
    lemma_fresh_in_log_order(msgs, str_views(g.pending@), start, end);
    assert(env_views(r).len() == r.len());
    assert(str_views(g2.redeliver@).len() == g2.redeliver@.len());
    assert(str_views(g2.pending@).len() == g2.pending@.len());
}

/// Over consecutive cycles with no acknowledgement and no redelivery, the
/// number of messages handed out equals the pending count, so at most
/// `max_inflight` messages are ever delivered.
pub proof fn lemma_deliveries_capped(
    msgs: Seq<Envelope>,
    gs: Seq<ConsumerGroup>,
    rs: Seq<Seq<Envelope>>,
    batch_size: u32,
    max_inflight: u32,
)
    requires
        gs.len() == rs.len() + 1,
        gs[0].pending@.len() == 0,
        gs[0].redeliver@.len() == 0,
        forall|i: int| 0 <= i < rs.len() ==> collected(msgs, #[trigger] gs[i], gs[i + 1], rs[i], batch_size, max_inflight),
    ensures
        total_len(rs) == gs.last().pending@.len(),
        total_len(rs) <= max_inflight,
    decreases rs.len(),
{
    if rs.len() == 0 {
    } else {
        let n = rs.len() - 1;
        lemma_deliveries_capped(msgs, gs.drop_last(), rs.drop_last(), batch_size, max_inflight);
        assert(gs.drop_last().last() == gs[n]);
        assert(collected(msgs, gs[n], gs[n + 1], rs[n], batch_size, max_inflight));
        lemma_cycle_redeliver_empty(msgs, gs, rs, batch_size, max_inflight, n);
        lemma_cycle_respects_cap(msgs, gs[n], gs[n + 1], rs[n], batch_size, max_inflight);
    }
}

proof fn lemma_cycle_redeliver_empty(
    msgs: Seq<Envelope>,
    gs: Seq<ConsumerGroup>,
    rs: Seq<Seq<Envelope>>,
    batch_size: u32,
    max_inflight: u32,
    n: int,
)
    requires
        gs.len() == rs.len() + 1,
        0 <= n < rs.len(),
        gs[0].redeliver@.len() == 0,
        forall|i: int| 0 <= i < rs.len() ==> collected(msgs, #[trigger] gs[i], gs[i + 1], rs[i], batch_size, max_inflight),
    ensures
        gs[n].redeliver@.len() == 0,
    decreases n,
{
    if n > 0 {
        lemma_cycle_redeliver_empty(msgs, gs, rs, batch_size, max_inflight, n - 1);
        assert(collected(msgs, gs[n - 1], gs[n], rs[n - 1], batch_size, max_inflight));
        assert(str_views(gs[n - 1].redeliver@) =~= Seq::<Seq<char>>::empty());
        assert(str_views(gs[n].redeliver@).len() == gs[n].redeliver@.len());
    }
}

/// A nak'd message still in the log is the first one the next cycle with
/// room hands out.
pub proof fn lemma_nak_redelivered_first(
    msgs: Seq<Envelope>,
    g: ConsumerGroup,
    g2: ConsumerGroup,
    r: Seq<Envelope>,
    batch_size: u32,
    max_inflight: u32,
    i: int,
)
    requires
        collected(msgs, g, g2, r, batch_size, max_inflight),
        g.redeliver@.len() > 0,
        batch_take(g.pending@.len() as int, batch_size, max_inflight) > 0,
        last_with_id(msgs, g.redeliver@[0]@, msgs.len() as int) == Some(i),
    ensures
        r.len() > 0,
        r[0]@ == msgs[i]@,
{
    let rq = str_views(g.redeliver@);
    assert(rq[0] == g.redeliver@[0]@);
    let take = batch_take(g.pending@.len() as int, batch_size, max_inflight);
    let p1 = replay(msgs, rq, take).0;
    let chosen = fresh_of(msgs, g, batch_size, max_inflight);
    assert(p1 == seq![msgs[i]@] + replay(msgs, rq.drop_first(), take - 1).0);
    assert(p1.len() >= 1 && p1[0] == msgs[i]@);
    let all = p1 + chosen.map_values(|k: int| msgs[k]@);
    assert(env_views(r) == all);
    assert(env_views(r).len() == r.len());
    assert(all[0] == p1[0]);
    assert(env_views(r)[0] == r[0]@);
}

/// With nothing to redeliver and room in the cycle, the first message after
/// the cursor that is not pending is handed out.
pub proof fn lemma_next_message_delivered(
    msgs: Seq<Envelope>,
    g: ConsumerGroup,
    g2: ConsumerGroup,
    r: Seq<Envelope>,
    batch_size: u32,
    max_inflight: u32,
)
    requires
        collected(msgs, g, g2, r, batch_size, max_inflight),
        g.redeliver@.len() == 0,
        batch_take(g.pending@.len() as int, batch_size, max_inflight) > 0,
        0 <= next_index(g.cursor) < msgs.len(),
        !str_views(g.pending@).contains(msgs[next_index(g.cursor)].message_id@),
    ensures
        r.len() > 0,
        r[0]@ == msgs[next_index(g.cursor)]@,
        g2.cursor == Some(fresh_of(msgs, g, batch_size, max_inflight).last() as usize),
{
    let rq = str_views(g.redeliver@);
    assert(rq =~= Seq::<Seq<char>>::empty());
    let chosen = fresh_of(msgs, g, batch_size, max_inflight);
    let start = next_index(g.cursor);
    assert(chosen[0] == start);
    assert(env_views(r)[0] == chosen.map_values(|k: int| msgs[k]@)[0]);
}

/// Total length of a sequence of batches.
pub open spec fn total_len(rs: Seq<Seq<Envelope>>) -> int
    decreases rs.len(),
{
    if rs.len() == 0 {
        0
    } else {
        total_len(rs.drop_last()) + rs.last().len()
    }
}

/// Fails with `Other("transport is closed")` once the transport is closed.
pub fn check_open(closed: bool) -> (r: Result<(), TransportError>)
    ensures
        r is Ok <==> !closed,
        r matches Err(e) ==> (e matches TransportError::Other(m) && m@ == "transport is closed"@),
{
    if closed {
        Err(TransportError::Other(String::from_str("transport is closed")))
    } else {
        Ok(())
    }
}

/// Fails with `PayloadTooLarge` when `size` exceeds `max`.
pub fn check_payload_size(size: usize, max: usize) -> (r: Result<(), TransportError>)
    ensures
        r is Ok <==> size <= max,
        r matches Err(e) ==> (e matches TransportError::PayloadTooLarge { size: s, max: m } && s == size && m == max),
{
    if size > max {
        Err(TransportError::PayloadTooLarge { size, max })
    } else {
        Ok(())
    }
}

/// Whether a delivered message has been disposed of by ack, nak or dead
/// letter. Only the first disposition takes effect; later ones are no-ops.
#[derive(Debug)]
pub struct Disposition {
    pub done: bool,
}

impl Disposition {
    pub fn new() -> (r: Self)
        ensures
            !r.done,
    {
        Disposition { done: false }
    }

    /// Claims the disposition; true only for the first claim.
    pub fn claim(&mut self) -> (first: bool)
        ensures
            first == !old(self).done,
            final(self).done,
    {
        let first = !self.done;
        self.done = true;
        first
    }
}

impl ConsumerGroup {
    pub fn new(cursor: Option<usize>) -> (r: Self)
        ensures
            r.cursor == cursor,
            r.pending@.len() == 0,
            r.redeliver@.len() == 0,
    {
        ConsumerGroup { cursor, pending: Vec::new(), redeliver: Vec::new() }
    }
}

impl StreamData {
    /// Group names are unique and every cursor points into the log.
    pub open spec fn wf(&self) -> bool {
        groups_wf(self.groups@, self.messages@.len())
    }
}

pub open spec fn groups_wf(groups: Seq<(String, ConsumerGroup)>, n: nat) -> bool {
    &&& forall|a: int, b: int|
        0 <= a < groups.len() && 0 <= b < groups.len() && a != b ==> (#[trigger] groups[a]).0@
            != (#[trigger] groups[b]).0@
    &&& forall|a: int| 0 <= a < groups.len() ==> cursor_in(#[trigger] groups[a].1.cursor, n)
}

/// The cursor is absent or points at a message of a log of length `n`.
pub open spec fn cursor_in(cursor: Option<usize>, n: nat) -> bool {
    cursor matches Some(c) ==> (c as int) < n
}

pub open spec fn has_group(groups: Seq<(String, ConsumerGroup)>, name: Seq<char>) -> bool {
    exists|a: int| 0 <= a < groups.len() && (#[trigger] groups[a]).0@ == name
}

pub open spec fn has_stream(streams: Seq<StreamData>, subject: Seq<char>) -> bool {
    exists|a: int| 0 <= a < streams.len() && (#[trigger] streams[a]).subject@ == subject
}

fn find_group(groups: &Vec<(String, ConsumerGroup)>, name: &str) -> (r: Option<usize>)
    ensures
        r matches Some(a) ==> a < groups@.len() && groups@[a as int].0@ == name@,
        r is None ==> !has_group(groups@, name@),
{
    let key = name.to_string();
    let mut a: usize = 0;
    while a < groups.len()
        invariant
            key@ == name@,
            0 <= a <= groups@.len(),
            forall|b: int| 0 <= b < a ==> (#[trigger] groups@[b]).0@ != name@,
        decreases groups@.len() - a,
    {
        if groups[a].0 == key {
            return Some(a);
        }
        a += 1;
    }
    None
}

/// Index of the last message with this id.
fn find_id(msgs: &Vec<Envelope>, id: &String) -> (r: Option<usize>)
    ensures
        opt_int(r) == last_with_id(msgs@, id@, msgs@.len() as int),
{
    let mut n = msgs.len();
    while n > 0
        invariant
            n <= msgs@.len(),
            last_with_id(msgs@, id@, msgs@.len() as int) == last_with_id(msgs@, id@, n as int),
        decreases n,
    {
        if msgs[n - 1].message_id == *id {
            return Some(n - 1);
        }
        n -= 1;
    }
    None
}

/// Index of the last message published before `ts`.
fn find_before(msgs: &Vec<Envelope>, ts: u64) -> (r: Option<usize>)
    ensures
        opt_int(r) == last_before(msgs@, ts, msgs@.len() as int),
{
    let mut n = msgs.len();
    while n > 0
        invariant
            n <= msgs@.len(),
            last_before(msgs@, ts, msgs@.len() as int) == last_before(msgs@, ts, n as int),
        decreases n,
    {
        if msgs[n - 1].timestamp < ts {
            return Some(n - 1);
        }
        n -= 1;
    }
    None
}

proof fn lemma_last_with_id_bound(msgs: Seq<Envelope>, id: Seq<char>, n: int)
    ensures
        last_with_id(msgs, id, n) matches Some(i) ==> 0 <= i < n,
    decreases n,
{
    if n > 0 {
        lemma_last_with_id_bound(msgs, id, n - 1);
    }
}

proof fn lemma_last_before_bound(msgs: Seq<Envelope>, ts: u64, n: int)
    ensures
        last_before(msgs, ts, n) matches Some(i) ==> 0 <= i < n,
    decreases n,
{
    if n > 0 {
        lemma_last_before_bound(msgs, ts, n - 1);
    }
}

fn start_cursor(msgs: &Vec<Envelope>, start: &StartPosition) -> (r: Option<usize>)
    ensures
        opt_int(r) == initial_cursor(msgs@, *start),
        r matches Some(c) ==> (c as int) < msgs@.len(),
{
    proof {
        lemma_last_with_id_bound(msgs@, start->Id_0@, msgs@.len() as int);
        lemma_last_before_bound(msgs@, start->Timestamp_0, msgs@.len() as int);
    }
    match start {
        StartPosition::Latest => {
            if msgs.len() == 0 {
                None
            } else {
                Some(msgs.len() - 1)
            }
        },
        StartPosition::Earliest => None,
        StartPosition::Timestamp(ts) => find_before(msgs, *ts),
        StartPosition::Id(id) => find_id(msgs, id),
    }
}

pub open spec fn streams_wf(streams: Seq<StreamData>) -> bool {
    &&& forall|a: int, b: int|
        0 <= a < streams.len() && 0 <= b < streams.len() && a != b ==> (#[trigger] streams[a]).subject@
            != (#[trigger] streams[b]).subject@
    &&& forall|a: int| 0 <= a < streams.len() ==> (#[trigger] streams[a]).wf()
}

/// Replacing a stream by a well-formed one of the same subject keeps the store well formed.
proof fn lemma_update_wf(streams: Seq<StreamData>, i: int, st: StreamData)
    requires
        streams_wf(streams),
        0 <= i < streams.len(),
        st.wf(),
        st.subject@ == streams[i].subject@,
    ensures
        streams_wf(streams.update(i, st)),
{
    let u = streams.update(i, st);
    assert forall|a: int, b: int|
        0 <= a < u.len() && 0 <= b < u.len() && a != b implies (#[trigger] u[a]).subject@ != (#[trigger] u[b]).subject@ by {
        assert(u[a].subject@ == streams[a].subject@);
        assert(u[b].subject@ == streams[b].subject@);
    }
}

impl StreamStore {
    /// Subjects are unique and every stream is well formed.
    pub open spec fn wf(&self) -> bool {
        streams_wf(self.streams@)
    }

    pub fn new() -> (r: Self)
        ensures
            r.wf(),
            r.streams@.len() == 0,
    {
        StreamStore { streams: Vec::new() }
    }

    /// Index of the stream of this subject.
    pub fn find_stream(&self, subject: &str) -> (r: Option<usize>)
        ensures
            r matches Some(a) ==> a < self.streams@.len() && self.streams@[a as int].subject@ == subject@,
            r is None ==> !has_stream(self.streams@, subject@),
    {
        let key = subject.to_string();
        let mut a: usize = 0;
        while a < self.streams.len()
            invariant
                key@ == subject@,
                0 <= a <= self.streams@.len(),
                forall|b: int| 0 <= b < a ==> (#[trigger] self.streams@[b]).subject@ != subject@,
            decreases self.streams@.len() - a,
        {
            if self.streams[a].subject == key {
                return Some(a);
            }
            a += 1;
        }
        None
    }

    /// Index of the stream of this subject, created empty if absent.
    pub fn get_or_create_stream(&mut self, subject: &str) -> (r: usize)
        requires
            old(self).wf(),
        ensures
            final(self).wf(),
            r < final(self).streams@.len(),
            final(self).streams@[r as int].subject@ == subject@,
            has_stream(old(self).streams@, subject@) ==> final(self).streams@ == old(self).streams@,
            !has_stream(old(self).streams@, subject@) ==> {
                &&& r == old(self).streams@.len()
                &&& final(self).streams@ == old(self).streams@.push(final(self).streams@[r as int])
                &&& final(self).streams@[r as int].messages@.len() == 0
                &&& final(self).streams@[r as int].groups@.len() == 0
                &&& final(self).streams@[r as int].config is None
            },
    {
        match self.find_stream(subject) {
            Some(a) => a,
            None => {
                let st = StreamData { subject: subject.to_string(), messages: Vec::new(), groups: Vec::new(), config: None };
                self.streams.push(st);
                proof {
                    assert(self.wf()) by {
                        assert forall|a: int, b: int|
                            0 <= a < self.streams@.len() && 0 <= b < self.streams@.len() && a != b implies (#[trigger] self.streams@[a]).subject@
                                != (#[trigger] self.streams@[b]).subject@ by {
                            if a == self.streams@.len() - 1 {
                                assert(self.streams@[b] == old(self).streams@[b]);
                            } else if b == self.streams@.len() - 1 {
                                assert(self.streams@[a] == old(self).streams@[a]);
                            }
                        }
                        assert forall|a: int| 0 <= a < self.streams@.len() implies (#[trigger] self.streams@[a]).wf() by {
                            if a < self.streams@.len() - 1 {
                                assert(self.streams@[a] == old(self).streams@[a]);
                            }
                        }
                    }
                }
                self.streams.len() - 1
            },
        }
    }
    /// Puts `st` in place of stream `i` and hands back the stream it replaces.
    fn swap_stream(&mut self, i: usize, st: StreamData) -> (prev: StreamData)
        requires
            i < old(self).streams@.len(),
        ensures
            final(self).streams@ == old(self).streams@.update(i as int, st),
            prev == old(self).streams@[i as int],
    {
        let prev = self.streams.remove(i);
        self.streams.insert(i, st);
        assert(self.streams@ =~= old(self).streams@.update(i as int, st));
        prev
    }

    /// Declares a subject with its retention parameters; idempotent.
    pub fn ensure_stream(&mut self, config: StreamConfig) -> (r: usize)
        requires
            old(self).wf(),
        ensures
            final(self).wf(),
            ensured(old(self).streams@, final(self).streams@, config, r as int),
    {
        let i = self.get_or_create_stream(config.subject.as_str());
        let ghost mid = self.streams@;
        let mut st = self.swap_stream(i, StreamData { subject: String::new(), messages: Vec::new(), groups: Vec::new(), config: None });
        st.config = Some(config);
        self.swap_stream(i, st);
        proof {
            lemma_update_wf(mid, i as int, st);
        }
        i
    }

    /// Registers a consumer group on a subject, creating the stream if absent.
    /// A new group starts at the cursor that `start` selects; an existing
    /// group is reused as it is.
    pub fn subscribe_group(&mut self, subject: &str, group: &str, start: &StartPosition) -> (r: usize)
        requires
            old(self).wf(),
        ensures
            final(self).wf(),
            r < final(self).streams@.len(),
            final(self).streams@[r as int].subject@ == subject@,
            has_group(final(self).streams@[r as int].groups@, group@),
            has_stream(old(self).streams@, subject@) && has_group(old(self).streams@[r as int].groups@, group@)
                ==> final(self).streams@ == old(self).streams@,
            !(has_stream(old(self).streams@, subject@) && has_group(old(self).streams@[r as int].groups@, group@)) ==> {
                let st = final(self).streams@[r as int];
                let g = st.groups@.last();
                &&& g.0@ == group@
                &&& opt_int(g.1.cursor) == initial_cursor(st.messages@, *start)
                &&& g.1.pending@.len() == 0
                &&& g.1.redeliver@.len() == 0
                &&& has_stream(old(self).streams@, subject@) ==> {
                    &&& final(self).streams@.len() == old(self).streams@.len()
                    &&& st.messages == old(self).streams@[r as int].messages
                    &&& st.groups@ == old(self).streams@[r as int].groups@.push(g)
                }
                &&& !has_stream(old(self).streams@, subject@) ==> {
                    &&& final(self).streams@.len() == old(self).streams@.len() + 1
                    &&& st.messages@.len() == 0
                    &&& st.groups@.len() == 1
                }
            },
            forall|a: int| 0 <= a < old(self).streams@.len() && a != r ==> final(self).streams@[a] == old(self).streams@[a],
    {
        let i = self.get_or_create_stream(subject);
        let ghost mid = self.streams@;
        match find_group(&self.streams[i].groups, group) {
            Some(_) => i,
            None => {
                let mut st = self.swap_stream(i, StreamData { subject: String::new(), messages: Vec::new(), groups: Vec::new(), config: None });
                let cursor = start_cursor(&st.messages, start);
                st.groups.push((group.to_string(), ConsumerGroup::new(cursor)));
                proof {
                    assert(mid[i as int].wf());
                    assert(st.wf()) by {
                        assert forall|a: int, b: int|
                            0 <= a < st.groups@.len() && 0 <= b < st.groups@.len() && a != b implies (#[trigger] st.groups@[a]).0@
                                != (#[trigger] st.groups@[b]).0@ by {
                            if a == st.groups@.len() - 1 {
                                assert(st.groups@[b] == mid[i as int].groups@[b]);
                            } else if b == st.groups@.len() - 1 {
                                assert(st.groups@[a] == mid[i as int].groups@[a]);
                            }
                        }
                        assert forall|a: int| 0 <= a < st.groups@.len() implies cursor_in(#[trigger] st.groups@[a].1.cursor, st.messages@.len()) by {
                            if a < st.groups@.len() - 1 {
                                assert(st.groups@[a] == mid[i as int].groups@[a]);
                                assert(cursor_in(mid[i as int].groups@[a].1.cursor, mid[i as int].messages@.len()));
                            }
                        }
                    }
                    assert(has_group(st.groups@, group@)) by {
                        assert(st.groups@[st.groups@.len() - 1].0@ == group@);
                    }
                }
                self.swap_stream(i, st);
                proof {
                    lemma_update_wf(mid, i as int, st);
                }
                i
            },
        }
    }

    fn empty_stream() -> (r: StreamData)
        ensures
            r.messages@.len() == 0,
            r.groups@.len() == 0,
    {
        StreamData { subject: String::new(), messages: Vec::new(), groups: Vec::new(), config: None }
    }

    /// Locates the group `group` of the stream of `subject`.
    fn locate(&self, subject: &str, group: &str) -> (r: Option<(usize, usize)>)
        requires
            self.wf(),
        ensures
            r matches Some((si, gi)) ==> locates(self.streams@, subject@, group@, si as int, gi as int),
            r is None ==> !has_subscription(self.streams@, subject@, group@),
    {
        match self.find_stream(subject) {
            None => {
                assert(!has_subscription(self.streams@, subject@, group@)) by {
                    if has_subscription(self.streams@, subject@, group@) {
                        let (si, gi) = choose|si: int, gi: int| locates(self.streams@, subject@, group@, si, gi);
                        assert(self.streams@[si].subject@ == subject@);
                    }
                }
                None
            },
            Some(si) => match find_group(&self.streams[si].groups, group) {
                None => {
                    assert(!has_subscription(self.streams@, subject@, group@)) by {
                        if has_subscription(self.streams@, subject@, group@) {
                            let (sj, gj) = choose|sj: int, gj: int| locates(self.streams@, subject@, group@, sj, gj);
                            assert(sj == si as int);
                            assert(self.streams@[sj].groups@[gj].0@ == group@);
                        }
                    }
                    None
                },
                Some(gi) => Some((si, gi)),
            },
        }
    }

    /// Takes group `gi` of stream `si` out for an update; `put_group` puts it back.
    fn take_group(&mut self, si: usize, gi: usize) -> (r: (StreamData, String, ConsumerGroup))
        requires
            old(self).wf(),
            si < old(self).streams@.len(),
            gi < old(self).streams@[si as int].groups@.len(),
        ensures
            final(self).streams@.len() == old(self).streams@.len(),
            forall|a: int| 0 <= a < old(self).streams@.len() && a != si ==> final(self).streams@[a] == old(self).streams@[a],
            r.0.subject == old(self).streams@[si as int].subject,
            r.0.messages == old(self).streams@[si as int].messages,
            r.0.config == old(self).streams@[si as int].config,
            r.0.groups@ == old(self).streams@[si as int].groups@.remove(gi as int),
            r.1 == old(self).streams@[si as int].groups@[gi as int].0,
            r.2 == old(self).streams@[si as int].groups@[gi as int].1,
    {
        let mut st = self.swap_stream(si, Self::empty_stream());
        let (name, g) = st.groups.remove(gi);
        (st, name, g)
    }

    fn put_group(&mut self, si: usize, gi: usize, st: StreamData, name: String, g: ConsumerGroup, Ghost(prev): Ghost<Seq<StreamData>>)
        requires
            streams_wf(prev),
            si < prev.len(),
            gi < prev[si as int].groups@.len(),
            old(self).streams@.len() == prev.len(),
            forall|a: int| 0 <= a < prev.len() && a != si ==> old(self).streams@[a] == prev[a],
            st.subject == prev[si as int].subject,
            st.messages == prev[si as int].messages,
            st.config == prev[si as int].config,
            st.groups@ == prev[si as int].groups@.remove(gi as int),
            name == prev[si as int].groups@[gi as int].0,
            cursor_in(g.cursor, st.messages@.len()),
        ensures
            final(self).wf(),
            only_group_changed(prev, final(self).streams@, si as int, gi as int),
            final(self).streams@[si as int].groups@[gi as int].1 == g,
    {
        let mut st = st;
        let ghost pg = prev[si as int].groups@;
        st.groups.insert(gi, (name, g));
        proof {
            assert(st.groups@ =~= pg.update(gi as int, (name, g)));
            assert(prev[si as int].wf());
            assert(st.wf()) by {
                assert forall|a: int, b: int|
                    0 <= a < st.groups@.len() && 0 <= b < st.groups@.len() && a != b implies (#[trigger] st.groups@[a]).0@
                        != (#[trigger] st.groups@[b]).0@ by {
                    assert(st.groups@[a].0 == pg[a].0);
                    assert(st.groups@[b].0 == pg[b].0);
                }
                assert forall|a: int| 0 <= a < st.groups@.len() implies cursor_in(#[trigger] st.groups@[a].1.cursor, st.messages@.len()) by {
                    if a != gi {
                        assert(cursor_in(pg[a].1.cursor, prev[si as int].messages@.len()));
                    }
                }
            }
        }
        let ghost before = self.streams@;
        self.swap_stream(si, st);
        proof {
            assert(self.streams@ =~= prev.update(si as int, st));
            lemma_update_wf(prev, si as int, st);
        }
    }

    /// One delivery cycle of (`subject`, `group`): redeliveries first, then
    /// new messages after the cursor, within the in-flight cap. Nothing is
    /// handed out when the subscription does not exist.
    pub fn collect_batch(&mut self, subject: &str, group: &str, batch_size: u32, max_inflight: u32) -> (r: Vec<Envelope>)
        requires
            old(self).wf(),
        ensures
            final(self).wf(),
            !has_subscription(old(self).streams@, subject@, group@) ==> final(self).streams@ == old(self).streams@
                && r@.len() == 0,
            forall|si: int, gi: int|
                #[trigger] locates(old(self).streams@, subject@, group@, si, gi) ==> {
                    &&& only_group_changed(old(self).streams@, final(self).streams@, si, gi)
                    &&& collected(
                        old(self).streams@[si].messages@,
                        old(self).streams@[si].groups@[gi].1,
                        final(self).streams@[si].groups@[gi].1,
                        r@,
                        batch_size,
                        max_inflight,
                    )
                },
    {
        let (si, gi) = match self.locate(subject, group) {
            Some(p) => p,
            None => {
                return Vec::new();
            },
        };
        let ghost prev = self.streams@;
        proof {
            assert(prev[si as int].wf());
            assert(cursor_in(prev[si as int].groups@[gi as int].1.cursor, prev[si as int].messages@.len()));
        }
        let (st, name, mut g) = self.take_group(si, gi);
        let batch = collect_from(&st.messages, &mut g, batch_size, max_inflight);
        self.put_group(si, gi, st, name, g, Ghost(prev));
        proof {
            assert forall|sj: int, gj: int| #[trigger] locates(prev, subject@, group@, sj, gj) implies sj == si && gj == gi by {
                assert(prev[sj].subject@ == prev[si as int].subject@);
                assert(prev[si as int].wf());
                assert(prev[si as int].groups@[gj].0@ == prev[si as int].groups@[gi as int].0@);
            }
        }
        batch
    }

    /// Acknowledges `id` for (`subject`, `group`): it leaves the pending set.
    /// A no-op when the subscription does not exist.
    pub fn ack(&mut self, subject: &str, group: &str, id: &str)
        requires
            old(self).wf(),
        ensures
            final(self).wf(),
            acked(old(self).streams@, final(self).streams@, subject@, group@, id@),
    {
        let (si, gi) = match self.locate(subject, group) {
            Some(p) => p,
            None => {
                return;
            },
        };
        let ghost prev = self.streams@;
        proof {
            assert(prev[si as int].wf());
            assert(cursor_in(prev[si as int].groups@[gi as int].1.cursor, prev[si as int].messages@.len()));
        }
        let (st, name, mut g) = self.take_group(si, gi);
        g.pending = remove_id(&g.pending, id);
        self.put_group(si, gi, st, name, g, Ghost(prev));
        proof {
            self.lemma_single_location(prev, subject@, group@, si as int, gi as int);
        }
    }

    /// Queues `id` of (`subject`, `group`) for redelivery ahead of new
    /// messages. A no-op when the subscription does not exist.
    pub fn nak(&mut self, subject: &str, group: &str, id: &str)
        requires
            old(self).wf(),
        ensures
            final(self).wf(),
            !has_subscription(old(self).streams@, subject@, group@) ==> final(self).streams@ == old(self).streams@,
            forall|si: int, gi: int|
                #[trigger] locates(old(self).streams@, subject@, group@, si, gi) ==> {
                    let g = old(self).streams@[si].groups@[gi].1;
                    let g2 = final(self).streams@[si].groups@[gi].1;
                    &&& only_group_changed(old(self).streams@, final(self).streams@, si, gi)
                    &&& str_views(g2.redeliver@) == str_views(g.redeliver@).push(id@)
                    &&& g2.pending == g.pending
                    &&& g2.cursor == g.cursor
                },
    {
        let (si, gi) = match self.locate(subject, group) {
            Some(p) => p,
            None => {
                return;
            },
        };
        let ghost prev = self.streams@;
        proof {
            assert(prev[si as int].wf());
            assert(cursor_in(prev[si as int].groups@[gi as int].1.cursor, prev[si as int].messages@.len()));
        }
        let (st, name, mut g) = self.take_group(si, gi);
        let ghost rv = str_views(g.redeliver@);
        g.redeliver.push(id.to_string());
        assert(str_views(g.redeliver@) =~= rv.push(id@));
        self.put_group(si, gi, st, name, g, Ghost(prev));
        proof {
            self.lemma_single_location(prev, subject@, group@, si as int, gi as int);
        }
    }

    /// Dead-letters `id` of (`subject`, `group`): appends `dead` (built by the
    /// caller for the dead-letter subject of `subject`) to its log, then drops
    /// `id` from the group's pending set.
    pub fn dead_letter(&mut self, subject: &str, group: &str, id: &str, dead: Envelope) -> (r: usize)
        requires
            old(self).wf(),
            dead.subject@ == dead_letter_subject(subject@),
        ensures
            final(self).wf(),
            exists|mid: Seq<StreamData>|
                appended(old(self).streams@, mid, dead, r as int) && acked(mid, final(self).streams@, subject@, group@, id@),
    {
        let ghost before = self.streams@;
        let ghost d = dead;
        let r = self.append(dead);
        let ghost mid = self.streams@;
        assert(appended(before, mid, d, r as int));
        self.ack(subject, group, id);
        r
    }

    /// Drops the leading messages of `subject` published at or before
    /// `cutoff`, removes their ids from every pending set, shifts every
    /// cursor, and returns how many were dropped (0 for an unknown subject).
    pub fn trim_before(&mut self, subject: &str, cutoff: u64) -> (r: u64)
        requires
            old(self).wf(),
        ensures
            final(self).wf(),
            trimmed(old(self).streams@, final(self).streams@, subject@, cutoff, r),
    {
        let si = match self.find_stream(subject) {
            Some(i) => i,
            None => {
                return 0;
            },
        };
        let ghost prev = self.streams@;
        let mut st = self.swap_stream(si, Self::empty_stream());
        let ghost st0 = st;
        proof {
            assert(st0.wf());
            lemma_expired_bounds(st.messages@, cutoff, 0);
        }
        let mut k: usize = 0;
        while k < st.messages.len() && st.messages[k].timestamp <= cutoff
            invariant
                0 <= k <= st.messages@.len(),
                st == st0,
                expired_from(st.messages@, cutoff, 0) == expired_from(st.messages@, cutoff, k as int),
            decreases st.messages@.len() - k,
        {
            k += 1;
        }
        proof {
            assert(expired_from(st.messages@, cutoff, k as int) == k);
        }
        let mut gone: Vec<String> = Vec::new();
        let mut j: usize = 0;
        while j < k
            invariant
                st == st0,
                k <= st.messages@.len(),
                0 <= j <= k,
                str_views(gone@) == ids_of(st.messages@.take(j as int)),
            decreases k - j,
        {
            let ghost gv = str_views(gone@);
            gone.push(st.messages[j].message_id.clone());
            assert(st.messages@.take(j + 1).drop_last() =~= st.messages@.take(j as int));
            assert(str_views(gone@) =~= gv.push(st.messages@[j as int].message_id@));
            j += 1;
        }
        let ghost old_msgs = st.messages@;
        let mut kept: Vec<Envelope> = Vec::new();
        let mut m: usize = k;
        while m < st.messages.len()
            invariant
                st == st0,
                k <= m <= st.messages@.len(),
                env_views(kept@) == env_views(st.messages@).subrange(k as int, m as int),
            decreases st.messages@.len() - m,
        {
            let ghost kv = env_views(kept@);
            kept.push(st.messages[m].clone());
            assert(env_views(kept@) =~= kv.push(st.messages@[m as int]@));
            assert(env_views(kept@) =~= env_views(st.messages@).subrange(k as int, m + 1));
            m += 1;
        }
        assert(env_views(kept@) =~= env_views(st0.messages@).skip(k as int));
        let mut groups: Vec<(String, ConsumerGroup)> = Vec::new();
        let mut b: usize = 0;
        let n_left = st.messages.len() - k;
        while b < st.groups.len()
            invariant
                st.subject == st0.subject,
                st.messages == st0.messages,
                st.config == st0.config,
                st.groups@.len() == st0.groups@.len(),
                forall|x: int| b <= x < st0.groups@.len() ==> st.groups@[x] == st0.groups@[x],
                groups_wf(st0.groups@, st0.messages@.len()),
                n_left == st0.messages@.len() - k,
                k <= st0.messages@.len(),
                str_views(gone@) == ids_of(st0.messages@.take(k as int)),
                0 <= b <= st.groups@.len(),
                groups@.len() == b,
                forall|x: int| 0 <= x < b ==> {
                    let g = (#[trigger] st0.groups@[x]).1;
                    let g2 = groups@[x].1;
                    &&& groups@[x].0 == st0.groups@[x].0
                    &&& str_views(g2.pending@) == without_all(str_views(g.pending@), ids_of(st0.messages@.take(k as int)))
                    &&& g2.redeliver == g.redeliver
                    &&& opt_int(g2.cursor) == shifted(g.cursor, k as int)
                    &&& cursor_in(g2.cursor, n_left as nat)
                },
            decreases st.groups@.len() - b,
        {
            let ghost gb = st0.groups@[b as int];
            let ghost before = st.groups@;
            let (name, g) = st.groups.remove(b);
            let placeholder = (String::new(), ConsumerGroup::new(None));
            st.groups.insert(b, placeholder);
            assert(st.groups@ =~= before.update(b as int, placeholder));
            assert(cursor_in(gb.1.cursor, st0.messages@.len()));
            let pending = remove_ids(&g.pending, &gone);
            let cursor = match g.cursor {
                Some(c) => if c < k {
                    None
                } else {
                    Some(c - k)
                },
                None => None,
            };
            groups.push((name, ConsumerGroup { cursor, pending, redeliver: g.redeliver }));
            b += 1;
        }
        st.messages = kept;
        st.groups = groups;
        proof {
            assert(st.wf()) by {
                assert forall|a: int, c: int|
                    0 <= a < st.groups@.len() && 0 <= c < st.groups@.len() && a != c implies (#[trigger] st.groups@[a]).0@
                        != (#[trigger] st.groups@[c]).0@ by {
                    assert(st.groups@[a].0 == st0.groups@[a].0);
                    assert(st.groups@[c].0 == st0.groups@[c].0);
                }
                assert forall|a: int| 0 <= a < st.groups@.len() implies cursor_in(#[trigger] st.groups@[a].1.cursor, st.messages@.len()) by {
                    assert(st0.groups@[a] == st0.groups@[a]);
                    assert(cursor_in(st.groups@[a].1.cursor, n_left as nat));
                }
            }
        }
        self.swap_stream(si, st);
        proof {
            lemma_update_wf(prev, si as int, st);
            assert forall|sj: int| 0 <= sj < prev.len() && #[trigger] prev[sj].subject@ == subject@ implies sj == si by {
            }
        }
        k as u64
    }

    /// With unique subjects and group names, a subscription has one location.
    proof fn lemma_single_location(&self, prev: Seq<StreamData>, subject: Seq<char>, group: Seq<char>, si: int, gi: int)
        requires
            streams_wf(prev),
            locates(prev, subject, group, si, gi),
        ensures
            forall|sj: int, gj: int| #[trigger] locates(prev, subject, group, sj, gj) ==> sj == si && gj == gi,
    {
        assert forall|sj: int, gj: int| #[trigger] locates(prev, subject, group, sj, gj) implies sj == si && gj == gi by {
            assert(prev[sj].subject@ == prev[si].subject@);
            assert(prev[si].wf());
            assert(prev[si].groups@[gj].0@ == prev[si].groups@[gi].0@);
        }
    }

    /// Publishes `payload` on `subject`: rejects a payload over
    /// `max_payload_size`, else appends a fresh envelope and returns its id.
    pub fn publish(&mut self, subject: &str, payload: Vec<u8>, opts: Option<PublishOpts>, max_payload_size: usize) -> (r: Result<String, TransportError>)
        requires
            old(self).wf(),
        ensures
            final(self).wf(),
            payload@.len() > max_payload_size ==> final(self).streams@ == old(self).streams@ && (r matches Err(
                TransportError::PayloadTooLarge { size, max },
            ) && size == payload@.len() && max == max_payload_size),
            payload@.len() <= max_payload_size ==> (r matches Ok(id) && id@.len() == 26 && exists|e: Envelope, i: int|
                {
                    &&& appended(old(self).streams@, final(self).streams@, e, i)
                    &&& e.message_id@ == id@
                    &&& e.subject@ == subject@
                    &&& e.payload@ == payload@
                    &&& opt_view(e.trace_id) == match opts {
                        Some(o) => opt_view(o.trace_id),
                        None => None,
                    }
                }),
    {
        check_payload_size(payload.len(), max_payload_size)?;
        let trace_id = match opts {
            Some(o) => o.trace_id,
            None => None,
        };
        let envelope = Envelope::new(subject.to_string(), payload, trace_id);
        let id = envelope.message_id.clone();
        let ghost e = envelope;
        let i = self.append(envelope);
        proof {
            assert(appended(old(self).streams@, self.streams@, e, i as int));
        }
        Ok(id)
    }

    /// Trims `subject` to the messages younger than `max_age_ms`, by the
    /// clock now; returns how many were removed.
    pub fn trim_stream(&mut self, subject: &str, max_age_ms: u64) -> (r: u64)
        requires
            old(self).wf(),
        ensures
            final(self).wf(),
            exists|cutoff: u64| trimmed(old(self).streams@, final(self).streams@, subject@, cutoff, r),
    {
        let now = unix_millis();
        let cutoff = if now >= max_age_ms {
            now - max_age_ms
        } else {
            0
        };
        self.trim_before(subject, cutoff)
    }

    /// Appends an envelope to the log of its subject, creating the stream if
    /// absent. Groups, configuration and other streams are unchanged.
    pub fn append(&mut self, envelope: Envelope) -> (r: usize)
        requires
            old(self).wf(),
        ensures
            final(self).wf(),
            appended(old(self).streams@, final(self).streams@, envelope, r as int),
    {
        let ghost e = envelope;
        let i = self.get_or_create_stream(envelope.subject.as_str());
        let ghost mid = self.streams@;
        let mut st = self.streams.remove(i);
        let ghost before = env_views(st.messages@);
        st.messages.push(envelope);
        proof {
            assert(env_views(st.messages@) =~= before.push(st.messages@.last()@));
            assert forall|a: int| 0 <= a < st.groups@.len() implies cursor_in(#[trigger] st.groups@[a].1.cursor, st.messages@.len()) by {
                assert(mid[i as int].wf());
                assert(cursor_in(mid[i as int].groups@[a].1.cursor, mid[i as int].messages@.len()));
            }
        }
        self.streams.insert(i, st);
        proof {
            assert forall|a: int| 0 <= a < self.streams@.len() && a != i implies self.streams@[a] == mid[a] by {
                if a < i {
                } else {
                }
            }
            assert(self.wf()) by {
                assert forall|a: int, b: int|
                    0 <= a < self.streams@.len() && 0 <= b < self.streams@.len() && a != b implies (#[trigger] self.streams@[a]).subject@
                        != (#[trigger] self.streams@[b]).subject@ by {
                    assert(self.streams@[a].subject@ == mid[a].subject@);
                    assert(self.streams@[b].subject@ == mid[b].subject@);
                }
                assert forall|a: int| 0 <= a < self.streams@.len() implies (#[trigger] self.streams@[a]).wf() by {
                    if a != i {
                        assert(self.streams@[a] == mid[a]);
                    }
                }
            }
        }
        proof {
            let o = old(self).streams@;
            let n = self.streams@;
            assert(0 <= i < n.len());
            assert(n[i as int].subject@ == e.subject@);
            assert(env_views(n[i as int].messages@) == env_views(
                if has_stream(o, e.subject@) { o[i as int].messages@ } else { Seq::<Envelope>::empty() }).push(e@));
            assert(forall|a: int| 0 <= a < o.len() && a != i ==> n[a] == o[a]);
        }
        i
    }
}

} // verus!
