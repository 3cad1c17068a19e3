//! An append-only log of events, each stamped with a unique id and a
//! time, and the merge of two logs into one ordered, de-duplicated log.
use vstd::prelude::*;
use crate::merge::Merge;
use crate::clock::{is_v4_id, new_uuid_v4, since_unix_epoch, system_now};
use crate::duration::millis_of;

verus! {

/// An event with its id and the time it was logged (milliseconds since
/// the Unix epoch). The id is a UUID (version 4) as a big-endian `u128`.
#[derive(Debug)]
pub struct LoggedEvent<E> {
    pub uuid: u128,
    pub timestamp: u128,
    pub event: E,
}

impl<E: Clone> Clone for LoggedEvent<E> {
    fn clone(&self) -> (r: Self)
        ensures
            r.uuid == self.uuid,
            r.timestamp == self.timestamp,
            cloned(self.event, r.event),
    {
        LoggedEvent { uuid: self.uuid, timestamp: self.timestamp, event: self.event.clone() }
    }
}

/// Log order: by timestamp, then by id.
pub open spec fn event_le<E>(a: LoggedEvent<E>, b: LoggedEvent<E>) -> bool {
    a.timestamp < b.timestamp || (a.timestamp == b.timestamp && a.uuid <= b.uuid)
}

/// Insert `x` into `s` after every element that does not come after it in
/// log order (so that equal keys keep their arrival order).
pub open spec fn insert_in_order<E>(s: Seq<LoggedEvent<E>>, x: LoggedEvent<E>) -> Seq<LoggedEvent<E>>
    decreases s.len(),
{
    if s.len() == 0 {
        seq![x]
    } else if event_le(s.last(), x) {
        s.push(x)
    } else {
        insert_in_order(s.drop_last(), x).push(s.last())
    }
}

/// The events of `s` in log order; events with equal keys keep their
/// order in `s` (a stable sort).
pub open spec fn sort_events<E>(s: Seq<LoggedEvent<E>>) -> Seq<LoggedEvent<E>>
    decreases s.len(),
{
    if s.len() == 0 {
        s
    } else {
        insert_in_order(sort_events(s.drop_last()), s.last())
    }
}

/// Whether some event of `s` has id `id`.
pub open spec fn has_id<E>(s: Seq<LoggedEvent<E>>, id: u128) -> bool {
    exists|j: int| 0 <= j < s.len() && (#[trigger] s[j]).uuid == id
}

/// `s` without every event whose id an earlier event already has: the
/// first event of each id stays, in the order of `s`.
pub open spec fn dedup_ids<E>(s: Seq<LoggedEvent<E>>) -> Seq<LoggedEvent<E>>
    decreases s.len(),
{
    if s.len() == 0 {
        s
    } else {
        let d = dedup_ids(s.drop_last());
        if has_id(d, s.last().uuid) {
            d
        } else {
            d.push(s.last())
        }
    }
}

/// The events of a merge of `a` and `b`: `a` followed by `b`, sorted in
/// log order, keeping only the first event of each id.
pub open spec fn merged_events<E>(a: Seq<LoggedEvent<E>>, b: Seq<LoggedEvent<E>>) -> Seq<LoggedEvent<E>> {
    dedup_ids(sort_events(a + b))
}

/// `s` is in log order.
pub open spec fn is_sorted<E>(s: Seq<LoggedEvent<E>>) -> bool {
    forall|i: int, j: int| 0 <= i < j < s.len() ==> event_le(#[trigger] s[i], #[trigger] s[j])
}

/// No two events of `s` share an id.
pub open spec fn distinct_ids<E>(s: Seq<LoggedEvent<E>>) -> bool {
    forall|i: int, j: int| 0 <= i < j < s.len() ==> (#[trigger] s[i]).uuid != (#[trigger] s[j]).uuid
}

/// Inserting at position `j` (after the last event not coming after `x`)
/// is `insert_in_order`.
proof fn lemma_insert_at_point<E>(s: Seq<LoggedEvent<E>>, x: LoggedEvent<E>, j: int)
    requires
        0 <= j <= s.len(),
        j == 0 || event_le(s[j - 1], x),
        forall|k: int| j <= k < s.len() ==> !event_le(#[trigger] s[k], x),
    ensures
        insert_in_order(s, x) == s.take(j).push(x) + s.skip(j),
    decreases s.len(),
{
    if s.len() == 0 {
        assert(s.take(j).push(x) + s.skip(j) =~= seq![x]);
    } else if event_le(s.last(), x) {
        assert(j == s.len());
        assert(s.take(j).push(x) + s.skip(j) =~= s.push(x));
    } else {
        let t = s.drop_last();
        lemma_insert_at_point(t, x, j);
        assert(t.take(j).push(x) + t.skip(j) + seq![s.last()] =~= s.take(j).push(x) + s.skip(j));
        assert((t.take(j).push(x) + t.skip(j)).push(s.last()) =~= t.take(j).push(x) + t.skip(j) + seq![s.last()]);
    }
}

/// Inserting keeps a sorted sequence sorted, and adds exactly `x`.
proof fn lemma_insert_sorted<E>(s: Seq<LoggedEvent<E>>, x: LoggedEvent<E>)
    requires
        is_sorted(s),
    ensures
        is_sorted(insert_in_order(s, x)),
        insert_in_order(s, x).to_multiset() == s.to_multiset().insert(x),
        insert_in_order(s, x).len() == s.len() + 1,
    decreases s.len(),
{
    broadcast use vstd::seq_lib::group_to_multiset_ensures;
    if s.len() == 0 {
        assert(seq![x] =~= Seq::<LoggedEvent<E>>::empty().push(x));
    } else if event_le(s.last(), x) {
        let r = s.push(x);
        assert forall|i: int, j: int| 0 <= i < j < r.len() implies event_le(#[trigger] r[i], #[trigger] r[j]) by {
            if j == s.len() {
                assert(event_le(s[i], s.last()));
            }
        }
    } else {
        let t = s.drop_last();
        assert(is_sorted(t)) by {
            assert forall|i: int, j: int| 0 <= i < j < t.len() implies event_le(#[trigger] t[i], #[trigger] t[j]) by {
                assert(t[i] == s[i] && t[j] == s[j]);
            }
        }
        lemma_insert_sorted(t, x);
        let u = insert_in_order(t, x);
        let r = u.push(s.last());
        assert forall|i: int, j: int| 0 <= i < j < r.len() implies event_le(#[trigger] r[i], #[trigger] r[j]) by {
            if j == u.len() {
                // every element of u is an element of t or x; all are before s.last()
                assert(u.to_multiset().count(u[i]) > 0);
                assert(t.to_multiset().insert(x).count(u[i]) > 0);
                if u[i] != x {
                    assert(t.to_multiset().count(u[i]) > 0);
                    assert(t.contains(u[i]));
                    let k = choose|k: int| 0 <= k < t.len() && t[k] == u[i];
                    assert(s[k] == t[k]);
                    assert(event_le(s[k], s[s.len() - 1]));
                }
            }
        }
        assert(s.to_multiset() == t.to_multiset().insert(s.last())) by {
            assert(s == t.push(s.last()));
        }
    }
}

/// Sorting gives a sorted sequence with the same events.
pub proof fn lemma_sort_events<E>(s: Seq<LoggedEvent<E>>)
    ensures
        is_sorted(sort_events(s)),
        sort_events(s).to_multiset() == s.to_multiset(),
        sort_events(s).len() == s.len(),
    decreases s.len(),
{
    broadcast use vstd::seq_lib::group_to_multiset_ensures;
    if s.len() > 0 {
        let t = s.drop_last();
        lemma_sort_events(t);
        lemma_insert_sorted(sort_events(t), s.last());
        assert(s == t.push(s.last()));
    }
}

/// Removing repeated ids keeps only events of `s`, in their order, leaves
/// no two events with one id, keeps every id of `s`, and keeps the first
/// event of `s`.
pub proof fn lemma_dedup_ids<E>(s: Seq<LoggedEvent<E>>)
    ensures
        distinct_ids(dedup_ids(s)),
        dedup_ids(s).len() <= s.len(),
        forall|i: int| 0 <= i < dedup_ids(s).len() ==> s.contains(#[trigger] dedup_ids(s)[i]),
        forall|i: int| 0 <= i < s.len() ==> has_id(dedup_ids(s), (#[trigger] s[i]).uuid),
        s.len() > 0 ==> dedup_ids(s).len() > 0 && dedup_ids(s)[0] == s[0],
    decreases s.len(),
{
    if s.len() > 0 {
        let t = s.drop_last();
        lemma_dedup_ids(t);
        let d = dedup_ids(t);
        let r = dedup_ids(s);
        assert forall|i: int| 0 <= i < r.len() implies s.contains(#[trigger] r[i]) by {
            if i < d.len() {
                assert(r[i] == d[i]);
                assert(t.contains(d[i]));
                let k = choose|k: int| 0 <= k < t.len() && t[k] == d[i];
                assert(s[k] == t[k]);
            } else {
                assert(r[i] == s.last());
                assert(s[s.len() - 1] == s.last());
            }
        }
        assert forall|i: int| 0 <= i < s.len() implies has_id(r, (#[trigger] s[i]).uuid) by {
            if i < t.len() {
                assert(s[i] == t[i]);
                assert(has_id(d, t[i].uuid));
                let j = choose|j: int| 0 <= j < d.len() && (#[trigger] d[j]).uuid == t[i].uuid;
                assert(r[j] == d[j]);
            } else if has_id(d, s.last().uuid) {
                assert(r == d);
            } else {
                assert(r[r.len() - 1] == s[i]);
            }
        }
        if !has_id(d, s.last().uuid) {
            assert forall|i: int, j: int| 0 <= i < j < r.len() implies (#[trigger] r[i]).uuid != (#[trigger] r[j]).uuid by {
                if j == d.len() {
                    assert(r[i] == d[i]);
                } else {
                    assert(r[i] == d[i] && r[j] == d[j]);
                }
            }
        }
        if t.len() == 0 {
            assert(!has_id(d, s.last().uuid));
            assert(r[0] == s[0]);
        } else {
            assert(r[0] == d[0]);
            assert(t[0] == s[0]);
        }
    }
}

/// A sequence already in log order is its own sort.
pub proof fn lemma_sorted_is_fixed<E>(s: Seq<LoggedEvent<E>>)
    requires
        is_sorted(s),
    ensures
        sort_events(s) == s,
    decreases s.len(),
{
    if s.len() > 0 {
        let t = s.drop_last();
        assert(is_sorted(t)) by {
            assert forall|i: int, j: int| 0 <= i < j < t.len() implies event_le(#[trigger] t[i], #[trigger] t[j]) by {
                assert(t[i] == s[i] && t[j] == s[j]);
            }
        }
        lemma_sorted_is_fixed(t);
        if t.len() > 0 {
            assert(event_le(s[t.len() - 1], s[s.len() - 1]));
        }
        assert(t.push(s.last()) == s);
    }
}

/// A sequence without repeated ids is its own de-duplication.
pub proof fn lemma_dedup_fixed<E>(s: Seq<LoggedEvent<E>>)
    requires
        distinct_ids(s),
    ensures
        dedup_ids(s) == s,
    decreases s.len(),
{
    if s.len() > 0 {
        let t = s.drop_last();
        assert(distinct_ids(t)) by {
            assert forall|i: int, j: int| 0 <= i < j < t.len() implies (#[trigger] t[i]).uuid != (#[trigger] t[j]).uuid by {
                assert(t[i] == s[i] && t[j] == s[j]);
            }
        }
        lemma_dedup_fixed(t);
        if has_id(t, s.last().uuid) {
            let j = choose|j: int| 0 <= j < t.len() && (#[trigger] t[j]).uuid == s.last().uuid;
            assert(t[j] == s[j]);
            assert(s[j].uuid != s[s.len() - 1].uuid);
        }
        assert(t.push(s.last()) == s);
    }
}

/// Whether some event of `v` has id `id`.
fn contains_id<E>(v: &Vec<LoggedEvent<E>>, id: u128) -> (r: bool)
    ensures
        r == has_id(v@, id),
{
    let mut j: usize = 0;
    while j < v.len()
        invariant
            j <= v@.len(),
            forall|k: int| 0 <= k < j ==> (#[trigger] v@[k]).uuid != id,
        decreases v@.len() - j,
    {
        if v[j].uuid == id {
            return true;
        }
        j += 1;
    }
    false
}

/// Sort `v` in log order (stably).
fn sort_in_log_order<E>(v: Vec<LoggedEvent<E>>) -> (r: Vec<LoggedEvent<E>>)
    ensures
        r@ == sort_events(v@),
{
    let ghost orig = v@;
    let mut input = v;
    let mut result: Vec<LoggedEvent<E>> = Vec::new();
    let ghost mut k: int = 0;
    while input.len() > 0
        invariant
            0 <= k <= orig.len(),
            input@ == orig.skip(k),
            result@ == sort_events(orig.take(k)),
        decreases input@.len(),
    {
        let x = input.remove(0);
        let mut j = result.len();
        while j > 0 && !(result[j - 1].timestamp < x.timestamp
            || (result[j - 1].timestamp == x.timestamp && result[j - 1].uuid <= x.uuid))
            invariant
                j <= result@.len(),
                forall|m: int| j <= m < result@.len() ==> !event_le(#[trigger] result@[m], x),
            decreases j,
        {
            j -= 1;
        }
        proof {
            lemma_insert_at_point(result@, x, j as int);
            assert(orig.take(k + 1).drop_last() =~= orig.take(k));
            assert(orig.take(k + 1).last() == x) by {
                assert(orig.skip(k)[0] == orig[k]);
            }
        }
        result.insert(j, x);
        proof {
            assert(result@ =~= sort_events(orig.take(k + 1)));
            k = k + 1;
            assert(input@ =~= orig.skip(k));
        }
    }
    proof {
        assert(orig.skip(k).len() == 0);
        assert(orig.take(k) =~= orig);
    }
    result
}

/// Drop every event whose id an earlier event already has.
fn dedup_by_id<E>(v: Vec<LoggedEvent<E>>) -> (r: Vec<LoggedEvent<E>>)
    ensures
        r@ == dedup_ids(v@),
{
    let ghost orig = v@;
    let mut input = v;
    let mut out: Vec<LoggedEvent<E>> = Vec::new();
    let ghost mut k: int = 0;
    while input.len() > 0
        invariant
            0 <= k <= orig.len(),
            input@ == orig.skip(k),
            out@ == dedup_ids(orig.take(k)),
        decreases input@.len(),
    {
        let x = input.remove(0);
        proof {
            assert(orig.take(k + 1).drop_last() =~= orig.take(k));
            assert(orig.skip(k)[0] == orig[k]);
            assert(orig.take(k + 1).last() == x);
        }
        if contains_id(&out, x.uuid) {
            proof { assert(out@ == dedup_ids(orig.take(k + 1))); }
        } else {
            out.push(x);
        }
        proof {
            k = k + 1;
            assert(input@ =~= orig.skip(k));
        }
    }
    proof {
        assert(orig.take(k) =~= orig);
    }
    out
}

/// An append-only event log.
pub struct EventLog<E> {
    events: Vec<LoggedEvent<E>>,
}

impl<E> EventLog<E> {
    /// The logged events, oldest first.
    pub closed spec fn spec_events(&self) -> Seq<LoggedEvent<E>> {
        self.events@
    }

    /// An empty log.
    pub fn new() -> (l: Self)
        ensures
            l.spec_events() == Seq::<LoggedEvent<E>>::empty(),
    {
        Self { events: Vec::new() }
    }

    /// A log holding `events`, as they are.
    pub fn from_events(events: Vec<LoggedEvent<E>>) -> (l: Self)
        ensures
            l.spec_events() == events@,
    {
        Self { events }
    }

    /// Log `event` with a fresh random id, stamped with the current time in
    /// milliseconds since the Unix epoch (zero for a clock set before it).
    pub fn append(&mut self, event: E)
        ensures
            final(self).spec_events().len() == old(self).spec_events().len() + 1,
            final(self).spec_events().drop_last() == old(self).spec_events(),
            final(self).spec_events().last().event == event,
            is_v4_id(final(self).spec_events().last().uuid),
    {
        let uuid = new_uuid_v4();
        let now = system_now();
        let timestamp = match since_unix_epoch(&now) {
            Some(d) => millis_of(&d),
            None => 0,
        };
        self.events.push(LoggedEvent { uuid, timestamp, event });
        proof { assert(self.events@.drop_last() =~= old(self).events@); }
    }

    /// Clones of the logged events, oldest first.
    pub fn iter(&self) -> (r: Vec<LoggedEvent<E>>)
        where
            E: Clone,
        ensures
            r@.len() == self.spec_events().len(),
            forall|i: int| 0 <= i < r@.len() ==> {
                let a = #[trigger] self.spec_events()[i];
                &&& r@[i].uuid == a.uuid
                &&& r@[i].timestamp == a.timestamp
                &&& cloned(a.event, r@[i].event)
            },
    {
        let mut out: Vec<LoggedEvent<E>> = Vec::new();
        let mut i: usize = 0;
        while i < self.events.len()
            invariant
                i <= self.events@.len(),
                out@.len() == i,
                forall|j: int| 0 <= j < i ==> {
                    let a = #[trigger] self.events@[j];
                    &&& out@[j].uuid == a.uuid
                    &&& out@[j].timestamp == a.timestamp
                    &&& cloned(a.event, out@[j].event)
                },
            decreases self.events@.len() - i,
        {
            out.push(self.events[i].clone());
            i += 1;
        }
        out
    }

    /// Applies all events in order to the given state using the provided
    /// closure: the state goes through one call of `apply_fn` per event,
    /// oldest event first.
    pub fn apply_all<S, F: Fn(&E, &mut S)>(&self, state: &mut S, apply_fn: F)
        requires
            forall|e: &E, s: &mut S| apply_fn.requires((e, s)),
        ensures
            exists|states: Seq<S>| {
                &&& states.len() == self.spec_events().len() + 1
                &&& states[0] == *old(state)
                &&& states.last() == *final(state)
                &&& forall|i: int| 0 <= i < self.spec_events().len() ==>
                    exists|m: &mut S| *m == #[trigger] states[i] && *final(m) == states[i + 1]
                        && call_ensures(apply_fn, (&self.spec_events()[i].event, m), ())
            },
    {
        let ghost mut states: Seq<S> = seq![*state];
        let mut i: usize = 0;
        while i < self.events.len()
            invariant
                forall|e: &E, s: &mut S| apply_fn.requires((e, s)),
                i <= self.events@.len(),
                states.len() == i + 1,
                states[0] == *old(state),
                states.last() == *state,
                forall|j: int| 0 <= j < i ==>
                    exists|m: &mut S| *m == #[trigger] states[j] && *final(m) == states[j + 1]
                        && call_ensures(apply_fn, (&self.events@[j].event, m), ()),
            decreases self.events@.len() - i,
        {
        let ghost before = *state;
            apply_fn(&self.events[i].event, state);
            proof {
                states = states.push(*state);
            }
            i += 1;
        }
    }

    /// Creates a state using `Default`, applies all events to it in order
    /// using the provided closure, and returns the resulting state.
    pub fn apply_all_default<S: Default, F: Fn(&E, &mut S)>(&self, apply_fn: F) -> (r: S)
        requires
            forall|e: &E, s: &mut S| apply_fn.requires((e, s)),
        ensures
            exists|states: Seq<S>| {
                &&& states.len() == self.spec_events().len() + 1
                &&& call_ensures(S::default, (), states[0])
                &&& states.last() == r
                &&& forall|i: int| 0 <= i < self.spec_events().len() ==>
                    exists|m: &mut S| *m == #[trigger] states[i] && *final(m) == states[i + 1]
                        && call_ensures(apply_fn, (&self.spec_events()[i].event, m), ())
            },
    {
        let mut state = S::default();
        self.apply_all(&mut state, apply_fn);
        state
    }
}

impl<E: Clone> Clone for EventLog<E> {
    /// A log holding a copy of each logged event, with the same ids and
    /// times.
    fn clone(&self) -> (l: Self)
        ensures
            l.spec_events().len() == self.spec_events().len(),
            forall|i: int| 0 <= i < l.spec_events().len() ==> {
                let a = #[trigger] self.spec_events()[i];
                &&& l.spec_events()[i].uuid == a.uuid
                &&& l.spec_events()[i].timestamp == a.timestamp
                &&& cloned(a.event, l.spec_events()[i].event)
            },
    {
        EventLog { events: self.iter() }
    }
}

impl<E> Default for EventLog<E> {
    fn default() -> (l: Self)
        ensures
            l.spec_events() == Seq::<LoggedEvent<E>>::empty(),
    {
        Self { events: Vec::new() }
    }
}

impl<E> Merge for EventLog<E> {
    open spec fn spec_merges(self, other: Self, result: Self) -> bool {
        result.spec_events() == merged_events(self.spec_events(), other.spec_events())
    }

    /// Merges another log into this one: the events of both, ordered by
    /// (timestamp, id), de-duplicated by id (the first event of each id in
    /// that order stays).
    fn merge(&mut self, other: Self) {
        let mut all: Vec<LoggedEvent<E>> = Vec::new();
        core::mem::swap(&mut all, &mut self.events);
        let mut rest = other.events;
        all.append(&mut rest);
        let sorted = sort_in_log_order(all);
        self.events = dedup_by_id(sorted);
    }
}

/// De-duplicating a sorted sequence leaves it sorted.
proof fn lemma_dedup_sorted<E>(s: Seq<LoggedEvent<E>>)
    requires
        is_sorted(s),
    ensures
        is_sorted(dedup_ids(s)),
    decreases s.len(),
{
    if s.len() > 0 {
        let t = s.drop_last();
        assert(is_sorted(t)) by {
            assert forall|i: int, j: int| 0 <= i < j < t.len() implies event_le(#[trigger] t[i], #[trigger] t[j]) by {
                assert(t[i] == s[i] && t[j] == s[j]);
            }
        }
        lemma_dedup_sorted(t);
        lemma_dedup_ids(t);
        let d = dedup_ids(t);
        let r = dedup_ids(s);
        assert forall|i: int, j: int| 0 <= i < j < r.len() implies event_le(#[trigger] r[i], #[trigger] r[j]) by {
            if j == d.len() {
                assert(t.contains(d[i]));
                let k = choose|k: int| 0 <= k < t.len() && t[k] == d[i];
                assert(s[k] == t[k]);
                assert(event_le(s[k], s[s.len() - 1]));
            }
        }
    }
}

/// A merged log is in log order, has no two events with one id, holds
/// only events of the two logs, and holds every id of both.
pub proof fn lemma_merge_result<E>(a: EventLog<E>, b: EventLog<E>, r: EventLog<E>)
    requires
        a.spec_merges(b, r),
    ensures
        is_sorted(r.spec_events()),
        distinct_ids(r.spec_events()),
        forall|i: int| 0 <= i < r.spec_events().len() ==>
            (a.spec_events() + b.spec_events()).contains(#[trigger] r.spec_events()[i]),
        forall|e: LoggedEvent<E>| (a.spec_events() + b.spec_events()).contains(e) ==>
            exists|j: int| 0 <= j < r.spec_events().len() && (#[trigger] r.spec_events()[j]).uuid == e.uuid,
{
    broadcast use vstd::seq_lib::group_to_multiset_ensures;
    let all = a.spec_events() + b.spec_events();
    let st = sort_events(all);
    lemma_sort_events(all);
    lemma_dedup_ids(st);
    lemma_dedup_sorted(st);
    let d = dedup_ids(st);
    assert forall|i: int| 0 <= i < d.len() implies all.contains(#[trigger] d[i]) by {
        assert(st.contains(d[i]));
        assert(st.to_multiset().count(d[i]) > 0);
        assert(all.to_multiset().count(d[i]) > 0);
    }
    assert forall|e: LoggedEvent<E>| all.contains(e) implies
        exists|j: int| 0 <= j < d.len() && (#[trigger] d[j]).uuid == e.uuid by {
        assert(all.to_multiset().count(e) > 0);
        assert(st.to_multiset().count(e) > 0);
        assert(st.contains(e));
        let k = choose|k: int| 0 <= k < st.len() && st[k] == e;
        assert(has_id(d, st[k].uuid));
    }
}

/// A log in log order without repeated ids is left as it is
/// by merging an empty log into it, and is what merging it into an empty
/// log gives: the empty log is an identity on such logs.
pub proof fn lemma_merge_identity<E>(x: EventLog<E>, empty: EventLog<E>, r1: EventLog<E>, r2: EventLog<E>)
    requires
        is_sorted(x.spec_events()),
        distinct_ids(x.spec_events()),
        empty.spec_events().len() == 0,
        x.spec_merges(empty, r1),
        empty.spec_merges(x, r2),
    ensures
        r1.spec_events() == x.spec_events(),
        r2.spec_events() == x.spec_events(),
{
    assert(x.spec_events() + empty.spec_events() =~= x.spec_events());
    assert(empty.spec_events() + x.spec_events() =~= x.spec_events());
    lemma_sorted_is_fixed(x.spec_events());
    lemma_dedup_fixed(x.spec_events());
}

} // verus!
