//! Gathering written edge entries per source node.
//!
//! A source may be written several times; the last entry of each kind
//! (success, failure, composite) wins. The result lists the sources with a
//! success entry, each with its fallbacks, then the sources that only have
//! fallbacks, then the composite sources; within each group, sources come
//! in the order of their first entry of that kind.
use vstd::prelude::*;
use crate::definition::ast::{
    ArmView, CompositeArm, EdgeEntry, EdgeKind, EdgeKindView, EntryView, arms_view, copy_arms,
    copy_names, edges_view, entries_view, opt_names,
};
use crate::keyed::string_views;

verus! {

/// The source node an entry is written for.
pub open spec fn entry_key(e: EntryView) -> Seq<char> {
    match e {
        EntryView::Success(k, _) => k,
        EntryView::Failure(k, _) => k,
        EntryView::Composite(k, _) => k,
    }
}

/// Success entries are of kind 0, failure entries of kind 1, composite
/// entries of kind 2.
pub open spec fn kind_of(e: EntryView) -> int {
    match e {
        EntryView::Success(..) => 0,
        EntryView::Failure(..) => 1,
        EntryView::Composite(..) => 2,
    }
}

/// The successors or fallbacks an entry lists.
pub open spec fn names_of(e: EntryView) -> Seq<Seq<char>> {
    match e {
        EntryView::Success(_, s) => s,
        EntryView::Failure(_, s) => s,
        EntryView::Composite(..) => Seq::empty(),
    }
}

/// The arms a composite entry lists.
pub open spec fn arms_of(e: EntryView) -> Seq<ArmView> {
    match e {
        EntryView::Composite(_, a) => a,
        _ => Seq::empty(),
    }
}

/// Whether no entry before `i` has the kind and source of entry `i`.
pub open spec fn first_in_slot(es: Seq<EntryView>, i: int) -> bool {
    forall|j: int|
        0 <= j < i ==> !(kind_of(#[trigger] es[j]) == kind_of(es[i]) && entry_key(es[j])
            == entry_key(es[i]))
}

/// The position of the last entry of `kind` for source `k`.
pub open spec fn last_index(es: Seq<EntryView>, kind: int, k: Seq<char>) -> Option<int>
    decreases es.len(),
{
    if es.len() == 0 {
        None
    } else if kind_of(es.last()) == kind && entry_key(es.last()) == k {
        Some(es.len() - 1)
    } else {
        last_index(es.drop_last(), kind, k)
    }
}

/// The sources with a success entry, among the first `n` entries.
pub open spec fn success_part(es: Seq<EntryView>, n: int) -> Seq<(Seq<char>, EdgeKindView)>
    decreases n,
{
    if n <= 0 || n > es.len() {
        Seq::empty()
    } else {
        let rest = success_part(es, n - 1);
        let e = es[n - 1];
        let k = entry_key(e);
        if kind_of(e) == 0 && first_in_slot(es, n - 1) {
            let succs = names_of(es[last_index(es, 0, k)->0]);
            let on_failure = match last_index(es, 1, k) {
                Some(j) => Some(names_of(es[j])),
                None => None,
            };
            rest.push((k, EdgeKindView::Direct { succs, on_failure }))
        } else {
            rest
        }
    }
}

/// The sources with only failure entries, among the first `n` entries.
pub open spec fn failure_part(es: Seq<EntryView>, n: int) -> Seq<(Seq<char>, EdgeKindView)>
    decreases n,
{
    if n <= 0 || n > es.len() {
        Seq::empty()
    } else {
        let rest = failure_part(es, n - 1);
        let e = es[n - 1];
        let k = entry_key(e);
        if kind_of(e) == 1 && first_in_slot(es, n - 1) && last_index(es, 0, k) is None {
            let fails = names_of(es[last_index(es, 1, k)->0]);
            rest.push((k, EdgeKindView::Direct { succs: Seq::empty(), on_failure: Some(fails) }))
        } else {
            rest
        }
    }
}

/// The composite sources, among the first `n` entries.
pub open spec fn composite_part(es: Seq<EntryView>, n: int) -> Seq<(Seq<char>, EdgeKindView)>
    decreases n,
{
    if n <= 0 || n > es.len() {
        Seq::empty()
    } else {
        let rest = composite_part(es, n - 1);
        let e = es[n - 1];
        let k = entry_key(e);
        if kind_of(e) == 2 && first_in_slot(es, n - 1) {
            rest.push((k, EdgeKindView::Composite(arms_of(es[last_index(es, 2, k)->0]))))
        } else {
            rest
        }
    }
}

/// The edges that a list of entries gathers into.
pub open spec fn grouped(es: Seq<EntryView>) -> Seq<(Seq<char>, EdgeKindView)> {
    success_part(es, es.len() as int) + failure_part(es, es.len() as int) + composite_part(
        es,
        es.len() as int,
    )
}

/// The last entry for a source is one of its entries, and it exists when
/// some entry of that kind is written for it.
pub proof fn lemma_last_index(es: Seq<EntryView>, kind: int, k: Seq<char>, i: int)
    requires
        0 <= i < es.len(),
        kind_of(es[i]) == kind,
        entry_key(es[i]) == k,
    ensures
        last_index(es, kind, k) is Some,
        i <= last_index(es, kind, k)->0 < es.len(),
        kind_of(es[last_index(es, kind, k)->0]) == kind,
        entry_key(es[last_index(es, kind, k)->0]) == k,
    decreases es.len(),
{
    if !(kind_of(es.last()) == kind && entry_key(es.last()) == k) {
        lemma_last_index(es.drop_last(), kind, k, i);
    }
}

/// What the last-entry search finds is an entry of that kind for that
/// source; when it finds nothing, there is none.
pub proof fn lemma_last_index_found(es: Seq<EntryView>, kind: int, k: Seq<char>)
    ensures
        match last_index(es, kind, k) {
            Some(j) => 0 <= j < es.len() && kind_of(es[j]) == kind && entry_key(es[j]) == k,
            None => forall|i: int|
                0 <= i < es.len() ==> !(kind_of(#[trigger] es[i]) == kind && entry_key(es[i]) == k),
        },
    decreases es.len(),
{
    if es.len() > 0 && !(kind_of(es.last()) == kind && entry_key(es.last()) == k) {
        lemma_last_index_found(es.drop_last(), kind, k);
        let d = es.drop_last();
        assert forall|i: int| 0 <= i < d.len() implies d[i] == es[i] by {}
    }
}

/// How many edges of `s` leave source `k`.
pub open spec fn count_source(s: Seq<(Seq<char>, EdgeKindView)>, k: Seq<char>) -> nat
    decreases s.len(),
{
    if s.len() == 0 {
        0
    } else {
        count_source(s.drop_last(), k) + if s.last().0 == k { 1nat } else { 0nat }
    }
}

/// Whether one of the first `n` entries is of `kind` for source `k`.
pub open spec fn written(es: Seq<EntryView>, n: int, kind: int, k: Seq<char>) -> bool {
    exists|i: int| 0 <= i < n && kind_of(#[trigger] es[i]) == kind && entry_key(es[i]) == k
}

/// The direct edge that the entries written for `k` gather into: the
/// successors of its last success entry, and the fallbacks of its last
/// failure entry, if it has one.
pub open spec fn direct_edge_of(es: Seq<EntryView>, k: Seq<char>) -> EdgeKindView {
    EdgeKindView::Direct {
        succs: names_of(es[last_index(es, 0, k)->0]),
        on_failure: match last_index(es, 1, k) {
            Some(j) => Some(names_of(es[j])),
            None => None,
        },
    }
}

proof fn lemma_count_append(a: Seq<(Seq<char>, EdgeKindView)>, b: Seq<(Seq<char>, EdgeKindView)>, k: Seq<char>)
    ensures
        count_source(a + b, k) == count_source(a, k) + count_source(b, k),
    decreases b.len(),
{
    if b.len() > 0 {
        lemma_count_append(a, b.drop_last(), k);
        assert((a + b).drop_last() =~= a + b.drop_last());
    } else {
        assert(a + b =~= a);
    }
}

proof fn lemma_count_zero(s: Seq<(Seq<char>, EdgeKindView)>, k: Seq<char>)
    requires
        count_source(s, k) == 0,
    ensures
        forall|q: int| 0 <= q < s.len() ==> (#[trigger] s[q]).0 != k,
    decreases s.len(),
{
    if s.len() > 0 {
        lemma_count_zero(s.drop_last(), k);
        assert forall|q: int| 0 <= q < s.len() implies (#[trigger] s[q]).0 != k by {
            if q < s.len() - 1 {
                assert(s[q] == s.drop_last()[q]);
            }
        }
    }
}

/// The success part holds one edge from `k` once a success entry for `k`
/// is among the first `n` entries (none before), and that edge is the
/// direct edge gathered for `k`.
proof fn lemma_success_part_source(es: Seq<EntryView>, n: int, k: Seq<char>)
    requires
        0 <= n <= es.len(),
    ensures
        count_source(success_part(es, n), k) == if written(es, n, 0, k) { 1nat } else { 0nat },
        forall|q: int| 0 <= q < success_part(es, n).len() && (#[trigger] success_part(es, n)[q]).0 == k
            ==> success_part(es, n)[q].1 == direct_edge_of(es, k),
    decreases n,
{
    if n > 0 {
        lemma_success_part_source(es, n - 1, k);
        let e = es[n - 1];
        let rest = success_part(es, n - 1);
        let cur = success_part(es, n);
        if kind_of(e) == 0 && entry_key(e) == k {
            assert(written(es, n, 0, k));
            if first_in_slot(es, n - 1) {
                assert(!written(es, n - 1, 0, k)) by {
                    if written(es, n - 1, 0, k) {
                        let i = choose|i: int| 0 <= i < n - 1 && kind_of(#[trigger] es[i]) == 0 && entry_key(es[i]) == k;
                        assert(!(kind_of(es[i]) == kind_of(es[n - 1]) && entry_key(es[i]) == entry_key(es[n - 1])));
                    }
                }
            } else {
                assert(written(es, n - 1, 0, k)) by {
                    let j = choose|j: int| 0 <= j < n - 1 && !!(kind_of(#[trigger] es[j]) == kind_of(es[n - 1]) && entry_key(es[j]) == entry_key(es[n - 1]));
                }
            }
        } else {
            assert(written(es, n, 0, k) == written(es, n - 1, 0, k)) by {
                if written(es, n, 0, k) {
                    let i = choose|i: int| 0 <= i < n && kind_of(#[trigger] es[i]) == 0 && entry_key(es[i]) == k;
                    assert(i < n - 1);
                }
            }
        }
        if kind_of(e) == 0 && first_in_slot(es, n - 1) {
            assert(cur == rest.push(cur.last()));
            assert(cur.drop_last() =~= rest);
            assert forall|q: int| 0 <= q < cur.len() && (#[trigger] cur[q]).0 == k implies cur[q].1 == direct_edge_of(es, k) by {
                if q < rest.len() {
                    assert(cur[q] == rest[q]);
                }
            }
        }
    }
}

/// No edge of the failure-only part leaves a source with a success entry.
proof fn lemma_failure_part_source(es: Seq<EntryView>, n: int, k: Seq<char>)
    requires
        0 <= n <= es.len(),
        last_index(es, 0, k) is Some,
    ensures
        count_source(failure_part(es, n), k) == 0,
    decreases n,
{
    if n > 0 {
        lemma_failure_part_source(es, n - 1, k);
        let cur = failure_part(es, n);
        let e = es[n - 1];
        if kind_of(e) == 1 && first_in_slot(es, n - 1) && last_index(es, 0, entry_key(e)) is None {
            assert(cur.drop_last() =~= failure_part(es, n - 1));
        }
    }
}

/// No edge of the composite part leaves a source without a composite entry.
proof fn lemma_composite_part_source(es: Seq<EntryView>, n: int, k: Seq<char>)
    requires
        0 <= n <= es.len(),
        last_index(es, 2, k) is None,
    ensures
        count_source(composite_part(es, n), k) == 0,
    decreases n,
{
    if n > 0 {
        lemma_composite_part_source(es, n - 1, k);
        let cur = composite_part(es, n);
        let e = es[n - 1];
        if kind_of(e) == 2 && first_in_slot(es, n - 1) {
            if entry_key(e) == k {
                lemma_last_index(es, 2, k, n - 1);
            }
            assert(cur.drop_last() =~= composite_part(es, n - 1));
        }
    }
}

/// A source written with a success entry and no composite entry gets
/// exactly one edge: a direct edge to the successors of its last success
/// entry, falling back to those of its last failure entry when it has one
/// (in whatever order the two were written), and to none otherwise.
pub proof fn lemma_direct_edge_grouped(es: Seq<EntryView>, k: Seq<char>)
    requires
        last_index(es, 0, k) is Some,
        last_index(es, 2, k) is None,
    ensures
        count_source(grouped(es), k) == 1,
        forall|q: int| 0 <= q < grouped(es).len() && (#[trigger] grouped(es)[q]).0 == k
            ==> grouped(es)[q].1 == direct_edge_of(es, k),
{
    let n = es.len() as int;
    let s = success_part(es, n);
    let f = failure_part(es, n);
    let c = composite_part(es, n);
    lemma_last_index_found(es, 0, k);
    let i = last_index(es, 0, k)->0;
    assert(written(es, n, 0, k)) by {
        assert(kind_of(es[i]) == 0 && entry_key(es[i]) == k);
    }
    lemma_success_part_source(es, n, k);
    lemma_failure_part_source(es, n, k);
    lemma_composite_part_source(es, n, k);
    lemma_count_append(s, f, k);
    lemma_count_append(s + f, c, k);
    lemma_count_zero(f, k);
    lemma_count_zero(c, k);
    let g = grouped(es);
    assert(g == s + f + c);
    assert forall|q: int| 0 <= q < g.len() && (#[trigger] g[q]).0 == k implies g[q].1 == direct_edge_of(es, k) by {
        if q < s.len() {
            assert(g[q] == s[q]);
        } else if q < s.len() + f.len() {
            assert(g[q] == f[q - s.len()]);
        } else {
            assert(g[q] == c[q - s.len() - f.len()]);
        }
    }
}

/// The failure-only part holds one edge from a source without success
/// entries once a failure entry for it is among the first `n` entries:
/// no successors, and the fallbacks of its last failure entry.
proof fn lemma_failure_part_only(es: Seq<EntryView>, n: int, k: Seq<char>)
    requires
        0 <= n <= es.len(),
        last_index(es, 0, k) is None,
    ensures
        count_source(failure_part(es, n), k) == if written(es, n, 1, k) { 1nat } else { 0nat },
        forall|q: int| 0 <= q < failure_part(es, n).len() && (#[trigger] failure_part(es, n)[q]).0 == k
            ==> failure_part(es, n)[q].1 == (EdgeKindView::Direct {
                succs: Seq::empty(),
                on_failure: Some(names_of(es[last_index(es, 1, k)->0])),
            }),
    decreases n,
{
    if n > 0 {
        lemma_failure_part_only(es, n - 1, k);
        let e = es[n - 1];
        let rest = failure_part(es, n - 1);
        let cur = failure_part(es, n);
        if kind_of(e) == 1 && entry_key(e) == k {
            assert(written(es, n, 1, k));
            if first_in_slot(es, n - 1) {
                assert(!written(es, n - 1, 1, k)) by {
                    if written(es, n - 1, 1, k) {
                        let i = choose|i: int| 0 <= i < n - 1 && kind_of(#[trigger] es[i]) == 1 && entry_key(es[i]) == k;
                        assert(!(kind_of(es[i]) == kind_of(es[n - 1]) && entry_key(es[i]) == entry_key(es[n - 1])));
                    }
                }
            } else {
                assert(written(es, n - 1, 1, k)) by {
                    let j = choose|j: int| 0 <= j < n - 1 && !!(kind_of(#[trigger] es[j]) == kind_of(es[n - 1]) && entry_key(es[j]) == entry_key(es[n - 1]));
                }
            }
        } else {
            assert(written(es, n, 1, k) == written(es, n - 1, 1, k)) by {
                if written(es, n, 1, k) {
                    let i = choose|i: int| 0 <= i < n && kind_of(#[trigger] es[i]) == 1 && entry_key(es[i]) == k;
                    assert(i < n - 1);
                }
            }
        }
        if kind_of(e) == 1 && first_in_slot(es, n - 1) && last_index(es, 0, entry_key(e)) is None {
            assert(cur.drop_last() =~= rest);
            assert forall|q: int| 0 <= q < cur.len() && (#[trigger] cur[q]).0 == k implies cur[q].1 == (EdgeKindView::Direct {
                succs: Seq::empty(),
                on_failure: Some(names_of(es[last_index(es, 1, k)->0])),
            }) by {
                if q < rest.len() {
                    assert(cur[q] == rest[q]);
                }
            }
        }
    }
}

/// A source written only with failure entries gets exactly one edge: no
/// successors, falling back to those of its last failure entry.
pub proof fn lemma_failure_only_edge_grouped(es: Seq<EntryView>, k: Seq<char>)
    requires
        last_index(es, 0, k) is None,
        last_index(es, 1, k) is Some,
        last_index(es, 2, k) is None,
    ensures
        count_source(grouped(es), k) == 1,
        forall|q: int| 0 <= q < grouped(es).len() && (#[trigger] grouped(es)[q]).0 == k
            ==> grouped(es)[q].1 == (EdgeKindView::Direct {
                succs: Seq::empty(),
                on_failure: Some(names_of(es[last_index(es, 1, k)->0])),
            }),
{
    let n = es.len() as int;
    let s = success_part(es, n);
    let f = failure_part(es, n);
    let c = composite_part(es, n);
    lemma_last_index_found(es, 0, k);
    lemma_last_index_found(es, 1, k);
    let i = last_index(es, 1, k)->0;
    assert(written(es, n, 1, k)) by {
        assert(kind_of(es[i]) == 1 && entry_key(es[i]) == k);
    }
    assert(!written(es, n, 0, k));
    lemma_success_part_source(es, n, k);
    lemma_failure_part_only(es, n, k);
    lemma_composite_part_source(es, n, k);
    lemma_count_append(s, f, k);
    lemma_count_append(s + f, c, k);
    lemma_count_zero(s, k);
    lemma_count_zero(c, k);
    let g = grouped(es);
    assert(g == s + f + c);
    assert forall|q: int| 0 <= q < g.len() && (#[trigger] g[q]).0 == k implies g[q].1 == (EdgeKindView::Direct {
        succs: Seq::empty(),
        on_failure: Some(names_of(es[last_index(es, 1, k)->0])),
    }) by {
        if q < s.len() {
            assert(g[q] == s[q]);
        } else if q < s.len() + f.len() {
            assert(g[q] == f[q - s.len()]);
        } else {
            assert(g[q] == c[q - s.len() - f.len()]);
        }
    }
}

fn kind_exec(e: &EdgeEntry) -> (r: u8)
    ensures
        r == kind_of(e@),
{
    match e {
        EdgeEntry::Success(..) => 0,
        EdgeEntry::Failure(..) => 1,
        EdgeEntry::Composite(..) => 2,
    }
}

fn key_exec(e: &EdgeEntry) -> (k: &String)
    ensures
        k@ == entry_key(e@),
{
    match e {
        EdgeEntry::Success(k, _) => k,
        EdgeEntry::Failure(k, _) => k,
        EdgeEntry::Composite(k, _) => k,
    }
}

fn last_index_exec(es: &Vec<EdgeEntry>, kind: u8, k: &String) -> (r: Option<usize>)
    ensures
        match r {
            Some(j) => last_index(entries_view(es@), kind as int, k@) == Some(j as int) && j
                < es@.len(),
            None => last_index(entries_view(es@), kind as int, k@) is None,
        },
{
    let ghost ev = entries_view(es@);
    proof {
        lemma_last_index_found(ev, kind as int, k@);
        assert(ev.take(es@.len() as int) =~= ev);
    }
    let mut j = es.len();
    while j > 0
        invariant
            ev == entries_view(es@),
            j <= es@.len(),
            last_index(ev, kind as int, k@) == last_index(ev.take(j as int), kind as int, k@),
        decreases j,
    {
        let e = &es[j - 1];
        proof {
            assert(ev[j - 1] == e@);
            assert(ev.take(j as int).last() == e@);
            assert(ev.take(j as int).drop_last() =~= ev.take(j - 1));
        }
        if kind_exec(e) == kind && *key_exec(e) == *k {
            return Some(j - 1);
        }
        j -= 1;
    }
    None
}

fn is_first_exec(es: &Vec<EdgeEntry>, i: usize) -> (b: bool)
    requires
        i < es@.len(),
    ensures
        b == first_in_slot(entries_view(es@), i as int),
{
    let ghost ev = entries_view(es@);
    let kind = kind_exec(&es[i]);
    let key = key_exec(&es[i]);
    proof {
        assert(ev[i as int] == es@[i as int]@);
    }
    let mut j: usize = 0;
    while j < i
        invariant
            ev == entries_view(es@),
            i < es@.len(),
            j <= i,
            kind == kind_of(ev[i as int]),
            key@ == entry_key(ev[i as int]),
            forall|m: int|
                0 <= m < j ==> !(kind_of(#[trigger] ev[m]) == kind_of(ev[i as int]) && entry_key(
                    ev[m],
                ) == entry_key(ev[i as int])),
        decreases i - j,
    {
        proof {
            assert(ev[j as int] == es@[j as int]@);
        }
        if kind_exec(&es[j]) == kind && *key_exec(&es[j]) == *key {
            return false;
        }
        j += 1;
    }
    true
}

fn names_at(es: &Vec<EdgeEntry>, j: usize) -> (r: Vec<String>)
    requires
        j < es@.len(),
    ensures
        string_views(r@) == names_of(entries_view(es@)[j as int]),
{
    match &es[j] {
        EdgeEntry::Success(_, s) => copy_names(s),
        EdgeEntry::Failure(_, s) => copy_names(s),
        EdgeEntry::Composite(..) => {
            let r: Vec<String> = Vec::new();
            proof {
                assert(string_views(r@) =~= Seq::<Seq<char>>::empty());
            }
            r
        },
    }
}

fn arms_at(es: &Vec<EdgeEntry>, j: usize) -> (r: Vec<CompositeArm>)
    requires
        j < es@.len(),
    ensures
        arms_view(r@) == arms_of(entries_view(es@)[j as int]),
{
    match &es[j] {
        EdgeEntry::Composite(_, a) => copy_arms(a),
        _ => {
            let r: Vec<CompositeArm> = Vec::new();
            proof {
                assert(arms_view(r@) =~= Seq::<ArmView>::empty());
            }
            r
        },
    }
}

/// Gathers written edge entries per source node.
pub fn group_edges(es: &Vec<EdgeEntry>) -> (r: Vec<(String, EdgeKind)>)
    ensures
        edges_view(r@) == grouped(entries_view(es@)),
{
    let ghost ev = entries_view(es@);
    let n = es.len();
    let mut out: Vec<(String, EdgeKind)> = Vec::new();
    let mut i: usize = 0;
    while i < n
        invariant
            ev == entries_view(es@),
            n == es@.len(),
            i <= n,
            edges_view(out@) == success_part(ev, i as int),
        decreases n - i,
    {
        if kind_exec(&es[i]) == 0 && is_first_exec(es, i) {
            let k = key_exec(&es[i]);
            proof {
                lemma_last_index(ev, 0, k@, i as int);
            }
            let s = match last_index_exec(es, 0, k) {
                Some(j) => names_at(es, j),
                None => Vec::new(),
            };
            let f = match last_index_exec(es, 1, k) {
                Some(j) => Some(names_at(es, j)),
                None => None,
            };
            let ghost before = out@;
            out.push((k.clone(), EdgeKind::Direct { succs: s, on_failure: f }));
            proof {
                assert(edges_view(out@) =~= edges_view(before).push(
                    (k@, EdgeKindView::Direct { succs: string_views(s@), on_failure: opt_names(f) }),
                ));
            }
        }
        i += 1;
    }
    let mut i: usize = 0;
    let ghost succ_count = out@.len();
    while i < n
        invariant
            ev == entries_view(es@),
            n == es@.len(),
            i <= n,
            edges_view(out@) == success_part(ev, n as int) + failure_part(ev, i as int),
        decreases n - i,
    {
        if kind_exec(&es[i]) == 1 && is_first_exec(es, i) {
            let k = key_exec(&es[i]);
            if last_index_exec(es, 0, k).is_none() {
                proof {
                    lemma_last_index(ev, 1, k@, i as int);
                }
                let fails = match last_index_exec(es, 1, k) {
                    Some(j) => names_at(es, j),
                    None => Vec::new(),
                };
                let ghost before = out@;
                let empty: Vec<String> = Vec::new();
                out.push((k.clone(), EdgeKind::Direct { succs: empty, on_failure: Some(fails) }));
                proof {
                    assert(string_views(empty@) =~= Seq::<Seq<char>>::empty());
                    assert(edges_view(out@) =~= edges_view(before).push(
                        (
                            k@,
                            EdgeKindView::Direct {
                                succs: Seq::empty(),
                                on_failure: Some(string_views(fails@)),
                            },
                        ),
                    ));
                }
            }
        }
        i += 1;
    }
    let mut i: usize = 0;
    while i < n
        invariant
            ev == entries_view(es@),
            n == es@.len(),
            i <= n,
            edges_view(out@) == success_part(ev, n as int) + failure_part(ev, n as int)
                + composite_part(ev, i as int),
        decreases n - i,
    {
        if kind_exec(&es[i]) == 2 && is_first_exec(es, i) {
            let k = key_exec(&es[i]);
            proof {
                lemma_last_index(ev, 2, k@, i as int);
            }
            let arms = match last_index_exec(es, 2, k) {
                Some(j) => arms_at(es, j),
                None => Vec::new(),
            };
            let ghost before = out@;
            out.push((k.clone(), EdgeKind::Composite(arms)));
            proof {
                assert(edges_view(out@) =~= edges_view(before).push(
                    (k@, EdgeKindView::Composite(arms_view(arms@))),
                ));
            }
        }
        i += 1;
    }
    out
}

} // verus!
