//! What a workflow needs from its definition: a work-item variant per
//! node field (named in CamelCase), the terminal node whose output ends a
//! run, the start node, the edges to check for matching types, and the
//! graph in DOT form.
use vstd::prelude::*;
use vstd::string::StringExecFns;
use crate::definition::token::{Token, TokenView, tokens_view, chars_of, copy_run};
use crate::definition::ast::{
    ArmView, CompositeArm, DefView, EdgeKind, EdgeKindView, WorkflowDef, arms_view, copy_arms,
    copy_names, edges_view, fields_view, field_view, opt_name, opt_names,
};
use crate::keyed::string_views;

verus! {

/// `String::push` appends one character; this states that the text
/// afterwards is the text before with `ch` at its end, as std documents.
pub assume_specification[ String::push ](string: &mut String, ch: char)
    ensures
        final(string)@ == old(string)@.push(ch),
;

/// The capital of an ASCII lowercase letter; any other character as it is.
pub open spec fn upper(c: char) -> char {
    if 'a' <= c && c <= 'z' {
        ((c as u32) - 32) as char
    } else {
        c
    }
}

/// CamelCase of `s[i..]`, where `at_start` says whether `s[i]` begins a
/// part: underscores are dropped, and the first character of each part is
/// capitalized.
pub open spec fn camel_from(s: Seq<char>, i: int, at_start: bool) -> Seq<char>
    decreases s.len() - i,
{
    if i < 0 || i >= s.len() {
        Seq::empty()
    } else if s[i] == '_' {
        camel_from(s, i + 1, true)
    } else {
        seq![if at_start { upper(s[i]) } else { s[i] }] + camel_from(s, i + 1, false)
    }
}

/// The CamelCase form of a snake_case name.
pub open spec fn camel(s: Seq<char>) -> Seq<char> {
    camel_from(s, 0, true)
}

fn upper_exec(c: char) -> (r: char)
    ensures
        r == upper(c),
{
    if 'a' <= c && c <= 'z' {
        let b = (c as u8) - 32;
        b as char
    } else {
        c
    }
}

/// The CamelCase form of a snake_case name: `fetch_data` gives `FetchData`.
pub fn to_camel_case(s: &String) -> (r: String)
    ensures
        r@ == camel(s@),
{
    let cs = chars_of(s.as_str());
    let mut out = String::new();
    let mut at_start = true;
    let mut i: usize = 0;
    while i < cs.len()
        invariant
            cs@ == s@,
            i <= cs@.len(),
            camel(s@) == out@ + camel_from(s@, i as int, at_start),
        decreases cs@.len() - i,
    {
        let c = cs[i];
        let ghost before = out@;
        if c == '_' {
            at_start = true;
        } else {
            let d = if at_start {
                upper_exec(c)
            } else {
                c
            };
            out.push(d);
            proof {
                assert(before + (seq![d] + camel_from(s@, i + 1, false)) =~= before.push(d)
                    + camel_from(s@, i + 1, false));
            }
            at_start = false;
        }
        i += 1;
    }
    proof {
        assert(out@ + Seq::<char>::empty() =~= out@);
    }
    out
}


/// Whether an edge ends the workflow: a direct edge with neither
/// successors nor fallbacks, or a composite edge with no arms.
pub open spec fn is_terminal_kind(k: EdgeKindView) -> bool {
    match k {
        EdgeKindView::Direct { succs, on_failure } => succs.len() == 0 && on_failure is None,
        EdgeKindView::Composite(arms) => arms.len() == 0,
    }
}

/// The position of the first element of `s` that `p` holds of.
pub open spec fn first_where<T>(s: Seq<T>, p: spec_fn(T) -> bool) -> Option<int>
    decreases s.len(),
{
    if s.len() == 0 {
        None
    } else {
        match first_where(s.drop_last(), p) {
            Some(i) => Some(i),
            None => if p(s.last()) {
                Some(s.len() - 1)
            } else {
                None
            },
        }
    }
}

/// Holds of terminal edges.
pub open spec fn terminal_edge() -> spec_fn((Seq<char>, EdgeKindView)) -> bool {
    |e: (Seq<char>, EdgeKindView)| is_terminal_kind(e.1)
}

/// Holds of fields named `name`.
pub open spec fn field_named(name: Seq<char>) -> spec_fn((Seq<char>, Seq<TokenView>, Option<Seq<char>>)) -> bool {
    |f: (Seq<char>, Seq<TokenView>, Option<Seq<char>>)| f.0 == name
}

/// Holds of edges from `name`.
pub open spec fn edge_from(name: Seq<char>) -> spec_fn((Seq<char>, EdgeKindView)) -> bool {
    |e: (Seq<char>, EdgeKindView)| e.0 == name
}

/// The position of the first terminal edge.
pub open spec fn first_terminal(edges: Seq<(Seq<char>, EdgeKindView)>) -> Option<int> {
    first_where(edges, terminal_edge())
}

/// The position of the first field named `name`.
pub open spec fn field_index(fields: Seq<(Seq<char>, Seq<TokenView>, Option<Seq<char>>)>, name: Seq<char>) -> Option<int> {
    first_where(fields, field_named(name))
}

/// The position of the first edge whose source is `name`.
pub open spec fn edge_index(edges: Seq<(Seq<char>, EdgeKindView)>, name: Seq<char>) -> Option<int> {
    first_where(edges, edge_from(name))
}

/// What the search finds satisfies `p`, and nothing before it does; when
/// it finds nothing, nothing satisfies `p`.
pub proof fn lemma_first_where<T>(s: Seq<T>, p: spec_fn(T) -> bool)
    ensures
        match first_where(s, p) {
            Some(i) => 0 <= i < s.len() && p(s[i]) && forall|j: int| 0 <= j < i ==> !p(#[trigger] s[j]),
            None => forall|j: int| 0 <= j < s.len() ==> !p(#[trigger] s[j]),
        },
    decreases s.len(),
{
    if s.len() > 0 {
        lemma_first_where(s.drop_last(), p);
        let d = s.drop_last();
        assert forall|j: int| 0 <= j < d.len() implies d[j] == s[j] by {}
    }
}

/// A search in a prefix that finds something finds what the whole search finds.
pub proof fn lemma_first_where_prefix<T>(s: Seq<T>, p: spec_fn(T) -> bool, k: int)
    requires
        0 <= k <= s.len(),
        first_where(s.take(k), p) is Some,
    ensures
        first_where(s, p) == first_where(s.take(k), p),
    decreases s.len() - k,
{
    if k < s.len() {
        assert(s.take(k + 1).drop_last() =~= s.take(k));
        lemma_first_where_prefix(s, p, k + 1);
    } else {
        assert(s.take(k) =~= s);
    }
}

/// The retry policy fields that fields name, in field order.
pub open spec fn policies(fields: Seq<(Seq<char>, Seq<TokenView>, Option<Seq<char>>)>) -> Seq<Seq<char>>
    decreases fields.len(),
{
    if fields.len() == 0 {
        Seq::empty()
    } else {
        policies(fields.drop_last()) + match fields.last().2 {
            Some(p) => seq![p],
            None => Seq::empty(),
        }
    }
}

/// The positions of the node fields: those that no field names as its
/// retry policy.
pub open spec fn node_positions(fields: Seq<(Seq<char>, Seq<TokenView>, Option<Seq<char>>)>, pol: Seq<Seq<char>>, n: int) -> Seq<int>
    decreases n,
{
    if n <= 0 || n > fields.len() {
        Seq::empty()
    } else {
        node_positions(fields, pol, n - 1) + if pol.contains(fields[n - 1].0) {
            Seq::empty()
        } else {
            seq![n - 1]
        }
    }
}

/// The work-item variants of the terminal edges' sources.
pub open spec fn terminal_variants(edges: Seq<(Seq<char>, EdgeKindView)>) -> Seq<Seq<char>>
    decreases edges.len(),
{
    if edges.len() == 0 {
        Seq::empty()
    } else {
        terminal_variants(edges.drop_last()) + if is_terminal_kind(edges.last().1) {
            seq![camel(edges.last().0)]
        } else {
            Seq::empty()
        }
    }
}

/// The (source, successor) pairs of direct edges where both are fields:
/// the pairs whose output and input types must agree.
pub open spec fn succ_pairs(fields: Seq<(Seq<char>, Seq<TokenView>, Option<Seq<char>>)>, src: Seq<char>, succs: Seq<Seq<char>>) -> Seq<(Seq<char>, Seq<char>)>
    decreases succs.len(),
{
    if succs.len() == 0 {
        Seq::empty()
    } else {
        succ_pairs(fields, src, succs.drop_last()) + if field_index(fields, src) is Some
            && field_index(fields, succs.last()) is Some {
            seq![(src, succs.last())]
        } else {
            Seq::empty()
        }
    }
}

/// The pairs to check for all direct edges, in edge order.
pub open spec fn type_checks(fields: Seq<(Seq<char>, Seq<TokenView>, Option<Seq<char>>)>, edges: Seq<(Seq<char>, EdgeKindView)>) -> Seq<(Seq<char>, Seq<char>)>
    decreases edges.len(),
{
    if edges.len() == 0 {
        Seq::empty()
    } else {
        type_checks(fields, edges.drop_last()) + match edges.last().1 {
            EdgeKindView::Direct { succs, .. } => succ_pairs(fields, edges.last().0, succs),
            EdgeKindView::Composite(_) => Seq::empty(),
        }
    }
}

/// Holds of the names of fields.
pub open spec fn names_a_field(fields: Seq<(Seq<char>, Seq<TokenView>, Option<Seq<char>>)>) -> spec_fn(Seq<char>) -> bool {
    |s: Seq<char>| field_index(fields, s) is Some
}

/// The type-check pairs of a direct edge from a field are the source with
/// each of its successors that is a field, in order, and no others; an
/// edge from a name that is no field gives none.
pub proof fn lemma_succ_pairs_are_field_successors(
    fields: Seq<(Seq<char>, Seq<TokenView>, Option<Seq<char>>)>,
    src: Seq<char>,
    succs: Seq<Seq<char>>,
)
    ensures
        succ_pairs(fields, src, succs) == if field_index(fields, src) is Some {
            succs.filter(names_a_field(fields)).map_values(|s: Seq<char>| (src, s))
        } else {
            Seq::<(Seq<char>, Seq<char>)>::empty()
        },
    decreases succs.len(),
{
    if succs.len() > 0 {
        let rest = succs.drop_last();
        lemma_succ_pairs_are_field_successors(fields, src, rest);
        rest.lemma_filter_push(succs.last(), names_a_field(fields));
        assert(rest.push(succs.last()) == succs);
        if field_index(fields, src) is Some {
            let f = rest.filter(names_a_field(fields));
            if field_index(fields, succs.last()) is Some {
                assert(f.push(succs.last()).map_values(|s: Seq<char>| (src, s))
                    =~= f.map_values(|s: Seq<char>| (src, s)) + seq![(src, succs.last())]);
            } else {
                assert(f.map_values(|s: Seq<char>| (src, s)) + Seq::<(Seq<char>, Seq<char>)>::empty()
                    =~= f.map_values(|s: Seq<char>| (src, s)));
            }
        } else {
            assert(Seq::<(Seq<char>, Seq<char>)>::empty() + Seq::<(Seq<char>, Seq<char>)>::empty()
                =~= Seq::<(Seq<char>, Seq<char>)>::empty());
        }
    }
}

/// Every successor of every direct edge is type-checked against its
/// source when both are fields.
pub proof fn lemma_type_checks_cover_successors(
    fields: Seq<(Seq<char>, Seq<TokenView>, Option<Seq<char>>)>,
    edges: Seq<(Seq<char>, EdgeKindView)>,
    i: int,
    j: int,
)
    requires
        0 <= i < edges.len(),
        edges[i].1 is Direct,
        0 <= j < edges[i].1->succs.len(),
        field_index(fields, edges[i].0) is Some,
        field_index(fields, edges[i].1->succs[j]) is Some,
    ensures
        type_checks(fields, edges).contains((edges[i].0, edges[i].1->succs[j])),
    decreases edges.len(),
{
    let rest = edges.drop_last();
    if i < edges.len() - 1 {
        assert(rest[i] == edges[i]);
        lemma_type_checks_cover_successors(fields, rest, i, j);
        let k = choose|k: int| 0 <= k < type_checks(fields, rest).len() && type_checks(fields, rest)[k] == (edges[i].0, edges[i].1->succs[j]);
        assert(type_checks(fields, edges)[k] == type_checks(fields, rest)[k]);
    } else {
        let src = edges[i].0;
        let succs = edges[i].1->succs;
        lemma_succ_pairs_are_field_successors(fields, src, succs);
        succs.lemma_filter_contains(names_a_field(fields), j);
        let f = succs.filter(names_a_field(fields));
        let m = choose|m: int| 0 <= m < f.len() && f[m] == succs[j];
        let pairs = succ_pairs(fields, src, succs);
        assert(pairs[m] == (src, succs[j]));
        assert(type_checks(fields, edges)[type_checks(fields, rest).len() + m] == pairs[m]);
    }
}

/// One DOT line per node field.
pub open spec fn dot_node_lines(fields: Seq<(Seq<char>, Seq<TokenView>, Option<Seq<char>>)>, pol: Seq<Seq<char>>) -> Seq<char>
    decreases fields.len(),
{
    if fields.len() == 0 {
        Seq::empty()
    } else {
        dot_node_lines(fields.drop_last(), pol) + if pol.contains(fields.last().0) {
            Seq::empty()
        } else {
            "  "@ + camel(fields.last().0) + ";\n"@
        }
    }
}

/// One DOT line from `src` to each of `succs`, each ended by `suffix`.
pub open spec fn dot_succ_lines(src: Seq<char>, succs: Seq<Seq<char>>, suffix: Seq<char>) -> Seq<char>
    decreases succs.len(),
{
    if succs.len() == 0 {
        Seq::empty()
    } else {
        dot_succ_lines(src, succs.drop_last(), suffix) + "  "@ + camel(src) + " -> "@ + camel(
            succs.last(),
        ) + suffix
    }
}

/// The suffix of a fallback line.
pub open spec fn fallback_suffix() -> Seq<char> {
    " [style=\"dotted\" color=\"red\" label=\"fallback\"];\n"@
}

/// The suffix of a line for a composite arm with variant `v`.
pub open spec fn arm_suffix(v: Seq<char>) -> Seq<char> {
    " [label=\""@ + v + "\"];\n"@
}

/// The DOT lines of a composite edge's arms.
pub open spec fn dot_arm_lines(src: Seq<char>, arms: Seq<ArmView>) -> Seq<char>
    decreases arms.len(),
{
    if arms.len() == 0 {
        Seq::empty()
    } else {
        dot_arm_lines(src, arms.drop_last()) + dot_succ_lines(
            src,
            arms.last().succs,
            arm_suffix(arms.last().variant),
        )
    }
}

/// The lines for the first `m` arms start the lines for all arms.
proof fn lemma_arm_lines_prefix(src: Seq<char>, arms: Seq<ArmView>, m: int)
    requires
        0 <= m <= arms.len(),
    ensures
        dot_arm_lines(src, arms.take(m)).is_prefix_of(dot_arm_lines(src, arms)),
    decreases arms.len(),
{
    if m == arms.len() {
        assert(arms.take(m) =~= arms);
    } else {
        let rest = arms.drop_last();
        assert(rest.take(m) =~= arms.take(m));
        lemma_arm_lines_prefix(src, rest, m);
    }
}

/// A composite edge's DOT lines run arm after arm: after the lines of the
/// arms before it, arm `k` gives an arrow to each of its successors
/// labelled with its own variant.
pub proof fn lemma_arm_lines_labelled(src: Seq<char>, arms: Seq<ArmView>, k: int)
    requires
        0 <= k < arms.len(),
    ensures
        dot_arm_lines(src, arms.take(k + 1)) == dot_arm_lines(src, arms.take(k))
            + dot_succ_lines(src, arms[k].succs, " [label=\""@ + arms[k].variant + "\"];\n"@),
        dot_arm_lines(src, arms.take(k + 1)).is_prefix_of(dot_arm_lines(src, arms)),
{
    assert(arms.take(k + 1).drop_last() =~= arms.take(k));
    assert(arms.take(k + 1).last() == arms[k]);
    lemma_arm_lines_prefix(src, arms, k + 1);
}

/// The arrow lines from `src` run successor after successor: after the
/// lines for the successors before it, successor `j` gets the line
/// `  Src -> Succ` ended by `suffix`.
pub proof fn lemma_succ_lines_each(src: Seq<char>, succs: Seq<Seq<char>>, suffix: Seq<char>, j: int)
    requires
        0 <= j < succs.len(),
    ensures
        dot_succ_lines(src, succs.take(j + 1), suffix) == dot_succ_lines(src, succs.take(j), suffix)
            + "  "@ + camel(src) + " -> "@ + camel(succs[j]) + suffix,
        dot_succ_lines(src, succs.take(j + 1), suffix).is_prefix_of(dot_succ_lines(src, succs, suffix)),
{
    assert(succs.take(j + 1).drop_last() =~= succs.take(j));
    lemma_succ_lines_prefix(src, succs, suffix, j + 1);
}

/// The lines for the first `m` successors start the lines for all.
proof fn lemma_succ_lines_prefix(src: Seq<char>, succs: Seq<Seq<char>>, suffix: Seq<char>, m: int)
    requires
        0 <= m <= succs.len(),
    ensures
        dot_succ_lines(src, succs.take(m), suffix).is_prefix_of(dot_succ_lines(src, succs, suffix)),
    decreases succs.len(),
{
    if m == succs.len() {
        assert(succs.take(m) =~= succs);
    } else {
        let rest = succs.drop_last();
        assert(rest.take(m) =~= succs.take(m));
        lemma_succ_lines_prefix(src, rest, suffix, m);
    }
}

/// The DOT lines of one edge.
pub open spec fn dot_edge(src: Seq<char>, kind: EdgeKindView) -> Seq<char> {
    match kind {
        EdgeKindView::Direct { succs, on_failure } => dot_succ_lines(src, succs, ";\n"@) + match on_failure {
            Some(f) => dot_succ_lines(src, f, fallback_suffix()),
            None => Seq::empty(),
        },
        EdgeKindView::Composite(arms) => dot_arm_lines(src, arms),
    }
}

/// The DOT lines of all edges.
pub open spec fn dot_edge_lines(edges: Seq<(Seq<char>, EdgeKindView)>) -> Seq<char>
    decreases edges.len(),
{
    if edges.len() == 0 {
        Seq::empty()
    } else {
        dot_edge_lines(edges.drop_last()) + dot_edge(edges.last().0, edges.last().1)
    }
}

/// The header of the DOT text of workflow `name`.
pub open spec fn dot_header(name: Seq<char>) -> Seq<char> {
    "digraph "@ + name + " {\n"@ + "  rankdir=LR;\n"@
        + "  node [shape=box style=filled fontname=\"Helvetica\" color=lightgray];\n"@
        + "  edge [fontname=\"Helvetica\" arrowhead=vee];\n"@
}

/// The workflow's graph in DOT form: a node per node field, an arrow per
/// successor, dotted red arrows to fallbacks, arrows labelled by variant
/// for composite arms.
pub open spec fn dot_text(d: DefView) -> Seq<char> {
    dot_header(d.name) + dot_node_lines(d.fields, policies(d.fields)) + dot_edge_lines(d.edges)
        + "}\n"@
}

fn is_terminal_exec(k: &EdgeKind) -> (b: bool)
    ensures
        b == is_terminal_kind(k@),
{
    match k {
        EdgeKind::Direct { succs, on_failure } => succs.len() == 0 && on_failure.is_none(),
        EdgeKind::Composite(arms) => arms.len() == 0,
    }
}

/// The position of the first edge that ends the workflow.
pub fn terminal_source(def: &WorkflowDef) -> (r: Option<usize>)
    ensures
        match r {
            Some(i) => first_terminal(def@.edges) == Some(i as int),
            None => first_terminal(def@.edges) is None,
        },
{
    let ghost ev = def@.edges;
    let mut i: usize = 0;
    while i < def.edges.len()
        invariant
            ev == edges_view(def.edges@),
            i <= def.edges@.len(),
            first_where(ev.take(i as int), terminal_edge()) is None,
        decreases def.edges@.len() - i,
    {
        proof {
            assert(ev.take(i + 1).drop_last() =~= ev.take(i as int));
            assert(ev[i as int] == (def.edges@[i as int].0@, def.edges@[i as int].1@));
        }
        if is_terminal_exec(&def.edges[i].1) {
            proof {
                lemma_first_where_prefix(ev, terminal_edge(), i + 1);
            }
            return Some(i);
        }
        i += 1;
    }
    proof {
        assert(ev.take(ev.len() as int) =~= ev);
    }
    None
}

/// The position of the first field named `name`.
pub fn field_position(def: &WorkflowDef, name: &String) -> (r: Option<usize>)
    ensures
        match r {
            Some(i) => field_index(def@.fields, name@) == Some(i as int),
            None => field_index(def@.fields, name@) is None,
        },
{
    let ghost fv = def@.fields;
    let mut i: usize = 0;
    while i < def.fields.len()
        invariant
            fv == fields_view(def.fields@),
            i <= def.fields@.len(),
            first_where(fv.take(i as int), field_named(name@)) is None,
        decreases def.fields@.len() - i,
    {
        proof {
            assert(fv.take(i + 1).drop_last() =~= fv.take(i as int));
            assert(fv[i as int] == field_view(def.fields@[i as int]));
        }
        if def.fields[i].0 == *name {
            proof {
                lemma_first_where_prefix(fv, field_named(name@), i + 1);
            }
            return Some(i);
        }
        i += 1;
    }
    proof {
        assert(fv.take(fv.len() as int) =~= fv);
    }
    None
}

/// The position of the first edge from `name`.
pub fn edge_position(def: &WorkflowDef, name: &String) -> (r: Option<usize>)
    ensures
        match r {
            Some(i) => edge_index(def@.edges, name@) == Some(i as int),
            None => edge_index(def@.edges, name@) is None,
        },
{
    let ghost ev = def@.edges;
    let mut i: usize = 0;
    while i < def.edges.len()
        invariant
            ev == edges_view(def.edges@),
            i <= def.edges@.len(),
            first_where(ev.take(i as int), edge_from(name@)) is None,
        decreases def.edges@.len() - i,
    {
        proof {
            assert(ev.take(i + 1).drop_last() =~= ev.take(i as int));
            assert(ev[i as int] == (def.edges@[i as int].0@, def.edges@[i as int].1@));
        }
        if def.edges[i].0 == *name {
            proof {
                lemma_first_where_prefix(ev, edge_from(name@), i + 1);
            }
            return Some(i);
        }
        i += 1;
    }
    proof {
        assert(ev.take(ev.len() as int) =~= ev);
    }
    None
}

/// The retry policy fields that fields name, in field order.
pub fn retry_policies(def: &WorkflowDef) -> (r: Vec<String>)
    ensures
        string_views(r@) == policies(def@.fields),
{
    let ghost fv = def@.fields;
    let mut out: Vec<String> = Vec::new();
    let mut i: usize = 0;
    proof {
        assert(string_views(out@) =~= policies(fv.take(0)));
    }
    while i < def.fields.len()
        invariant
            fv == fields_view(def.fields@),
            i <= def.fields@.len(),
            string_views(out@) == policies(fv.take(i as int)),
        decreases def.fields@.len() - i,
    {
        proof {
            assert(fv.take(i + 1).drop_last() =~= fv.take(i as int));
            assert(fv[i as int] == field_view(def.fields@[i as int]));
        }
        let ghost before = string_views(out@);
        match &def.fields[i].2 {
            Some(p) => {
                out.push(p.clone());
                proof {
                    assert(string_views(out@) =~= before + seq![p@]);
                }
            },
            None => {
                proof {
                    assert(before + Seq::<Seq<char>>::empty() =~= before);
                }
            },
        }
        i += 1;
    }
    proof {
        assert(fv.take(fv.len() as int) =~= fv);
    }
    out
}

/// Whether `name` is among `names`.
pub fn contains_name(names: &Vec<String>, name: &String) -> (b: bool)
    ensures
        b == string_views(names@).contains(name@),
{
    let ghost nv = string_views(names@);
    let mut i: usize = 0;
    while i < names.len()
        invariant
            nv == string_views(names@),
            i <= names@.len(),
            forall|j: int| 0 <= j < i ==> nv[j] != name@,
        decreases names@.len() - i,
    {
        if names[i] == *name {
            proof {
                assert(nv[i as int] == name@);
            }
            return true;
        }
        i += 1;
    }
    false
}

/// The positions of the node fields: those that no field names as its
/// retry policy.
pub fn node_field_positions(def: &WorkflowDef) -> (r: Vec<usize>)
    ensures
        r@.map_values(|i: usize| i as int) == node_positions(
            def@.fields,
            policies(def@.fields),
            def@.fields.len() as int,
        ),
{
    let ghost fv = def@.fields;
    let pol = retry_policies(def);
    let mut out: Vec<usize> = Vec::new();
    let mut i: usize = 0;
    proof {
        assert(out@.map_values(|i: usize| i as int) =~= Seq::<int>::empty());
    }
    while i < def.fields.len()
        invariant
            fv == fields_view(def.fields@),
            string_views(pol@) == policies(fv),
            i <= def.fields@.len(),
            out@.map_values(|i: usize| i as int) == node_positions(fv, policies(fv), i as int),
        decreases def.fields@.len() - i,
    {
        proof {
            assert(fv[i as int] == field_view(def.fields@[i as int]));
        }
        let ghost before = out@.map_values(|i: usize| i as int);
        if contains_name(&pol, &def.fields[i].0) {
            proof {
                assert(before + Seq::<int>::empty() =~= before);
            }
        } else {
            out.push(i);
            proof {
                assert(out@.map_values(|i: usize| i as int) =~= before + seq![i as int]);
            }
        }
        i += 1;
    }
    out
}

/// The work-item variants of the terminal edges' sources.
pub fn terminal_variant_names(def: &WorkflowDef) -> (r: Vec<String>)
    ensures
        string_views(r@) == terminal_variants(def@.edges),
{
    let ghost ev = def@.edges;
    let mut out: Vec<String> = Vec::new();
    let mut i: usize = 0;
    proof {
        assert(string_views(out@) =~= terminal_variants(ev.take(0)));
    }
    while i < def.edges.len()
        invariant
            ev == edges_view(def.edges@),
            i <= def.edges@.len(),
            string_views(out@) == terminal_variants(ev.take(i as int)),
        decreases def.edges@.len() - i,
    {
        proof {
            assert(ev.take(i + 1).drop_last() =~= ev.take(i as int));
            assert(ev[i as int] == (def.edges@[i as int].0@, def.edges@[i as int].1@));
        }
        let ghost before = string_views(out@);
        if is_terminal_exec(&def.edges[i].1) {
            let v = to_camel_case(&def.edges[i].0);
            out.push(v);
            proof {
                assert(string_views(out@) =~= before + seq![v@]);
            }
        } else {
            proof {
                assert(before + Seq::<Seq<char>>::empty() =~= before);
            }
        }
        i += 1;
    }
    proof {
        assert(ev.take(ev.len() as int) =~= ev);
    }
    out
}

/// The text of each pair of names.
pub open spec fn pairs_view(v: Seq<(String, String)>) -> Seq<(Seq<char>, Seq<char>)> {
    v.map_values(|p: (String, String)| (p.0@, p.1@))
}

/// Adds the pairs of `src` with each of `succs` that are both fields.
fn push_succ_pairs(def: &WorkflowDef, src: &String, succs: &Vec<String>, out: &mut Vec<(String, String)>)
    ensures
        pairs_view(final(out)@) == pairs_view(old(out)@) + succ_pairs(
            def@.fields,
            src@,
            string_views(succs@),
        ),
{
    let ghost sv = string_views(succs@);
    let ghost start = pairs_view(out@);
    let mut i: usize = 0;
    proof {
        assert(start + succ_pairs(def@.fields, src@, sv.take(0)) =~= start);
    }
    while i < succs.len()
        invariant
            sv == string_views(succs@),
            i <= succs@.len(),
            pairs_view(out@) == start + succ_pairs(def@.fields, src@, sv.take(i as int)),
        decreases succs@.len() - i,
    {
        proof {
            assert(sv.take(i + 1).drop_last() =~= sv.take(i as int));
            assert(sv.take(i + 1).last() == succs@[i as int]@);
        }
        let ghost before = pairs_view(out@);
        let s_in = field_position(def, src).is_some();
        let t_in = field_position(def, &succs[i]).is_some();
        if s_in && t_in {
            out.push((src.clone(), succs[i].clone()));
            proof {
                assert(pairs_view(out@) =~= before.push((src@, succs@[i as int]@)));
                assert(start + succ_pairs(def@.fields, src@, sv.take(i + 1)) =~= start
                    + succ_pairs(def@.fields, src@, sv.take(i as int)) + seq![(src@, succs@[i as int]@)]);
            }
        } else {
            proof {
                assert(start + succ_pairs(def@.fields, src@, sv.take(i + 1)) =~= start
                    + succ_pairs(def@.fields, src@, sv.take(i as int)));
            }
        }
        i += 1;
    }
    proof {
        assert(sv.take(sv.len() as int) =~= sv);
    }
}

/// The (source, successor) pairs of direct edges whose types must agree.
pub fn type_check_pairs(def: &WorkflowDef) -> (r: Vec<(String, String)>)
    ensures
        pairs_view(r@) == type_checks(def@.fields, def@.edges),
{
    let ghost ev = def@.edges;
    let mut out: Vec<(String, String)> = Vec::new();
    let mut i: usize = 0;
    proof {
        assert(pairs_view(out@) =~= type_checks(def@.fields, ev.take(0)));
    }
    while i < def.edges.len()
        invariant
            ev == edges_view(def.edges@),
            i <= def.edges@.len(),
            pairs_view(out@) == type_checks(def@.fields, ev.take(i as int)),
        decreases def.edges@.len() - i,
    {
        proof {
            assert(ev.take(i + 1).drop_last() =~= ev.take(i as int));
            assert(ev[i as int] == (def.edges@[i as int].0@, def.edges@[i as int].1@));
        }
        let ghost before = pairs_view(out@);
        match &def.edges[i].1 {
            EdgeKind::Direct { succs, .. } => {
                push_succ_pairs(def, &def.edges[i].0, succs, &mut out);
            },
            EdgeKind::Composite(_) => {
                proof {
                    assert(before + Seq::<(Seq<char>, Seq<char>)>::empty() =~= before);
                }
            },
        }
        i += 1;
    }
    proof {
        assert(ev.take(ev.len() as int) =~= ev);
    }
    out
}

/// Appends a DOT line from `src` to each of `succs`, each ended by `suffix`.
fn append_succ_lines(out: &mut String, src: &String, succs: &Vec<String>, suffix: &str)
    ensures
        final(out)@ == old(out)@ + dot_succ_lines(src@, string_views(succs@), suffix@),
{
    let from = to_camel_case(src);
    let ghost sv = string_views(succs@);
    let ghost start = out@;
    let mut i: usize = 0;
    proof {
        assert(start + dot_succ_lines(src@, sv.take(0), suffix@) =~= start);
    }
    while i < succs.len()
        invariant
            sv == string_views(succs@),
            from@ == camel(src@),
            i <= succs@.len(),
            out@ == start + dot_succ_lines(src@, sv.take(i as int), suffix@),
        decreases succs@.len() - i,
    {
        proof {
            assert(sv.take(i + 1).drop_last() =~= sv.take(i as int));
            assert(sv.take(i + 1).last() == succs@[i as int]@);
        }
        let to = to_camel_case(&succs[i]);
        out.append("  ");
        out.append(from.as_str());
        out.append(" -> ");
        out.append(to.as_str());
        out.append(suffix);
        proof {
            assert(out@ =~= start + dot_succ_lines(src@, sv.take(i + 1), suffix@));
        }
        i += 1;
    }
    proof {
        assert(sv.take(sv.len() as int) =~= sv);
    }
}

/// Appends the DOT lines of a composite edge's arms.
fn append_arm_lines(out: &mut String, src: &String, arms: &Vec<CompositeArm>)
    ensures
        final(out)@ == old(out)@ + dot_arm_lines(src@, arms_view(arms@)),
{
    let ghost av = arms_view(arms@);
    let ghost start = out@;
    let mut i: usize = 0;
    proof {
        assert(start + dot_arm_lines(src@, av.take(0)) =~= start);
    }
    while i < arms.len()
        invariant
            av == arms_view(arms@),
            i <= arms@.len(),
            out@ == start + dot_arm_lines(src@, av.take(i as int)),
        decreases arms@.len() - i,
    {
        proof {
            assert(av.take(i + 1).drop_last() =~= av.take(i as int));
            assert(av.take(i + 1).last() == arms@[i as int]@);
        }
        let arm = &arms[i];
        let mut suffix = String::new();
        suffix.append(" [label=\"");
        suffix.append(arm.variant.as_str());
        suffix.append("\"];\n");
        proof {
            assert(suffix@ =~= arm_suffix(arm.variant@));
        }
        let ghost mid = out@;
        append_succ_lines(out, src, &arm.succs, suffix.as_str());
        proof {
            assert(out@ =~= start + dot_arm_lines(src@, av.take(i + 1)));
        }
        i += 1;
    }
    proof {
        assert(av.take(av.len() as int) =~= av);
    }
}

/// The workflow's graph in DOT form.
pub fn to_dot(def: &WorkflowDef) -> (r: String)
    ensures
        r@ == dot_text(def@),
{
    let ghost fv = def@.fields;
    let ghost ev = def@.edges;
    let mut out = String::new();
    out.append("digraph ");
    out.append(def.name.as_str());
    out.append(" {\n");
    out.append("  rankdir=LR;\n");
    out.append("  node [shape=box style=filled fontname=\"Helvetica\" color=lightgray];\n");
    out.append("  edge [fontname=\"Helvetica\" arrowhead=vee];\n");
    proof {
        assert(out@ =~= dot_header(def.name@));
    }
    let ghost header = out@;
    let pol = retry_policies(def);
    let mut i: usize = 0;
    proof {
        assert(header + dot_node_lines(fv.take(0), policies(fv)) =~= header);
    }
    while i < def.fields.len()
        invariant
            fv == fields_view(def.fields@),
            string_views(pol@) == policies(fv),
            i <= def.fields@.len(),
            out@ == header + dot_node_lines(fv.take(i as int), policies(fv)),
        decreases def.fields@.len() - i,
    {
        proof {
            assert(fv.take(i + 1).drop_last() =~= fv.take(i as int));
            assert(fv.take(i + 1).last() == field_view(def.fields@[i as int]));
        }
        let name = &def.fields[i].0;
        if contains_name(&pol, name) {
            proof {
                assert(out@ =~= header + dot_node_lines(fv.take(i + 1), policies(fv)));
            }
        } else {
            let v = to_camel_case(name);
            out.append("  ");
            out.append(v.as_str());
            out.append(";\n");
            proof {
                assert(out@ =~= header + dot_node_lines(fv.take(i + 1), policies(fv)));
            }
        }
        i += 1;
    }
    proof {
        assert(fv.take(fv.len() as int) =~= fv);
    }
    let ghost nodes = out@;
    let mut i: usize = 0;
    proof {
        assert(nodes + dot_edge_lines(ev.take(0)) =~= nodes);
    }
    while i < def.edges.len()
        invariant
            ev == edges_view(def.edges@),
            i <= def.edges@.len(),
            out@ == nodes + dot_edge_lines(ev.take(i as int)),
        decreases def.edges@.len() - i,
    {
        proof {
            assert(ev.take(i + 1).drop_last() =~= ev.take(i as int));
            assert(ev.take(i + 1).last() == (def.edges@[i as int].0@, def.edges@[i as int].1@));
        }
        let src = &def.edges[i].0;
        let ghost before = out@;
        match &def.edges[i].1 {
            EdgeKind::Direct { succs, on_failure } => {
                append_succ_lines(&mut out, src, succs, ";\n");
                match on_failure {
                    Some(f) => {
                        append_succ_lines(
                            &mut out,
                            src,
                            f,
                            " [style=\"dotted\" color=\"red\" label=\"fallback\"];\n",
                        );
                    },
                    None => {},
                }
            },
            EdgeKind::Composite(arms) => {
                append_arm_lines(&mut out, src, arms);
            },
        }
        proof {
            assert(out@ =~= before + dot_edge(src@, def.edges@[i as int].1@));
            assert(out@ =~= nodes + dot_edge_lines(ev.take(i + 1)));
        }
        i += 1;
    }
    proof {
        assert(ev.take(ev.len() as int) =~= ev);
    }
    out.append("}\n");
    out
}

/// Why a workflow cannot be built from its definition.
#[derive(Debug, Clone, Copy, PartialEq, Eq, Structural)]
pub enum PlanError {
    /// No edge ends the workflow.
    NoTerminal,
    /// The first terminal edge's source is not a field.
    TerminalFieldMissing,
    /// The node field at this position has no edges.
    MissingEdges(usize),
    /// The start node is not a field.
    StartFieldMissing,
}

impl PlanError {
    /// The text of the sentence describing the error.
    pub open spec fn spec_message(&self) -> Seq<char> {
        match self {
            PlanError::NoTerminal => "Workflow must have a terminal branch"@,
            PlanError::TerminalFieldMissing => "Terminal field not found among fields"@,
            PlanError::MissingEdges(_) => "No edges defined for field"@,
            PlanError::StartFieldMissing => "start field not found"@,
        }
    }

    /// A sentence describing the error.
    pub fn message(&self) -> (r: String)
        ensures
            r@ == self.spec_message(),
    {
        match self {
            PlanError::NoTerminal => "Workflow must have a terminal branch".to_owned(),
            PlanError::TerminalFieldMissing => "Terminal field not found among fields".to_owned(),
            PlanError::MissingEdges(_) => "No edges defined for field".to_owned(),
            PlanError::StartFieldMissing => "start field not found".to_owned(),
        }
    }
}

/// A node field of the workflow: its position among the fields, its
/// work-item variant, and the position of its edges.
#[derive(Debug, Clone)]
pub struct NodePlan {
    pub field: usize,
    pub variant: String,
    pub edge: usize,
}

/// What a workflow is built from.
#[derive(Debug, Clone)]
pub struct WorkflowPlan {
    /// The name of the work-item type: the workflow's name and `WorkItem`.
    pub work_item: String,
    /// The node fields, in field order.
    pub nodes: Vec<NodePlan>,
    /// The position of the field whose node ends the workflow.
    pub terminal: usize,
    /// The variants whose items end the workflow.
    pub terminal_variants: Vec<String>,
    /// The position of the start field.
    pub start: usize,
    /// The variant of the first work item.
    pub start_variant: String,
    /// The (source, successor) pairs whose types must agree.
    pub type_checks: Vec<(String, String)>,
    /// The graph in DOT form.
    pub dot: String,
}

/// The positions of the node fields of a definition.
pub open spec fn node_list(d: DefView) -> Seq<int> {
    node_positions(d.fields, policies(d.fields), d.fields.len() as int)
}

/// Holds of the positions of fields that have no edges.
pub open spec fn unrouted(d: DefView) -> spec_fn(int) -> bool {
    |p: int| edge_index(d.edges, d.fields[p].0) is None
}

/// What keeps a definition from being built, checked in this order: a
/// terminal edge, a field for it, edges for every node field, a field for
/// the start node.
pub open spec fn plan_error(d: DefView) -> Option<PlanError> {
    match first_terminal(d.edges) {
        None => Some(PlanError::NoTerminal),
        Some(t) => if field_index(d.fields, d.edges[t].0) is None {
            Some(PlanError::TerminalFieldMissing)
        } else {
            match first_where(node_list(d), unrouted(d)) {
                Some(k) => Some(PlanError::MissingEdges(node_list(d)[k] as usize)),
                None => if field_index(d.fields, d.start) is None {
                    Some(PlanError::StartFieldMissing)
                } else {
                    None
                },
            }
        },
    }
}

/// Node positions are positions of fields, in increasing order.
pub proof fn lemma_node_positions(fields: Seq<(Seq<char>, Seq<TokenView>, Option<Seq<char>>)>, pol: Seq<Seq<char>>, n: int)
    requires
        0 <= n <= fields.len(),
    ensures
        forall|k: int|
            0 <= k < node_positions(fields, pol, n).len() ==> 0 <= #[trigger] node_positions(
                fields,
                pol,
                n,
            )[k] < n,
    decreases n,
{
    if n > 0 {
        lemma_node_positions(fields, pol, n - 1);
        let prev = node_positions(fields, pol, n - 1);
        let cur = node_positions(fields, pol, n);
        assert forall|k: int| 0 <= k < cur.len() implies 0 <= #[trigger] cur[k] < n by {
            if k < prev.len() {
                assert(cur[k] == prev[k]);
            }
        }
    }
}

/// Builds the plan of a workflow from its definition: the work-item type
/// and its variants, the terminal and start nodes, the type checks, the
/// graph.
pub fn plan(def: &WorkflowDef) -> (r: Result<WorkflowPlan, PlanError>)
    ensures
        match r {
            Ok(p) => {
                &&& plan_error(def@) is None
                &&& p.work_item@ == def@.name + "WorkItem"@
                &&& p.nodes@.len() == node_list(def@).len()
                &&& forall|k: int|
                    0 <= k < p.nodes@.len() ==> {
                        &&& (#[trigger] p.nodes@[k]).field == node_list(def@)[k]
                        &&& p.nodes@[k].variant@ == camel(def@.fields[node_list(def@)[k]].0)
                        &&& edge_index(def@.edges, def@.fields[node_list(def@)[k]].0) == Some(
                            p.nodes@[k].edge as int,
                        )
                    }
                &&& first_terminal(def@.edges) matches Some(t) && field_index(
                    def@.fields,
                    def@.edges[t].0,
                ) == Some(p.terminal as int)
                &&& string_views(p.terminal_variants@) == terminal_variants(def@.edges)
                &&& field_index(def@.fields, def@.start) == Some(p.start as int)
                &&& p.start_variant@ == camel(def@.start)
                &&& pairs_view(p.type_checks@) == type_checks(def@.fields, def@.edges)
                &&& p.dot@ == dot_text(def@)
            },
            Err(e) => plan_error(def@) == Some(e),
        },
{
    let ghost d = def@;
    let t = match terminal_source(def) {
        None => return Err(PlanError::NoTerminal),
        Some(t) => t,
    };
    proof {
        lemma_first_where(d.edges, terminal_edge());
        assert(d.edges[t as int].0 == def.edges@[t as int].0@);
    }
    let terminal = match field_position(def, &def.edges[t].0) {
        None => return Err(PlanError::TerminalFieldMissing),
        Some(f) => f,
    };
    let terminal_variants = terminal_variant_names(def);
    let positions = node_field_positions(def);
    let ghost pv = positions@.map_values(|i: usize| i as int);
    proof {
        lemma_node_positions(d.fields, policies(d.fields), d.fields.len() as int);
        assert(pv == node_list(d));
    }
    let mut nodes: Vec<NodePlan> = Vec::new();
    let mut k: usize = 0;
    while k < positions.len()
        invariant
            d == def@,
            first_terminal(d.edges) == Some(t as int),
            field_index(d.fields, d.edges[t as int].0) is Some,
            pv == positions@.map_values(|i: usize| i as int),
            pv == node_list(d),
            forall|j: int| 0 <= j < pv.len() ==> 0 <= #[trigger] pv[j] < d.fields.len(),
            k <= positions@.len(),
            nodes@.len() == k,
            first_where(pv.take(k as int), unrouted(d)) is None,
            forall|j: int|
                0 <= j < k ==> {
                    &&& (#[trigger] nodes@[j]).field == pv[j]
                    &&& nodes@[j].variant@ == camel(d.fields[pv[j]].0)
                    &&& edge_index(d.edges, d.fields[pv[j]].0) == Some(nodes@[j].edge as int)
                },
        decreases positions@.len() - k,
    {
        let f = positions[k];
        proof {
            assert(pv[k as int] == f as int);
            assert(pv.take(k + 1).drop_last() =~= pv.take(k as int));
            assert(pv.take(k + 1).last() == f as int);
            assert(d.fields[f as int] == field_view(def.fields@[f as int]));
        }
        let name = &def.fields[f].0;
        match edge_position(def, name) {
            None => {
                proof {
                    assert(unrouted(d)(f as int));
                    assert(first_where(pv.take(k + 1), unrouted(d)) == Some(k as int));
                    lemma_first_where_prefix(pv, unrouted(d), k + 1);
                }
                return Err(PlanError::MissingEdges(f));
            },
            Some(e) => {
                let v = to_camel_case(name);
                nodes.push(NodePlan { field: f, variant: v, edge: e });
            },
        }
        k += 1;
    }
    proof {
        assert(pv.take(pv.len() as int) =~= pv);
    }
    let start = match field_position(def, &def.start) {
        None => return Err(PlanError::StartFieldMissing),
        Some(s) => s,
    };
    let start_variant = to_camel_case(&def.start);
    let type_checks = type_check_pairs(def);
    let dot = to_dot(def);
    let mut work_item = def.name.clone();
    work_item.append("WorkItem");
    Ok(
        WorkflowPlan {
            work_item,
            nodes,
            terminal,
            terminal_variants,
            start,
            start_variant,
            type_checks,
            dot,
        },
    )
}

} // verus!
