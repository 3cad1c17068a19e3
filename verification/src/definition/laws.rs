//! What every parsed workflow definition satisfies: each name in it (the
//! workflow's, its fields', its retry policies', its start node's, and
//! every source, successor, fallback, action path, variant and binding in
//! its edges) is an identifier; and its edges are the grouping of the
//! entries written in its edges block.
use vstd::prelude::*;
use crate::definition::token::{DefError, TokenView, tokenize_spec};
use crate::definition::ast::{ArmView, DefView, EdgeKindView, EntryView, NodeDefView};
use crate::definition::edges::{
    arms_of, entry_key, grouped, kind_of, last_index, lemma_last_index, names_of, success_part,
    failure_part, composite_part,
};
use crate::definition::grammar::{
    is_ident, ident_list, bracket_list, retry_attr, field_at, fields, arm_binding, arm_guard, arm_at,
    arms, entry_at, entries, item_at, items, parse_def, parse_text, prepend, Items, ident_at,
    generics, visibility, group_at, section_at, parse_node, parse_node_text, plain_fields, keyword_at,
    punct_at, kw_struct, kw_context, kw_input, kw_output,
};

verus! {

/// Every name of `ns` is an identifier.
pub open spec fn names_ok(ns: Seq<Seq<char>>) -> bool {
    forall|i: int| 0 <= i < ns.len() ==> is_ident(#[trigger] ns[i])
}

/// Every name of an arm is an identifier.
pub open spec fn arm_ok(a: ArmView) -> bool {
    &&& is_ident(a.action_path)
    &&& is_ident(a.variant)
    &&& (a.binding matches Some(b) ==> is_ident(b))
    &&& names_ok(a.succs)
}

/// Every name of every arm is an identifier.
pub open spec fn arms_ok(s: Seq<ArmView>) -> bool {
    forall|i: int| 0 <= i < s.len() ==> arm_ok(#[trigger] s[i])
}

/// Every name of an edge entry is an identifier.
pub open spec fn entry_ok(e: EntryView) -> bool {
    is_ident(entry_key(e)) && names_ok(names_of(e)) && arms_ok(arms_of(e))
}

/// Every name of every edge entry is an identifier.
pub open spec fn entries_ok(s: Seq<EntryView>) -> bool {
    forall|i: int| 0 <= i < s.len() ==> entry_ok(#[trigger] s[i])
}

/// Every name of an edge kind is an identifier.
pub open spec fn kind_ok(k: EdgeKindView) -> bool {
    match k {
        EdgeKindView::Direct { succs, on_failure } => names_ok(succs) && (on_failure matches Some(f) ==> names_ok(f)),
        EdgeKindView::Composite(a) => arms_ok(a),
    }
}

/// Every source of `es` and every name of its kind are identifiers.
pub open spec fn edges_ok(es: Seq<(Seq<char>, EdgeKindView)>) -> bool {
    forall|i: int| 0 <= i < es.len() ==> is_ident((#[trigger] es[i]).0) && kind_ok(es[i].1)
}

/// Every field name and retry policy of `fs` is an identifier.
pub open spec fn fields_ok(fs: Seq<(Seq<char>, Seq<TokenView>, Option<Seq<char>>)>) -> bool {
    forall|i: int| 0 <= i < fs.len() ==> is_ident((#[trigger] fs[i]).0) && (fs[i].2 matches Some(p) ==> is_ident(p))
}

/// Every name of a workflow definition is an identifier.
pub open spec fn def_names_ok(d: DefView) -> bool {
    &&& is_ident(d.name)
    &&& is_ident(d.start)
    &&& fields_ok(d.fields)
    &&& edges_ok(d.edges)
}

proof fn lemma_ident_list(toks: Seq<TokenView>, i: int, end: int)
    ensures
        ident_list(toks, i, end) matches Ok(ns) ==> names_ok(ns),
    decreases end - i,
{
    if i < end {
        if let Some(w) = ident_at(toks, i, end) {
            if i + 1 < end {
                lemma_ident_list(toks, i + 2, end);
                if let Ok(rest) = ident_list(toks, i + 2, end) {
                    let all = seq![w] + rest;
                    assert forall|k: int| 0 <= k < all.len() implies is_ident(#[trigger] all[k]) by {
                        if k > 0 {
                            assert(all[k] == rest[k - 1]);
                        }
                    }
                }
            }
        }
    }
}

proof fn lemma_bracket_list(toks: Seq<TokenView>, i: int, end: int)
    ensures
        bracket_list(toks, i, end) matches Ok((ns, _)) ==> names_ok(ns),
{
    if let Some(d) = group_at(toks, i, end, '[') {
        lemma_ident_list(toks, i + 1, d);
    }
}

proof fn lemma_fields(toks: Seq<TokenView>, i: int, end: int)
    ensures
        fields(toks, i, end) matches Ok(fs) ==> fields_ok(fs),
    decreases end - i,
{
    if !(i < 0 || i >= end || end > toks.len()) {
        if let Ok((f, next)) = field_at(toks, i, end) {
            crate::definition::grammar::lemma_field_at_progress(toks, i, end);
            lemma_fields(toks, next, end);
            if let Ok(rest) = fields(toks, next, end) {
                let all = seq![f] + rest;
                assert(is_ident(f.0) && (f.2 matches Some(p) ==> is_ident(p)));
                assert forall|k: int| 0 <= k < all.len() implies is_ident((#[trigger] all[k]).0) && (all[k].2 matches Some(p) ==> is_ident(p)) by {
                    if k > 0 {
                        assert(all[k] == rest[k - 1]);
                    }
                }
            }
        }
    }
}

proof fn lemma_arm_at(toks: Seq<TokenView>, i: int, end: int)
    ensures
        arm_at(toks, i, end) matches Ok((a, _)) ==> arm_ok(a),
{
    if let Ok((_, _, j)) = arm_binding(toks, i + 4, end) {
        if let Ok((_, k)) = arm_guard(toks, j, end) {
            lemma_bracket_list(toks, k + 2, end);
        }
    }
}

proof fn lemma_arms(toks: Seq<TokenView>, i: int, end: int)
    ensures
        arms(toks, i, end) matches Ok(s) ==> arms_ok(s),
    decreases end - i,
{
    if !(i < 0 || i >= end || end > toks.len()) {
        if let Ok((a, next)) = arm_at(toks, i, end) {
            crate::definition::grammar::lemma_arm_at_progress(toks, i, end);
            lemma_arm_at(toks, i, end);
            lemma_arms(toks, next, end);
            if let Ok(rest) = arms(toks, next, end) {
                let all = seq![a] + rest;
                assert forall|k: int| 0 <= k < all.len() implies arm_ok(#[trigger] all[k]) by {
                    if k > 0 {
                        assert(all[k] == rest[k - 1]);
                    }
                }
            }
        }
    }
}

proof fn lemma_entry_at(toks: Seq<TokenView>, i: int, end: int)
    ensures
        entry_at(toks, i, end) matches Ok((e, _)) ==> entry_ok(e),
{
    lemma_bracket_list(toks, i + 3, end);
    if let Some(b) = group_at(toks, i + 4, end, '{') {
        lemma_bracket_list(toks, i + 5, b);
    }
    if let Some(b) = group_at(toks, i + 3, end, '{') {
        lemma_bracket_list(toks, i + 4, b);
        lemma_arms(toks, i + 4, b);
    }
    if let Ok((e, _)) = entry_at(toks, i, end) {
        assert(arms_ok(Seq::<ArmView>::empty()));
        assert(names_ok(Seq::<Seq<char>>::empty()));
    }
}

proof fn lemma_entries(toks: Seq<TokenView>, i: int, end: int)
    ensures
        entries(toks, i, end) matches Ok(s) ==> entries_ok(s),
    decreases end - i,
{
    if !(i < 0 || i >= end || end > toks.len()) {
        if let Ok((e, next)) = entry_at(toks, i, end) {
            crate::definition::grammar::lemma_entry_at_progress(toks, i, end);
            lemma_entry_at(toks, i, end);
            lemma_entries(toks, next, end);
            if let Ok(rest) = entries(toks, next, end) {
                let all = seq![e] + rest;
                assert forall|k: int| 0 <= k < all.len() implies entry_ok(#[trigger] all[k]) by {
                    if k > 0 {
                        assert(all[k] == rest[k - 1]);
                    }
                }
            }
        }
    }
}

proof fn lemma_last_ok(es: Seq<EntryView>, kind: int, k: Seq<char>)
    requires
        entries_ok(es),
    ensures
        last_index(es, kind, k) matches Some(j) ==> 0 <= j < es.len() && entry_ok(es[j]),
{
    crate::definition::edges::lemma_last_index_found(es, kind, k);
}

proof fn lemma_success_part(es: Seq<EntryView>, n: int)
    requires
        entries_ok(es),
    ensures
        edges_ok(success_part(es, n)),
    decreases n,
{
    if !(n <= 0 || n > es.len()) {
        lemma_success_part(es, n - 1);
        let e = es[n - 1];
        let k = entry_key(e);
        lemma_last_ok(es, 0, k);
        lemma_last_ok(es, 1, k);
        if kind_of(e) == 0 {
            lemma_last_index(es, 0, k, n - 1);
        }
        let rest = success_part(es, n - 1);
        let all = success_part(es, n);
        assert forall|m: int| 0 <= m < all.len() implies is_ident((#[trigger] all[m]).0) && kind_ok(all[m].1) by {
            if m < rest.len() {
                assert(all[m] == rest[m]);
            }
        }
    }
}

proof fn lemma_failure_part(es: Seq<EntryView>, n: int)
    requires
        entries_ok(es),
    ensures
        edges_ok(failure_part(es, n)),
    decreases n,
{
    if !(n <= 0 || n > es.len()) {
        lemma_failure_part(es, n - 1);
        let e = es[n - 1];
        let k = entry_key(e);
        lemma_last_ok(es, 1, k);
        if kind_of(e) == 1 {
            lemma_last_index(es, 1, k, n - 1);
        }
        let rest = failure_part(es, n - 1);
        let all = failure_part(es, n);
        assert(names_ok(Seq::<Seq<char>>::empty()));
        assert forall|m: int| 0 <= m < all.len() implies is_ident((#[trigger] all[m]).0) && kind_ok(all[m].1) by {
            if m < rest.len() {
                assert(all[m] == rest[m]);
            }
        }
    }
}

proof fn lemma_composite_part(es: Seq<EntryView>, n: int)
    requires
        entries_ok(es),
    ensures
        edges_ok(composite_part(es, n)),
    decreases n,
{
    if !(n <= 0 || n > es.len()) {
        lemma_composite_part(es, n - 1);
        let e = es[n - 1];
        let k = entry_key(e);
        lemma_last_ok(es, 2, k);
        if kind_of(e) == 2 {
            lemma_last_index(es, 2, k, n - 1);
        }
        let rest = composite_part(es, n - 1);
        let all = composite_part(es, n);
        assert forall|m: int| 0 <= m < all.len() implies is_ident((#[trigger] all[m]).0) && kind_ok(all[m].1) by {
            if m < rest.len() {
                assert(all[m] == rest[m]);
            }
        }
    }
}

/// Gathering entries whose names are identifiers gives edges whose names
/// are identifiers.
pub proof fn lemma_grouped_ok(es: Seq<EntryView>)
    requires
        entries_ok(es),
    ensures
        edges_ok(grouped(es)),
{
    let n = es.len() as int;
    lemma_success_part(es, n);
    lemma_failure_part(es, n);
    lemma_composite_part(es, n);
    let s = success_part(es, n);
    let f = failure_part(es, n);
    let c = composite_part(es, n);
    let all = s + f + c;
    assert forall|m: int| 0 <= m < all.len() implies is_ident((#[trigger] all[m]).0) && kind_ok(all[m].1) by {
        if m < s.len() {
            assert(all[m] == s[m]);
        } else if m < s.len() + f.len() {
            assert(all[m] == f[m - s.len()]);
        } else {
            assert(all[m] == c[m - s.len() - f.len()]);
        }
    }
}

/// What the items read so far name is made of identifiers.
pub open spec fn items_ok(got: Items) -> bool {
    &&& (got.0 matches Some(s) ==> is_ident(s))
    &&& (got.2 matches Some(es) ==> edges_ok(es))
}

proof fn lemma_items(toks: Seq<TokenView>, i: int, got: Items)
    requires
        items_ok(got),
    ensures
        items(toks, i, got) matches Ok(g) ==> items_ok(g),
    decreases toks.len() - i,
{
    if !(i < 0 || i >= toks.len()) {
        let n = toks.len() as int;
        if let Some(c) = group_at(toks, i + 1, n, '{') {
            lemma_entries(toks, i + 2, c);
            if let Ok(es) = entries(toks, i + 2, c) {
                lemma_grouped_ok(es);
            }
        }
        if let Ok((g, next)) = item_at(toks, i, got) {
            crate::definition::grammar::lemma_item_at_progress(toks, i, got);
            lemma_items(toks, next, g);
        }
    }
}

/// Every name in a parsed workflow definition is an identifier: a word
/// that does not start with a digit and is not a keyword.
pub proof fn lemma_parsed_names_are_identifiers(cs: Seq<char>)
    ensures
        parse_text(cs) matches Ok(d) ==> def_names_ok(d),
{
    if let Ok(toks) = tokenize_spec(cs) {
        let n = toks.len() as int;
        if let Ok((vis, i)) = visibility(toks) {
            if let Ok((gen, j)) = generics(toks, i + 2, n) {
                if let Some(c) = group_at(toks, j, n, '{') {
                    lemma_fields(toks, j + 1, c);
                    lemma_items(toks, c + 1, (None, None, None));
                }
            }
        }
    }
}

/// Whether the edges gathered so far, if any, group some written entries.
pub open spec fn edges_gathered(got: Items) -> bool {
    got.2 matches Some(e) ==> exists|es: Seq<EntryView>| #[trigger] grouped(es) == e
}

proof fn lemma_items_gathered(toks: Seq<TokenView>, i: int, got: Items)
    requires
        edges_gathered(got),
    ensures
        items(toks, i, got) matches Ok(g) ==> edges_gathered(g),
    decreases toks.len() - i,
{
    if !(i < 0 || i >= toks.len()) {
        let n = toks.len() as int;
        if let Some(c) = group_at(toks, i + 1, n, '{') {
            if let Ok(es) = entries(toks, i + 2, c) {
                assert(grouped(es) == grouped(es));
            }
        }
        if let Ok((g, next)) = item_at(toks, i, got) {
            crate::definition::grammar::lemma_item_at_progress(toks, i, got);
            lemma_items_gathered(toks, next, g);
        }
    }
}

/// The edges of a parsed workflow definition are what grouping the
/// entries of its edges block gives (`grouped`): so the laws of grouping
/// (`lemma_direct_edge_grouped`, `lemma_failure_only_edge_grouped`) hold
/// of every parsed definition.
pub proof fn lemma_parsed_edges_are_grouped(cs: Seq<char>)
    ensures
        parse_text(cs) matches Ok(d) ==> exists|es: Seq<EntryView>| #[trigger] grouped(es) == d.edges,
{
    if let Ok(toks) = tokenize_spec(cs) {
        let n = toks.len() as int;
        if let Ok((vis, i)) = visibility(toks) {
            if let Ok((gen, j)) = generics(toks, i + 2, n) {
                if let Some(c) = group_at(toks, j, n, '{') {
                    lemma_items_gathered(toks, c + 1, (None, None, None));
                }
            }
        }
    }
}

/// Whether tokens `i..=j` are the section `kw = ty;`: the word `kw`, `=`,
/// the tokens of `ty`, and `;`.
pub open spec fn written_section(toks: Seq<TokenView>, i: int, j: int, kw: Seq<char>, ty: Seq<TokenView>) -> bool {
    &&& 0 <= i && i + 2 < j < toks.len()
    &&& toks[i] == TokenView::Word(kw)
    &&& toks[i + 1] matches TokenView::Punct(p, _) && p == '='
    &&& toks[j] matches TokenView::Punct(p, _) && p == ';'
    &&& ty == toks.subrange(i + 2, j)
}

/// Whether the context, input and output sections of `nd` are written in
/// that order, one right after another, at `i..=j`, `j + 1..=k` and
/// `k + 1..=l`.
pub open spec fn node_sections_at(toks: Seq<TokenView>, i: int, j: int, k: int, l: int, nd: NodeDefView) -> bool {
    &&& written_section(toks, i, j, kw_context(), nd.ctx_ty)
    &&& written_section(toks, j + 1, k, kw_input(), nd.input_ty)
    &&& written_section(toks, k + 1, l, kw_output(), nd.output_ty)
}

proof fn lemma_section_at(toks: Seq<TokenView>, i: int, kw: Seq<char>, missing: DefError)
    ensures
        section_at(toks, i, kw, missing) matches Ok((ty, next)) ==> written_section(toks, i, next - 1, kw, ty),
{
}

/// A parsed node declaration's context, input and output types are
/// exactly the tokens written between `context =`, `input =` and
/// `output =` and the `;` after each, and the three sections stand one
/// right after another in that order.
pub proof fn lemma_node_sections(cs: Seq<char>)
    ensures
        parse_node_text(cs) matches Ok(nd) ==> tokenize_spec(cs) matches Ok(toks)
            && exists|i: int, j: int, k: int, l: int| #[trigger] node_sections_at(toks, i, j, k, l, nd),
{
    if let Ok(toks) = tokenize_spec(cs) {
        let n = toks.len() as int;
        if let Ok((vis, i)) = visibility(toks) {
            if keyword_at(toks, i, n, kw_struct()) {
                if let Some(name) = ident_at(toks, i + 1, n) {
                    if let Some(c) = group_at(toks, i + 2, n, '{') {
                        if let Ok(fields) = plain_fields(toks, i + 3, c) {
                            if punct_at(toks, c + 1, n, ';') {
                                lemma_section_at(toks, c + 2, kw_context(), DefError::ExpectedContextSection);
                                if let Ok((ctx_ty, j1)) = section_at(toks, c + 2, kw_context(), DefError::ExpectedContextSection) {
                                    lemma_section_at(toks, j1, kw_input(), DefError::ExpectedInputSection);
                                    if let Ok((input_ty, j2)) = section_at(toks, j1, kw_input(), DefError::ExpectedInputSection) {
                                        lemma_section_at(toks, j2, kw_output(), DefError::ExpectedOutputSection);
                                        if let Ok((output_ty, j)) = section_at(toks, j2, kw_output(), DefError::ExpectedOutputSection) {
                                            if let Ok(nd) = parse_node(toks) {
                                                assert(nd.ctx_ty == ctx_ty && nd.input_ty == input_ty && nd.output_ty == output_ty);
                                                assert(node_sections_at(toks, c + 2, j1 - 1, j2 - 1, j - 1, nd));
                                            }
                                        }
                                    }
                                }
                            }
                        }
                    }
                }
            }
        }
    }
}

} // verus!
