//! Reading workflow definitions: each function here runs the production of
//! the same name in [`crate::definition::grammar`] and gives what it gives.
use vstd::prelude::*;
use crate::definition::token::{
    DefError, Token, TokenView, tokens_view, tokenize, tokenize_spec, chars_of, copy_run,
};
use crate::definition::ast::{
    NodeDef, NodeDefView, plain_fields_view, DefView, ArmView, CompositeArm, EdgeEntry, EdgeKind, EntryView, Visibility, VisibilityView, WorkflowDef, arms_view,
    edges_view, entries_view, fields_view, field_view, opt_name, opt_tokens,
};
use crate::definition::edges::{group_edges, grouped};
use crate::definition::grammar::{
    is_keyword, is_ident, word_at, ident_at, keyword_at, punct_at, fat_arrow_at, path_sep_at,
    close_from, group_at, is_arrow_head, type_end_from, guard_end_from, angle_close_from, prepend,
    ident_list, bracket_list, visibility, generics, retry_attr, field_at, fields, arm_binding,
    arm_guard, arm_at, arms, entry_at, entries, item_at, items, parse_def, parse_text, unit_type,
    kw_pub, kw_struct, kw_crate, kw_self, kw_super, kw_in, kw_retry, kw_start, kw_context, kw_edges,
    kw_on_failure, kw_if, kw_underscore, lemma_group_at, lemma_close_from, lemma_type_end,
    lemma_guard_end, lemma_angle_close, lemma_bracket_list, lemma_field_at_progress,
    lemma_arm_at_progress, lemma_entry_at_progress, lemma_item_at_progress, Items,
    plain_field_at, plain_fields, section_at, parse_node, parse_node_text, kw_input, kw_output,
    lemma_plain_field_at_progress,
};
use crate::keyed::string_views;

verus! {

/// Whether `cs` spells `lit`.
fn same_chars(cs: &Vec<char>, lit: &Vec<char>) -> (r: bool)
    ensures
        r == (cs@ == lit@),
{
    if cs.len() != lit.len() {
        return false;
    }
    let mut i: usize = 0;
    while i < cs.len()
        invariant
            cs@.len() == lit@.len(),
            i <= cs@.len(),
            forall|k: int| 0 <= k < i ==> cs@[k] == lit@[k],
        decreases cs@.len() - i,
    {
        if cs[i] != lit[i] {
            return false;
        }
        i += 1;
    }
    assert(cs@ =~= lit@);
    true
}

/// Whether the word `w` spells `lit`.
fn word_is(w: &String, lit: &Vec<char>) -> (r: bool)
    ensures
        r == (w@ == lit@),
{
    let cs = chars_of(w.as_str());
    same_chars(&cs, lit)
}

/// Whether `w` is a keyword.
fn is_keyword_exec(w: &String) -> (r: bool)
    ensures
        r == is_keyword(w@),
{
    let cs = chars_of(w.as_str());
    let k0 = vec!['_'];
    assert(k0@ == seq!['_']);
    if same_chars(&cs, &k0) {
        return true;
    }
    let k1 = vec!['a', 'b', 's', 't', 'r', 'a', 'c', 't'];
    assert(k1@ == seq!['a', 'b', 's', 't', 'r', 'a', 'c', 't']);
    if same_chars(&cs, &k1) {
        return true;
    }
    let k2 = vec!['a', 's'];
    assert(k2@ == seq!['a', 's']);
    if same_chars(&cs, &k2) {
        return true;
    }
    let k3 = vec!['a', 's', 'y', 'n', 'c'];
    assert(k3@ == seq!['a', 's', 'y', 'n', 'c']);
    if same_chars(&cs, &k3) {
        return true;
    }
    let k4 = vec!['a', 'w', 'a', 'i', 't'];
    assert(k4@ == seq!['a', 'w', 'a', 'i', 't']);
    if same_chars(&cs, &k4) {
        return true;
    }
    let k5 = vec!['b', 'e', 'c', 'o', 'm', 'e'];
    assert(k5@ == seq!['b', 'e', 'c', 'o', 'm', 'e']);
    if same_chars(&cs, &k5) {
        return true;
    }
    let k6 = vec!['b', 'o', 'x'];
    assert(k6@ == seq!['b', 'o', 'x']);
    if same_chars(&cs, &k6) {
        return true;
    }
    let k7 = vec!['b', 'r', 'e', 'a', 'k'];
    assert(k7@ == seq!['b', 'r', 'e', 'a', 'k']);
    if same_chars(&cs, &k7) {
        return true;
    }
    let k8 = vec!['c', 'o', 'n', 's', 't'];
    assert(k8@ == seq!['c', 'o', 'n', 's', 't']);
    if same_chars(&cs, &k8) {
        return true;
    }
    let k9 = vec!['c', 'o', 'n', 't', 'i', 'n', 'u', 'e'];
    assert(k9@ == seq!['c', 'o', 'n', 't', 'i', 'n', 'u', 'e']);
    if same_chars(&cs, &k9) {
        return true;
    }
    let k10 = vec!['c', 'r', 'a', 't', 'e'];
    assert(k10@ == seq!['c', 'r', 'a', 't', 'e']);
    if same_chars(&cs, &k10) {
        return true;
    }
    let k11 = vec!['d', 'o'];
    assert(k11@ == seq!['d', 'o']);
    if same_chars(&cs, &k11) {
        return true;
    }
    let k12 = vec!['d', 'y', 'n'];
    assert(k12@ == seq!['d', 'y', 'n']);
    if same_chars(&cs, &k12) {
        return true;
    }
    let k13 = vec!['e', 'l', 's', 'e'];
    assert(k13@ == seq!['e', 'l', 's', 'e']);
    if same_chars(&cs, &k13) {
        return true;
    }
    let k14 = vec!['e', 'n', 'u', 'm'];
    assert(k14@ == seq!['e', 'n', 'u', 'm']);
    if same_chars(&cs, &k14) {
        return true;
    }
    let k15 = vec!['e', 'x', 't', 'e', 'r', 'n'];
    assert(k15@ == seq!['e', 'x', 't', 'e', 'r', 'n']);
    if same_chars(&cs, &k15) {
        return true;
    }
    let k16 = vec!['f', 'a', 'l', 's', 'e'];
    assert(k16@ == seq!['f', 'a', 'l', 's', 'e']);
    if same_chars(&cs, &k16) {
        return true;
    }
    let k17 = vec!['f', 'i', 'n', 'a', 'l'];
    assert(k17@ == seq!['f', 'i', 'n', 'a', 'l']);
    if same_chars(&cs, &k17) {
        return true;
    }
    let k18 = vec!['f', 'n'];
    assert(k18@ == seq!['f', 'n']);
    if same_chars(&cs, &k18) {
        return true;
    }
    let k19 = vec!['f', 'o', 'r'];
    assert(k19@ == seq!['f', 'o', 'r']);
    if same_chars(&cs, &k19) {
        return true;
    }
    let k20 = vec!['i', 'f'];
    assert(k20@ == seq!['i', 'f']);
    if same_chars(&cs, &k20) {
        return true;
    }
    let k21 = vec!['i', 'm', 'p', 'l'];
    assert(k21@ == seq!['i', 'm', 'p', 'l']);
    if same_chars(&cs, &k21) {
        return true;
    }
    let k22 = vec!['i', 'n'];
    assert(k22@ == seq!['i', 'n']);
    if same_chars(&cs, &k22) {
        return true;
    }
    let k23 = vec!['l', 'e', 't'];
    assert(k23@ == seq!['l', 'e', 't']);
    if same_chars(&cs, &k23) {
        return true;
    }
    let k24 = vec!['l', 'o', 'o', 'p'];
    assert(k24@ == seq!['l', 'o', 'o', 'p']);
    if same_chars(&cs, &k24) {
        return true;
    }
    let k25 = vec!['m', 'a', 'c', 'r', 'o'];
    assert(k25@ == seq!['m', 'a', 'c', 'r', 'o']);
    if same_chars(&cs, &k25) {
        return true;
    }
    let k26 = vec!['m', 'a', 't', 'c', 'h'];
    assert(k26@ == seq!['m', 'a', 't', 'c', 'h']);
    if same_chars(&cs, &k26) {
        return true;
    }
    let k27 = vec!['m', 'o', 'd'];
    assert(k27@ == seq!['m', 'o', 'd']);
    if same_chars(&cs, &k27) {
        return true;
    }
    let k28 = vec!['m', 'o', 'v', 'e'];
    assert(k28@ == seq!['m', 'o', 'v', 'e']);
    if same_chars(&cs, &k28) {
        return true;
    }
    let k29 = vec!['m', 'u', 't'];
    assert(k29@ == seq!['m', 'u', 't']);
    if same_chars(&cs, &k29) {
        return true;
    }
    let k30 = vec!['o', 'v', 'e', 'r', 'r', 'i', 'd', 'e'];
    assert(k30@ == seq!['o', 'v', 'e', 'r', 'r', 'i', 'd', 'e']);
    if same_chars(&cs, &k30) {
        return true;
    }
    let k31 = vec!['p', 'r', 'i', 'v'];
    assert(k31@ == seq!['p', 'r', 'i', 'v']);
    if same_chars(&cs, &k31) {
        return true;
    }
    let k32 = vec!['p', 'u', 'b'];
    assert(k32@ == seq!['p', 'u', 'b']);
    if same_chars(&cs, &k32) {
        return true;
    }
    let k33 = vec!['r', 'e', 'f'];
    assert(k33@ == seq!['r', 'e', 'f']);
    if same_chars(&cs, &k33) {
        return true;
    }
    let k34 = vec!['r', 'e', 't', 'u', 'r', 'n'];
    assert(k34@ == seq!['r', 'e', 't', 'u', 'r', 'n']);
    if same_chars(&cs, &k34) {
        return true;
    }
    let k35 = vec!['S', 'e', 'l', 'f'];
    assert(k35@ == seq!['S', 'e', 'l', 'f']);
    if same_chars(&cs, &k35) {
        return true;
    }
    let k36 = vec!['s', 'e', 'l', 'f'];
    assert(k36@ == seq!['s', 'e', 'l', 'f']);
    if same_chars(&cs, &k36) {
        return true;
    }
    let k37 = vec!['s', 't', 'a', 't', 'i', 'c'];
    assert(k37@ == seq!['s', 't', 'a', 't', 'i', 'c']);
    if same_chars(&cs, &k37) {
        return true;
    }
    let k38 = vec!['s', 't', 'r', 'u', 'c', 't'];
    assert(k38@ == seq!['s', 't', 'r', 'u', 'c', 't']);
    if same_chars(&cs, &k38) {
        return true;
    }
    let k39 = vec!['s', 'u', 'p', 'e', 'r'];
    assert(k39@ == seq!['s', 'u', 'p', 'e', 'r']);
    if same_chars(&cs, &k39) {
        return true;
    }
    let k40 = vec!['t', 'r', 'a', 'i', 't'];
    assert(k40@ == seq!['t', 'r', 'a', 'i', 't']);
    if same_chars(&cs, &k40) {
        return true;
    }
    let k41 = vec!['t', 'r', 'u', 'e'];
    assert(k41@ == seq!['t', 'r', 'u', 'e']);
    if same_chars(&cs, &k41) {
        return true;
    }
    let k42 = vec!['t', 'r', 'y'];
    assert(k42@ == seq!['t', 'r', 'y']);
    if same_chars(&cs, &k42) {
        return true;
    }
    let k43 = vec!['t', 'y', 'p', 'e'];
    assert(k43@ == seq!['t', 'y', 'p', 'e']);
    if same_chars(&cs, &k43) {
        return true;
    }
    let k44 = vec!['t', 'y', 'p', 'e', 'o', 'f'];
    assert(k44@ == seq!['t', 'y', 'p', 'e', 'o', 'f']);
    if same_chars(&cs, &k44) {
        return true;
    }
    let k45 = vec!['u', 'n', 's', 'a', 'f', 'e'];
    assert(k45@ == seq!['u', 'n', 's', 'a', 'f', 'e']);
    if same_chars(&cs, &k45) {
        return true;
    }
    let k46 = vec!['u', 'n', 's', 'i', 'z', 'e', 'd'];
    assert(k46@ == seq!['u', 'n', 's', 'i', 'z', 'e', 'd']);
    if same_chars(&cs, &k46) {
        return true;
    }
    let k47 = vec!['u', 's', 'e'];
    assert(k47@ == seq!['u', 's', 'e']);
    if same_chars(&cs, &k47) {
        return true;
    }
    let k48 = vec!['v', 'i', 'r', 't', 'u', 'a', 'l'];
    assert(k48@ == seq!['v', 'i', 'r', 't', 'u', 'a', 'l']);
    if same_chars(&cs, &k48) {
        return true;
    }
    let k49 = vec!['w', 'h', 'e', 'r', 'e'];
    assert(k49@ == seq!['w', 'h', 'e', 'r', 'e']);
    if same_chars(&cs, &k49) {
        return true;
    }
    let k50 = vec!['w', 'h', 'i', 'l', 'e'];
    assert(k50@ == seq!['w', 'h', 'i', 'l', 'e']);
    if same_chars(&cs, &k50) {
        return true;
    }
    let k51 = vec!['y', 'i', 'e', 'l', 'd'];
    assert(k51@ == seq!['y', 'i', 'e', 'l', 'd']);
    if same_chars(&cs, &k51) {
        return true;
    }
    false
}

/// Whether `w` is an identifier.
fn is_ident_exec(w: &String) -> (r: bool)
    ensures
        r == is_ident(w@),
{
    let cs = chars_of(w.as_str());
    if cs.len() == 0 {
        return false;
    }
    let c = cs[0];
    if '0' <= c && c <= '9' {
        return false;
    }
    !is_keyword_exec(w)
}

fn word_at_exec<'a>(toks: &'a Vec<Token>, i: usize, end: usize) -> (r: Option<&'a String>)
    requires
        end <= toks@.len(),
    ensures
        match r {
            Some(w) => word_at(tokens_view(toks@), i as int, end as int) == Some(w@),
            None => word_at(tokens_view(toks@), i as int, end as int) is None,
        },
{
    if i < end {
        proof {
            assert(tokens_view(toks@)[i as int] == toks@[i as int]@);
        }
        match &toks[i] {
            Token::Word(w) => Some(w),
            Token::Punct(..) => None,
        }
    } else {
        None
    }
}

fn ident_at_exec<'a>(toks: &'a Vec<Token>, i: usize, end: usize) -> (r: Option<&'a String>)
    requires
        end <= toks@.len(),
    ensures
        match r {
            Some(w) => ident_at(tokens_view(toks@), i as int, end as int) == Some(w@),
            None => ident_at(tokens_view(toks@), i as int, end as int) is None,
        },
{
    match word_at_exec(toks, i, end) {
        Some(w) => if is_ident_exec(w) {
            Some(w)
        } else {
            None
        },
        None => None,
    }
}

fn keyword_at_exec(toks: &Vec<Token>, i: usize, end: usize, lit: &Vec<char>) -> (r: bool)
    requires
        end <= toks@.len(),
    ensures
        r == keyword_at(tokens_view(toks@), i as int, end as int, lit@),
{
    match word_at_exec(toks, i, end) {
        Some(w) => word_is(w, lit),
        None => false,
    }
}

fn punct_at_exec(toks: &Vec<Token>, i: usize, end: usize, c: char) -> (r: bool)
    requires
        end <= toks@.len(),
    ensures
        r == punct_at(tokens_view(toks@), i as int, end as int, c),
{
    if i < end {
        proof {
            assert(tokens_view(toks@)[i as int] == toks@[i as int]@);
        }
        match &toks[i] {
            Token::Punct(p, _) => *p == c,
            Token::Word(_) => false,
        }
    } else {
        false
    }
}

fn joint_at_exec(toks: &Vec<Token>, i: usize, end: usize, c: char) -> (r: bool)
    requires
        end <= toks@.len(),
    ensures
        r == (0 <= i < end && tokens_view(toks@)[i as int] == TokenView::Punct(c, true)),
{
    if i < end {
        proof {
            assert(tokens_view(toks@)[i as int] == toks@[i as int]@);
        }
        match &toks[i] {
            Token::Punct(p, joint) => *p == c && *joint,
            Token::Word(_) => false,
        }
    } else {
        false
    }
}

fn fat_arrow_at_exec(toks: &Vec<Token>, i: usize, end: usize) -> (r: bool)
    requires
        end <= toks@.len(),
    ensures
        r == fat_arrow_at(tokens_view(toks@), i as int, end as int),
{
    joint_at_exec(toks, i, end, '=') && i + 1 < end && punct_at_exec(toks, i + 1, end, '>')
}

fn path_sep_at_exec(toks: &Vec<Token>, i: usize, end: usize) -> (r: bool)
    requires
        end <= toks@.len(),
    ensures
        r == path_sep_at(tokens_view(toks@), i as int, end as int),
{
    joint_at_exec(toks, i, end, ':') && i + 1 < end && punct_at_exec(toks, i + 1, end, ':')
}

fn is_arrow_head_exec(toks: &Vec<Token>, j: usize) -> (r: bool)
    requires
        j < toks@.len(),
    ensures
        r == is_arrow_head(tokens_view(toks@), j as int),
{
    j > 0 && joint_at_exec(toks, j - 1, toks.len(), '-')
}

/// Which delimiter, if any, a token is: 1 for an opener, 2 for a closer.
fn delimiter_class(t: &Token) -> (r: u8)
    ensures
        r == 1 <==> (t@ matches TokenView::Punct(c, _) && crate::definition::token::is_opener(c)),
        r == 2 <==> (t@ matches TokenView::Punct(c, _) && crate::definition::token::is_closer(c)),
        r == 0 || r == 1 || r == 2,
{
    match t {
        Token::Punct(c, _) => {
            let c = *c;
            if c == '(' || c == '[' || c == '{' {
                1
            } else if c == ')' || c == ']' || c == '}' {
                2
            } else {
                0
            }
        },
        Token::Word(_) => 0,
    }
}

fn group_at_exec(toks: &Vec<Token>, i: usize, end: usize, open: char) -> (r: Option<usize>)
    requires
        end <= toks@.len(),
    ensures
        match r {
            Some(c) => group_at(tokens_view(toks@), i as int, end as int, open) == Some(c as int),
            None => group_at(tokens_view(toks@), i as int, end as int, open) is None,
        },
{
    let ghost tv = tokens_view(toks@);
    if !punct_at_exec(toks, i, end, open) {
        return None;
    }
    let mut j = i + 1;
    let mut depth: usize = 1;
    while j < end
        invariant
            tv == tokens_view(toks@),
            end <= toks@.len(),
            i < end,
            punct_at(tv, i as int, end as int, open),
            i + 1 <= j <= end,
            1 <= depth <= j - i,
            close_from(tv, i + 1, end as int, 1) == close_from(tv, j as int, end as int, depth as int),
        decreases end - j,
    {
        proof {
            assert(tv.len() == toks@.len());
            assert(tv[j as int] == toks@[j as int]@);
        }
        let class = delimiter_class(&toks[j]);
        if class == 1 {
            depth += 1;
        } else if class == 2 {
            if depth <= 1 {
                return Some(j);
            }
            depth -= 1;
        }
        j += 1;
    }
    None
}

/// Where a type that starts at `j` ends; see `type_end_from`.
fn type_end_exec(toks: &Vec<Token>, j: usize, end: usize, stop: char) -> (r: usize)
    requires
        j <= end <= toks@.len(),
    ensures
        r == type_end_from(tokens_view(toks@), j as int, end as int, stop, 0, 0),
{
    let ghost tv = tokens_view(toks@);
    let mut k = j;
    let mut depth: i128 = 0;
    let mut angle: usize = 0;
    while k < end
        invariant
            tv == tokens_view(toks@),
            j <= k <= end <= toks@.len(),
            -(k - j) <= depth <= k - j,
            angle <= k - j,
            type_end_from(tv, j as int, end as int, stop, 0, 0) == type_end_from(
                tv,
                k as int,
                end as int,
                stop,
                depth as int,
                angle as int,
            ),
        decreases end - k,
    {
        proof {
            assert(tv[k as int] == toks@[k as int]@);
        }
        let class = delimiter_class(&toks[k]);
        if class == 1 {
            depth += 1;
        } else if class == 2 {
            depth -= 1;
        } else {
            match &toks[k] {
                Token::Punct(c, _) => {
                    let c = *c;
                    if depth == 0 && angle == 0 && c == stop {
                        return k;
                    } else if depth == 0 && c == '<' {
                        angle += 1;
                    } else if depth == 0 && c == '>' && angle > 0 && !is_arrow_head_exec(toks, k) {
                        angle -= 1;
                    }
                },
                Token::Word(_) => {},
            }
        }
        k += 1;
    }
    end
}

/// Where a guard that starts at `j` ends; see `guard_end_from`.
fn guard_end_exec(toks: &Vec<Token>, j: usize, end: usize) -> (r: usize)
    requires
        j <= end <= toks@.len(),
    ensures
        r == guard_end_from(tokens_view(toks@), j as int, end as int, 0),
{
    let ghost tv = tokens_view(toks@);
    let mut k = j;
    let mut depth: i128 = 0;
    while k < end
        invariant
            tv == tokens_view(toks@),
            j <= k <= end <= toks@.len(),
            -(k - j) <= depth <= k - j,
            guard_end_from(tv, j as int, end as int, 0) == guard_end_from(
                tv,
                k as int,
                end as int,
                depth as int,
            ),
        decreases end - k,
    {
        proof {
            assert(tv[k as int] == toks@[k as int]@);
        }
        match &toks[k] {
            Token::Punct(..) => {
                if depth == 0 && fat_arrow_at_exec(toks, k, end) {
                    return k;
                }
                let class = delimiter_class(&toks[k]);
                if class == 1 {
                    depth += 1;
                } else if class == 2 {
                    depth -= 1;
                }
            },
            Token::Word(_) => {},
        }
        k += 1;
    }
    end
}

/// Where generics whose `<` stands just before `j` end; see `angle_close_from`.
fn angle_close_exec(toks: &Vec<Token>, j: usize, end: usize) -> (r: usize)
    requires
        1 <= j <= end <= toks@.len(),
    ensures
        r == angle_close_from(tokens_view(toks@), j as int, end as int, 1),
{
    let ghost tv = tokens_view(toks@);
    let mut k = j;
    let mut depth: usize = 1;
    while k < end
        invariant
            tv == tokens_view(toks@),
            1 <= j <= k <= end <= toks@.len(),
            1 <= depth <= 1 + (k - j),
            angle_close_from(tv, j as int, end as int, 1) == angle_close_from(
                tv,
                k as int,
                end as int,
                depth as int,
            ),
        decreases end - k,
    {
        proof {
            assert(tv[k as int] == toks@[k as int]@);
        }
        match &toks[k] {
            Token::Punct(c, _) => {
                let c = *c;
                if c == '<' {
                    depth += 1;
                } else if c == '>' && !is_arrow_head_exec(toks, k) {
                    if depth <= 1 {
                        return k;
                    }
                    depth -= 1;
                }
            },
            Token::Word(_) => {},
        }
        k += 1;
    }
    end
}

fn kw_pub_text() -> (r: Vec<char>)
    ensures
        r@ == kw_pub(),
{
    let v = vec!['p', 'u', 'b'];
    assert(v@ == kw_pub());
    v
}

fn kw_struct_text() -> (r: Vec<char>)
    ensures
        r@ == kw_struct(),
{
    let v = vec!['s', 't', 'r', 'u', 'c', 't'];
    assert(v@ == kw_struct());
    v
}

fn kw_crate_text() -> (r: Vec<char>)
    ensures
        r@ == kw_crate(),
{
    let v = vec!['c', 'r', 'a', 't', 'e'];
    assert(v@ == kw_crate());
    v
}

fn kw_self_text() -> (r: Vec<char>)
    ensures
        r@ == kw_self(),
{
    let v = vec!['s', 'e', 'l', 'f'];
    assert(v@ == kw_self());
    v
}

fn kw_super_text() -> (r: Vec<char>)
    ensures
        r@ == kw_super(),
{
    let v = vec!['s', 'u', 'p', 'e', 'r'];
    assert(v@ == kw_super());
    v
}

fn kw_in_text() -> (r: Vec<char>)
    ensures
        r@ == kw_in(),
{
    let v = vec!['i', 'n'];
    assert(v@ == kw_in());
    v
}

fn kw_retry_text() -> (r: Vec<char>)
    ensures
        r@ == kw_retry(),
{
    let v = vec!['r', 'e', 't', 'r', 'y'];
    assert(v@ == kw_retry());
    v
}

fn kw_start_text() -> (r: Vec<char>)
    ensures
        r@ == kw_start(),
{
    let v = vec!['s', 't', 'a', 'r', 't'];
    assert(v@ == kw_start());
    v
}

fn kw_context_text() -> (r: Vec<char>)
    ensures
        r@ == kw_context(),
{
    let v = vec!['c', 'o', 'n', 't', 'e', 'x', 't'];
    assert(v@ == kw_context());
    v
}

fn kw_edges_text() -> (r: Vec<char>)
    ensures
        r@ == kw_edges(),
{
    let v = vec!['e', 'd', 'g', 'e', 's'];
    assert(v@ == kw_edges());
    v
}

fn kw_on_failure_text() -> (r: Vec<char>)
    ensures
        r@ == kw_on_failure(),
{
    let v = vec!['o', 'n', '_', 'f', 'a', 'i', 'l', 'u', 'r', 'e'];
    assert(v@ == kw_on_failure());
    v
}

fn kw_if_text() -> (r: Vec<char>)
    ensures
        r@ == kw_if(),
{
    let v = vec!['i', 'f'];
    assert(v@ == kw_if());
    v
}

fn kw_underscore_text() -> (r: Vec<char>)
    ensures
        r@ == kw_underscore(),
{
    let v = vec!['_'];
    assert(v@ == kw_underscore());
    v
}


/// `a` before what `r` holds, or `r`'s error.
pub open spec fn extend<T>(a: Seq<T>, r: Result<Seq<T>, DefError>) -> Result<Seq<T>, DefError> {
    match r {
        Ok(x) => Ok(a + x),
        Err(e) => Err(e),
    }
}

proof fn lemma_extend_prepend<T>(a: Seq<T>, w: T, r: Result<Seq<T>, DefError>)
    ensures
        extend(a, prepend(w, r)) == extend(a.push(w), r),
{
    match r {
        Ok(x) => {
            assert(a + (seq![w] + x) =~= a.push(w) + x);
        },
        Err(_) => {},
    }
}

proof fn lemma_extend_empty<T>(a: Seq<T>)
    ensures
        extend(a, Ok(Seq::<T>::empty())) == Ok::<Seq<T>, DefError>(a),
{
    assert(a + Seq::<T>::empty() =~= a);
}

/// Reads `ident_list` at `i..end`.
fn ident_list_exec(toks: &Vec<Token>, i: usize, end: usize) -> (r: Result<Vec<String>, DefError>)
    requires
        end <= toks@.len(),
    ensures
        match r {
            Ok(v) => ident_list(tokens_view(toks@), i as int, end as int) == Ok::<
                Seq<Seq<char>>,
                DefError,
            >(string_views(v@)),
            Err(e) => ident_list(tokens_view(toks@), i as int, end as int) == Err::<
                Seq<Seq<char>>,
                DefError,
            >(e),
        },
{
    let ghost tv = tokens_view(toks@);
    let mut acc: Vec<String> = Vec::new();
    let mut j = i;
    proof {
        assert(string_views(acc@) =~= Seq::<Seq<char>>::empty());
        assert(extend(Seq::<Seq<char>>::empty(), ident_list(tv, i as int, end as int)) =~= ident_list(
            tv,
            i as int,
            end as int,
        )) by {
            match ident_list(tv, i as int, end as int) {
                Ok(x) => {
                    assert(Seq::<Seq<char>>::empty() + x =~= x);
                },
                Err(_) => {},
            }
        }
    }
    while j < end
        invariant
            tv == tokens_view(toks@),
            end <= toks@.len(),
            ident_list(tv, i as int, end as int) == extend(
                string_views(acc@),
                ident_list(tv, j as int, end as int),
            ),
        decreases end - j,
    {
        match ident_at_exec(toks, j, end) {
            None => {
                return Err(DefError::ExpectedIdent);
            },
            Some(w) => {
                let ghost before = string_views(acc@);
                if j + 1 >= end {
                    acc.push(w.clone());
                    proof {
                        assert(string_views(acc@) =~= before.push(w@));
                        assert(before + seq![w@] =~= before.push(w@));
                    }
                    return Ok(acc);
                } else if punct_at_exec(toks, j + 1, end, ',') {
                    acc.push(w.clone());
                    proof {
                        assert(string_views(acc@) =~= before.push(w@));
                        lemma_extend_prepend(before, w@, ident_list(tv, j + 2, end as int));
                    }
                    j = j + 2;
                } else {
                    return Err(DefError::ExpectedToken);
                }
            },
        }
    }
    proof {
        lemma_extend_empty(string_views(acc@));
    }
    Ok(acc)
}

/// Reads `bracket_list` at `i`.
fn bracket_list_exec(toks: &Vec<Token>, i: usize, end: usize) -> (r: Result<(Vec<String>, usize), DefError>)
    requires
        end <= toks@.len(),
    ensures
        match r {
            Ok((v, p)) => bracket_list(tokens_view(toks@), i as int, end as int) == Ok::<
                (Seq<Seq<char>>, int),
                DefError,
            >((string_views(v@), p as int)),
            Err(e) => bracket_list(tokens_view(toks@), i as int, end as int) == Err::<
                (Seq<Seq<char>>, int),
                DefError,
            >(e),
        },
{
    proof {
        lemma_group_at(tokens_view(toks@), i as int, end as int, '[');
    }
    match group_at_exec(toks, i, end, '[') {
        None => Err(DefError::ExpectedToken),
        Some(d) => match ident_list_exec(toks, i + 1, d) {
            Ok(v) => Ok((v, d + 1)),
            Err(e) => Err(e),
        },
    }
}

/// Reads `visibility` at the start.
fn visibility_exec(toks: &Vec<Token>) -> (r: Result<(Visibility, usize), DefError>)
    ensures
        match r {
            Ok((v, p)) => visibility(tokens_view(toks@)) == Ok::<(VisibilityView, int), DefError>(
                (v@, p as int),
            ),
            Err(e) => visibility(tokens_view(toks@)) == Err::<(VisibilityView, int), DefError>(e),
        },
{
    let ghost tv = tokens_view(toks@);
    let n = toks.len();
    proof {
        assert(tv.len() == n);
        lemma_group_at(tv, 1, n as int, '(');
    }
    if keyword_at_exec(toks, 0, n, &kw_pub_text()) {
        match group_at_exec(toks, 1, n, '(') {
            Some(c) => {
                if c == 3 && (keyword_at_exec(toks, 2, c, &kw_crate_text()) || keyword_at_exec(
                    toks,
                    2,
                    c,
                    &kw_self_text(),
                ) || keyword_at_exec(toks, 2, c, &kw_super_text())) {
                    Ok((Visibility::Restricted(copy_run(toks, 2, c)), c + 1))
                } else if keyword_at_exec(toks, 2, c, &kw_in_text()) {
                    if c > 3 {
                        Ok((Visibility::Restricted(copy_run(toks, 2, c)), c + 1))
                    } else {
                        Err(DefError::ExpectedIdent)
                    }
                } else {
                    Ok((Visibility::Public, 1))
                }
            },
            None => Ok((Visibility::Public, 1)),
        }
    } else {
        Ok((Visibility::Inherited, 0))
    }
}

/// Reads `generics` at `i`.
fn generics_exec(toks: &Vec<Token>, i: usize, end: usize) -> (r: Result<(Vec<Token>, usize), DefError>)
    requires
        end <= toks@.len(),
    ensures
        match r {
            Ok((v, p)) => generics(tokens_view(toks@), i as int, end as int) == Ok::<
                (Seq<TokenView>, int),
                DefError,
            >((tokens_view(v@), p as int)),
            Err(e) => generics(tokens_view(toks@), i as int, end as int) == Err::<
                (Seq<TokenView>, int),
                DefError,
            >(e),
        },
{
    if punct_at_exec(toks, i, end, '<') {
        let j = angle_close_exec(toks, i + 1, end);
        proof {
            lemma_angle_close(tokens_view(toks@), i + 1, end as int, 1);
        }
        if j < end {
            Ok((copy_run(toks, i, j + 1), j + 1))
        } else {
            Err(DefError::ExpectedToken)
        }
    } else {
        let v: Vec<Token> = Vec::new();
        proof {
            assert(tokens_view(v@) =~= Seq::<TokenView>::empty());
        }
        Ok((v, i))
    }
}

/// Reads `retry_attr` at `i`.
fn retry_attr_exec(toks: &Vec<Token>, i: usize, end: usize) -> (r: Result<(Option<String>, usize), DefError>)
    requires
        end <= toks@.len(),
    ensures
        match r {
            Ok((v, p)) => retry_attr(tokens_view(toks@), i as int, end as int) == Ok::<
                (Option<Seq<char>>, int),
                DefError,
            >((opt_name(v), p as int)),
            Err(e) => retry_attr(tokens_view(toks@), i as int, end as int) == Err::<
                (Option<Seq<char>>, int),
                DefError,
            >(e),
        },
{
    if punct_at_exec(toks, i, end, '#') {
        proof {
            lemma_group_at(tokens_view(toks@), i + 1, end as int, '[');
        }
        match group_at_exec(toks, i + 1, end, '[') {
            None => Err(DefError::ExpectedToken),
            Some(c) => match ident_at_exec(toks, i + 2, c) {
                None => Err(DefError::ExpectedIdent),
                Some(name) => if !word_is(name, &kw_retry_text()) {
                    Err(DefError::UnknownAttribute)
                } else if !punct_at_exec(toks, i + 3, c, '=') {
                    Err(DefError::ExpectedToken)
                } else {
                    match ident_at_exec(toks, i + 4, c) {
                        None => Err(DefError::ExpectedIdent),
                        Some(p) => if i + 5 == c {
                            Ok((Some(p.clone()), c + 1))
                        } else {
                            Err(DefError::TrailingTokens)
                        },
                    }
                },
            },
        }
    } else {
        Ok((None, i))
    }
}

/// Reads `field_at` at `i`.
fn field_at_exec(toks: &Vec<Token>, i: usize, end: usize) -> (r: Result<((String, Vec<Token>, Option<String>), usize), DefError>)
    requires
        end <= toks@.len(),
    ensures
        match r {
            Ok((f, p)) => field_at(tokens_view(toks@), i as int, end as int) == Ok::<
                ((Seq<char>, Seq<TokenView>, Option<Seq<char>>), int),
                DefError,
            >((field_view(f), p as int)),
            Err(e) => field_at(tokens_view(toks@), i as int, end as int) == Err::<
                ((Seq<char>, Seq<TokenView>, Option<Seq<char>>), int),
                DefError,
            >(e),
        },
{
    let (retry, j) = match retry_attr_exec(toks, i, end) {
        Ok(x) => x,
        Err(e) => return Err(e),
    };
    match ident_at_exec(toks, j, end) {
        None => Err(DefError::ExpectedIdent),
        Some(name) => if !punct_at_exec(toks, j + 1, end, ':') {
            Err(DefError::ExpectedToken)
        } else {
            let t = type_end_exec(toks, j + 2, end, ',');
            if t <= j + 2 {
                Err(DefError::ExpectedType)
            } else {
                proof {
                    lemma_type_end(tokens_view(toks@), j + 2, end as int, ',', 0, 0);
                }
                let next = if t < end {
                    t + 1
                } else {
                    t
                };
                let ty = copy_run(toks, j + 2, t);
                Ok(((name.clone(), ty, retry), next))
            }
        },
    }
}

/// Reads `fields` at `i..end`.
fn fields_exec(toks: &Vec<Token>, i: usize, end: usize) -> (r: Result<Vec<(String, Vec<Token>, Option<String>)>, DefError>)
    requires
        end <= toks@.len(),
    ensures
        match r {
            Ok(v) => fields(tokens_view(toks@), i as int, end as int) == Ok::<
                Seq<(Seq<char>, Seq<TokenView>, Option<Seq<char>>)>,
                DefError,
            >(fields_view(v@)),
            Err(e) => fields(tokens_view(toks@), i as int, end as int) == Err::<
                Seq<(Seq<char>, Seq<TokenView>, Option<Seq<char>>)>,
                DefError,
            >(e),
        },
{
    let ghost tv = tokens_view(toks@);
    let mut acc: Vec<(String, Vec<Token>, Option<String>)> = Vec::new();
    let mut j = i;
    proof {
        assert(fields_view(acc@) =~= Seq::empty());
        match fields(tv, i as int, end as int) {
            Ok(x) => {
                assert(Seq::empty() + x =~= x);
            },
            Err(_) => {},
        }
    }
    while j < end
        invariant
            tv == tokens_view(toks@),
            end <= toks@.len(),
            fields(tv, i as int, end as int) == extend(fields_view(acc@), fields(tv, j as int, end as int)),
        decreases end - j,
    {
        proof {
            lemma_field_at_progress(tv, j as int, end as int);
        }
        match field_at_exec(toks, j, end) {
            Err(e) => {
                return Err(e);
            },
            Ok((f, next)) => {
                let ghost before = fields_view(acc@);
                let ghost fv = field_view(f);
                acc.push(f);
                proof {
                    assert(fields_view(acc@) =~= before.push(fv));
                    lemma_extend_prepend(before, fv, fields(tv, next as int, end as int));
                }
                j = next;
            },
        }
    }
    proof {
        lemma_extend_empty(fields_view(acc@));
    }
    Ok(acc)
}

/// Reads `arm_binding` at `i`.
fn arm_binding_exec(toks: &Vec<Token>, i: usize, end: usize) -> (r: Result<(Option<String>, bool, usize), DefError>)
    requires
        end <= toks@.len(),
    ensures
        match r {
            Ok((b, w, p)) => arm_binding(tokens_view(toks@), i as int, end as int) == Ok::<
                (Option<Seq<char>>, bool, int),
                DefError,
            >((opt_name(b), w, p as int)),
            Err(e) => arm_binding(tokens_view(toks@), i as int, end as int) == Err::<
                (Option<Seq<char>>, bool, int),
                DefError,
            >(e),
        },
{
    if punct_at_exec(toks, i, end, '(') {
        proof {
            lemma_group_at(tokens_view(toks@), i as int, end as int, '(');
        }
        match group_at_exec(toks, i, end, '(') {
            None => Err(DefError::ExpectedToken),
            Some(c) => if keyword_at_exec(toks, i + 1, c, &kw_underscore_text()) {
                if i + 2 == c {
                    Ok((None, true, c + 1))
                } else {
                    Err(DefError::TrailingTokens)
                }
            } else {
                match ident_at_exec(toks, i + 1, c) {
                    Some(b) => if i + 2 == c {
                        Ok((Some(b.clone()), false, c + 1))
                    } else {
                        Err(DefError::TrailingTokens)
                    },
                    None => Err(DefError::ExpectedBinding),
                }
            },
        }
    } else {
        Ok((None, true, i))
    }
}

/// Reads `arm_guard` at `i`.
fn arm_guard_exec(toks: &Vec<Token>, i: usize, end: usize) -> (r: Result<(Option<Vec<Token>>, usize), DefError>)
    requires
        end <= toks@.len(),
    ensures
        match r {
            Ok((g, p)) => arm_guard(tokens_view(toks@), i as int, end as int) == Ok::<
                (Option<Seq<TokenView>>, int),
                DefError,
            >((opt_tokens(g), p as int)),
            Err(e) => arm_guard(tokens_view(toks@), i as int, end as int) == Err::<
                (Option<Seq<TokenView>>, int),
                DefError,
            >(e),
        },
{
    if keyword_at_exec(toks, i, end, &kw_if_text()) {
        let g = guard_end_exec(toks, i + 1, end);
        proof {
            lemma_guard_end(tokens_view(toks@), i + 1, end as int, 0);
        }
        if g <= i + 1 {
            Err(DefError::ExpectedExpr)
        } else {
            Ok((Some(copy_run(toks, i + 1, g)), g))
        }
    } else {
        Ok((None, i))
    }
}

/// Reads `arm_at` at `i`.
fn arm_at_exec(toks: &Vec<Token>, i: usize, end: usize) -> (r: Result<(CompositeArm, usize), DefError>)
    requires
        end <= toks@.len(),
    ensures
        match r {
            Ok((a, p)) => arm_at(tokens_view(toks@), i as int, end as int) == Ok::<(ArmView, int), DefError>(
                (a@, p as int),
            ),
            Err(e) => arm_at(tokens_view(toks@), i as int, end as int) == Err::<(ArmView, int), DefError>(e),
        },
{
    let action_path = match ident_at_exec(toks, i, end) {
        None => return Err(DefError::ExpectedIdent),
        Some(a) => a,
    };
    if !path_sep_at_exec(toks, i + 1, end) {
        return Err(DefError::ExpectedToken);
    }
    let variant = match ident_at_exec(toks, i + 3, end) {
        None => return Err(DefError::ExpectedIdent),
        Some(v) => v,
    };
    let (binding, is_wildcard, j) = match arm_binding_exec(toks, i + 4, end) {
        Err(e) => return Err(e),
        Ok(x) => x,
    };
    let (guard, k) = match arm_guard_exec(toks, j, end) {
        Err(e) => return Err(e),
        Ok(x) => x,
    };
    if !fat_arrow_at_exec(toks, k, end) {
        return Err(DefError::ExpectedToken);
    }
    let (succs, m) = match bracket_list_exec(toks, k + 2, end) {
        Err(e) => return Err(e),
        Ok(x) => x,
    };
    if !punct_at_exec(toks, m, end, ';') {
        return Err(DefError::ExpectedToken);
    }
    let arm = CompositeArm {
        action_path: action_path.clone(),
        variant: variant.clone(),
        binding,
        is_wildcard,
        guard,
        succs,
    };
    Ok((arm, m + 1))
}

/// Reads `arms` at `i..end`.
fn arms_exec(toks: &Vec<Token>, i: usize, end: usize) -> (r: Result<Vec<CompositeArm>, DefError>)
    requires
        end <= toks@.len(),
    ensures
        match r {
            Ok(v) => arms(tokens_view(toks@), i as int, end as int) == Ok::<Seq<ArmView>, DefError>(
                arms_view(v@),
            ),
            Err(e) => arms(tokens_view(toks@), i as int, end as int) == Err::<Seq<ArmView>, DefError>(e),
        },
{
    let ghost tv = tokens_view(toks@);
    let mut acc: Vec<CompositeArm> = Vec::new();
    let mut j = i;
    proof {
        assert(arms_view(acc@) =~= Seq::empty());
        match arms(tv, i as int, end as int) {
            Ok(x) => {
                assert(Seq::empty() + x =~= x);
            },
            Err(_) => {},
        }
    }
    while j < end
        invariant
            tv == tokens_view(toks@),
            end <= toks@.len(),
            arms(tv, i as int, end as int) == extend(arms_view(acc@), arms(tv, j as int, end as int)),
        decreases end - j,
    {
        proof {
            lemma_arm_at_progress(tv, j as int, end as int);
        }
        match arm_at_exec(toks, j, end) {
            Err(e) => {
                return Err(e);
            },
            Ok((a, next)) => {
                let ghost before = arms_view(acc@);
                let ghost av = a@;
                acc.push(a);
                proof {
                    assert(arms_view(acc@) =~= before.push(av));
                    lemma_extend_prepend(before, av, arms(tv, next as int, end as int));
                }
                j = next;
            },
        }
    }
    proof {
        lemma_extend_empty(arms_view(acc@));
    }
    Ok(acc)
}

/// Reads `entry_at` at `i`.
fn entry_at_exec(toks: &Vec<Token>, i: usize, end: usize) -> (r: Result<(EdgeEntry, usize), DefError>)
    requires
        end <= toks@.len(),
    ensures
        match r {
            Ok((e, p)) => entry_at(tokens_view(toks@), i as int, end as int) == Ok::<(EntryView, int), DefError>(
                (e@, p as int),
            ),
            Err(e) => entry_at(tokens_view(toks@), i as int, end as int) == Err::<(EntryView, int), DefError>(e),
        },
{
    let ghost tv = tokens_view(toks@);
    let src = match ident_at_exec(toks, i, end) {
        None => return Err(DefError::ExpectedIdent),
        Some(s) => s,
    };
    match ident_at_exec(toks, i + 1, end) {
        Some(kw) => {
            if !word_is(kw, &kw_on_failure_text()) {
                return Err(DefError::UnexpectedEdgeKeyword);
            }
            if !fat_arrow_at_exec(toks, i + 2, end) {
                return Err(DefError::ExpectedToken);
            }
            proof {
                lemma_group_at(tv, i + 4, end as int, '{');
            }
            let b = match group_at_exec(toks, i + 4, end, '{') {
                None => return Err(DefError::ExpectedToken),
                Some(b) => b,
            };
            let (fails, d) = match bracket_list_exec(toks, i + 5, b) {
                Err(e) => return Err(e),
                Ok(x) => x,
            };
            if !punct_at_exec(toks, b + 1, end, ';') {
                return Err(DefError::ExpectedToken);
            }
            if d != b {
                return Err(DefError::TrailingTokens);
            }
            Ok((EdgeEntry::Failure(src.clone(), fails), b + 2))
        },
        None => {
            if !fat_arrow_at_exec(toks, i + 1, end) {
                return Err(DefError::ExpectedToken);
            }
            if punct_at_exec(toks, i + 3, end, '[') {
                let (succs, d) = match bracket_list_exec(toks, i + 3, end) {
                    Err(e) => return Err(e),
                    Ok(x) => x,
                };
                if !punct_at_exec(toks, d, end, ';') {
                    return Err(DefError::ExpectedToken);
                }
                Ok((EdgeEntry::Success(src.clone(), succs), d + 1))
            } else if punct_at_exec(toks, i + 3, end, '{') {
                proof {
                    lemma_group_at(tv, i + 3, end as int, '{');
                }
                let b = match group_at_exec(toks, i + 3, end, '{') {
                    None => return Err(DefError::ExpectedToken),
                    Some(b) => b,
                };
                if punct_at_exec(toks, i + 4, b, '[') {
                    let (succs, d) = match bracket_list_exec(toks, i + 4, b) {
                        Err(e) => return Err(e),
                        Ok(x) => x,
                    };
                    if !punct_at_exec(toks, b + 1, end, ';') {
                        return Err(DefError::ExpectedToken);
                    }
                    if d != b {
                        return Err(DefError::TrailingTokens);
                    }
                    Ok((EdgeEntry::Success(src.clone(), succs), b + 2))
                } else {
                    let a = match arms_exec(toks, i + 4, b) {
                        Err(e) => return Err(e),
                        Ok(a) => a,
                    };
                    if !punct_at_exec(toks, b + 1, end, ';') {
                        return Err(DefError::ExpectedToken);
                    }
                    Ok((EdgeEntry::Composite(src.clone(), a), b + 2))
                }
            } else {
                Err(DefError::ExpectedSuccessorList)
            }
        },
    }
}

/// Reads `entries` at `i..end`.
fn entries_exec(toks: &Vec<Token>, i: usize, end: usize) -> (r: Result<Vec<EdgeEntry>, DefError>)
    requires
        end <= toks@.len(),
    ensures
        match r {
            Ok(v) => entries(tokens_view(toks@), i as int, end as int) == Ok::<Seq<EntryView>, DefError>(
                entries_view(v@),
            ),
            Err(e) => entries(tokens_view(toks@), i as int, end as int) == Err::<Seq<EntryView>, DefError>(
                e,
            ),
        },
{
    let ghost tv = tokens_view(toks@);
    let mut acc: Vec<EdgeEntry> = Vec::new();
    let mut j = i;
    proof {
        assert(entries_view(acc@) =~= Seq::empty());
        match entries(tv, i as int, end as int) {
            Ok(x) => {
                assert(Seq::empty() + x =~= x);
            },
            Err(_) => {},
        }
    }
    while j < end
        invariant
            tv == tokens_view(toks@),
            end <= toks@.len(),
            entries(tv, i as int, end as int) == extend(
                entries_view(acc@),
                entries(tv, j as int, end as int),
            ),
        decreases end - j,
    {
        proof {
            lemma_entry_at_progress(tv, j as int, end as int);
        }
        match entry_at_exec(toks, j, end) {
            Err(e) => {
                return Err(e);
            },
            Ok((e, next)) => {
                let ghost before = entries_view(acc@);
                let ghost ev = e@;
                acc.push(e);
                proof {
                    assert(entries_view(acc@) =~= before.push(ev));
                    lemma_extend_prepend(before, ev, entries(tv, next as int, end as int));
                }
                j = next;
            },
        }
    }
    proof {
        lemma_extend_empty(entries_view(acc@));
    }
    Ok(acc)
}

/// The top-level items read so far.
pub type ItemsRead = (Option<String>, Option<Vec<Token>>, Option<Vec<(String, EdgeKind)>>);

/// What the items read so far say, as text.
pub open spec fn items_view(got: ItemsRead) -> Items {
    (
        opt_name(got.0),
        opt_tokens(got.1),
        match got.2 {
            Some(v) => Some(edges_view(v@)),
            None => None,
        },
    )
}

/// Reads `item_at` at `i`.
fn item_at_exec(toks: &Vec<Token>, i: usize, got: ItemsRead) -> (r: Result<(ItemsRead, usize), DefError>)
    ensures
        match r {
            Ok((g, p)) => item_at(tokens_view(toks@), i as int, items_view(got)) == Ok::<(Items, int), DefError>(
                (items_view(g), p as int),
            ),
            Err(e) => item_at(tokens_view(toks@), i as int, items_view(got)) == Err::<(Items, int), DefError>(
                e,
            ),
        },
{
    let ghost tv = tokens_view(toks@);
    let n = toks.len();
    proof {
        assert(tv.len() == n);
    }
    let w = match ident_at_exec(toks, i, n) {
        None => return Err(DefError::UnexpectedToken),
        Some(w) => w,
    };
    if word_is(w, &kw_start_text()) {
        if got.0.is_some() {
            return Err(DefError::DuplicateStart);
        }
        if !punct_at_exec(toks, i + 1, n, '=') {
            return Err(DefError::ExpectedToken);
        }
        let s = match ident_at_exec(toks, i + 2, n) {
            None => return Err(DefError::ExpectedIdent),
            Some(s) => s,
        };
        if !punct_at_exec(toks, i + 3, n, ';') {
            return Err(DefError::ExpectedToken);
        }
        Ok(((Some(s.clone()), got.1, got.2), i + 4))
    } else if word_is(w, &kw_context_text()) {
        if got.1.is_some() {
            return Err(DefError::DuplicateContext);
        }
        if !punct_at_exec(toks, i + 1, n, '=') {
            return Err(DefError::ExpectedToken);
        }
        let t = type_end_exec(toks, i + 2, n, ';');
        proof {
            lemma_type_end(tv, i + 2, n as int, ';', 0, 0);
        }
        if t <= i + 2 {
            return Err(DefError::ExpectedType);
        }
        if !punct_at_exec(toks, t, n, ';') {
            return Err(DefError::ExpectedToken);
        }
        let ctx = copy_run(toks, i + 2, t);
        Ok(((got.0, Some(ctx), got.2), t + 1))
    } else if word_is(w, &kw_edges_text()) {
        if got.2.is_some() {
            return Err(DefError::DuplicateEdges);
        }
        proof {
            lemma_group_at(tv, i + 1, n as int, '{');
        }
        let c = match group_at_exec(toks, i + 1, n, '{') {
            None => return Err(DefError::ExpectedToken),
            Some(c) => c,
        };
        let es = match entries_exec(toks, i + 2, c) {
            Err(e) => return Err(e),
            Ok(es) => es,
        };
        let edges = group_edges(&es);
        Ok(((got.0, got.1, Some(edges)), c + 1))
    } else {
        Err(DefError::UnexpectedIdentifier)
    }
}

/// Reads `items` from `i` to the end.
fn items_exec(toks: &Vec<Token>, i: usize) -> (r: Result<ItemsRead, DefError>)
    ensures
        match r {
            Ok(g) => items(tokens_view(toks@), i as int, (None, None, None)) == Ok::<Items, DefError>(
                items_view(g),
            ),
            Err(e) => items(tokens_view(toks@), i as int, (None, None, None)) == Err::<Items, DefError>(e),
        },
{
    let ghost tv = tokens_view(toks@);
    let n = toks.len();
    let mut got: ItemsRead = (None, None, None);
    let mut j = i;
    proof {
        assert(tv.len() == n);
    }
    while j < n
        invariant
            tv == tokens_view(toks@),
            n == tv.len(),
            i <= j,
            items(tv, i as int, (None, None, None)) == items(tv, j as int, items_view(got)),
        decreases n - j,
    {
        proof {
            lemma_item_at_progress(tv, j as int, items_view(got));
        }
        match item_at_exec(toks, j, got) {
            Err(e) => {
                return Err(e);
            },
            Ok((g, next)) => {
                got = g;
                j = next;
            },
        }
    }
    Ok(got)
}

/// Reads `parse_def`.
fn parse_def_exec(toks: &Vec<Token>) -> (r: Result<WorkflowDef, DefError>)
    ensures
        match r {
            Ok(d) => parse_def(tokens_view(toks@)) == Ok::<DefView, DefError>(d@),
            Err(e) => parse_def(tokens_view(toks@)) == Err::<DefView, DefError>(e),
        },
{
    let ghost tv = tokens_view(toks@);
    let n = toks.len();
    proof {
        assert(tv.len() == n);
    }
    let (vis, i) = match visibility_exec(toks) {
        Err(e) => return Err(e),
        Ok(x) => x,
    };
    if !keyword_at_exec(toks, i, n, &kw_struct_text()) {
        return Err(DefError::ExpectedToken);
    }
    let name = match ident_at_exec(toks, i + 1, n) {
        None => return Err(DefError::ExpectedIdent),
        Some(w) => w.clone(),
    };
    let (gen, j) = match generics_exec(toks, i + 2, n) {
        Err(e) => return Err(e),
        Ok(x) => x,
    };
    proof {
        lemma_group_at(tv, j as int, n as int, '{');
    }
    let c = match group_at_exec(toks, j, n, '{') {
        None => return Err(DefError::ExpectedToken),
        Some(c) => c,
    };
    let fs = match fields_exec(toks, j + 1, c) {
        Err(e) => return Err(e),
        Ok(fs) => fs,
    };
    let got = match items_exec(toks, c + 1) {
        Err(e) => return Err(e),
        Ok(g) => g,
    };
    let (start, ctx, edges) = got;
    let start = match start {
        None => return Err(DefError::MissingStart),
        Some(s) => s,
    };
    let edges = match edges {
        None => return Err(DefError::MissingEdges),
        Some(e) => e,
    };
    let context = match ctx {
        Some(t) => t,
        None => {
            let unit = vec![Token::Punct('(', true), Token::Punct(')', false)];
            proof {
                assert(tokens_view(unit@) =~= unit_type());
            }
            unit
        },
    };
    Ok(WorkflowDef { vis, name, generics: gen, fields: fs, start, context, edges })
}

impl WorkflowDef {
    /// Reads a workflow definition from its text.
    pub fn parse(text: &str) -> (r: Result<WorkflowDef, DefError>)
        ensures
            match r {
                Ok(d) => parse_text(text@) == Ok::<DefView, DefError>(d@),
                Err(e) => parse_text(text@) == Err::<DefView, DefError>(e),
            },
    {
        let toks = match tokenize(text) {
            Err(e) => return Err(e),
            Ok(t) => t,
        };
        parse_def_exec(&toks)
    }
}

fn kw_input_text() -> (r: Vec<char>)
    ensures
        r@ == kw_input(),
{
    let v = vec!['i', 'n', 'p', 'u', 't'];
    assert(v@ == kw_input());
    v
}

fn kw_output_text() -> (r: Vec<char>)
    ensures
        r@ == kw_output(),
{
    let v = vec!['o', 'u', 't', 'p', 'u', 't'];
    assert(v@ == kw_output());
    v
}

/// Reads `plain_field_at` at `i`.
fn plain_field_at_exec(toks: &Vec<Token>, i: usize, end: usize) -> (r: Result<((String, Vec<Token>), usize), DefError>)
    requires
        end <= toks@.len(),
    ensures
        match r {
            Ok((f, p)) => plain_field_at(tokens_view(toks@), i as int, end as int) == Ok::<
                ((Seq<char>, Seq<TokenView>), int),
                DefError,
            >(((f.0@, tokens_view(f.1@)), p as int)),
            Err(e) => plain_field_at(tokens_view(toks@), i as int, end as int) == Err::<
                ((Seq<char>, Seq<TokenView>), int),
                DefError,
            >(e),
        },
{
    match ident_at_exec(toks, i, end) {
        None => Err(DefError::ExpectedIdent),
        Some(name) => if !punct_at_exec(toks, i + 1, end, ':') {
            Err(DefError::ExpectedToken)
        } else {
            let t = type_end_exec(toks, i + 2, end, ',');
            if t <= i + 2 {
                Err(DefError::ExpectedType)
            } else {
                proof {
                    lemma_type_end(tokens_view(toks@), i + 2, end as int, ',', 0, 0);
                }
                let next = if t < end {
                    t + 1
                } else {
                    t
                };
                Ok(((name.clone(), copy_run(toks, i + 2, t)), next))
            }
        },
    }
}

/// Reads `plain_fields` at `i..end`.
fn plain_fields_exec(toks: &Vec<Token>, i: usize, end: usize) -> (r: Result<Vec<(String, Vec<Token>)>, DefError>)
    requires
        end <= toks@.len(),
    ensures
        match r {
            Ok(v) => plain_fields(tokens_view(toks@), i as int, end as int) == Ok::<
                Seq<(Seq<char>, Seq<TokenView>)>,
                DefError,
            >(plain_fields_view(v@)),
            Err(e) => plain_fields(tokens_view(toks@), i as int, end as int) == Err::<
                Seq<(Seq<char>, Seq<TokenView>)>,
                DefError,
            >(e),
        },
{
    let ghost tv = tokens_view(toks@);
    let mut acc: Vec<(String, Vec<Token>)> = Vec::new();
    let mut j = i;
    proof {
        assert(plain_fields_view(acc@) =~= Seq::empty());
        match plain_fields(tv, i as int, end as int) {
            Ok(x) => {
                assert(Seq::empty() + x =~= x);
            },
            Err(_) => {},
        }
    }
    while j < end
        invariant
            tv == tokens_view(toks@),
            end <= toks@.len(),
            plain_fields(tv, i as int, end as int) == extend(
                plain_fields_view(acc@),
                plain_fields(tv, j as int, end as int),
            ),
        decreases end - j,
    {
        proof {
            lemma_plain_field_at_progress(tv, j as int, end as int);
        }
        match plain_field_at_exec(toks, j, end) {
            Err(e) => {
                return Err(e);
            },
            Ok((f, next)) => {
                let ghost before = plain_fields_view(acc@);
                let ghost fv = (f.0@, tokens_view(f.1@));
                acc.push(f);
                proof {
                    assert(plain_fields_view(acc@) =~= before.push(fv));
                    lemma_extend_prepend(before, fv, plain_fields(tv, next as int, end as int));
                }
                j = next;
            },
        }
    }
    proof {
        lemma_extend_empty(plain_fields_view(acc@));
    }
    Ok(acc)
}

/// Reads `section_at` at `i`.
fn section_at_exec(toks: &Vec<Token>, i: usize, kw: &Vec<char>, missing: DefError) -> (r: Result<(Vec<Token>, usize), DefError>)
    ensures
        match r {
            Ok((t, p)) => section_at(tokens_view(toks@), i as int, kw@, missing) == Ok::<(Seq<TokenView>, int), DefError>(
                (tokens_view(t@), p as int),
            ),
            Err(e) => section_at(tokens_view(toks@), i as int, kw@, missing) == Err::<(Seq<TokenView>, int), DefError>(e),
        },
{
    let n = toks.len();
    proof {
        assert(tokens_view(toks@).len() == n);
    }
    let w = match ident_at_exec(toks, i, n) {
        None => return Err(DefError::ExpectedIdent),
        Some(w) => w,
    };
    if !word_is(w, kw) {
        return Err(missing);
    }
    if !punct_at_exec(toks, i + 1, n, '=') {
        return Err(DefError::ExpectedToken);
    }
    let t = type_end_exec(toks, i + 2, n, ';');
    proof {
        lemma_type_end(tokens_view(toks@), i + 2, n as int, ';', 0, 0);
    }
    if t <= i + 2 {
        return Err(DefError::ExpectedType);
    }
    if !punct_at_exec(toks, t, n, ';') {
        return Err(DefError::ExpectedToken);
    }
    Ok((copy_run(toks, i + 2, t), t + 1))
}

/// Reads `parse_node`.
fn parse_node_exec(toks: &Vec<Token>) -> (r: Result<NodeDef, DefError>)
    ensures
        match r {
            Ok(d) => parse_node(tokens_view(toks@)) == Ok::<NodeDefView, DefError>(d@),
            Err(e) => parse_node(tokens_view(toks@)) == Err::<NodeDefView, DefError>(e),
        },
{
    let ghost tv = tokens_view(toks@);
    let n = toks.len();
    proof {
        assert(tv.len() == n);
    }
    let (vis, i) = match visibility_exec(toks) {
        Err(e) => return Err(e),
        Ok(x) => x,
    };
    if !keyword_at_exec(toks, i, n, &kw_struct_text()) {
        return Err(DefError::ExpectedToken);
    }
    let name = match ident_at_exec(toks, i + 1, n) {
        None => return Err(DefError::ExpectedIdent),
        Some(w) => w.clone(),
    };
    proof {
        lemma_group_at(tv, i + 2, n as int, '{');
    }
    let c = match group_at_exec(toks, i + 2, n, '{') {
        None => return Err(DefError::ExpectedToken),
        Some(c) => c,
    };
    let fields = match plain_fields_exec(toks, i + 3, c) {
        Err(e) => return Err(e),
        Ok(f) => f,
    };
    if !punct_at_exec(toks, c + 1, n, ';') {
        return Err(DefError::ExpectedToken);
    }
    let (ctx_ty, j1) = match section_at_exec(toks, c + 2, &kw_context_text(), DefError::ExpectedContextSection) {
        Err(e) => return Err(e),
        Ok(x) => x,
    };
    let (input_ty, j2) = match section_at_exec(toks, j1, &kw_input_text(), DefError::ExpectedInputSection) {
        Err(e) => return Err(e),
        Ok(x) => x,
    };
    let (output_ty, j) = match section_at_exec(toks, j2, &kw_output_text(), DefError::ExpectedOutputSection) {
        Err(e) => return Err(e),
        Ok(x) => x,
    };
    if !punct_at_exec(toks, j, n, '|') {
        return Err(DefError::ExpectedToken);
    }
    let ctx_arg = match ident_at_exec(toks, j + 1, n) {
        None => return Err(DefError::ExpectedIdent),
        Some(w) => w.clone(),
    };
    if !punct_at_exec(toks, j + 2, n, ',') {
        return Err(DefError::ExpectedToken);
    }
    let input_arg = match ident_at_exec(toks, j + 3, n) {
        None => return Err(DefError::ExpectedIdent),
        Some(w) => w.clone(),
    };
    if !punct_at_exec(toks, j + 4, n, '|') {
        return Err(DefError::ExpectedToken);
    }
    proof {
        lemma_group_at(tv, j + 5, n as int, '{');
    }
    let b = match group_at_exec(toks, j + 5, n, '{') {
        None => return Err(DefError::ExpectedToken),
        Some(b) => b,
    };
    if b + 1 != n {
        return Err(DefError::TrailingTokens);
    }
    let body = copy_run(toks, j + 6, b);
    Ok(NodeDef { vis, name, fields, ctx_ty, input_ty, output_ty, ctx_arg, input_arg, body })
}

impl NodeDef {
    /// Reads a node declaration from its text.
    pub fn parse(text: &str) -> (r: Result<NodeDef, DefError>)
        ensures
            match r {
                Ok(d) => parse_node_text(text@) == Ok::<NodeDefView, DefError>(d@),
                Err(e) => parse_node_text(text@) == Err::<NodeDefView, DefError>(e),
            },
    {
        let toks = match tokenize(text) {
            Err(e) => return Err(e),
            Ok(t) => t,
        };
        parse_node_exec(&toks)
    }
}

} // verus!
