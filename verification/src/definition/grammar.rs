//! The grammar of workflow definitions, over tokens.
//!
//! Each production reads the tokens from a position `i` up to an end `end`
//! (the closing delimiter of the group it is in, or the end of the text)
//! and gives what it read with the position after it, or the error at the
//! first token that does not fit. Types and guard expressions are token
//! runs: a type runs to the next `,` or `;` outside any delimiter and
//! outside `<`..`>`, a guard to the next `=>` outside any delimiter.
use vstd::prelude::*;
use crate::definition::token::{DefError, TokenView, is_opener, is_closer, tokenize_spec};
use crate::definition::ast::{ArmView, DefView, EdgeKindView, EntryView, NodeDefView, VisibilityView};
use crate::definition::edges::grouped;

verus! {

/// The words that cannot name anything.
pub open spec fn is_keyword(w: Seq<char>) -> bool {
    w == seq!['_']
        || w == seq!['a', 'b', 's', 't', 'r', 'a', 'c', 't']
        || w == seq!['a', 's']
        || w == seq!['a', 's', 'y', 'n', 'c']
        || w == seq!['a', 'w', 'a', 'i', 't']
        || w == seq!['b', 'e', 'c', 'o', 'm', 'e']
        || w == seq!['b', 'o', 'x']
        || w == seq!['b', 'r', 'e', 'a', 'k']
        || w == seq!['c', 'o', 'n', 's', 't']
        || w == seq!['c', 'o', 'n', 't', 'i', 'n', 'u', 'e']
        || w == seq!['c', 'r', 'a', 't', 'e']
        || w == seq!['d', 'o']
        || w == seq!['d', 'y', 'n']
        || w == seq!['e', 'l', 's', 'e']
        || w == seq!['e', 'n', 'u', 'm']
        || w == seq!['e', 'x', 't', 'e', 'r', 'n']
        || w == seq!['f', 'a', 'l', 's', 'e']
        || w == seq!['f', 'i', 'n', 'a', 'l']
        || w == seq!['f', 'n']
        || w == seq!['f', 'o', 'r']
        || w == seq!['i', 'f']
        || w == seq!['i', 'm', 'p', 'l']
        || w == seq!['i', 'n']
        || w == seq!['l', 'e', 't']
        || w == seq!['l', 'o', 'o', 'p']
        || w == seq!['m', 'a', 'c', 'r', 'o']
        || w == seq!['m', 'a', 't', 'c', 'h']
        || w == seq!['m', 'o', 'd']
        || w == seq!['m', 'o', 'v', 'e']
        || w == seq!['m', 'u', 't']
        || w == seq!['o', 'v', 'e', 'r', 'r', 'i', 'd', 'e']
        || w == seq!['p', 'r', 'i', 'v']
        || w == seq!['p', 'u', 'b']
        || w == seq!['r', 'e', 'f']
        || w == seq!['r', 'e', 't', 'u', 'r', 'n']
        || w == seq!['S', 'e', 'l', 'f']
        || w == seq!['s', 'e', 'l', 'f']
        || w == seq!['s', 't', 'a', 't', 'i', 'c']
        || w == seq!['s', 't', 'r', 'u', 'c', 't']
        || w == seq!['s', 'u', 'p', 'e', 'r']
        || w == seq!['t', 'r', 'a', 'i', 't']
        || w == seq!['t', 'r', 'u', 'e']
        || w == seq!['t', 'r', 'y']
        || w == seq!['t', 'y', 'p', 'e']
        || w == seq!['t', 'y', 'p', 'e', 'o', 'f']
        || w == seq!['u', 'n', 's', 'a', 'f', 'e']
        || w == seq!['u', 'n', 's', 'i', 'z', 'e', 'd']
        || w == seq!['u', 's', 'e']
        || w == seq!['v', 'i', 'r', 't', 'u', 'a', 'l']
        || w == seq!['w', 'h', 'e', 'r', 'e']
        || w == seq!['w', 'h', 'i', 'l', 'e']
        || w == seq!['y', 'i', 'e', 'l', 'd']
}

/// A word that can name a field, a node, a type or a variant.
pub open spec fn is_ident(w: Seq<char>) -> bool {
    &&& w.len() > 0
    &&& !('0' <= w[0] && w[0] <= '9')
    &&& !is_keyword(w)
}

pub open spec fn kw_pub() -> Seq<char> {
    seq!['p', 'u', 'b']
}

pub open spec fn kw_struct() -> Seq<char> {
    seq!['s', 't', 'r', 'u', 'c', 't']
}

pub open spec fn kw_crate() -> Seq<char> {
    seq!['c', 'r', 'a', 't', 'e']
}

pub open spec fn kw_self() -> Seq<char> {
    seq!['s', 'e', 'l', 'f']
}

pub open spec fn kw_super() -> Seq<char> {
    seq!['s', 'u', 'p', 'e', 'r']
}

pub open spec fn kw_in() -> Seq<char> {
    seq!['i', 'n']
}

pub open spec fn kw_retry() -> Seq<char> {
    seq!['r', 'e', 't', 'r', 'y']
}

pub open spec fn kw_start() -> Seq<char> {
    seq!['s', 't', 'a', 'r', 't']
}

pub open spec fn kw_context() -> Seq<char> {
    seq!['c', 'o', 'n', 't', 'e', 'x', 't']
}

pub open spec fn kw_edges() -> Seq<char> {
    seq!['e', 'd', 'g', 'e', 's']
}

pub open spec fn kw_on_failure() -> Seq<char> {
    seq!['o', 'n', '_', 'f', 'a', 'i', 'l', 'u', 'r', 'e']
}

pub open spec fn kw_if() -> Seq<char> {
    seq!['i', 'f']
}

pub open spec fn kw_underscore() -> Seq<char> {
    seq!['_']
}

/// The context type when none is written: `()`.
pub open spec fn unit_type() -> Seq<TokenView> {
    seq![TokenView::Punct('(', true), TokenView::Punct(')', false)]
}

/// Whether `i` is a position before `end` in `toks`.
pub open spec fn in_range(toks: Seq<TokenView>, i: int, end: int) -> bool {
    0 <= i < end <= toks.len()
}

/// The word at `i`, if there is one before `end`.
pub open spec fn word_at(toks: Seq<TokenView>, i: int, end: int) -> Option<Seq<char>> {
    if in_range(toks, i, end) {
        match toks[i] {
            TokenView::Word(w) => Some(w),
            TokenView::Punct(..) => None,
        }
    } else {
        None
    }
}

/// The identifier at `i`, if there is one before `end`.
pub open spec fn ident_at(toks: Seq<TokenView>, i: int, end: int) -> Option<Seq<char>> {
    match word_at(toks, i, end) {
        Some(w) => if is_ident(w) {
            Some(w)
        } else {
            None
        },
        None => None,
    }
}

/// Whether the word `kw` stands at `i`, before `end`.
pub open spec fn keyword_at(toks: Seq<TokenView>, i: int, end: int, kw: Seq<char>) -> bool {
    word_at(toks, i, end) == Some(kw)
}

/// Whether the punctuation `c` stands at `i`, before `end`.
pub open spec fn punct_at(toks: Seq<TokenView>, i: int, end: int, c: char) -> bool {
    in_range(toks, i, end) && (toks[i] matches TokenView::Punct(p, _) && p == c)
}

/// Whether `=>` stands at `i`, before `end`.
pub open spec fn fat_arrow_at(toks: Seq<TokenView>, i: int, end: int) -> bool {
    in_range(toks, i, end) && toks[i] == TokenView::Punct('=', true) && punct_at(toks, i + 1, end, '>')
}

/// Whether `::` stands at `i`, before `end`.
pub open spec fn path_sep_at(toks: Seq<TokenView>, i: int, end: int) -> bool {
    in_range(toks, i, end) && toks[i] == TokenView::Punct(':', true) && punct_at(toks, i + 1, end, ':')
}

/// The position of the closer that ends a group, scanning from `j` with
/// `depth` groups open, before `end`.
pub open spec fn close_from(toks: Seq<TokenView>, j: int, end: int, depth: int) -> Option<int>
    decreases end - j,
{
    if j < 0 || j >= end || end > toks.len() {
        None
    } else {
        match toks[j] {
            TokenView::Punct(c, _) => {
                if is_opener(c) {
                    close_from(toks, j + 1, end, depth + 1)
                } else if is_closer(c) {
                    if depth <= 1 {
                        Some(j)
                    } else {
                        close_from(toks, j + 1, end, depth - 1)
                    }
                } else {
                    close_from(toks, j + 1, end, depth)
                }
            },
            TokenView::Word(_) => close_from(toks, j + 1, end, depth),
        }
    }
}

/// The position of the closer of the group that `open` opens at `i`.
pub open spec fn group_at(toks: Seq<TokenView>, i: int, end: int, open: char) -> Option<int> {
    if punct_at(toks, i, end, open) {
        close_from(toks, i + 1, end, 1)
    } else {
        None
    }
}

/// Whether the token at `j` is the `>` of an arrow `->`.
pub open spec fn is_arrow_head(toks: Seq<TokenView>, j: int) -> bool {
    0 < j < toks.len() && toks[j - 1] == TokenView::Punct('-', true)
}

/// Where a type that reaches `j` ends: at the next `stop` outside any
/// delimiter and outside `<`..`>`, or at `end`.
pub open spec fn type_end_from(
    toks: Seq<TokenView>,
    j: int,
    end: int,
    stop: char,
    depth: int,
    angle: int,
) -> int
    decreases end - j,
{
    if j < 0 || j >= end || end > toks.len() {
        end
    } else {
        match toks[j] {
            TokenView::Punct(c, _) => {
                if is_opener(c) {
                    type_end_from(toks, j + 1, end, stop, depth + 1, angle)
                } else if is_closer(c) {
                    type_end_from(toks, j + 1, end, stop, depth - 1, angle)
                } else if depth == 0 && angle == 0 && c == stop {
                    j
                } else if depth == 0 && c == '<' {
                    type_end_from(toks, j + 1, end, stop, depth, angle + 1)
                } else if depth == 0 && c == '>' && angle > 0 && !is_arrow_head(toks, j) {
                    type_end_from(toks, j + 1, end, stop, depth, angle - 1)
                } else {
                    type_end_from(toks, j + 1, end, stop, depth, angle)
                }
            },
            TokenView::Word(_) => type_end_from(toks, j + 1, end, stop, depth, angle),
        }
    }
}

/// Where a guard that reaches `j` ends: at the next `=>` outside any
/// delimiter, or at `end`.
pub open spec fn guard_end_from(toks: Seq<TokenView>, j: int, end: int, depth: int) -> int
    decreases end - j,
{
    if j < 0 || j >= end || end > toks.len() {
        end
    } else {
        match toks[j] {
            TokenView::Punct(c, _) => {
                if depth == 0 && fat_arrow_at(toks, j, end) {
                    j
                } else if is_opener(c) {
                    guard_end_from(toks, j + 1, end, depth + 1)
                } else if is_closer(c) {
                    guard_end_from(toks, j + 1, end, depth - 1)
                } else {
                    guard_end_from(toks, j + 1, end, depth)
                }
            },
            TokenView::Word(_) => guard_end_from(toks, j + 1, end, depth),
        }
    }
}

/// Where generics that reach `j` with `depth` `<` open end: the position of
/// the `>` that closes them, or `end`.
pub open spec fn angle_close_from(toks: Seq<TokenView>, j: int, end: int, depth: int) -> int
    decreases end - j,
{
    if j < 0 || j >= end || end > toks.len() {
        end
    } else {
        match toks[j] {
            TokenView::Punct(c, _) => {
                if c == '<' {
                    angle_close_from(toks, j + 1, end, depth + 1)
                } else if c == '>' && !is_arrow_head(toks, j) {
                    if depth <= 1 {
                        j
                    } else {
                        angle_close_from(toks, j + 1, end, depth - 1)
                    }
                } else {
                    angle_close_from(toks, j + 1, end, depth)
                }
            },
            TokenView::Word(_) => angle_close_from(toks, j + 1, end, depth),
        }
    }
}

/// `prefix` before what `rest` holds, or `rest`'s error.
pub open spec fn prepend<T>(prefix: T, rest: Result<Seq<T>, DefError>) -> Result<Seq<T>, DefError> {
    match rest {
        Ok(r) => Ok(seq![prefix] + r),
        Err(e) => Err(e),
    }
}

/// A comma-separated list of identifiers filling `i..end`, with an
/// optional trailing comma.
pub open spec fn ident_list(toks: Seq<TokenView>, i: int, end: int) -> Result<Seq<Seq<char>>, DefError>
    decreases end - i,
{
    if i >= end {
        Ok(Seq::empty())
    } else {
        match ident_at(toks, i, end) {
            None => Err(DefError::ExpectedIdent),
            Some(w) => if i + 1 >= end {
                Ok(seq![w])
            } else if punct_at(toks, i + 1, end, ',') {
                prepend(w, ident_list(toks, i + 2, end))
            } else {
                Err(DefError::ExpectedToken)
            },
        }
    }
}

/// `[names]` at `i`: the names and the position after the `]`.
pub open spec fn bracket_list(toks: Seq<TokenView>, i: int, end: int) -> Result<(Seq<Seq<char>>, int), DefError> {
    match group_at(toks, i, end, '[') {
        None => Err(DefError::ExpectedToken),
        Some(d) => match ident_list(toks, i + 1, d) {
            Ok(names) => Ok((names, d + 1)),
            Err(e) => Err(e),
        },
    }
}

/// The visibility at the start of a definition, and the position after it.
pub open spec fn visibility(toks: Seq<TokenView>) -> Result<(VisibilityView, int), DefError> {
    let n = toks.len() as int;
    if keyword_at(toks, 0, n, kw_pub()) {
        match group_at(toks, 1, n, '(') {
            Some(c) => {
                if c == 3 && (keyword_at(toks, 2, c, kw_crate()) || keyword_at(toks, 2, c, kw_self())
                    || keyword_at(toks, 2, c, kw_super())) {
                    Ok((VisibilityView::Restricted(toks.subrange(2, c)), c + 1))
                } else if keyword_at(toks, 2, c, kw_in()) {
                    if c > 3 {
                        Ok((VisibilityView::Restricted(toks.subrange(2, c)), c + 1))
                    } else {
                        Err(DefError::ExpectedIdent)
                    }
                } else {
                    Ok((VisibilityView::Public, 1))
                }
            },
            None => Ok((VisibilityView::Public, 1)),
        }
    } else {
        Ok((VisibilityView::Inherited, 0))
    }
}

/// The generics at `i` (empty when no `<` stands there) and the position
/// after them.
pub open spec fn generics(toks: Seq<TokenView>, i: int, end: int) -> Result<(Seq<TokenView>, int), DefError> {
    if punct_at(toks, i, end, '<') {
        let j = angle_close_from(toks, i + 1, end, 1);
        if j < end {
            Ok((toks.subrange(i, j + 1), j + 1))
        } else {
            Err(DefError::ExpectedToken)
        }
    } else {
        Ok((Seq::empty(), i))
    }
}

/// The optional `#[retry = policy]` before a field, and the position after it.
pub open spec fn retry_attr(toks: Seq<TokenView>, i: int, end: int) -> Result<(Option<Seq<char>>, int), DefError> {
    if punct_at(toks, i, end, '#') {
        match group_at(toks, i + 1, end, '[') {
            None => Err(DefError::ExpectedToken),
            Some(c) => match ident_at(toks, i + 2, c) {
                None => Err(DefError::ExpectedIdent),
                Some(name) => if name != kw_retry() {
                    Err(DefError::UnknownAttribute)
                } else if !punct_at(toks, i + 3, c, '=') {
                    Err(DefError::ExpectedToken)
                } else {
                    match ident_at(toks, i + 4, c) {
                        None => Err(DefError::ExpectedIdent),
                        Some(p) => if i + 5 == c {
                            Ok((Some(p), c + 1))
                        } else {
                            Err(DefError::TrailingTokens)
                        },
                    }
                },
            },
        }
    } else {
        Ok((None, i))
    }
}

/// One field at `i`: `#[retry = policy]`? `name: Type` `,`? and the
/// position after it.
pub open spec fn field_at(toks: Seq<TokenView>, i: int, end: int) -> Result<
    ((Seq<char>, Seq<TokenView>, Option<Seq<char>>), int),
    DefError,
> {
    match retry_attr(toks, i, end) {
        Err(e) => Err(e),
        Ok((retry, j)) => match ident_at(toks, j, end) {
            None => Err(DefError::ExpectedIdent),
            Some(name) => if !punct_at(toks, j + 1, end, ':') {
                Err(DefError::ExpectedToken)
            } else {
                let t = type_end_from(toks, j + 2, end, ',', 0, 0);
                if t <= j + 2 {
                    Err(DefError::ExpectedType)
                } else {
                    let next = if t < end {
                        t + 1
                    } else {
                        t
                    };
                    Ok(((name, toks.subrange(j + 2, t), retry), next))
                }
            },
        },
    }
}

/// The fields filling `i..end`.
pub open spec fn fields(toks: Seq<TokenView>, i: int, end: int) -> Result<
    Seq<(Seq<char>, Seq<TokenView>, Option<Seq<char>>)>,
    DefError,
>
    decreases end - i,
{
    if i < 0 || i >= end || end > toks.len() {
        Ok(Seq::empty())
    } else {
        match field_at(toks, i, end) {
            Err(e) => Err(e),
            Ok((f, next)) => {
                proof {
                    lemma_field_at_progress(toks, i, end);
                }
                prepend(f, fields(toks, next, end))
            },
        }
    }
}

/// The optional `(binding)` or `(_)` after an arm's variant at `i`:
/// the binding, whether it is a wildcard, and the position after it.
pub open spec fn arm_binding(toks: Seq<TokenView>, i: int, end: int) -> Result<(Option<Seq<char>>, bool, int), DefError> {
    if punct_at(toks, i, end, '(') {
        match group_at(toks, i, end, '(') {
            None => Err(DefError::ExpectedToken),
            Some(c) => if keyword_at(toks, i + 1, c, kw_underscore()) {
                if i + 2 == c {
                    Ok((None, true, c + 1))
                } else {
                    Err(DefError::TrailingTokens)
                }
            } else {
                match ident_at(toks, i + 1, c) {
                    Some(b) => if i + 2 == c {
                        Ok((Some(b), false, c + 1))
                    } else {
                        Err(DefError::TrailingTokens)
                    },
                    None => Err(DefError::ExpectedBinding),
                }
            },
        }
    } else {
        Ok((None, true, i))
    }
}

/// The optional `if guard` at `i`, and the position after it.
pub open spec fn arm_guard(toks: Seq<TokenView>, i: int, end: int) -> Result<(Option<Seq<TokenView>>, int), DefError> {
    if keyword_at(toks, i, end, kw_if()) {
        let g = guard_end_from(toks, i + 1, end, 0);
        if g <= i + 1 {
            Err(DefError::ExpectedExpr)
        } else {
            Ok((Some(toks.subrange(i + 1, g)), g))
        }
    } else {
        Ok((None, i))
    }
}

/// One composite arm at `i`: `Action::Variant(binding) if guard => [succs];`
/// and the position after it.
pub open spec fn arm_at(toks: Seq<TokenView>, i: int, end: int) -> Result<(ArmView, int), DefError> {
    match ident_at(toks, i, end) {
        None => Err(DefError::ExpectedIdent),
        Some(action_path) => if !path_sep_at(toks, i + 1, end) {
            Err(DefError::ExpectedToken)
        } else {
            match ident_at(toks, i + 3, end) {
                None => Err(DefError::ExpectedIdent),
                Some(variant) => match arm_binding(toks, i + 4, end) {
                    Err(e) => Err(e),
                    Ok((binding, is_wildcard, j)) => match arm_guard(toks, j, end) {
                        Err(e) => Err(e),
                        Ok((guard, k)) => if !fat_arrow_at(toks, k, end) {
                            Err(DefError::ExpectedToken)
                        } else {
                            match bracket_list(toks, k + 2, end) {
                                Err(e) => Err(e),
                                Ok((succs, m)) => if !punct_at(toks, m, end, ';') {
                                    Err(DefError::ExpectedToken)
                                } else {
                                    Ok(
                                        (
                                            ArmView {
                                                action_path,
                                                variant,
                                                binding,
                                                is_wildcard,
                                                guard,
                                                succs,
                                            },
                                            m + 1,
                                        ),
                                    )
                                },
                            }
                        },
                    },
                },
            }
        },
    }
}

/// The arms filling `i..end`.
pub open spec fn arms(toks: Seq<TokenView>, i: int, end: int) -> Result<Seq<ArmView>, DefError>
    decreases end - i,
{
    if i < 0 || i >= end || end > toks.len() {
        Ok(Seq::empty())
    } else {
        match arm_at(toks, i, end) {
            Err(e) => Err(e),
            Ok((a, next)) => {
                proof {
                    lemma_arm_at_progress(toks, i, end);
                }
                prepend(a, arms(toks, next, end))
            },
        }
    }
}

/// One edge entry at `i`, and the position after it:
/// `src on_failure => {[fallbacks]};`, `src => [succs];`,
/// `src => {[succs]};` or `src => { arms };`.
pub open spec fn entry_at(toks: Seq<TokenView>, i: int, end: int) -> Result<(EntryView, int), DefError> {
    match ident_at(toks, i, end) {
        None => Err(DefError::ExpectedIdent),
        Some(src) => match ident_at(toks, i + 1, end) {
            Some(kw) => if kw != kw_on_failure() {
                Err(DefError::UnexpectedEdgeKeyword)
            } else if !fat_arrow_at(toks, i + 2, end) {
                Err(DefError::ExpectedToken)
            } else {
                match group_at(toks, i + 4, end, '{') {
                    None => Err(DefError::ExpectedToken),
                    Some(b) => match bracket_list(toks, i + 5, b) {
                        Err(e) => Err(e),
                        Ok((fails, d)) => if !punct_at(toks, b + 1, end, ';') {
                            Err(DefError::ExpectedToken)
                        } else if d != b {
                            Err(DefError::TrailingTokens)
                        } else {
                            Ok((EntryView::Failure(src, fails), b + 2))
                        },
                    },
                }
            },
            None => if !fat_arrow_at(toks, i + 1, end) {
                Err(DefError::ExpectedToken)
            } else if punct_at(toks, i + 3, end, '[') {
                match bracket_list(toks, i + 3, end) {
                    Err(e) => Err(e),
                    Ok((succs, d)) => if !punct_at(toks, d, end, ';') {
                        Err(DefError::ExpectedToken)
                    } else {
                        Ok((EntryView::Success(src, succs), d + 1))
                    },
                }
            } else if punct_at(toks, i + 3, end, '{') {
                match group_at(toks, i + 3, end, '{') {
                    None => Err(DefError::ExpectedToken),
                    Some(b) => if punct_at(toks, i + 4, b, '[') {
                        match bracket_list(toks, i + 4, b) {
                            Err(e) => Err(e),
                            Ok((succs, d)) => if !punct_at(toks, b + 1, end, ';') {
                                Err(DefError::ExpectedToken)
                            } else if d != b {
                                Err(DefError::TrailingTokens)
                            } else {
                                Ok((EntryView::Success(src, succs), b + 2))
                            },
                        }
                    } else {
                        match arms(toks, i + 4, b) {
                            Err(e) => Err(e),
                            Ok(a) => if !punct_at(toks, b + 1, end, ';') {
                                Err(DefError::ExpectedToken)
                            } else {
                                Ok((EntryView::Composite(src, a), b + 2))
                            },
                        }
                    },
                }
            } else {
                Err(DefError::ExpectedSuccessorList)
            },
        },
    }
}

/// The edge entries filling `i..end`.
pub open spec fn entries(toks: Seq<TokenView>, i: int, end: int) -> Result<Seq<EntryView>, DefError>
    decreases end - i,
{
    if i < 0 || i >= end || end > toks.len() {
        Ok(Seq::empty())
    } else {
        match entry_at(toks, i, end) {
            Err(e) => Err(e),
            Ok((e, next)) => {
                proof {
                    lemma_entry_at_progress(toks, i, end);
                }
                prepend(e, entries(toks, next, end))
            },
        }
    }
}

/// What the top-level items give: start, context, edges.
pub type Items = (Option<Seq<char>>, Option<Seq<TokenView>>, Option<Seq<(Seq<char>, EdgeKindView)>>);

/// One top-level item at `i` (`start = node;`, `context = Type;` or
/// `edges { ... }`), updating what was read before it, and the position
/// after it.
pub open spec fn item_at(toks: Seq<TokenView>, i: int, got: Items) -> Result<(Items, int), DefError> {
    let n = toks.len() as int;
    match ident_at(toks, i, n) {
        None => Err(DefError::UnexpectedToken),
        Some(w) => if w == kw_start() {
            if got.0 is Some {
                Err(DefError::DuplicateStart)
            } else if !punct_at(toks, i + 1, n, '=') {
                Err(DefError::ExpectedToken)
            } else {
                match ident_at(toks, i + 2, n) {
                    None => Err(DefError::ExpectedIdent),
                    Some(s) => if !punct_at(toks, i + 3, n, ';') {
                        Err(DefError::ExpectedToken)
                    } else {
                        Ok(((Some(s), got.1, got.2), i + 4))
                    },
                }
            }
        } else if w == kw_context() {
            if got.1 is Some {
                Err(DefError::DuplicateContext)
            } else if !punct_at(toks, i + 1, n, '=') {
                Err(DefError::ExpectedToken)
            } else {
                let t = type_end_from(toks, i + 2, n, ';', 0, 0);
                if t <= i + 2 {
                    Err(DefError::ExpectedType)
                } else if !punct_at(toks, t, n, ';') {
                    Err(DefError::ExpectedToken)
                } else {
                    Ok(((got.0, Some(toks.subrange(i + 2, t)), got.2), t + 1))
                }
            }
        } else if w == kw_edges() {
            if got.2 is Some {
                Err(DefError::DuplicateEdges)
            } else {
                match group_at(toks, i + 1, n, '{') {
                    None => Err(DefError::ExpectedToken),
                    Some(c) => match entries(toks, i + 2, c) {
                        Err(e) => Err(e),
                        Ok(es) => Ok(((got.0, got.1, Some(grouped(es))), c + 1)),
                    },
                }
            }
        } else {
            Err(DefError::UnexpectedIdentifier)
        },
    }
}

/// The top-level items from `i` to the end of the text.
pub open spec fn items(toks: Seq<TokenView>, i: int, got: Items) -> Result<Items, DefError>
    decreases toks.len() - i,
{
    if i < 0 || i >= toks.len() {
        Ok(got)
    } else {
        match item_at(toks, i, got) {
            Err(e) => Err(e),
            Ok((g, next)) => {
                proof {
                    lemma_item_at_progress(toks, i, got);
                }
                items(toks, next, g)
            },
        }
    }
}

/// The workflow definition that the tokens spell.
pub open spec fn parse_def(toks: Seq<TokenView>) -> Result<DefView, DefError> {
    let n = toks.len() as int;
    match visibility(toks) {
        Err(e) => Err(e),
        Ok((vis, i)) => if !keyword_at(toks, i, n, kw_struct()) {
            Err(DefError::ExpectedToken)
        } else {
            match ident_at(toks, i + 1, n) {
                None => Err(DefError::ExpectedIdent),
                Some(name) => match generics(toks, i + 2, n) {
                    Err(e) => Err(e),
                    Ok((gen, j)) => match group_at(toks, j, n, '{') {
                        None => Err(DefError::ExpectedToken),
                        Some(c) => match fields(toks, j + 1, c) {
                            Err(e) => Err(e),
                            Ok(fs) => match items(toks, c + 1, (None, None, None)) {
                                Err(e) => Err(e),
                                Ok(got) => match got.0 {
                                    None => Err(DefError::MissingStart),
                                    Some(start) => match got.2 {
                                        None => Err(DefError::MissingEdges),
                                        Some(edges) => Ok(
                                            DefView {
                                                vis,
                                                name,
                                                generics: gen,
                                                fields: fs,
                                                start,
                                                context: match got.1 {
                                                    Some(ctx) => ctx,
                                                    None => unit_type(),
                                                },
                                                edges,
                                            },
                                        ),
                                    },
                                },
                            },
                        },
                    },
                },
            }
        },
    }
}

/// The workflow definition that a text spells.
pub open spec fn parse_text(cs: Seq<char>) -> Result<DefView, DefError> {
    match tokenize_spec(cs) {
        Ok(toks) => parse_def(toks),
        Err(e) => Err(e),
    }
}

/// A group's closer lies after its opener and before the end.
pub proof fn lemma_close_from(toks: Seq<TokenView>, j: int, end: int, depth: int)
    ensures
        close_from(toks, j, end, depth) matches Some(c) ==> j <= c < end && end <= toks.len() && 0
            <= j,
    decreases end - j,
{
    if !(j < 0 || j >= end || end > toks.len()) {
        match toks[j] {
            TokenView::Punct(c, _) => {
                if is_opener(c) {
                    lemma_close_from(toks, j + 1, end, depth + 1);
                } else if is_closer(c) {
                    if depth > 1 {
                        lemma_close_from(toks, j + 1, end, depth - 1);
                    }
                } else {
                    lemma_close_from(toks, j + 1, end, depth);
                }
            },
            TokenView::Word(_) => lemma_close_from(toks, j + 1, end, depth),
        }
    }
}

/// A group's closer lies after its opener and before the end.
pub proof fn lemma_group_at(toks: Seq<TokenView>, i: int, end: int, open: char)
    ensures
        group_at(toks, i, end, open) matches Some(c) ==> 0 <= i < c < end && end <= toks.len(),
{
    lemma_close_from(toks, i + 1, end, 1);
}

/// A type run ends between its start and the end.
pub proof fn lemma_type_end(toks: Seq<TokenView>, j: int, end: int, stop: char, depth: int, angle: int)
    requires
        0 <= j <= end,
    ensures
        j <= type_end_from(toks, j, end, stop, depth, angle) <= end,
        type_end_from(toks, j, end, stop, depth, angle) < end ==> end <= toks.len() && punct_at(
            toks,
            type_end_from(toks, j, end, stop, depth, angle),
            end,
            stop,
        ),
    decreases end - j,
{
    if !(j >= end || end > toks.len()) {
        match toks[j] {
            TokenView::Punct(c, _) => {
                if is_opener(c) {
                    lemma_type_end(toks, j + 1, end, stop, depth + 1, angle);
                } else if is_closer(c) {
                    lemma_type_end(toks, j + 1, end, stop, depth - 1, angle);
                } else if depth == 0 && angle == 0 && c == stop {
                } else if depth == 0 && c == '<' {
                    lemma_type_end(toks, j + 1, end, stop, depth, angle + 1);
                } else if depth == 0 && c == '>' && angle > 0 && !is_arrow_head(toks, j) {
                    lemma_type_end(toks, j + 1, end, stop, depth, angle - 1);
                } else {
                    lemma_type_end(toks, j + 1, end, stop, depth, angle);
                }
            },
            TokenView::Word(_) => lemma_type_end(toks, j + 1, end, stop, depth, angle),
        }
    }
}

/// A guard run ends between its start and the end.
pub proof fn lemma_guard_end(toks: Seq<TokenView>, j: int, end: int, depth: int)
    requires
        0 <= j <= end,
    ensures
        j <= guard_end_from(toks, j, end, depth) <= end,
        guard_end_from(toks, j, end, depth) < end ==> fat_arrow_at(
            toks,
            guard_end_from(toks, j, end, depth),
            end,
        ),
    decreases end - j,
{
    if !(j >= end || end > toks.len()) {
        match toks[j] {
            TokenView::Punct(c, _) => {
                if depth == 0 && fat_arrow_at(toks, j, end) {
                } else if is_opener(c) {
                    lemma_guard_end(toks, j + 1, end, depth + 1);
                } else if is_closer(c) {
                    lemma_guard_end(toks, j + 1, end, depth - 1);
                } else {
                    lemma_guard_end(toks, j + 1, end, depth);
                }
            },
            TokenView::Word(_) => lemma_guard_end(toks, j + 1, end, depth),
        }
    }
}

/// Generics end between their start and the end.
pub proof fn lemma_angle_close(toks: Seq<TokenView>, j: int, end: int, depth: int)
    requires
        0 <= j <= end,
    ensures
        j <= angle_close_from(toks, j, end, depth) <= end,
        angle_close_from(toks, j, end, depth) < end ==> end <= toks.len(),
    decreases end - j,
{
    if !(j >= end || end > toks.len()) {
        match toks[j] {
            TokenView::Punct(c, _) => {
                if c == '<' {
                    lemma_angle_close(toks, j + 1, end, depth + 1);
                } else if c == '>' && !is_arrow_head(toks, j) {
                    if depth > 1 {
                        lemma_angle_close(toks, j + 1, end, depth - 1);
                    }
                } else {
                    lemma_angle_close(toks, j + 1, end, depth);
                }
            },
            TokenView::Word(_) => lemma_angle_close(toks, j + 1, end, depth),
        }
    }
}

/// A bracketed list ends after its start, by the end.
pub proof fn lemma_bracket_list(toks: Seq<TokenView>, i: int, end: int)
    ensures
        bracket_list(toks, i, end) matches Ok((_, d)) ==> 0 <= i < d <= end && end <= toks.len()
            && group_at(toks, i, end, '[') == Some(d - 1),
{
    lemma_group_at(toks, i, end, '[');
}

/// A field reads at least one token and stays within its group.
pub proof fn lemma_field_at_progress(toks: Seq<TokenView>, i: int, end: int)
    requires
        0 <= i < end <= toks.len(),
    ensures
        field_at(toks, i, end) matches Ok((_, next)) ==> i < next <= end,
{
    lemma_group_at(toks, i + 1, end, '[');
    match retry_attr(toks, i, end) {
        Ok((_, j)) => {
            if ident_at(toks, j, end) is Some && punct_at(toks, j + 1, end, ':') {
                lemma_type_end(toks, j + 2, end, ',', 0, 0);
            }
        },
        Err(_) => {},
    }
}

/// An arm reads at least one token and stays within its group.
pub proof fn lemma_arm_at_progress(toks: Seq<TokenView>, i: int, end: int)
    requires
        0 <= i < end <= toks.len(),
    ensures
        arm_at(toks, i, end) matches Ok((_, next)) ==> i < next <= end,
{
    lemma_group_at(toks, i + 4, end, '(');
    match arm_binding(toks, i + 4, end) {
        Ok((_, _, j)) => {
            if keyword_at(toks, j, end, kw_if()) {
                lemma_guard_end(toks, j + 1, end, 0);
            }
            match arm_guard(toks, j, end) {
                Ok((_, k)) => {
                    lemma_bracket_list(toks, k + 2, end);
                },
                Err(_) => {},
            }
        },
        Err(_) => {},
    }
}

/// An edge entry reads at least one token and stays within its group.
pub proof fn lemma_entry_at_progress(toks: Seq<TokenView>, i: int, end: int)
    requires
        0 <= i < end <= toks.len(),
    ensures
        entry_at(toks, i, end) matches Ok((_, next)) ==> i < next <= end,
{
    lemma_group_at(toks, i + 4, end, '{');
    lemma_group_at(toks, i + 3, end, '{');
    lemma_bracket_list(toks, i + 3, end);
}

/// A top-level item reads at least one token and stays within the text.
pub proof fn lemma_item_at_progress(toks: Seq<TokenView>, i: int, got: Items)
    requires
        0 <= i < toks.len(),
    ensures
        item_at(toks, i, got) matches Ok((_, next)) ==> i < next <= toks.len(),
{
    let n = toks.len() as int;
    lemma_group_at(toks, i + 1, n, '{');
    if i + 2 <= n {
        lemma_type_end(toks, i + 2, n, ';', 0, 0);
    }
}

pub open spec fn kw_input() -> Seq<char> {
    seq!['i', 'n', 'p', 'u', 't']
}

pub open spec fn kw_output() -> Seq<char> {
    seq!['o', 'u', 't', 'p', 'u', 't']
}

/// One field of a node at `i`: `name: Type` `,`? and the position after it.
pub open spec fn plain_field_at(toks: Seq<TokenView>, i: int, end: int) -> Result<((Seq<char>, Seq<TokenView>), int), DefError> {
    match ident_at(toks, i, end) {
        None => Err(DefError::ExpectedIdent),
        Some(name) => if !punct_at(toks, i + 1, end, ':') {
            Err(DefError::ExpectedToken)
        } else {
            let t = type_end_from(toks, i + 2, end, ',', 0, 0);
            if t <= i + 2 {
                Err(DefError::ExpectedType)
            } else {
                let next = if t < end {
                    t + 1
                } else {
                    t
                };
                Ok(((name, toks.subrange(i + 2, t)), next))
            }
        },
    }
}

/// The fields of a node filling `i..end`.
pub open spec fn plain_fields(toks: Seq<TokenView>, i: int, end: int) -> Result<Seq<(Seq<char>, Seq<TokenView>)>, DefError>
    decreases end - i,
{
    if i < 0 || i >= end || end > toks.len() {
        Ok(Seq::empty())
    } else {
        match plain_field_at(toks, i, end) {
            Err(e) => Err(e),
            Ok((f, next)) => {
                proof {
                    lemma_plain_field_at_progress(toks, i, end);
                }
                prepend(f, plain_fields(toks, next, end))
            },
        }
    }
}

/// A section `kw = Type;` at `i`: the type and the position after the `;`;
/// `missing` when another identifier stands in place of `kw`.
pub open spec fn section_at(toks: Seq<TokenView>, i: int, kw: Seq<char>, missing: DefError) -> Result<(Seq<TokenView>, int), DefError> {
    let n = toks.len() as int;
    match ident_at(toks, i, n) {
        None => Err(DefError::ExpectedIdent),
        Some(w) => if w != kw {
            Err(missing)
        } else if !punct_at(toks, i + 1, n, '=') {
            Err(DefError::ExpectedToken)
        } else {
            let t = type_end_from(toks, i + 2, n, ';', 0, 0);
            if t <= i + 2 {
                Err(DefError::ExpectedType)
            } else if !punct_at(toks, t, n, ';') {
                Err(DefError::ExpectedToken)
            } else {
                Ok((toks.subrange(i + 2, t), t + 1))
            }
        },
    }
}

/// The node declaration that the tokens spell:
/// `vis struct Name { fields };` `context = T;` `input = T;` `output = T;`
/// `|ctx, input| { body }`, and nothing after it.
pub open spec fn parse_node(toks: Seq<TokenView>) -> Result<NodeDefView, DefError> {
    let n = toks.len() as int;
    match visibility(toks) {
        Err(e) => Err(e),
        Ok((vis, i)) => if !keyword_at(toks, i, n, kw_struct()) {
            Err(DefError::ExpectedToken)
        } else {
            match ident_at(toks, i + 1, n) {
                None => Err(DefError::ExpectedIdent),
                Some(name) => match group_at(toks, i + 2, n, '{') {
                    None => Err(DefError::ExpectedToken),
                    Some(c) => match plain_fields(toks, i + 3, c) {
                        Err(e) => Err(e),
                        Ok(fields) => if !punct_at(toks, c + 1, n, ';') {
                            Err(DefError::ExpectedToken)
                        } else {
                            match section_at(toks, c + 2, kw_context(), DefError::ExpectedContextSection) {
                                Err(e) => Err(e),
                                Ok((ctx_ty, j1)) => match section_at(toks, j1, kw_input(), DefError::ExpectedInputSection) {
                                    Err(e) => Err(e),
                                    Ok((input_ty, j2)) => match section_at(toks, j2, kw_output(), DefError::ExpectedOutputSection) {
                                        Err(e) => Err(e),
                                        Ok((output_ty, j)) => if !punct_at(toks, j, n, '|') {
                                            Err(DefError::ExpectedToken)
                                        } else {
                                            match ident_at(toks, j + 1, n) {
                                                None => Err(DefError::ExpectedIdent),
                                                Some(ctx_arg) => if !punct_at(toks, j + 2, n, ',') {
                                                    Err(DefError::ExpectedToken)
                                                } else {
                                                    match ident_at(toks, j + 3, n) {
                                                        None => Err(DefError::ExpectedIdent),
                                                        Some(input_arg) => if !punct_at(toks, j + 4, n, '|') {
                                                            Err(DefError::ExpectedToken)
                                                        } else {
                                                            match group_at(toks, j + 5, n, '{') {
                                                                None => Err(DefError::ExpectedToken),
                                                                Some(b) => if b + 1 != n {
                                                                    Err(DefError::TrailingTokens)
                                                                } else {
                                                                    Ok(NodeDefView {
                                                                        vis,
                                                                        name,
                                                                        fields,
                                                                        ctx_ty,
                                                                        input_ty,
                                                                        output_ty,
                                                                        ctx_arg,
                                                                        input_arg,
                                                                        body: toks.subrange(j + 6, b),
                                                                    })
                                                                },
                                                            }
                                                        },
                                                    }
                                                },
                                            }
                                        },
                                    },
                                },
                            }
                        },
                    },
                },
            }
        },
    }
}

/// The node declaration that a text spells.
pub open spec fn parse_node_text(cs: Seq<char>) -> Result<NodeDefView, DefError> {
    match tokenize_spec(cs) {
        Ok(toks) => parse_node(toks),
        Err(e) => Err(e),
    }
}

/// A node field reads at least one token and stays within its group.
pub proof fn lemma_plain_field_at_progress(toks: Seq<TokenView>, i: int, end: int)
    requires
        0 <= i < end <= toks.len(),
    ensures
        plain_field_at(toks, i, end) matches Ok((_, next)) ==> i < next <= end,
{
    if ident_at(toks, i, end) is Some && punct_at(toks, i + 1, end, ':') {
        lemma_type_end(toks, i + 2, end, ',', 0, 0);
    }
}

} // verus!
