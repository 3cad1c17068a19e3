//! What a workflow definition says, and its text view for contracts.
//! Types, generics, guards and restricted visibilities are kept as the
//! token runs that spell them.
use vstd::prelude::*;
use crate::definition::token::{Token, TokenView, tokens_view, copy_run};
use crate::keyed::string_views;

verus! {

/// The visibility written before `struct`.
#[derive(Debug, Clone)]
pub enum Visibility {
    /// Nothing written.
    Inherited,
    /// `pub`.
    Public,
    /// `pub(crate)`, `pub(self)`, `pub(super)` or `pub(in path)`: the
    /// tokens between the parentheses.
    Restricted(Vec<Token>),
}

/// A visibility as text.
pub enum VisibilityView {
    Inherited,
    Public,
    Restricted(Seq<TokenView>),
}

impl View for Visibility {
    type V = VisibilityView;

    open spec fn view(&self) -> VisibilityView {
        match self {
            Visibility::Inherited => VisibilityView::Inherited,
            Visibility::Public => VisibilityView::Public,
            Visibility::Restricted(t) => VisibilityView::Restricted(tokens_view(t@)),
        }
    }
}

/// One arm of a composite edge: `Action::Variant(binding) if guard => [succs];`.
#[derive(Debug, Clone)]
pub struct CompositeArm {
    pub action_path: String,
    pub variant: String,
    pub binding: Option<String>,
    pub is_wildcard: bool,
    pub guard: Option<Vec<Token>>,
    pub succs: Vec<String>,
}

/// A composite arm as text.
pub struct ArmView {
    pub action_path: Seq<char>,
    pub variant: Seq<char>,
    pub binding: Option<Seq<char>>,
    pub is_wildcard: bool,
    pub guard: Option<Seq<TokenView>>,
    pub succs: Seq<Seq<char>>,
}

/// The text of an optional name.
pub open spec fn opt_name(n: Option<String>) -> Option<Seq<char>> {
    match n {
        Some(s) => Some(s@),
        None => None,
    }
}

/// The text of an optional token run.
pub open spec fn opt_tokens(t: Option<Vec<Token>>) -> Option<Seq<TokenView>> {
    match t {
        Some(v) => Some(tokens_view(v@)),
        None => None,
    }
}

/// The text of an optional list of names.
pub open spec fn opt_names(n: Option<Vec<String>>) -> Option<Seq<Seq<char>>> {
    match n {
        Some(v) => Some(string_views(v@)),
        None => None,
    }
}

impl View for CompositeArm {
    type V = ArmView;

    open spec fn view(&self) -> ArmView {
        ArmView {
            action_path: self.action_path@,
            variant: self.variant@,
            binding: opt_name(self.binding),
            is_wildcard: self.is_wildcard,
            guard: opt_tokens(self.guard),
            succs: string_views(self.succs@),
        }
    }
}

/// The text of each arm.
pub open spec fn arms_view(v: Seq<CompositeArm>) -> Seq<ArmView> {
    v.map_values(|a: CompositeArm| a@)
}

/// Where control goes after a node.
#[derive(Debug, Clone)]
pub enum EdgeKind {
    /// To every successor on success, to the fallbacks (if any) on failure.
    Direct { succs: Vec<String>, on_failure: Option<Vec<String>> },
    /// By the variant of the node's output, one arm per variant pattern.
    Composite(Vec<CompositeArm>),
}

/// An edge kind as text.
pub enum EdgeKindView {
    Direct { succs: Seq<Seq<char>>, on_failure: Option<Seq<Seq<char>>> },
    Composite(Seq<ArmView>),
}

impl View for EdgeKind {
    type V = EdgeKindView;

    open spec fn view(&self) -> EdgeKindView {
        match self {
            EdgeKind::Direct { succs, on_failure } => EdgeKindView::Direct {
                succs: string_views(succs@),
                on_failure: opt_names(*on_failure),
            },
            EdgeKind::Composite(arms) => EdgeKindView::Composite(arms_view(arms@)),
        }
    }
}

/// One written edge entry, before entries are gathered per source.
#[derive(Debug)]
pub enum EdgeEntry {
    /// `src => [succs];` or `src => {[succs]};`
    Success(String, Vec<String>),
    /// `src on_failure => {[fallbacks]};`
    Failure(String, Vec<String>),
    /// `src => { arms };`
    Composite(String, Vec<CompositeArm>),
}

/// An edge entry as text.
pub enum EntryView {
    Success(Seq<char>, Seq<Seq<char>>),
    Failure(Seq<char>, Seq<Seq<char>>),
    Composite(Seq<char>, Seq<ArmView>),
}

impl View for EdgeEntry {
    type V = EntryView;

    open spec fn view(&self) -> EntryView {
        match self {
            EdgeEntry::Success(k, s) => EntryView::Success(k@, string_views(s@)),
            EdgeEntry::Failure(k, s) => EntryView::Failure(k@, string_views(s@)),
            EdgeEntry::Composite(k, a) => EntryView::Composite(k@, arms_view(a@)),
        }
    }
}

/// The text of each entry.
pub open spec fn entries_view(v: Seq<EdgeEntry>) -> Seq<EntryView> {
    v.map_values(|e: EdgeEntry| e@)
}

/// A parsed workflow definition.
#[derive(Debug, Clone)]
pub struct WorkflowDef {
    pub vis: Visibility,
    pub name: String,
    /// `<...>` after the name, or nothing.
    pub generics: Vec<Token>,
    /// Each field's name, type and retry policy field.
    pub fields: Vec<(String, Vec<Token>, Option<String>)>,
    pub start: String,
    /// The context type; `()` when none is written.
    pub context: Vec<Token>,
    /// The edges per source, in the order [`crate::definition::edges`] gives.
    pub edges: Vec<(String, EdgeKind)>,
}

/// A field as text.
pub open spec fn field_view(f: (String, Vec<Token>, Option<String>)) -> (Seq<char>, Seq<TokenView>, Option<Seq<char>>) {
    (f.0@, tokens_view(f.1@), opt_name(f.2))
}

/// The text of each field.
pub open spec fn fields_view(v: Seq<(String, Vec<Token>, Option<String>)>) -> Seq<(Seq<char>, Seq<TokenView>, Option<Seq<char>>)> {
    v.map_values(|f: (String, Vec<Token>, Option<String>)| field_view(f))
}

/// The text of each edge.
pub open spec fn edges_view(v: Seq<(String, EdgeKind)>) -> Seq<(Seq<char>, EdgeKindView)> {
    v.map_values(|e: (String, EdgeKind)| (e.0@, e.1@))
}

/// A workflow definition as text.
pub struct DefView {
    pub vis: VisibilityView,
    pub name: Seq<char>,
    pub generics: Seq<TokenView>,
    pub fields: Seq<(Seq<char>, Seq<TokenView>, Option<Seq<char>>)>,
    pub start: Seq<char>,
    pub context: Seq<TokenView>,
    pub edges: Seq<(Seq<char>, EdgeKindView)>,
}

impl View for WorkflowDef {
    type V = DefView;

    open spec fn view(&self) -> DefView {
        DefView {
            vis: self.vis@,
            name: self.name@,
            generics: tokens_view(self.generics@),
            fields: fields_view(self.fields@),
            start: self.start@,
            context: tokens_view(self.context@),
            edges: edges_view(self.edges@),
        }
    }
}

/// A node declared with its fields, its context, input and output types,
/// the names it gives the context and the input, and its body.
#[derive(Debug, Clone)]
pub struct NodeDef {
    pub vis: Visibility,
    pub name: String,
    pub fields: Vec<(String, Vec<Token>)>,
    pub ctx_ty: Vec<Token>,
    pub input_ty: Vec<Token>,
    pub output_ty: Vec<Token>,
    pub ctx_arg: String,
    pub input_arg: String,
    /// The tokens between the body's braces.
    pub body: Vec<Token>,
}

/// A node declaration as text.
pub struct NodeDefView {
    pub vis: VisibilityView,
    pub name: Seq<char>,
    pub fields: Seq<(Seq<char>, Seq<TokenView>)>,
    pub ctx_ty: Seq<TokenView>,
    pub input_ty: Seq<TokenView>,
    pub output_ty: Seq<TokenView>,
    pub ctx_arg: Seq<char>,
    pub input_arg: Seq<char>,
    pub body: Seq<TokenView>,
}

/// The text of each plain field.
pub open spec fn plain_fields_view(v: Seq<(String, Vec<Token>)>) -> Seq<(Seq<char>, Seq<TokenView>)> {
    v.map_values(|f: (String, Vec<Token>)| (f.0@, tokens_view(f.1@)))
}

impl View for NodeDef {
    type V = NodeDefView;

    open spec fn view(&self) -> NodeDefView {
        NodeDefView {
            vis: self.vis@,
            name: self.name@,
            fields: plain_fields_view(self.fields@),
            ctx_ty: tokens_view(self.ctx_ty@),
            input_ty: tokens_view(self.input_ty@),
            output_ty: tokens_view(self.output_ty@),
            ctx_arg: self.ctx_arg@,
            input_arg: self.input_arg@,
            body: tokens_view(self.body@),
        }
    }
}

/// A copy of a list of names.
pub fn copy_names(v: &Vec<String>) -> (r: Vec<String>)
    ensures
        string_views(r@) == string_views(v@),
{
    let mut r: Vec<String> = Vec::new();
    let mut i: usize = 0;
    while i < v.len()
        invariant
            i <= v@.len(),
            r@.len() == i,
            forall|k: int| 0 <= k < i ==> #[trigger] r@[k]@ == v@[k]@,
        decreases v@.len() - i,
    {
        r.push(v[i].clone());
        i += 1;
    }
    proof {
        assert(string_views(r@) =~= string_views(v@));
    }
    r
}

/// A copy of an optional name.
pub fn copy_opt_name(n: &Option<String>) -> (r: Option<String>)
    ensures
        opt_name(r) == opt_name(*n),
{
    match n {
        Some(s) => Some(s.clone()),
        None => None,
    }
}

impl CompositeArm {
    /// A copy of this arm.
    pub fn duplicate(&self) -> (r: CompositeArm)
        ensures
            r@ == self@,
    {
        let guard = match &self.guard {
            Some(g) => Some(copy_run(g, 0, g.len())),
            None => None,
        };
        proof {
            match &self.guard {
                Some(g) => {
                    assert(tokens_view(g@).subrange(0, g@.len() as int) =~= tokens_view(g@));
                },
                None => {},
            }
        }
        CompositeArm {
            action_path: self.action_path.clone(),
            variant: self.variant.clone(),
            binding: copy_opt_name(&self.binding),
            is_wildcard: self.is_wildcard,
            guard,
            succs: copy_names(&self.succs),
        }
    }
}

/// A copy of a list of arms.
pub fn copy_arms(v: &Vec<CompositeArm>) -> (r: Vec<CompositeArm>)
    ensures
        arms_view(r@) == arms_view(v@),
{
    let mut r: Vec<CompositeArm> = Vec::new();
    let mut i: usize = 0;
    while i < v.len()
        invariant
            i <= v@.len(),
            r@.len() == i,
            forall|k: int| 0 <= k < i ==> #[trigger] r@[k]@ == v@[k]@,
        decreases v@.len() - i,
    {
        r.push(v[i].duplicate());
        i += 1;
    }
    proof {
        assert(arms_view(r@) =~= arms_view(v@));
    }
    r
}

} // verus!
