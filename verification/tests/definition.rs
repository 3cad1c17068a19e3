use floxide::definition::route::{route_direct, DirectRoute};
use floxide::error::FloxideError;
use floxide::transition::Transition;
use floxide::definition::ast::{EdgeKind, NodeDef, Visibility, WorkflowDef};
use floxide::definition::plan::{plan, to_camel_case, to_dot, PlanError};
use floxide::definition::token::{tokenize, DefError, Token};

fn words(toks: &[Token]) -> Vec<String> {
    toks.iter()
        .map(|t| match t {
            Token::Word(w) => w.clone(),
            Token::Punct(c, _) => c.to_string(),
        })
        .collect()
}

const FULL: &str = r#"
    pub struct Pipeline<C: Clone> {
        #[retry = policy]
        fetch: FetchNode,
        parse: Vec<(u8, u16)>,
        report: ReportNode,
        fallback: FallbackNode,
        policy: RetryPolicy,
    }
    context = HashMap<String, u32>;
    start = fetch;
    edges {
        fetch => [parse];
        fetch on_failure => { [fallback] };
        fallback on_failure => { [report] };
        parse => { Outcome::Ok(v) if v > 1 => [report]; Outcome::Skip => []; };
        report => [];
    }
"#;

#[test]
fn parses_a_full_definition() {
    let def = WorkflowDef::parse(FULL).unwrap();
    assert!(matches!(def.vis, Visibility::Public));
    assert_eq!(def.name, "Pipeline");
    assert_eq!(words(&def.generics), vec!["<", "C", ":", "Clone", ">"]);
    assert_eq!(def.fields.len(), 5);
    assert_eq!(def.fields[0].0, "fetch");
    assert_eq!(def.fields[0].2.as_deref(), Some("policy"));
    assert_eq!(words(&def.fields[1].1), vec!["Vec", "<", "(", "u8", ",", "u16", ")", ">"]);
    assert!(def.fields[2].2.is_none());
    assert_eq!(def.start, "fetch");
    assert_eq!(words(&def.context), vec!["HashMap", "<", "String", ",", "u32", ">"]);
    // success sources first, then failure-only sources, then composites
    let order: Vec<&str> = def.edges.iter().map(|(s, _)| s.as_str()).collect();
    assert_eq!(order, vec!["fetch", "report", "fallback", "parse"]);
    match &def.edges[0].1 {
        EdgeKind::Direct { succs, on_failure } => {
            assert_eq!(succs, &vec!["parse".to_string()]);
            assert_eq!(on_failure.as_ref().unwrap(), &vec!["fallback".to_string()]);
        }
        _ => panic!("expected a direct edge"),
    }
    match &def.edges[2].1 {
        EdgeKind::Direct { succs, on_failure } => {
            assert!(succs.is_empty());
            assert_eq!(on_failure.as_ref().unwrap(), &vec!["report".to_string()]);
        }
        _ => panic!("expected a direct edge"),
    }
    match &def.edges[3].1 {
        EdgeKind::Composite(arms) => {
            assert_eq!(arms.len(), 2);
            assert_eq!(arms[0].action_path, "Outcome");
            assert_eq!(words(arms[0].guard.as_ref().unwrap()), vec!["v", ">", "1"]);
            assert!(arms[1].succs.is_empty());
        }
        _ => panic!("expected a composite edge"),
    }
}

#[test]
fn later_entries_for_a_source_win() {
    let def = WorkflowDef::parse("struct W { a: A } start = a; edges { a => [b]; a => {[c, d,]}; }").unwrap();
    assert!(matches!(def.vis, Visibility::Inherited));
    assert_eq!(def.edges.len(), 1);
    match &def.edges[0].1 {
        EdgeKind::Direct { succs, on_failure } => {
            assert_eq!(succs, &vec!["c".to_string(), "d".to_string()]);
            assert!(on_failure.is_none());
        }
        _ => panic!("expected a direct edge"),
    }
}

#[test]
fn context_defaults_to_unit() {
    let def = WorkflowDef::parse("pub(crate) struct W { a: A } edges { a => []; } start = a;").unwrap();
    assert!(matches!(def.vis, Visibility::Restricted(_)));
    assert_eq!(words(&def.context), vec!["(", ")"]);
}

#[test]
fn reports_each_error() {
    let cases: Vec<(&str, DefError)> = vec![
        ("struct W { a: A } edges { a => []; }", DefError::MissingStart),
        ("struct W { a: A } start = a;", DefError::MissingEdges),
        ("struct W { a: A } start = a; start = a; edges {}", DefError::DuplicateStart),
        ("struct W { a: A } context = B; context = C; start = a; edges {}", DefError::DuplicateContext),
        ("struct W { a: A } start = a; edges {} edges {}", DefError::DuplicateEdges),
        ("struct W { #[cache = p] a: A } start = a; edges {}", DefError::UnknownAttribute),
        ("struct W { a: A } begin = a;", DefError::UnexpectedIdentifier),
        ("struct W { a: A } ; start = a;", DefError::UnexpectedToken),
        ("struct W { a: A } start = a; edges { a otherwise => {[b]}; }", DefError::UnexpectedEdgeKeyword),
        ("struct W { a: A } start = a; edges { a => b; }", DefError::ExpectedSuccessorList),
        ("struct W { a: A } start = a; edges { a => { E::V(1) => [b]; }; }", DefError::ExpectedBinding),
        ("struct W { a: A } start = a; edges { a => { E::V if => [b]; }; }", DefError::ExpectedExpr),
        ("struct W { a: } start = a; edges {}", DefError::ExpectedType),
        ("struct W { a: A } start = struct; edges {}", DefError::ExpectedIdent),
        ("enum W { a: A }", DefError::ExpectedToken),
        ("struct W { a: A } start = a; edges { a on_failure => {[b] x}; }", DefError::TrailingTokens),
        ("struct W { a: A ", DefError::Unbalanced),
        ("struct W { a: \u{e9} }", DefError::UnexpectedChar),
    ];
    for (text, want) in cases {
        match WorkflowDef::parse(text) {
            Err(e) => assert_eq!(e, want, "{}", text),
            Ok(_) => panic!("accepted {}", text),
        }
    }
}

#[test]
fn tokens_know_joint_punctuation() {
    let toks = tokenize("a => b::c").unwrap();
    assert_eq!(toks.len(), 7);
    assert!(matches!(toks[1], Token::Punct('=', true)));
    assert!(matches!(toks[2], Token::Punct('>', false)));
    assert!(matches!(toks[4], Token::Punct(':', true)));
    assert_eq!(tokenize("(]").unwrap_err(), DefError::Unbalanced);
}

#[test]
fn camel_case_of_names() {
    assert_eq!(to_camel_case(&"fetch_data".to_string()), "FetchData");
    assert_eq!(to_camel_case(&"__a__b_".to_string()), "AB");
    assert_eq!(to_camel_case(&"x1_y2".to_string()), "X1Y2");
    assert_eq!(to_camel_case(&"".to_string()), "");
}

#[test]
fn plans_a_workflow() {
    let def = WorkflowDef::parse(FULL).unwrap();
    let p = plan(&def).unwrap();
    assert_eq!(p.work_item, "PipelineWorkItem");
    let fields: Vec<usize> = p.nodes.iter().map(|n| n.field).collect();
    assert_eq!(fields, vec![0, 1, 2, 3]);
    assert_eq!(p.nodes[3].variant, "Fallback");
    assert_eq!(p.nodes[0].edge, 0);
    assert_eq!(p.terminal, 2);
    assert_eq!(p.terminal_variants, vec!["Report".to_string()]);
    assert_eq!(p.start, 0);
    assert_eq!(p.start_variant, "Fetch");
    assert_eq!(
        p.type_checks,
        vec![("fetch".to_string(), "parse".to_string())]
    );
}

#[test]
fn dot_text_of_a_workflow() {
    let def = WorkflowDef::parse(
        "struct Flow { #[retry = p] a: A, b: B, p: P } start = a; edges { a => [b]; a on_failure => {[b]}; b => { R::Done => [a]; }; }",
    )
    .unwrap();
    let want = "digraph Flow {\n  rankdir=LR;\n  node [shape=box style=filled fontname=\"Helvetica\" color=lightgray];\n  edge [fontname=\"Helvetica\" arrowhead=vee];\n  A;\n  B;\n  A -> B;\n  A -> B [style=\"dotted\" color=\"red\" label=\"fallback\"];\n  B -> A [label=\"Done\"];\n}\n";
    assert_eq!(to_dot(&def), want);
}

#[test]
fn plan_errors() {
    let no_terminal = WorkflowDef::parse("struct W { a: A } start = a; edges { a => [a]; }").unwrap();
    assert_eq!(plan(&no_terminal).unwrap_err(), PlanError::NoTerminal);
    let terminal_not_field = WorkflowDef::parse("struct W { a: A } start = a; edges { a => [z]; z => []; }").unwrap();
    assert_eq!(plan(&terminal_not_field).unwrap_err(), PlanError::TerminalFieldMissing);
    let unrouted = WorkflowDef::parse("struct W { a: A, b: B } start = a; edges { a => []; }").unwrap();
    assert_eq!(plan(&unrouted).unwrap_err(), PlanError::MissingEdges(1));
    let bad_start = WorkflowDef::parse("struct W { a: A } start = q; edges { a => []; }").unwrap();
    assert_eq!(plan(&bad_start).unwrap_err(), PlanError::StartFieldMissing);
}

#[test]
fn parses_a_workflow_with_comments() {
    let text = r#"
    pub struct ArticleWriterWorkflow {
        outline: OutlineNode,
        draft: DraftNode,
        review: ReviewNode,
    }
    start = outline; // Start with the outline node
    context = ();
    edges {
        // Define the sequence: outline -> draft -> review
        outline => { [draft] };
        draft => { [review] };
        review => {}; // review is the final node
    }
    "#;
    let def = WorkflowDef::parse(text).unwrap();
    assert_eq!(def.edges.len(), 3);
    let p = plan(&def).unwrap();
    assert_eq!(p.work_item, "ArticleWriterWorkflowWorkItem");
    assert_eq!(p.terminal, 2);
    assert_eq!(p.terminal_variants, vec!["Review".to_string()]);
    assert_eq!(p.start_variant, "Outline");
}

#[test]
fn parses_a_node_declaration() {
    let text = r#"
    pub struct OutlineNode {
        llm: LLMProviderWrapper,
        retries: Option<u8>,
    };
    context = ();
    input = String; // Input: Article Topic
    output = String;
    | _ctx, topic | {
        Ok(Transition::Next(topic))
    }
    "#;
    let node = NodeDef::parse(text).unwrap();
    assert!(matches!(node.vis, Visibility::Public));
    assert_eq!(node.name, "OutlineNode");
    assert_eq!(node.fields.len(), 2);
    assert_eq!(node.fields[1].0, "retries");
    assert_eq!(words(&node.fields[1].1), vec!["Option", "<", "u8", ">"]);
    assert_eq!(words(&node.ctx_ty), vec!["(", ")"]);
    assert_eq!(words(&node.input_ty), vec!["String"]);
    assert_eq!(node.ctx_arg, "_ctx");
    assert_eq!(node.input_arg, "topic");
    assert_eq!(words(&node.body), vec!["Ok", "(", "Transition", ":", ":", "Next", "(", "topic", ")", ")"]);
}

#[test]
fn node_declaration_errors() {
    let cases: Vec<(&str, DefError)> = vec![
        ("struct N { a: A } context = (); input = u8; output = u8; |c, i| {}", DefError::ExpectedToken),
        ("struct N { a: A }; ctx = (); input = u8; output = u8; |c, i| {}", DefError::ExpectedContextSection),
        ("struct N { a: A }; context = (); output = u8; |c, i| {}", DefError::ExpectedInputSection),
        ("struct N { a: A }; context = (); input = u8; result = u8; |c, i| {}", DefError::ExpectedOutputSection),
        ("struct N { a: A }; context = (); input = u8; output = u8; |c, i| {} extra", DefError::TrailingTokens),
        ("struct N { #[x] a: A }; context = (); input = u8; output = u8; |c, i| {}", DefError::ExpectedIdent),
    ];
    for (text, want) in cases {
        match NodeDef::parse(text) {
            Err(e) => assert_eq!(e, want, "{}", text),
            Ok(_) => panic!("accepted {}", text),
        }
    }
}

#[test]
fn error_messages() {
    assert_eq!(DefError::MissingStart.message(), "Missing required 'start' field in workflow definition.");
    assert_eq!(DefError::ExpectedSuccessorList.message(), "Expected [ or { after => in edge definition");
    assert_eq!(PlanError::NoTerminal.message(), "Workflow must have a terminal branch");
    assert_eq!(PlanError::MissingEdges(2).message(), "No edges defined for field");
}

#[test]
fn direct_edges_route_results() {
    let succs = vec!["b".to_string(), "c".to_string()];
    let fallbacks = Some(vec!["f".to_string()]);
    match route_direct::<u8, u8>(&succs, &None, &1, Ok(Transition::Next(9))) {
        DirectRoute::Schedule(v) => assert_eq!(v, vec![("b".to_string(), 9), ("c".to_string(), 9)]),
        _ => panic!("expected successors"),
    }
    match route_direct::<u8, u8>(&succs, &None, &1, Ok(Transition::NextAll(vec![5, 6]))) {
        DirectRoute::Schedule(v) => assert_eq!(
            v,
            vec![("b".to_string(), 5), ("c".to_string(), 5), ("b".to_string(), 6), ("c".to_string(), 6)]
        ),
        _ => panic!("expected successors"),
    }
    assert!(matches!(route_direct::<u8, u8>(&vec![], &None, &1, Ok(Transition::Next(9))), DirectRoute::Finish(9)));
    assert!(matches!(route_direct::<u8, u8>(&vec![], &None, &1, Ok(Transition::NextAll(vec![1]))), DirectRoute::Wait));
    assert!(matches!(route_direct::<u8, u8>(&succs, &None, &1, Ok(Transition::Hold)), DirectRoute::Wait));
    match route_direct::<u8, u8>(&succs, &fallbacks, &1, Err(FloxideError::Cancelled)) {
        DirectRoute::Fallback(v) => assert_eq!(v, vec![("f".to_string(), 1)]),
        _ => panic!("expected fallbacks"),
    }
    assert!(matches!(
        route_direct::<u8, u8>(&succs, &None, &1, Ok(Transition::Abort(FloxideError::Cancelled))),
        DirectRoute::Fail(FloxideError::Cancelled)
    ));
}
