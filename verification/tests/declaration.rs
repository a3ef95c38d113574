use piper::expansion::{
    can_expand, chain_steps, dest_key, expand_linear_graph, expand_named_graph, graph_steps,
    link_name, source_key, BuilderStep, Edge, Endpoint, GraphFault, NamedPlan,
};
use piper::feed::count_tokens;
use piper::joints::{text_precedes, JointSets};
use piper::syntax::{
    parse_declaration, parse_pipeline, PipelineInput, Run, Scope, Shape, StageDecls, SyntaxFault,
    Wanted,
};
use piper::tokens::{read_tokens, Delimiter, Fragment, FragmentReader, RustReader, Token};
use proc_macro2::{Group, Ident, Literal, Span, TokenStream, TokenTree};

fn tokens(text: &str) -> Vec<Token> {
    read_tokens(text.parse().unwrap())
}

/// The tokens of a text in which `unseen(..)` stands for a group without
/// delimiters.
fn with_unseen(text: &str) -> Vec<Token> {
    read_tokens(hidden(text.parse().unwrap()))
}

fn hidden(stream: TokenStream) -> TokenStream {
    let mut out: Vec<TokenTree> = Vec::new();
    for tree in stream {
        let TokenTree::Group(group) = tree else {
            out.push(tree);
            continue;
        };
        let unseen = matches!(out.last(), Some(TokenTree::Ident(word)) if word == "unseen");
        if unseen {
            out.pop();
        }
        let delimiter =
            if unseen { proc_macro2::Delimiter::None } else { group.delimiter() };
        out.push(TokenTree::Group(Group::new(delimiter, hidden(group.stream()))));
    }
    out.into_iter().collect()
}

fn parsed_unseen(text: &str) -> Result<PipelineInput, SyntaxFault> {
    parse_pipeline(&RustReader, &with_unseen(text))
}

fn parsed(text: &str) -> Result<PipelineInput, SyntaxFault> {
    parse_pipeline(&RustReader, &tokens(text))
}

fn inside(tokens: &Vec<Token>, at: usize) -> &Vec<Token> {
    match &tokens[at] {
        Token::Group(_, inner) => inner,
        _ => panic!("a group"),
    }
}

fn written(tokens: &[Token]) -> String {
    let words: Vec<String> = tokens
        .iter()
        .map(|token| match token {
            Token::Ident(name) => name.text().clone(),
            Token::Literal(value) => value.text().clone(),
            Token::Punct { mark, .. } => mark.to_string(),
            Token::Group(_, inner) => format!("({})", written(inner)),
        })
        .collect();
    words.join(" ")
}

fn names(stages: &StageDecls) -> Vec<String> {
    match stages {
        StageDecls::Named { stages, .. } => stages.iter().map(|stage| stage.name.clone()).collect(),
        StageDecls::Linear { .. } => panic!("named stages"),
    }
}

fn strings(list: &[&str]) -> Vec<String> {
    list.iter().map(|text| text.to_string()).collect()
}

fn ends(list: &[&str]) -> Vec<Endpoint> {
    list.iter()
        .map(|name| match *name {
            "input" => Endpoint::Input,
            "output" => Endpoint::Output,
            other => Endpoint::Stage(other.to_string()),
        })
        .collect()
}

fn edge(from: &[&str], to: &[&str]) -> Edge {
    Edge { from: ends(from), to: ends(to) }
}

const HEAD: &str = "type Input = u8; type Output = u16; type Error = MacroError; config = config();";

fn with_head(rest: &str) -> String {
    format!("pub struct Pipeline {{ {HEAD} {rest} }}")
}

fn fault_of(text: &str) -> (Scope, Wanted) {
    let fault = parsed(text).unwrap_err();
    (fault.scope, fault.wanted)
}

#[test]
fn pipeline_macro_compiles() {
    for (stages, count) in [
        ("stages = [anchor(Widen).max_threads(1), Keep];", 2),
        ("stages = [anchor(stage(\"widen\", Widen)).max_threads(1), stage(\"keep\", Keep)];", 2),
        (
            "stages = [
                anchor(inline_stage(
                    \"widen\",
                    || -> std::result::Result<(), MacroError> { Ok(()) },
                    |_state: &mut (), input: u8, ctx: &mut StageContext<u16, MacroError>| {
                        ctx.emit(input as u16);
                        Ok(())
                    },
                )).max_threads(1),
            ];",
            1,
        ),
    ] {
        let input = parsed(&with_head(stages)).unwrap();
        assert_eq!(input.shape(), Shape::Chain);
        let StageDecls::Linear { exprs, .. } = &input.stages else { panic!("a chain") };
        assert_eq!(exprs.len(), count);
        assert_eq!(expand_linear_graph(count).len(), count);
    }

    let input = parsed(&with_head(
        "stages = {
            widen = anchor(Widen).max_threads(1),
            left = stage(\"left\", Keep),
            right = anchor(stage(\"right\", Keep)).fixed_threads(1),
            out = stage(\"out\", Keep),
        };
        graph = {
            input -> widen;
            widen -> [left, right];
            [left, right] -> out;
            out -> output;
        };",
    ))
    .unwrap();
    assert_eq!(input.shape(), Shape::Graph);
    let names = names(&input.stages);
    assert_eq!(names, strings(&["widen", "left", "right", "out"]));
    let plan = expand_named_graph(&names, input.graph.as_ref().unwrap()).unwrap();
    assert_eq!(plan.link_count, 4);
    // The last source joined to a link stands for it: input:out, out:out, right:out, widen:out.
    assert_eq!(plan.input_link, 0);
    assert_eq!(plan.output_link, 1);
    assert_eq!(plan.stage_links, vec![(0, 3), (3, 2), (3, 2), (2, 1)]);

    let input = parsed(&with_head(
        "stages = { external = external_node(u8, u16), };
        graph = { input -> external; external -> output; };",
    ))
    .unwrap();
    assert_eq!(input.shape(), Shape::Graph);
}

#[test]
fn a_declaration_keeps_its_parts() {
    let all = tokens(&with_head("stages = [f::<A, B>(1), |a, b| a + b, x as Y<Z, W>];"));
    let input = parse_pipeline(&RustReader, &all).unwrap();
    assert_eq!((input.visibility.start, input.visibility.end), (0, 1));
    assert_eq!((input.name_at, input.body_at), (2, 3));
    let body = inside(&all, input.body_at);
    let text = |run: Run| written(&body[run.start..run.end]);
    assert_eq!(text(input.input), "u8");
    assert_eq!(text(input.output), "u16");
    assert_eq!(text(input.error), "MacroError");
    assert_eq!(text(input.config), "config ()");
    let StageDecls::Linear { part, exprs } = input.stages else { panic!("a chain") };
    let stages = inside(body, part);
    let exprs: Vec<String> =
        exprs.iter().map(|run| written(&stages[run.start..run.end])).collect();
    assert_eq!(exprs, strings(&["f : : < A , B > (1)", "| a , b | a + b", "x as Y < Z , W >"]));
}

#[test]
fn visibilities_and_repeated_lines() {
    let bare = parsed(&format!("struct P {{ {HEAD} stages = []; }}")).unwrap();
    assert_eq!((bare.visibility.start, bare.visibility.end), (0, 0));
    let wide = parsed(&format!("pub(crate) struct P {{ {HEAD} stages = []; }}")).unwrap();
    assert_eq!(wide.visibility.end, 2);
    let all = tokens(&with_head("type Input = u32; stages = [];"));
    let input = parse_pipeline(&RustReader, &all).unwrap();
    let body = inside(&all, input.body_at);
    assert_eq!(written(&body[input.input.start..input.input.end]), "u32");
}

#[test]
fn faults_of_a_declaration() {
    assert_eq!(fault_of("pub enum P {}"), (Scope::Whole, Wanted::StructWord));
    assert_eq!(fault_of("what struct P {}"), (Scope::Whole, Wanted::StructWord));
    assert_eq!(fault_of("struct 4 {}"), (Scope::Whole, Wanted::Name));
    assert_eq!(fault_of("struct type {}"), (Scope::Whole, Wanted::NameNotKeyword));
    assert_eq!(fault_of("struct P ()"), (Scope::Whole, Wanted::Braces));
    assert_eq!(fault_of("struct P {}"), (Scope::Body, Wanted::InputType));
    assert_eq!(fault_of("struct P { type Input = u8; }"), (Scope::Body, Wanted::OutputType));
    assert_eq!(
        fault_of("struct P { type Input = u8; type Output = u8; }"),
        (Scope::Body, Wanted::ErrorType)
    );
    assert_eq!(
        fault_of("struct P { type Input = u8; type Output = u8; type Error = E; }"),
        (Scope::Body, Wanted::Config)
    );
    assert_eq!(fault_of(&with_head("")), (Scope::Body, Wanted::Stages));
    assert_eq!(fault_of(&with_head("type Other = u8;")), (Scope::Body, Wanted::KnownType));
    assert_eq!(fault_of(&with_head("other = 1;")), (Scope::Body, Wanted::KnownAssignment));
    assert_eq!(fault_of(&with_head("stages [];")), (Scope::Body, Wanted::Mark { mark: '=' }));
    assert_eq!(fault_of(&with_head("stages = []")), (Scope::Body, Wanted::Mark { mark: ';' }));
    assert_eq!(fault_of(&with_head("stages = ();")), (Scope::Body, Wanted::Braces));
    assert_eq!(fault_of(&with_head("graph = [];")), (Scope::Body, Wanted::Braces));
    assert_eq!(fault_of(&with_head("type Input = +;")), (Scope::Body, Wanted::TypeFragment));
    assert_eq!(fault_of(&with_head("config = ;")), (Scope::Body, Wanted::ExpressionFragment));
    assert!(matches!(
        fault_of(&with_head("stages = [a b];")),
        (Scope::Part { .. }, Wanted::ExpressionFragment)
    ));
    assert!(matches!(
        fault_of(&with_head("stages = { a };")),
        (Scope::Part { .. }, Wanted::Mark { mark: '=' })
    ));
    assert!(matches!(
        fault_of(&with_head("graph = { a - b };")),
        (Scope::Part { .. }, Wanted::Arrow)
    ));
    assert!(matches!(
        fault_of(&with_head("graph = { a -> b c -> d };")),
        (Scope::Part { .. }, Wanted::Mark { mark: ';' })
    ));
    assert!(matches!(
        fault_of(&with_head("graph = { [a b] -> c };")),
        (Scope::List { .. }, Wanted::Mark { mark: ',' })
    ));
    assert!(matches!(
        fault_of(&with_head("graph = { [a, match] -> c };")),
        (Scope::List { .. }, Wanted::NameNotKeyword)
    ));
    let trailing = format!("{} more", with_head("stages = [];"));
    assert_eq!(fault_of(&trailing), (Scope::Whole, Wanted::Nothing));
}

#[test]
fn faults_in_words() {
    let fault = |wanted: Wanted, at_end: bool| SyntaxFault { scope: Scope::Body, at: 0, at_end, wanted };
    assert_eq!(fault(Wanted::Name, false).message(""), "expected identifier");
    assert_eq!(
        fault(Wanted::Name, true).message(""),
        "unexpected end of input, expected identifier"
    );
    assert_eq!(
        fault(Wanted::NameNotKeyword, false).message("match"),
        "expected identifier, found keyword `match`"
    );
    assert_eq!(fault(Wanted::Mark { mark: ';' }, true).message(""), "expected `;`");
    assert_eq!(fault(Wanted::Arrow, true).message(""), "expected `->`");
    assert_eq!(fault(Wanted::KnownType, false).message(""), "expected Input, Output, or Error");
    assert_eq!(
        fault(Wanted::KnownAssignment, false).message(""),
        "expected config, stages, or graph assignment"
    );
    assert_eq!(fault(Wanted::InputType, false).message(""), "missing `type Input = ...;`");
    assert_eq!(fault(Wanted::Stages, false).message(""), "missing `stages = ...;`");
}

#[test]
fn shapes_need_their_other_half() {
    let named = parsed(&with_head("stages = { a = A };")).unwrap();
    assert_eq!(named.shape(), Shape::NamesWithoutGraph);
    assert_eq!(named.shape().fault().unwrap(), "named stages require `graph = { ... };`");
    let listed = parsed(&with_head("stages = [A]; graph = { input -> output };")).unwrap();
    assert_eq!(listed.shape(), Shape::GraphWithoutNames);
    assert_eq!(
        listed.shape().fault().unwrap(),
        "`graph = ...` requires named `stages = { ... };`"
    );
    assert!(Shape::Chain.fault().is_none());
    assert!(Shape::Graph.fault().is_none());
}

#[test]
fn rust_reads_its_fragments() {
    let reads = |fragment: Fragment, text: &str| {
        let tokens = with_unseen(text);
        RustReader.check(fragment, &tokens.iter().collect())
    };
    assert!(reads(Fragment::Visibility, "pub (crate)"));
    assert!(reads(Fragment::Visibility, ""));
    assert!(!reads(Fragment::Visibility, "public"));
    assert!(reads(Fragment::Type, "Vec<u8>"));
    assert!(!reads(Fragment::Type, "Vec <"));
    assert!(reads(Fragment::Type, "&unseen(dyn A + B)"));
    assert!(!reads(Fragment::Type, "&dyn A + B"));
    assert!(reads(Fragment::Expression, "a + b"));
    assert!(!reads(Fragment::Expression, "a +"));
    assert!(reads(Fragment::Expression, "a -= 1"));
    assert!(!reads(Fragment::Expression, "a - = 1"));
    assert!(reads(Fragment::Expression, "f(\"text\", 'c', 1.5)[0]"));
    assert!(reads(Fragment::Expression, "unseen(x as usize) < y"));
    assert!(!reads(Fragment::Expression, "x as usize < y"));
    assert!(reads(Fragment::Expression, "unseen(A)::new()"));
    let names = |text: &str| match &tokens(text)[0] {
        Token::Ident(name) => RustReader.check_name(name),
        _ => panic!("an identifier"),
    };
    for name in ["stage", "r#type", "input", "union", "auto", "Selfish", "grün"] {
        assert!(names(name));
    }
    for keyword in [
        "_", "abstract", "as", "async", "await", "become", "box", "break", "const", "continue",
        "crate", "do", "dyn", "else", "enum", "extern", "false", "final", "fn", "for", "if",
        "impl", "in", "let", "loop", "macro", "match", "mod", "move", "mut", "override", "priv",
        "pub", "ref", "return", "Self", "self", "static", "struct", "super", "trait", "true",
        "try", "type", "typeof", "unsafe", "unsized", "use", "virtual", "where", "while", "yield",
    ] {
        assert!(!names(keyword));
    }
}

#[test]
fn tokens_are_read_as_they_come() {
    let read = with_unseen("a -= 1.5 (\"x\" {} [b]) unseen(c)");
    assert_eq!(read.len(), 6);
    assert!(matches!(&read[0], Token::Ident(name) if name.text() == "a"));
    assert!(matches!(read[1], Token::Punct { mark: '-', joint: true }));
    assert!(matches!(read[2], Token::Punct { mark: '=', joint: false }));
    assert!(matches!(&read[3], Token::Literal(value) if value.text() == "1.5"));
    let Token::Group(Delimiter::Parenthesis, inner) = &read[4] else { panic!("a group") };
    assert!(matches!(&inner[0], Token::Literal(value) if value.text() == "\"x\""));
    assert!(matches!(&inner[1], Token::Group(Delimiter::Brace, none) if none.is_empty()));
    assert!(matches!(&inner[2], Token::Group(Delimiter::Bracket, one) if one.len() == 1));
    assert!(matches!(&read[5], Token::Group(Delimiter::Invisible, one) if one.len() == 1));
    // A stream breaks a number below zero in two.
    let negative = read_tokens(TokenTree::Literal(Literal::i32_unsuffixed(-4)).into());
    assert_eq!(negative.len(), 2);
    assert!(RustReader.check(Fragment::Expression, &negative.iter().collect()));
    let raw = read_tokens(TokenTree::Ident(Ident::new_raw("fn", Span::call_site())).into());
    assert!(matches!(&raw[0], Token::Ident(name) if name.text() == "r#fn"));
    // A mark that Rust does not have is in no fragment.
    let strange = Token::Punct { mark: '\u{a7}', joint: false };
    assert!(!RustReader.check(Fragment::Expression, &vec![&read[0], &strange]));
}

#[test]
fn a_stream_is_read_as_its_tokens() {
    let text = with_head("stages = [A, B];");
    let input = parse_declaration(text.parse().unwrap()).unwrap();
    assert_eq!(input.shape(), Shape::Chain);
    let fault = parse_declaration("pub enum P {}".parse().unwrap()).unwrap_err();
    assert_eq!((fault.scope, fault.wanted), (Scope::Whole, Wanted::StructWord));
}

#[test]
fn groups_without_delimiters_are_stepped_into() {
    for text in [
        with_head("stages = unseen([A, B]);"),
        with_head("unseen(stages) = [A, B];"),
        with_head("stages unseen(=) [A, B];"),
        with_head("stages = [A, B] unseen(;)"),
        with_head("unseen(stages = [A, B];)"),
        with_head("unseen(unseen(stages) = unseen(unseen([A, unseen(B)]))) ;"),
        with_head("stages = [A unseen(,) B];"),
        format!("unseen(pub struct P) {{ {HEAD} stages = [A, B]; }}"),
        format!("unseen(pub) struct unseen(P) unseen({{ {HEAD} stages = [A, B]; }})"),
        format!("unseen() struct P {{ {HEAD} stages = [A, B]; }}"),
        format!("unseen(pub struct P {{ {HEAD} stages = [A, B]; }})"),
        format!("pub struct P {{ unseen({HEAD}) stages = [A, B]; }} unseen()"),
        format!("pub struct P {{ unseen(type) unseen(Input) = unseen(u8); {HEAD} stages = [A, B]; }}"),
    ] {
        let input = parsed_unseen(&text).unwrap();
        assert_eq!(input.shape(), Shape::Chain);
        let StageDecls::Linear { exprs, .. } = &input.stages else { panic!("a chain") };
        assert_eq!(exprs.len(), 2);
    }

    let input = parsed_unseen(&with_head(
        "stages = unseen({ unseen(a) unseen(=) A unseen(,) b = unseen(B) });
        graph = unseen({
            unseen(input) unseen(->) a;
            unseen([a, unseen(a)]) -> [unseen(b,)] unseen(;)
            unseen(b -> output);
        });",
    ))
    .unwrap();
    assert_eq!(names(&input.stages), strings(&["a", "b"]));
    let edges = vec![edge(&["input"], &["a"]), edge(&["a", "a"], &["b"]), edge(&["b"], &["output"])];
    assert_eq!(format!("{:?}", input.graph.unwrap()), format!("{edges:?}"));
}

#[test]
fn places_count_what_can_be_seen() {
    let text = format!("unseen(pub) struct unseen(P) {{ {HEAD} stages = unseen([x, y unseen(+) z]); }}");
    let input = parsed_unseen(&text).unwrap();
    assert_eq!((input.visibility.start, input.visibility.end), (0, 1));
    assert_eq!((input.name_at, input.body_at), (2, 3));
    let StageDecls::Linear { part, exprs } = &input.stages else { panic!("a chain") };
    let bare = parsed(&format!("pub struct P {{ {HEAD} stages = [x, y + z]; }}")).unwrap();
    let StageDecls::Linear { part: bare_part, exprs: bare_exprs } = &bare.stages else {
        panic!("a chain")
    };
    assert_eq!(part, bare_part);
    let places = |runs: &Vec<Run>| -> Vec<(usize, usize)> {
        runs.iter().map(|run| (run.start, run.end)).collect()
    };
    assert_eq!(places(exprs), vec![(0, 1), (2, 5)]);
    assert_eq!(places(exprs), places(bare_exprs));
    assert_eq!(count_tokens(&with_unseen("unseen() a unseen(b unseen(c)) (d e)")), 4);
}

#[test]
fn faults_are_found_inside_groups_without_delimiters() {
    let fault = |text: &str| parsed_unseen(text).unwrap_err();
    let braces = fault(&with_head("stages = unseen(());"));
    assert_eq!((braces.scope, braces.wanted), (Scope::Body, Wanted::Braces));
    assert_eq!(braces.at, tokens(HEAD).len() + 2);
    assert_eq!(fault("unseen(pub) enum P {}").wanted, Wanted::StructWord);
    assert_eq!(fault("struct unseen(match) {}").wanted, Wanted::NameNotKeyword);
    assert_eq!(fault(&with_head("unseen(other) = 1;")).wanted, Wanted::KnownAssignment);
    assert_eq!(fault(&with_head("config = x as usize < y;")).wanted, Wanted::ExpressionFragment);
    assert!(parsed_unseen(&with_head("config = unseen(x as usize) < y; stages = [];")).is_ok());
    assert!(parsed_unseen(&with_head("type Input = &unseen(dyn A + B); stages = [];")).is_ok());
    // At the end of the braces even an empty group is waited on for a line.
    let empty = fault(&with_head("stages = []; unseen()"));
    assert_eq!((empty.scope, empty.wanted, empty.at_end), (Scope::Body, Wanted::Name, false));
    let more = fault(&format!("{} unseen(more)", with_head("stages = [];")));
    assert_eq!((more.scope, more.wanted), (Scope::Whole, Wanted::Nothing));
}

#[test]
fn graph_faults_come_in_order() {
    let stages = strings(&["a", "b"]);
    let fault = |edges: Vec<Edge>| expand_named_graph(&stages, &edges).unwrap_err();
    assert_eq!(
        fault(vec![edge(&["x"], &["input"])]),
        GraphFault::UnknownSource { edge: 0, endpoint: 0 }
    );
    assert_eq!(
        fault(vec![edge(&["input"], &["a", "y"])]),
        GraphFault::UnknownDestination { edge: 0, endpoint: 1 }
    );
    assert_eq!(
        fault(vec![edge(&["input", "output"], &["a"])]),
        GraphFault::OutputAsSource { edge: 0, endpoint: 1 }
    );
    assert_eq!(
        fault(vec![edge(&["input"], &["a"]), edge(&["a"], &["input"])]),
        GraphFault::InputAsDestination { edge: 1, endpoint: 0 }
    );
    assert_eq!(fault(vec![edge(&["a"], &["b"])]), GraphFault::InputUnconnected);
    assert_eq!(fault(vec![edge(&["input"], &["a"])]), GraphFault::OutputUnconnected);
    assert_eq!(
        fault(vec![edge(&["input"], &["output"])]),
        GraphFault::StageWithoutInput { stage: 0 }
    );
    assert_eq!(
        fault(vec![edge(&["input"], &["a", "output", "b"])]),
        GraphFault::StageWithoutOutput { stage: 0 }
    );
    assert_eq!(
        fault(vec![edge(&["input"], &["a"]), edge(&["a"], &["b"]), edge(&["b"], &["a", "output"])]),
        GraphFault::Cycle { stage: 0 }
    );
    assert_eq!(
        fault(vec![edge(&["input"], &["a"]), edge(&["a"], &["output"]), edge(&["b"], &["b"])]),
        GraphFault::Cycle { stage: 1 }
    );
    // An edge from nowhere leads nowhere.
    assert_eq!(
        fault(vec![edge(&["input"], &["a"]), edge(&[], &["output"])]),
        GraphFault::OutputUnconnected
    );
}

#[test]
fn graph_faults_have_words() {
    let stage = 0;
    let (edge, endpoint) = (0, 0);
    for (fault, words) in [
        (GraphFault::UnknownSource { edge, endpoint }, "unknown graph stage"),
        (GraphFault::UnknownDestination { edge, endpoint }, "unknown graph stage"),
        (GraphFault::OutputAsSource { edge, endpoint }, "`output` cannot be used as a graph edge source"),
        (
            GraphFault::InputAsDestination { edge, endpoint },
            "`input` cannot be used as a graph edge destination",
        ),
        (GraphFault::InputUnconnected, "graph must connect `input` to at least one stage"),
        (GraphFault::OutputUnconnected, "graph must connect at least one stage to `output`"),
        (GraphFault::StageWithoutInput { stage }, "stage is missing an input graph edge"),
        (GraphFault::StageWithoutOutput { stage }, "stage is missing an output graph edge"),
        (GraphFault::Cycle { stage }, "graph cycles are not supported"),
    ] {
        assert_eq!(fault.message(), words);
    }
}

#[test]
fn ends_share_links_where_edges_connect_them() {
    let plan: NamedPlan = expand_named_graph(
        &strings(&["z", "a"]),
        &vec![edge(&["input"], &["z"]), edge(&["z"], &["a"]), edge(&["a"], &["output"])],
    )
    .unwrap();
    // Sorted by source: a:out, input:out, z:out.
    assert_eq!((plan.link_count, plan.input_link, plan.output_link), (3, 1, 0));
    assert_eq!(plan.stage_links, vec![(1, 2), (2, 0)]);
    assert_eq!(
        graph_steps(&plan),
        vec![
            BuilderStep::Link { link: 0 },
            BuilderStep::Input { link: 1 },
            BuilderStep::Link { link: 2 },
            BuilderStep::AddStageTo { stage: 0, from: 1, to: 2 },
            BuilderStep::AddStageTo { stage: 1, from: 2, to: 0 },
            BuilderStep::Finish { link: 0 },
        ]
    );
    let empty = expand_named_graph(&Vec::new(), &vec![edge(&["input"], &["output"])]).unwrap();
    assert_eq!((empty.link_count, empty.input_link, empty.output_link), (1, 0, 0));
}

#[test]
fn a_graph_without_stages_needs_its_ends() {
    let none = Vec::new();
    assert!(!can_expand(&none, &Vec::new()));
    assert!(!can_expand(&none, &vec![edge(&["input"], &[])]));
    assert!(!can_expand(&none, &vec![edge(&[], &["output"])]));
    assert!(can_expand(&none, &vec![edge(&["input"], &["output"])]));
    assert!(can_expand(&none, &vec![edge(&["x"], &[])]));
    assert!(can_expand(&strings(&["a"]), &Vec::new()));
}

#[test]
fn keys_and_names_of_links() {
    assert_eq!(source_key(&Endpoint::Input), "input:out");
    assert_eq!(source_key(&Endpoint::Stage("a".to_string())), "a:out");
    assert_eq!(dest_key(&Endpoint::Output), "output:in");
    assert_eq!(dest_key(&Endpoint::Stage("a".to_string())), "a:in");
    assert_eq!(link_name(12), "__piper_link_12");
    assert_eq!(expand_linear_graph(2), vec![(0, 1), (1, 2)]);
    assert_eq!(
        chain_steps(2),
        vec![
            BuilderStep::Input { link: 0 },
            BuilderStep::AddStage { stage: 0, from: 0, to: 1 },
            BuilderStep::AddStage { stage: 1, from: 1, to: 2 },
            BuilderStep::Finish { link: 2 },
        ]
    );
}

#[test]
fn joint_sets_merge_towards_the_left() {
    let mut sets = JointSets::new();
    for name in ["d", "c", "b", "a", "c"] {
        sets.insert_key(name.to_string());
    }
    assert_eq!(sets.count(), 4);
    sets.union(0, 1);
    sets.union(2, 1);
    assert_eq!(sets.position(&"b".to_string()), Some(2));
    assert_eq!(sets.position(&"e".to_string()), None);
    // All but "a" are with "b" now.
    assert_eq!((sets.find(0), sets.find(1), sets.find(2), sets.find(3)), (2, 2, 2, 3));
    // Finding again finds the same.
    assert_eq!((sets.find(0), sets.find(1), sets.find(2), sets.find(3)), (2, 2, 2, 3));
    assert_eq!(sets.count(), 2);
    assert_eq!((sets.number(3), sets.number(2)), (0, 1));
}

#[test]
fn texts_are_ordered_by_their_characters() {
    let precedes = |a: &str, b: &str| text_precedes(&a.to_string(), &b.to_string());
    for (a, b) in [("", "a"), ("a", "b"), ("a", "aa"), ("Z", "a"), ("a:in", "a:out"), ("a1", "a_")] {
        assert!(precedes(a, b));
        assert!(!precedes(b, a));
        assert!(a < b);
    }
    assert!(!precedes("same", "same"));
}
