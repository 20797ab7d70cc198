use rant::compiler::grammar::ParseStop;
use rant::compiler::lang::{
    is_valid_ident, AccessPathComponent, AccessPathKind, MapKeyExpr, PrintFlag, RantProgramInfo, Rst,
    Sequence, Varity,
};
use rant::compiler::lexer::{Lexeme, RantToken};
use rant::compiler::message::{CompilerMessage, Position, Problem, Severity};
use rant::compiler::parser::{super_range, RantParser};
use std::rc::Rc;

use rant::compiler::lexer::RantToken as T;

fn info() -> Rc<RantProgramInfo> {
    Rc::new(RantProgramInfo { name: Some("test".to_owned()), path: None })
}

fn spell(token: &RantToken) -> String {
    match token {
        T::Whitespace => " ",
        T::Integer(n) => return n.to_string(),
        T::True => "true",
        T::False => "false",
        T::EmptyValue => "~",
        T::StringLiteral(s) => return format!("\"{}\"", s),
        T::UnterminatedStringLiteral => "\"",
        T::Hint => "`",
        T::Sink => "_",
        T::Star => "*",
        T::Bang => "!",
        T::Question => "?",
        T::Slash => "/",
        T::Plus => "+",
        T::Dollar => "$",
        T::Equals => "=",
        T::At => "@",
        T::Caret => "^",
        T::Colon => ":",
        T::Semi => ";",
        T::Pipe => "|",
        T::Compose => "|>",
        T::ComposeValue => "[]",
        T::LeftBrace => "{",
        T::RightBrace => "}",
        T::LeftParen => "(",
        T::RightParen => ")",
        T::LeftBracket => "[",
        T::RightBracket => "]",
        T::LeftAngle => "<",
        T::RightAngle => ">",
        T::Escape(c) => return format!("\\{}", c),
        T::Fragment => "frag",
        T::Float(n) => return n.text.clone(),
        T::Error => "#",
    }
    .to_owned()
}

/// A token spelled in the usual way.
fn t(token: RantToken) -> (RantToken, String) {
    let text = spell(&token);
    (token, text)
}

/// A fragment.
fn f(text: &str) -> (RantToken, String) {
    (T::Fragment, text.to_owned())
}

/// Whitespace.
fn w(text: &str) -> (RantToken, String) {
    (T::Whitespace, text.to_owned())
}

/// Text with its tokens.
fn lex(tokens: Vec<(RantToken, String)>) -> (String, Vec<Lexeme>) {
    let mut source = String::new();
    let mut lexemes = vec![];
    for (token, text) in tokens {
        let start = source.len();
        source.push_str(&text);
        lexemes.push(Lexeme { token, span: start..source.len(), text });
    }
    (source, lexemes)
}

/// Parses tokens and gives the outcome with the problems reported.
fn parse_all(
    tokens: Vec<(RantToken, String)>,
    debug: bool,
) -> (Result<Rc<Sequence>, ParseStop>, Vec<Problem>) {
    let (source, lexemes) = lex(tokens);
    let mut parser = RantParser::new(&source, lexemes, debug, &info());
    let result = parser.try_parse();
    assert_eq!(parser.has_errors(), !parser.reports().is_empty());
    let problems = parser
        .reports()
        .iter()
        .map(|message| {
            assert!(message.is_error());
            match &message.info {
                Problem::UnexpectedToken(s) => Problem::UnexpectedToken(s.clone()),
                Problem::ExpectedToken(s) => Problem::ExpectedToken(s.clone()),
                Problem::InvalidIdentifier(s) => Problem::InvalidIdentifier(s.clone()),
                Problem::DuplicateParameter(s) => Problem::DuplicateParameter(s.clone()),
                Problem::InvalidParamOrder(a, b) => {
                    Problem::InvalidParamOrder(a.clone(), b.clone())
                }
                Problem::InvalidHintOn(s) => Problem::InvalidHintOn(s),
                Problem::InvalidSinkOn(s) => Problem::InvalidSinkOn(s),
                Problem::MissingIdentifier => Problem::MissingIdentifier,
                Problem::InvalidHint => Problem::InvalidHint,
                Problem::InvalidSink => Problem::InvalidSink,
                Problem::DynamicKeyBlockMultiElement => Problem::DynamicKeyBlockMultiElement,
                Problem::FunctionBodyBlockMultiElement => Problem::FunctionBodyBlockMultiElement,
                Problem::UnclosedBlock => Problem::UnclosedBlock,
                Problem::UnclosedFunctionCall => Problem::UnclosedFunctionCall,
                Problem::UnclosedFunctionSignature => Problem::UnclosedFunctionSignature,
                Problem::UnclosedVariableAccess => Problem::UnclosedVariableAccess,
                Problem::UnclosedStringLiteral => Problem::UnclosedStringLiteral,
                Problem::UnclosedList => Problem::UnclosedList,
                Problem::UnclosedMap => Problem::UnclosedMap,
                Problem::LocalPathStartsWithIndex => Problem::LocalPathStartsWithIndex,
                Problem::MultipleVariadicParams => Problem::MultipleVariadicParams,
                Problem::NothingToCompose => Problem::NothingToCompose,
                Problem::ComposeValueReused => Problem::ComposeValueReused,
                Problem::AnonValueAssignment => Problem::AnonValueAssignment,
            }
        })
        .collect();
    (result, problems)
}

/// The tree of tokens that parse.
fn parse_ok(tokens: Vec<(RantToken, String)>) -> Rc<Sequence> {
    let (result, problems) = parse_all(tokens, false);
    assert_eq!(problems, vec![]);
    result.unwrap()
}

/// The problems of tokens that do not parse.
fn parse_err(tokens: Vec<(RantToken, String)>) -> Vec<Problem> {
    let (result, problems) = parse_all(tokens, false);
    assert_eq!(result.unwrap_err(), ParseStop::SyntaxError);
    assert!(!problems.is_empty());
    problems
}

/// The nodes of a sequence, shortly.
fn show(sequence: &Sequence) -> Vec<String> {
    sequence
        .elements
        .iter()
        .map(|node| match &**node {
            Rst::Fragment(s) => format!("frag {}", s),
            Rst::Whitespace(s) => format!("ws {:?}", s),
            Rst::Integer(n) => format!("int {}", n),
            Rst::Boolean(b) => format!("bool {}", b),
            Rst::Float(n) => format!("float {}", n.text),
            Rst::DebugCursor(info) => format!("{:?}", info),
            other => other.display_name().to_owned(),
        })
        .collect()
}

fn names(ids: &[rant::compiler::lang::Identifier]) -> Vec<String> {
    let mut names: Vec<String> = ids.iter().map(|id| id.name.clone()).collect();
    names.sort();
    names
}

#[test]
fn empty_program() {
    let root = parse_ok(vec![]);
    assert_eq!(root.elements.len(), 0);
    assert_eq!(root.name.as_deref(), Some("main scope"));
    assert_eq!(root.origin.name.as_deref(), Some("test"));
}

#[test]
fn parse_agrees_with_try_parse() {
    let (source, lexemes) = lex(vec![f("a")]);
    let mut parser = RantParser::new(&source, lexemes, false, &info());
    assert_eq!(show(&parser.parse().unwrap()), vec!["frag a"]);

    let (source, lexemes) = lex(vec![t(T::RightBrace)]);
    let mut parser = RantParser::new(&source, lexemes, false, &info());
    assert!(parser.parse().is_err());
}

#[test]
fn whitespace_is_kept_between_printing_items_only() {
    let root = parse_ok(vec![w(" "), f("a"), w("  "), f("b"), w(" ")]);
    assert_eq!(show(&root), vec!["frag a", "ws \"  \"", "frag b"]);
}

#[test]
fn fragments_and_escapes_join() {
    let root = parse_ok(vec![f("a"), t(T::Escape('\n')), f("b"), t(T::Integer(3))]);
    assert_eq!(show(&root), vec!["frag a\nb", "int 3"]);
    let root = parse_ok(vec![t(T::Escape('x')), t(T::Escape('y'))]);
    assert_eq!(show(&root), vec!["frag xy"]);
}

#[test]
fn literals() {
    let root = parse_ok(vec![
        t(T::Integer(-5)),
        t(T::True),
        t(T::False),
        t(T::EmptyValue),
        t(T::StringLiteral("hi".to_owned())),
        t(T::Bang),
        t(T::Question),
        t(T::Slash),
        t(T::Plus),
        t(T::Dollar),
        t(T::Equals),
        t(T::Colon),
        t(T::Semi),
    ]);
    assert_eq!(
        show(&root),
        vec![
            "int -5", "bool true", "bool false", "empty", "frag hi", "frag !", "frag ?", "frag /",
            "frag +", "frag $", "frag =", "frag :", "frag ;"
        ]
    );
}

#[test]
fn positions_are_recorded_when_asked() {
    let (result, problems) = parse_all(vec![f("a"), w("\n"), f("b")], true);
    assert_eq!(problems, vec![]);
    assert_eq!(
        show(&result.unwrap()),
        vec![
            "Location { line: 1, col: 1 }",
            "frag a",
            "Location { line: 2, col: 1 }",
            "ws \"\\n\"",
            "Location { line: 2, col: 1 }",
            "frag b"
        ]
    );
}

#[test]
fn positions_change_nothing_else() {
    let tokens = || {
        vec![
            f("a"),
            w(" "),
            t(T::LeftBrace),
            t(T::LeftAngle),
            f("x"),
            t(T::RightAngle),
            t(T::Pipe),
            f("b"),
            t(T::RightBrace),
            t(T::RightParen),
            f("c"),
        ]
    };
    let (source, lexemes) = lex(tokens());
    let mut with = RantParser::new(&source, lexemes, true, &info());
    let (source, lexemes) = lex(tokens());
    let mut without = RantParser::new(&source, lexemes, false, &info());
    assert_eq!(with.try_parse().unwrap_err(), without.try_parse().unwrap_err());
    assert_eq!(with.reports(), without.reports());

    let mut good = tokens();
    good.remove(9);
    let again = good.clone();
    let shown = show(&parse_all(good, true).0.unwrap());
    let bare: Vec<String> =
        shown.iter().filter(|node| !node.starts_with("Location")).cloned().collect();
    assert_eq!(shown.len(), 2 * bare.len());
    assert!(shown.iter().step_by(2).all(|node| node.starts_with("Location")));
    assert_eq!(bare, show(&parse_ok(again)));
}

#[test]
fn reports_carry_positions() {
    let (source, lexemes) = lex(vec![f("a"), w("\n\n"), f("bcd"), t(T::RightBrace)]);
    let mut parser = RantParser::new(&source, lexemes, false, &info());
    assert_eq!(parser.try_parse().unwrap_err(), ParseStop::SyntaxError);
    assert_eq!(
        *parser.reports(),
        vec![CompilerMessage {
            info: Problem::UnexpectedToken("}".to_owned()),
            severity: Severity::Error,
            pos: Some(Position { line: 3, col: 4, span: 6..7 }),
        }]
    );
}

#[test]
fn block_elements_and_inherited_hints() {
    let root = parse_ok(vec![t(T::LeftBrace), f("a"), t(T::Pipe), t(T::RightBrace)]);
    match &*root.elements[0] {
        Rst::Block(block) => {
            assert_eq!(block.flag, PrintFlag::Hint);
            assert_eq!(block.elements.len(), 2);
            assert_eq!(show(&block.elements[0]), vec!["frag a"]);
            assert_eq!(block.elements[0].name.as_deref(), Some("block element"));
            assert_eq!(block.elements[1].elements.len(), 0);
        }
        _ => panic!(),
    }
    // A block that prints nothing takes no hint
    let root = parse_ok(vec![t(T::LeftBrace), t(T::RightBrace)]);
    assert!(matches!(&*root.elements[0], Rst::Block(block) if block.flag == PrintFlag::Plain));
    // A sink stays a sink
    let root = parse_ok(vec![t(T::Sink), t(T::LeftBrace), f("a"), t(T::RightBrace)]);
    assert!(matches!(&*root.elements[0], Rst::Block(block) if block.flag == PrintFlag::Sink));
}

fn show_element(root: &Sequence) -> Vec<String> {
    match &*root.elements[0] {
        Rst::Block(block) => {
            assert_eq!(block.elements.len(), 1);
            assert_eq!(block.elements[0].name.as_deref(), Some("block element"));
            show(&block.elements[0])
        }
        _ => panic!(),
    }
}

#[test]
fn colons_in_blocks_are_text() {
    let root =
        parse_ok(vec![t(T::LeftBrace), f("a"), t(T::Colon), f("b"), t(T::RightBrace)]);
    assert_eq!(show_element(&root), vec!["frag a", "frag :", "frag b"]);
    let root = parse_ok(vec![
        t(T::LeftBrace),
        f("a"),
        w(" "),
        t(T::Colon),
        w(" "),
        f("b"),
        t(T::Colon),
        f("c"),
        t(T::RightBrace),
    ]);
    assert_eq!(
        show_element(&root),
        vec!["frag a", "frag :", "ws \" \"", "frag b", "frag :", "frag c"]
    );
    let root = parse_ok(vec![t(T::LeftBrace), t(T::Colon), t(T::RightBrace)]);
    assert_eq!(show_element(&root), vec!["frag :"]);
    let root = parse_ok(vec![f("a"), t(T::Colon), f("b")]);
    assert_eq!(show(&root), vec!["frag a", "frag :", "frag b"]);
}

#[test]
fn problems_after_a_colon_in_a_block_are_reported() {
    assert_eq!(
        parse_err(vec![
            t(T::LeftAngle),
            f("x"),
            t(T::Equals),
            t(T::LeftBrace),
            f("k"),
            t(T::Colon),
            f("v"),
            t(T::RightBrace),
        ]),
        vec![Problem::UnclosedVariableAccess]
    );
}

#[test]
fn hinted_block_keeps_whitespace() {
    // An empty block does not print, so the whitespace waits for what does
    let root = parse_ok(vec![f("a"), w(" "), t(T::LeftBrace), t(T::RightBrace), f("b")]);
    assert_eq!(show(&root), vec!["frag a", "block", "ws \" \"", "frag b"]);
    let root =
        parse_ok(vec![f("a"), w(" "), t(T::Hint), t(T::LeftBrace), t(T::RightBrace), f("b")]);
    assert_eq!(show(&root), vec!["frag a", "ws \" \"", "block", "frag b"]);
}

#[test]
fn deferred_block() {
    let root = parse_ok(vec![t(T::Star), w(" "), t(T::LeftBrace), f("a"), t(T::RightBrace)]);
    assert_eq!(show(&root), vec!["block value"]);
    assert_eq!(
        parse_err(vec![t(T::Star), f("a")]),
        vec![Problem::ExpectedToken("{".to_owned())]
    );
}

#[test]
fn flags_on_items_that_take_none() {
    assert_eq!(parse_err(vec![t(T::Hint), f("a")]), vec![Problem::InvalidHintOn("fragment")]);
    assert_eq!(
        parse_err(vec![t(T::Sink), t(T::Integer(1))]),
        vec![Problem::InvalidSinkOn("integer")]
    );
    assert_eq!(
        parse_err(vec![t(T::Hint), t(T::LeftParen), t(T::RightParen)]),
        vec![Problem::InvalidHintOn("list")]
    );
    assert_eq!(parse_err(vec![t(T::Hint)]), vec![Problem::InvalidHint]);
    assert_eq!(parse_err(vec![t(T::Sink)]), vec![Problem::InvalidSink]);
    assert_eq!(parse_err(vec![t(T::Hint), t(T::Sink)]), vec![Problem::InvalidHint]);
    assert_eq!(parse_err(vec![t(T::Sink), w(" ")]), vec![Problem::InvalidSink]);
    // The token after the flag goes unread, so the block is not closed by it
    assert_eq!(
        parse_err(vec![t(T::LeftBrace), t(T::Hint), t(T::RightBrace)]),
        vec![Problem::InvalidHint, Problem::UnclosedBlock]
    );
}

#[test]
fn stray_tokens() {
    for token in [T::Compose, T::Pipe, T::RightBrace, T::RightParen, T::RightBracket, T::RightAngle]
    {
        let text = spell(&token);
        assert_eq!(parse_err(vec![t(token)]), vec![Problem::UnexpectedToken(text)]);
    }
    for token in [T::Caret, T::ComposeValue, T::Error] {
        let text = spell(&token);
        assert_eq!(parse_err(vec![t(token)]), vec![Problem::UnexpectedToken(text)]);
    }
    assert_eq!(
        parse_err(vec![t(T::UnterminatedStringLiteral), f("a")]),
        vec![Problem::UnclosedStringLiteral]
    );
}

#[test]
fn unclosed_block_runs_to_the_end() {
    let (source, lexemes) = lex(vec![f("a"), t(T::LeftBrace), f("bc")]);
    let mut parser = RantParser::new(&source, lexemes, false, &info());
    assert!(parser.try_parse().is_err());
    assert_eq!(parser.reports()[0].info, Problem::UnclosedBlock);
    assert_eq!(parser.reports()[0].pos, Some(Position { line: 1, col: 2, span: 1..4 }));
}

#[test]
fn lists() {
    let root = parse_ok(vec![t(T::LeftParen), w(" "), t(T::RightParen)]);
    assert!(matches!(&*root.elements[0], Rst::ListInit(items) if items.is_empty()));
    let root = parse_ok(vec![
        t(T::LeftParen),
        f("a"),
        t(T::Semi),
        w(" "),
        t(T::Integer(2)),
        t(T::RightParen),
    ]);
    match &*root.elements[0] {
        Rst::ListInit(items) => {
            assert_eq!(items.len(), 2);
            assert_eq!(show(&items[0]), vec!["frag a"]);
            assert_eq!(items[0].name.as_deref(), Some("collection item"));
            assert_eq!(show(&items[1]), vec!["int 2"]);
            assert_eq!(items[1].name, None);
        }
        _ => panic!(),
    }
    assert_eq!(parse_err(vec![t(T::LeftParen), f("a")]), vec![Problem::UnclosedList]);
}

#[test]
fn maps() {
    let root = parse_ok(vec![
        t(T::At),
        t(T::LeftParen),
        f("a"),
        w(" "),
        t(T::Equals),
        w(" "),
        t(T::Integer(1)),
        t(T::Semi),
        t(T::StringLiteral("b c".to_owned())),
        t(T::Equals),
        f("x"),
        t(T::Semi),
        t(T::LeftBrace),
        f("k"),
        t(T::RightBrace),
        t(T::Equals),
        f("y"),
        t(T::RightParen),
    ]);
    match &*root.elements[0] {
        Rst::MapInit(pairs) => {
            assert_eq!(pairs.len(), 3);
            assert!(matches!(&pairs[0].0, MapKeyExpr::Static(key) if key == "a"));
            assert_eq!(show(&pairs[0].1), vec!["int 1"]);
            assert!(matches!(&pairs[1].0, MapKeyExpr::Static(key) if key == "b c"));
            assert!(matches!(&pairs[2].0, MapKeyExpr::Dynamic(key) if show(key) == vec!["frag k"]));
        }
        _ => panic!(),
    }
    assert_eq!(
        parse_err(vec![t(T::At), f("a")]),
        vec![Problem::ExpectedToken("(".to_owned())]
    );
    assert_eq!(parse_err(vec![t(T::At), t(T::LeftParen)]), vec![Problem::UnclosedMap]);
    assert_eq!(
        parse_err(vec![t(T::At), t(T::LeftParen), f("a"), t(T::RightParen)]),
        vec![Problem::ExpectedToken("=".to_owned())]
    );
    assert_eq!(
        parse_err(vec![t(T::At), t(T::LeftParen), f("1"), t(T::Equals), f("a"), t(T::RightParen)]),
        vec![Problem::InvalidIdentifier("1".to_owned())]
    );
    assert_eq!(
        parse_err(vec![t(T::At), t(T::LeftParen), t(T::Plus), t(T::Equals), f("a")]),
        vec![Problem::UnexpectedToken("+".to_owned()), Problem::UnclosedMap]
    );
    assert_eq!(
        parse_err(vec![
            t(T::At),
            t(T::LeftParen),
            t(T::LeftBrace),
            f("a"),
            t(T::Pipe),
            f("b"),
            t(T::RightBrace),
            t(T::Equals),
            f("c"),
            t(T::RightParen)
        ]),
        vec![Problem::DynamicKeyBlockMultiElement]
    );
}

#[test]
fn accessors() {
    let root = parse_ok(vec![
        t(T::LeftAngle),
        t(T::Dollar),
        f("x"),
        t(T::Equals),
        t(T::Integer(1)),
        t(T::Semi),
        f("x"),
        t(T::Semi),
        f("y"),
        t(T::Question),
        f("d"),
        t(T::Semi),
        f("z"),
        t(T::Slash),
        t(T::Integer(-1)),
        t(T::Slash),
        t(T::LeftBrace),
        f("k"),
        t(T::RightBrace),
        t(T::Equals),
        f("v"),
        t(T::RightAngle),
    ]);
    assert_eq!(show(&root), vec!["variable definition", "getter", "getter", "setter"]);
    match &*root.elements[0] {
        Rst::VarDef(id, kind, Some(value)) => {
            assert_eq!(id.as_str(), "x");
            assert_eq!(*kind, AccessPathKind::Local);
            assert_eq!(value.name.as_deref(), Some("variable assignment"));
        }
        _ => panic!(),
    }
    match &*root.elements[2] {
        Rst::VarGet(_, Some(value)) => assert_eq!(value.name.as_deref(), Some("fallback value")),
        _ => panic!(),
    }
    match &*root.elements[3] {
        Rst::VarSet(path, value) => {
            assert_eq!(path.to_text(), "z/-1/{...}");
            assert_eq!(path.len(), 3);
            assert!(matches!(&path.parts[1], AccessPathComponent::Index(-1)));
            assert_eq!(value.name.as_deref(), Some("setter value"));
        }
        _ => panic!(),
    }
}

#[test]
fn path_kinds() {
    let kind_of = |tokens: Vec<(RantToken, String)>| match &*parse_ok(tokens).elements[0] {
        Rst::VarGet(path, None) => (path.kind(), path.to_text()),
        _ => panic!(),
    };
    assert_eq!(
        kind_of(vec![t(T::LeftAngle), t(T::Slash), f("g"), t(T::RightAngle)]),
        (AccessPathKind::ExplicitGlobal, "/g".to_owned())
    );
    assert_eq!(
        kind_of(vec![t(T::LeftAngle), t(T::Caret), t(T::Caret), f("g"), t(T::RightAngle)]),
        (AccessPathKind::Descope(2), "^^g".to_owned())
    );
    assert_eq!(
        kind_of(vec![t(T::LeftAngle), t(T::Bang), t(T::Integer(4)), t(T::RightAngle)]),
        (AccessPathKind::Local, "!...".to_owned())
    );
}

#[test]
fn accessor_problems() {
    assert_eq!(
        parse_err(vec![t(T::LeftAngle), f("x")]),
        vec![Problem::UnclosedVariableAccess]
    );
    assert_eq!(parse_err(vec![t(T::LeftAngle)]), vec![Problem::MissingIdentifier]);
    assert_eq!(
        parse_err(vec![t(T::LeftAngle), t(T::Dollar), t(T::RightAngle)]),
        vec![Problem::UnexpectedToken(">".to_owned())]
    );
    assert_eq!(
        parse_err(vec![t(T::LeftAngle), f("x"), t(T::Colon)]),
        vec![Problem::UnexpectedToken(":".to_owned())]
    );
    assert_eq!(
        parse_err(vec![t(T::LeftAngle), t(T::Integer(1)), t(T::RightAngle)]),
        vec![Problem::LocalPathStartsWithIndex]
    );
    assert_eq!(
        parse_err(vec![t(T::LeftAngle), t(T::Plus), t(T::RightAngle)]),
        vec![Problem::InvalidIdentifier("+".to_owned())]
    );
    assert_eq!(
        parse_err(vec![
            t(T::LeftAngle),
            t(T::Bang),
            t(T::Integer(1)),
            t(T::Equals),
            f("a"),
            t(T::RightAngle)
        ]),
        vec![Problem::AnonValueAssignment]
    );
    assert_eq!(
        parse_err(vec![t(T::LeftAngle), t(T::Dollar), f("x"), t(T::Equals), f("a")]),
        vec![Problem::UnclosedVariableAccess]
    );
    assert_eq!(
        parse_err(vec![t(T::LeftAngle), f("x"), t(T::Slash)]),
        vec![Problem::MissingIdentifier]
    );
}

#[test]
fn getters_print_and_setters_do_not() {
    let root = parse_ok(vec![f("a"), w(" "), t(T::LeftAngle), f("x"), t(T::RightAngle)]);
    assert_eq!(show(&root), vec!["frag a", "ws \" \"", "getter"]);
    let root = parse_ok(vec![
        f("a"),
        w(" "),
        t(T::LeftAngle),
        f("x"),
        t(T::Equals),
        f("b"),
        t(T::RightAngle),
    ]);
    assert_eq!(show(&root), vec!["frag a", "setter"]);
}

#[test]
fn function_calls() {
    let root = parse_ok(vec![
        t(T::LeftBracket),
        f("f"),
        t(T::Colon),
        f("a"),
        t(T::Semi),
        f("b"),
        t(T::RightBracket),
    ]);
    match &*root.elements[0] {
        Rst::FuncCall(call) => {
            assert_eq!(call.id.to_text(), "f");
            assert_eq!(call.arguments.len(), 2);
            assert_eq!(call.arguments[0].name.as_deref(), Some("argument"));
            assert_eq!(show(&call.arguments[1]), vec!["frag b"]);
            assert_eq!(call.flag, PrintFlag::Plain);
        }
        _ => panic!(),
    }
    let root = parse_ok(vec![t(T::Sink), t(T::LeftBracket), f("f"), t(T::RightBracket)]);
    assert!(matches!(&*root.elements[0], Rst::FuncCall(call) if call.flag == PrintFlag::Sink));
    assert_eq!(
        parse_err(vec![t(T::LeftBracket), f("f")]),
        vec![Problem::UnclosedFunctionCall]
    );
    assert_eq!(
        parse_err(vec![t(T::LeftBracket), f("f"), t(T::Colon), f("a")]),
        vec![Problem::UnclosedFunctionCall]
    );
    assert_eq!(
        parse_err(vec![t(T::LeftBracket), f("f"), t(T::Plus)]),
        vec![Problem::UnexpectedToken("+".to_owned())]
    );
}

#[test]
fn composed_calls() {
    // [f |> g: a] passes f's result first
    let root = parse_ok(vec![
        t(T::LeftBracket),
        f("f"),
        t(T::Compose),
        f("g"),
        t(T::Colon),
        f("a"),
        t(T::RightBracket),
    ]);
    match &*root.elements[0] {
        Rst::FuncCall(call) => {
            assert_eq!(call.id.to_text(), "g");
            assert_eq!(show(&call.arguments[0]), vec!["function call"]);
            assert_eq!(show(&call.arguments[1]), vec!["frag a"]);
        }
        _ => panic!(),
    }
    // [f |> g: a; []] passes it where the compose value stands
    let root = parse_ok(vec![
        t(T::LeftBracket),
        f("f"),
        t(T::Compose),
        f("g"),
        t(T::Colon),
        f("a"),
        t(T::Semi),
        t(T::ComposeValue),
        t(T::RightBracket),
    ]);
    match &*root.elements[0] {
        Rst::FuncCall(call) => {
            assert_eq!(show(&call.arguments[0]), vec!["frag a"]);
            assert_eq!(show(&call.arguments[1]), vec!["function call"]);
        }
        _ => panic!(),
    }
    assert_eq!(
        parse_err(vec![
            t(T::LeftBracket),
            f("g"),
            t(T::Colon),
            t(T::ComposeValue),
            f("a"),
            t(T::RightBracket)
        ]),
        vec![Problem::NothingToCompose]
    );
    assert_eq!(
        parse_err(vec![
            t(T::LeftBracket),
            f("f"),
            t(T::Compose),
            f("g"),
            t(T::Colon),
            t(T::ComposeValue),
            t(T::Semi),
            t(T::ComposeValue),
            t(T::RightBracket)
        ]),
        vec![Problem::ComposeValueReused]
    );
}

#[test]
fn anonymous_calls() {
    let root = parse_ok(vec![
        t(T::LeftBracket),
        t(T::Bang),
        t(T::LeftAngle),
        f("x"),
        t(T::RightAngle),
        t(T::Colon),
        f("a"),
        t(T::RightBracket),
    ]);
    match &*root.elements[0] {
        Rst::AnonFuncCall(call) => {
            assert_eq!(show(&call.expr), vec!["getter"]);
            assert_eq!(call.expr.name.as_deref(), Some("anonymous function expression"));
            assert_eq!(call.args.len(), 1);
        }
        _ => panic!(),
    }
    // [f |> ![]] calls what f gives
    let root = parse_ok(vec![
        t(T::LeftBracket),
        f("f"),
        t(T::Compose),
        t(T::Bang),
        t(T::ComposeValue),
        t(T::RightBracket),
    ]);
    match &*root.elements[0] {
        Rst::AnonFuncCall(call) => {
            assert_eq!(show(&call.expr), vec!["function call"]);
            assert_eq!(call.args.len(), 0);
        }
        _ => panic!(),
    }
    assert_eq!(
        parse_err(vec![t(T::LeftBracket), t(T::Bang), t(T::ComposeValue), t(T::RightBracket)]),
        vec![Problem::NothingToCompose]
    );
}

#[test]
fn input_that_ends_within_a_callee() {
    let (result, problems) = parse_all(vec![t(T::LeftBracket), t(T::Bang), f("a")], false);
    assert_eq!(result.unwrap_err(), ParseStop::OpenCallee);
    assert_eq!(problems, vec![]);
}

#[test]
fn function_definitions_and_captures() {
    // <$x> [$f: a] { <x> <a> <$y> <y> <^z> }
    let root = parse_ok(vec![
        t(T::LeftAngle),
        t(T::Dollar),
        f("x"),
        t(T::RightAngle),
        t(T::LeftBracket),
        t(T::Dollar),
        f("f"),
        t(T::Colon),
        f("a"),
        t(T::RightBracket),
        w(" "),
        t(T::LeftBrace),
        t(T::LeftAngle),
        f("x"),
        t(T::RightAngle),
        t(T::LeftAngle),
        f("a"),
        t(T::RightAngle),
        t(T::LeftAngle),
        t(T::Dollar),
        f("y"),
        t(T::RightAngle),
        t(T::LeftAngle),
        f("y"),
        t(T::RightAngle),
        t(T::LeftAngle),
        t(T::Caret),
        f("z"),
        t(T::RightAngle),
        t(T::LeftAngle),
        f("x"),
        t(T::RightAngle),
        t(T::LeftBracket),
        f("g"),
        t(T::RightBracket),
        t(T::RightBrace),
    ]);
    match &*root.elements[1] {
        Rst::FuncDef(def) => {
            assert_eq!(def.id.to_text(), "f");
            assert_eq!(def.body.name.as_deref(), Some("[f]"));
            assert_eq!(def.params.len(), 1);
            assert_eq!(def.params[0].name.as_str(), "a");
            // x comes from outside and g from nowhere; a and y are the function's own
            assert_eq!(names(&def.capture_vars), vec!["g", "x"]);
        }
        _ => panic!(),
    }
}

#[test]
fn parameters_are_the_functions_own() {
    // <$a> [?: a] { {<a>} [?] { <a> } [a] }, where an `a` stands outside too
    let get = || vec![t(T::LeftAngle), f("a"), t(T::RightAngle)];
    let mut tokens = vec![t(T::LeftAngle), t(T::Dollar), f("a"), t(T::RightAngle)];
    tokens.extend([t(T::LeftBracket), t(T::Question), t(T::Colon), f("a"), t(T::RightBracket)]);
    tokens.extend([t(T::LeftBrace), t(T::LeftBrace)]);
    tokens.extend(get());
    tokens.extend([t(T::RightBrace), t(T::LeftBracket), t(T::Question), t(T::RightBracket)]);
    tokens.push(t(T::LeftBrace));
    tokens.extend(get());
    tokens.extend([t(T::RightBrace), t(T::LeftBracket), f("a"), t(T::RightBracket)]);
    tokens.push(t(T::RightBrace));
    let root = parse_ok(tokens);
    match &*root.elements[1] {
        Rst::Closure(outer) => {
            assert_eq!(names(&outer.capture_vars), Vec::<String>::new());
            match &*outer.expr.elements[1] {
                Rst::Closure(inner) => assert_eq!(names(&inner.capture_vars), vec!["a"]),
                _ => panic!(),
            }
        }
        _ => panic!(),
    }
}

#[test]
fn closures() {
    let root = parse_ok(vec![
        t(T::LeftBracket),
        t(T::Question),
        t(T::Colon),
        f("a"),
        t(T::Question),
        t(T::Semi),
        f("b"),
        t(T::Star),
        t(T::RightBracket),
        t(T::LeftBrace),
        t(T::LeftAngle),
        f("b"),
        t(T::RightAngle),
        t(T::RightBrace),
    ]);
    match &*root.elements[0] {
        Rst::Closure(closure) => {
            assert_eq!(closure.params[0].varity, Varity::Optional);
            assert_eq!(closure.params[1].varity, Varity::VariadicStar);
            assert_eq!(closure.expr.name.as_deref(), Some("closure"));
            assert_eq!(names(&closure.capture_vars), Vec::<String>::new());
        }
        _ => panic!(),
    }
}

#[test]
fn descoped_definitions_reach_the_outer_scope() {
    // { [?] { { <$^v> } <v> } }: v is defined in the body, so it is not captured
    let body = vec![
        t(T::LeftBracket),
        t(T::Question),
        t(T::RightBracket),
        t(T::LeftBrace),
        t(T::LeftBrace),
        t(T::LeftAngle),
        t(T::Dollar),
        t(T::Caret),
        f("v"),
        t(T::RightAngle),
        t(T::RightBrace),
        t(T::LeftAngle),
        f("v"),
        t(T::RightAngle),
        t(T::RightBrace),
    ];
    match &*parse_ok(body).elements[0] {
        Rst::Closure(closure) => assert_eq!(names(&closure.capture_vars), Vec::<String>::new()),
        _ => panic!(),
    }
}

/// `[?: ...] {}` with the given parameter tokens.
fn signature(params: Vec<(RantToken, String)>) -> Vec<(RantToken, String)> {
    let mut tokens = vec![t(T::LeftBracket), t(T::Question), t(T::Colon)];
    tokens.extend(params);
    tokens.extend(vec![t(T::RightBracket), t(T::LeftBrace), t(T::RightBrace)]);
    tokens
}

#[test]
fn parameter_problems() {
    assert_eq!(
        parse_err(signature(vec![f("a"), t(T::Semi), f("a")])),
        vec![Problem::DuplicateParameter("a".to_owned())]
    );
    assert_eq!(
        parse_err(signature(vec![f("a"), t(T::Star), t(T::Semi), f("b"), t(T::Plus)])),
        vec![Problem::MultipleVariadicParams]
    );
    assert_eq!(
        parse_err(signature(vec![f("a"), t(T::Question), t(T::Semi), f("b")])),
        vec![Problem::InvalidParamOrder("optional".to_owned(), "required".to_owned())]
    );
    assert_eq!(
        parse_err(signature(vec![f("a"), t(T::Question), t(T::Semi), f("b"), t(T::Plus)])),
        vec![Problem::InvalidParamOrder("optional".to_owned(), "variadic+".to_owned())]
    );
    assert_eq!(
        parse_err(signature(vec![f("12")])),
        vec![Problem::InvalidIdentifier("12".to_owned())]
    );
    assert_eq!(parse_err(signature(vec![])), vec![Problem::MissingIdentifier]);
    assert_eq!(
        parse_err(signature(vec![t(T::Plus), f("a")])),
        vec![Problem::InvalidIdentifier("+".to_owned())]
    );
    assert_eq!(
        parse_err(vec![t(T::LeftBracket), t(T::Question)]),
        vec![Problem::UnclosedFunctionSignature]
    );
    assert_eq!(
        parse_err(vec![t(T::LeftBracket), t(T::Question), t(T::Plus)]),
        vec![Problem::UnexpectedToken("+".to_owned())]
    );
    assert_eq!(
        parse_err(vec![t(T::LeftBracket), t(T::Question), t(T::RightBracket), f("a")]),
        vec![Problem::ExpectedToken("{".to_owned())]
    );
    assert_eq!(
        parse_err(vec![
            t(T::LeftBracket),
            t(T::Question),
            t(T::RightBracket),
            t(T::LeftBrace),
            t(T::Pipe),
            t(T::RightBrace)
        ]),
        vec![Problem::FunctionBodyBlockMultiElement]
    );
    assert_eq!(
        parse_err(vec![t(T::LeftBracket), t(T::Question), t(T::RightBracket), t(T::LeftBrace)]),
        vec![Problem::UnclosedBlock]
    );
}

#[test]
fn ranges_that_cover_two() {
    assert_eq!(super_range(&(3..5), &(1..4)), 1..5);
    assert_eq!(super_range(&(0..2), &(7..9)), 0..9);
}

#[test]
fn identifiers() {
    assert!(is_valid_ident("abc"));
    assert!(is_valid_ident("a-1_B"));
    assert!(is_valid_ident("1a"));
    assert!(!is_valid_ident("12"));
    assert!(!is_valid_ident(""));
    assert!(!is_valid_ident("a b"));
    assert!(!is_valid_ident("é"));
}
