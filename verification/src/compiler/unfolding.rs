//! Readings, one construct deep.

use std::ops::Range;
use vstd::prelude::*;
use crate::compiler::grammar::{
    accessor_item, ahead, anon_call, at, bars_flags, blank, block_item, body_name, capture,
    collection_item, covering, enter_scope, finish_assignment, func_item, leave_scope, name_part,
    named_call, opens_item, param_names, past, read_access, read_accessor, read_accessors,
    read_anon_call, read_args, read_block, read_block_element, read_block_elements, read_call,
    read_call_rest, read_callee_args, read_calls, read_definition, read_dynamic_key,
    read_func_access, read_func_body, read_ident, read_item, read_items, read_list,
    read_list_elements, read_map, read_map_key, read_named_call, read_opened, read_param,
    read_param_list, read_params, read_path, read_path_kind, read_path_rest, read_plain,
    read_sequence, report, report_flag, report_unexpected, sequence_of, skip, solid, span_here,
    step, to_source_end, unflagged, unread, ArgsRead, Draft, Input, ItemRead, ParseStop,
    SequenceEndType, SequenceParseMode, SequenceRead, State,
};
use crate::compiler::lang::{
    valid_ident, AccessPathKind, BlockTree, CaptureTree, ComponentTree, KeyTree, ParameterTree,
    PathTree, PrintFlag, RstTree, SequenceTree,
};
use crate::compiler::lexer::{Lexeme, RantToken};
use crate::compiler::message::ProblemView;
use crate::compiler::reader::{lemma_after_ws, TokenKind};

verus! {

broadcast use lemma_after_ws;

/// What reading a sequence amounts to.
pub(crate) proof fn unfold_sequence(inp: Input, st: State, mode: SequenceParseMode)
    ensures
        read_sequence(inp, st, mode) == ({
            let (result, st1) = read_items(inp, enter_scope(st, Set::empty()), mode, blank());
            (result, leave_scope(st1))
        }),
{
    reveal(read_items);
    reveal(read_sequence);
}

/// What reading the rest of a sequence amounts to.
pub(crate) proof fn unfold_items(inp: Input, st: State, mode: SequenceParseMode, d: Draft)
    ensures
        read_items(inp, st, mode, d) == ({
            if st.pos >= inp.lexemes.len() {
                (
                    Ok(
                        SequenceRead {
                            tree: SequenceTree {
                                name: Some("main scope"@),
                                origin: inp.origin,
                                elements: d.nodes,
                            },
                            end: SequenceEndType::ProgramEnd,
                            printing: d.printing,
                            ws: d.ws,
                        },
                    ),
                    report_flag(inp, st, d),
                )
            } else {
                let (result, st1) = read_item(inp, st, mode, d);
                match result {
                    Err(stop) => (Err(stop), st1),
                    Ok(ItemRead::Ended(read)) => (Ok(read), st1),
                    Ok(ItemRead::Flagged(d1)) => read_items(inp, past(st, st1), mode, d1),
                    Ok(ItemRead::Item(d1)) => if mode == SequenceParseMode::SingleItem {
                        (
                            Ok(
                                SequenceRead {
                                    tree: SequenceTree {
                                        name: None,
                                        origin: inp.origin,
                                        elements: d1.nodes,
                                    },
                                    end: SequenceEndType::SingleItemEnd,
                                    printing: d1.printing,
                                    ws: d1.ws,
                                },
                            ),
                            st1,
                        )
                    } else {
                        read_items(inp, past(st, st1), mode, unflagged(d1))
                    },
                }
            }
        }),
{
    reveal(read_item);
    reveal(read_items);
}

/// What reading an item amounts to.
pub(crate) proof fn unfold_item(inp: Input, st0: State, mode: SequenceParseMode, d: Draft)
    ensures
        read_item(inp, st0, mode, d) == ({
            if st0.pos >= inp.lexemes.len() {
                (Ok(ItemRead::Item(d)), st0)
            } else {
                let lexeme = inp.lexemes[st0.pos as int];
                let st = step(st0);
                if opens_item(lexeme.token) && !(bars_flags(lexeme.token) && d.flag
                    != PrintFlag::Plain) {
                    let (result, st1) = read_opened(inp, st, d, lexeme);
                    match result {
                        Err(stop) => (Err(stop), st1),
                        Ok(d1) => (Ok(ItemRead::Item(d1)), st1),
                    }
                } else {
                    read_plain(inp, st, mode, d, lexeme)
                }
            }
        }),
{
    reveal(read_item);
    reveal(read_opened);
}

/// What reading an item that others are nested in amounts to.
pub(crate) proof fn unfold_opened(inp: Input, st: State, d: Draft, lexeme: Lexeme)
    ensures
        read_opened(inp, st, d, lexeme) == ({
            match lexeme.token {
                RantToken::Star => block_item(
                    inp,
                    d,
                    lexeme.span,
                    true,
                    read_block(inp, skip(inp, st), true, d.flag),
                ),
                RantToken::LeftBrace => block_item(
                    inp,
                    d,
                    lexeme.span,
                    false,
                    read_block(inp, st, false, d.flag),
                ),
                RantToken::At => {
                    let (opening, st1) = solid(inp, st);
                    if opening matches Some(opening) && opening.token is LeftParen {
                        collection_item(
                            inp,
                            d,
                            lexeme.span,
                            read_map(inp, st1, lexeme.span, Seq::empty()),
                        )
                    } else {
                        collection_item(
                            inp,
                            d,
                            lexeme.span,
                            (
                                Ok(RstTree::EmptyVal),
                                report(
                                    inp,
                                    st1,
                                    ProblemView::ExpectedToken("("@),
                                    span_here(inp, st1),
                                ),
                            ),
                        )
                    }
                },
                RantToken::LeftParen => collection_item(
                    inp,
                    d,
                    lexeme.span,
                    read_list(inp, st, lexeme.span),
                ),
                RantToken::LeftBracket => func_item(
                    inp,
                    d,
                    lexeme.span,
                    read_func_access(inp, st, d.flag),
                ),
                RantToken::LeftAngle => accessor_item(
                    inp,
                    d,
                    lexeme.span,
                    read_accessors(inp, st, Seq::empty()),
                ),
                _ => (Ok(d), st),
            }
        }),
{
    reveal(read_accessors);
    reveal(read_block);
    reveal(read_func_access);
    reveal(read_list);
    reveal(read_map);
    reveal(read_opened);
}

/// What reading a block amounts to.
pub(crate) proof fn unfold_block(
    inp: Input,
    st: State,
    expect_opening_brace: bool,
    flag: PrintFlag,
)
    ensures
        read_block(inp, st, expect_opening_brace, flag) == ({
            if expect_opening_brace && !at(inp, st, TokenKind::LeftBrace) {
                (
                    Err(ParseStop::SyntaxError),
                    report(inp, st, ProblemView::ExpectedToken("{"@), span_here(inp, st)),
                )
            } else {
                let st1 = if expect_opening_brace {
                    step(st)
                } else {
                    st
                };
                let (result, st2) = read_block_elements(
                    inp,
                    st1,
                    span_here(inp, st1).start,
                    Seq::empty(),
                    false,
                );
                match result {
                    Err(stop) => (Err(stop), st2),
                    Ok((elements, printing)) => (
                        Ok(
                            BlockTree {
                                flag: if printing && flag != PrintFlag::Sink {
                                    PrintFlag::Hint
                                } else {
                                    flag
                                },
                                elements,
                            },
                        ),
                        st2,
                    ),
                }
            }
        }),
{
    reveal(read_block);
    reveal(read_block_elements);
}

/// What reading the elements of a block amounts to.
pub(crate) proof fn unfold_block_elements(
    inp: Input,
    st: State,
    start: usize,
    elements: Seq<SequenceTree>,
    printing: bool,
)
    ensures
        read_block_elements(inp, st, start, elements, printing) == ({
            let (result, st1) = read_block_element(inp, st);
            match result {
                Err(stop) => (Err(stop), st1),
                Ok(read) => match read.end {
                    SequenceEndType::BlockDelim if unread(inp, st) => read_block_elements(
                        inp,
                        past(st, st1),
                        start,
                        elements.push(read.tree),
                        printing || read.printing,
                    ),
                    SequenceEndType::BlockEnd => (
                        Ok((elements.push(read.tree), printing || read.printing)),
                        st1,
                    ),
                    _ => (
                        Err(ParseStop::SyntaxError),
                        report(inp, st1, ProblemView::UnclosedBlock, to_source_end(inp, start)),
                    ),
                },
            }
        }),
{
    reveal(read_block_element);
    reveal(read_block_elements);
}

/// What reading a list amounts to.
pub(crate) proof fn unfold_list(inp: Input, st: State, start: Range<usize>)
    ensures
        read_list(inp, st, start) == ({
            let st1 = skip(inp, st);
            if at(inp, st1, TokenKind::RightParen) {
                (Ok(RstTree::ListInit(Seq::empty())), step(st1))
            } else {
                read_list_elements(inp, st1, start, Seq::empty())
            }
        }),
{
    reveal(read_list);
    reveal(read_list_elements);
}

/// What reading the elements of a list amounts to.
pub(crate) proof fn unfold_list_elements(
    inp: Input,
    st: State,
    start: Range<usize>,
    elements: Seq<SequenceTree>,
)
    ensures
        read_list_elements(inp, st, start, elements) == ({
            let (result, st1) = read_sequence(
                inp,
                skip(inp, st),
                SequenceParseMode::CollectionInit,
            );
            match result {
                Err(stop) => (Err(stop), st1),
                Ok(read) => match read.end {
                    SequenceEndType::CollectionInitDelim if unread(inp, st) => read_list_elements(
                        inp,
                        past(st, st1),
                        start,
                        elements.push(read.tree),
                    ),
                    SequenceEndType::CollectionInitEnd => (
                        Ok(RstTree::ListInit(elements.push(read.tree))),
                        st1,
                    ),
                    _ => (
                        Err(ParseStop::SyntaxError),
                        report(
                            inp,
                            st1,
                            ProblemView::UnclosedList,
                            covering(start, span_here(inp, st1)),
                        ),
                    ),
                },
            }
        }),
{
    reveal(read_list_elements);
    reveal(read_sequence);
}

/// What reading a map amounts to.
pub(crate) proof fn unfold_map(
    inp: Input,
    st: State,
    start: Range<usize>,
    pairs: Seq<(KeyTree, SequenceTree)>,
)
    ensures
        read_map(inp, st, start, pairs) == ({
            let (key, st1) = read_map_key(inp, st, start);
            match key {
                Err(stop) => (Err(stop), st1),
                Ok(None) => (Ok(RstTree::MapInit(pairs)), st1),
                Ok(Some(key)) => {
                    let st2 = skip(inp, past(st, st1));
                    if !at(inp, st2, TokenKind::Equals) {
                        (
                            Err(ParseStop::SyntaxError),
                            report(inp, st2, ProblemView::ExpectedToken("="@), span_here(inp, st2)),
                        )
                    } else {
                        let st3 = skip(inp, step(st2));
                        let (result, st4) = read_sequence(
                            inp,
                            st3,
                            SequenceParseMode::CollectionInit,
                        );
                        match result {
                            Err(stop) => (Err(stop), st4),
                            Ok(read) => match read.end {
                                SequenceEndType::CollectionInitDelim => read_map(
                                    inp,
                                    ahead(st3, st4),
                                    start,
                                    pairs.push((key, read.tree)),
                                ),
                                SequenceEndType::CollectionInitEnd => (
                                    Ok(RstTree::MapInit(pairs.push((key, read.tree)))),
                                    st4,
                                ),
                                _ => (
                                    Err(ParseStop::SyntaxError),
                                    report(
                                        inp,
                                        st4,
                                        ProblemView::UnclosedMap,
                                        covering(start, span_here(inp, st4)),
                                    ),
                                ),
                            },
                        }
                    }
                },
            }
        }),
{
    reveal(read_map);
    reveal(read_map_key);
    reveal(read_sequence);
}

/// What reading a key of a map amounts to.
pub(crate) proof fn unfold_map_key(inp: Input, st: State, start: Range<usize>)
    ensures
        read_map_key(inp, st, start) == ({
            let (lexeme, st1) = solid(inp, st);
            match lexeme {
                None => (
                    Err(ParseStop::SyntaxError),
                    report(
                        inp,
                        st1,
                        ProblemView::UnclosedMap,
                        covering(start, span_here(inp, st1)),
                    ),
                ),
                Some(lexeme) => match lexeme.token {
                    RantToken::LeftBrace => {
                        let (result, st2) = read_dynamic_key(inp, st1, false);
                        match result {
                            Err(stop) => (Err(stop), st2),
                            Ok(tree) => (Ok(Some(KeyTree::Dynamic(tree))), st2),
                        }
                    },
                    RantToken::Fragment => (
                        Ok(Some(KeyTree::Static(lexeme.text@))),
                        if valid_ident(lexeme.text@) {
                            st1
                        } else {
                            report(
                                inp,
                                st1,
                                ProblemView::InvalidIdentifier(lexeme.text@),
                                lexeme.span,
                            )
                        },
                    ),
                    RantToken::StringLiteral(s) => (Ok(Some(KeyTree::Static(s@))), st1),
                    RantToken::RightParen => (Ok(None), st1),
                    _ => (Ok(Some(KeyTree::Static(lexeme.text@))), report_unexpected(inp, st1)),
                },
            }
        }),
{
    reveal(read_dynamic_key);
    reveal(read_map_key);
}

/// What reading a dynamic key amounts to.
pub(crate) proof fn unfold_dynamic_key(inp: Input, st: State, expect_opening_brace: bool)
    ensures
        read_dynamic_key(inp, st, expect_opening_brace) == ({
            if expect_opening_brace && !at(inp, st, TokenKind::LeftBrace) {
                (
                    Err(ParseStop::SyntaxError),
                    report(inp, st, ProblemView::ExpectedToken("{"@), span_here(inp, st)),
                )
            } else {
                let st1 = if expect_opening_brace {
                    step(st)
                } else {
                    st
                };
                let (result, st2) = read_sequence(inp, st1, SequenceParseMode::DynamicKey);
                match result {
                    Err(stop) => (Err(stop), st2),
                    Ok(read) => if read.end == SequenceEndType::DynamicKeyEnd {
                        (Ok(read.tree), st2)
                    } else {
                        (
                            Err(ParseStop::SyntaxError),
                            report(
                                inp,
                                st2,
                                ProblemView::UnclosedBlock,
                                to_source_end(inp, span_here(inp, st1).start),
                            ),
                        )
                    },
                }
            }
        }),
{
    reveal(read_dynamic_key);
    reveal(read_sequence);
}

/// What reading a path amounts to.
pub(crate) proof fn unfold_path(inp: Input, st: State, allow_anonymous: bool)
    ensures
        read_path(inp, st, allow_anonymous) == ({
            let st1 = skip(inp, st);
            if allow_anonymous && at(inp, st1, TokenKind::Bang) {
                let st2 = skip(inp, step(st1));
                let (result, st3) = read_sequence(inp, st2, SequenceParseMode::SingleItem);
                match result {
                    Err(stop) => (Err(stop), st3),
                    Ok(read) => if read.end == SequenceEndType::SingleItemEnd {
                        read_path_rest(
                            inp,
                            ahead(st2, st3),
                            seq![ComponentTree::AnonymousValue(read.tree)],
                            AccessPathKind::Local,
                        )
                    } else {
                        (
                            Err(ParseStop::SyntaxError),
                            report(
                                inp,
                                st3,
                                ProblemView::UnclosedVariableAccess,
                                span_here(inp, st3),
                            ),
                        )
                    },
                }
            } else {
                let (kind, st2) = read_path_kind(inp, st1);
                let (first, st3) = solid(inp, st2);
                match first {
                    None => (
                        Err(ParseStop::SyntaxError),
                        report(inp, st3, ProblemView::MissingIdentifier, span_here(inp, st1)),
                    ),
                    Some(lexeme) => match lexeme.token {
                        RantToken::LeftBrace => {
                            let (result, st4) = read_dynamic_key(inp, st3, false);
                            match result {
                                Err(stop) => (Err(stop), st4),
                                Ok(key) => read_path_rest(
                                    inp,
                                    ahead(st3, st4),
                                    seq![ComponentTree::DynamicKey(key)],
                                    kind,
                                ),
                            }
                        },
                        RantToken::Integer(_) => read_path_rest(
                            inp,
                            report(inp, st3, ProblemView::LocalPathStartsWithIndex, lexeme.span),
                            Seq::empty(),
                            kind,
                        ),
                        _ => {
                            let (parts, st4) = name_part(inp, st3, Seq::empty(), lexeme);
                            read_path_rest(inp, st4, parts, kind)
                        },
                    },
                }
            }
        }),
{
    reveal(read_dynamic_key);
    reveal(read_path);
    reveal(read_path_rest);
    reveal(read_sequence);
}

/// What reading the rest of a path amounts to.
pub(crate) proof fn unfold_path_rest(
    inp: Input,
    st: State,
    parts: Seq<ComponentTree>,
    kind: AccessPathKind,
)
    ensures
        read_path_rest(inp, st, parts, kind) == ({
            let st1 = skip(inp, st);
            if !at(inp, st1, TokenKind::Slash) {
                (Ok(PathTree { parts, kind }), st1)
            } else {
                let (component, st2) = solid(inp, step(st1));
                match component {
                    None => (
                        Err(ParseStop::SyntaxError),
                        report(inp, st2, ProblemView::MissingIdentifier, span_here(inp, st2)),
                    ),
                    Some(lexeme) => match lexeme.token {
                        RantToken::Integer(index) => read_path_rest(
                            inp,
                            st2,
                            parts.push(ComponentTree::Index(index)),
                            kind,
                        ),
                        RantToken::LeftBrace => {
                            let (result, st3) = read_dynamic_key(inp, st2, false);
                            match result {
                                Err(stop) => (Err(stop), st3),
                                Ok(key) => read_path_rest(
                                    inp,
                                    ahead(st2, st3),
                                    parts.push(ComponentTree::DynamicKey(key)),
                                    kind,
                                ),
                            }
                        },
                        _ => {
                            let (parts1, st3) = name_part(inp, st2, parts, lexeme);
                            read_path_rest(inp, st3, parts1, kind)
                        },
                    },
                }
            }
        }),
{
    reveal(read_dynamic_key);
    reveal(read_path_rest);
}

/// What reading parameters amounts to.
pub(crate) proof fn unfold_param_list(
    inp: Input,
    st: State,
    start: Range<usize>,
    params: Seq<ParameterTree>,
)
    ensures
        read_param_list(inp, st, start, params) == ({
            let (lexeme, st1) = solid(inp, st);
            match lexeme {
                None => (
                    Err(ParseStop::SyntaxError),
                    report(inp, st1, ProblemView::UnclosedFunctionSignature, start),
                ),
                Some(lexeme) => match lexeme.token {
                    RantToken::Fragment => {
                        let (param, st2) = read_param(inp, st1, params, lexeme);
                        let (delimiter, st3) = solid(inp, st2);
                        match delimiter {
                            None => (
                                Err(ParseStop::SyntaxError),
                                report(inp, st3, ProblemView::UnclosedFunctionSignature, start),
                            ),
                            Some(delimiter) => match delimiter.token {
                                RantToken::Semi => read_param_list(
                                    inp,
                                    st3,
                                    start,
                                    params.push(param),
                                ),
                                RantToken::RightBracket => (Ok(params.push(param)), st3),
                                _ => (Err(ParseStop::SyntaxError), report_unexpected(inp, st3)),
                            },
                        }
                    },
                    RantToken::RightBracket => (
                        Ok(params),
                        report(inp, st1, ProblemView::MissingIdentifier, lexeme.span),
                    ),
                    _ => read_param_list(
                        inp,
                        report(inp, st1, ProblemView::InvalidIdentifier(lexeme.text@), lexeme.span),
                        start,
                        params,
                    ),
                },
            }
        }),
{
    reveal(read_param_list);
}

/// What reading a function body amounts to.
pub(crate) proof fn unfold_func_body(inp: Input, st: State, params: Seq<ParameterTree>)
    ensures
        read_func_body(inp, st, params) == ({
            if !at(inp, st, TokenKind::LeftBrace) {
                (
                    Err(ParseStop::SyntaxError),
                    report(inp, st, ProblemView::ExpectedToken("{"@), span_here(inp, st)),
                )
            } else {
                let st1 = step(st);
                let st2 = enter_scope(
                    State { captures: st1.captures.push((st1.scopes.len(), Set::empty())), ..st1 },
                    param_names(params),
                );
                let (result, st3) = read_items(inp, st2, SequenceParseMode::FunctionBody, blank());
                let st4 = leave_scope(State { captures: st3.captures.drop_last(), ..st3 });
                match result {
                    Err(stop) => (Err(stop), st4),
                    Ok(read) => if read.end == SequenceEndType::FunctionBodyEnd {
                        let names = st3.captures.last().1;
                        (Ok((read.tree, CaptureTree { names, listed: names.len() })), st4)
                    } else {
                        (
                            Err(ParseStop::SyntaxError),
                            report(
                                inp,
                                st4,
                                ProblemView::UnclosedBlock,
                                to_source_end(inp, span_here(inp, st1).start),
                            ),
                        )
                    },
                }
            }
        }),
{
    reveal(read_func_body);
    reveal(read_items);
}

/// What reading a function definition, a closure or calls amounts to.
pub(crate) proof fn unfold_func_access(inp: Input, st: State, flag: PrintFlag)
    ensures
        read_func_access(inp, st, flag) == ({
            let start = span_here(inp, st);
            let st1 = skip(inp, st);
            if at(inp, st1, TokenKind::Dollar) {
                let (path, st2) = read_path(inp, step(st1), false);
                match path {
                    Err(stop) => (Err(stop), st2),
                    Ok(path) => {
                        let (params, st3) = read_params(inp, ahead(step(st1), st2), start);
                        match params {
                            Err(stop) => (Err(stop), st3),
                            Ok(params) => {
                                let (body, st4) = read_func_body(
                                    inp,
                                    skip(inp, ahead(step(st1), st3)),
                                    params,
                                );
                                match body {
                                    Err(stop) => (Err(stop), st4),
                                    Ok((body, captures)) => (
                                        Ok(
                                            RstTree::FuncDef {
                                                id: path,
                                                params,
                                                captures,
                                                body: SequenceTree {
                                                    name: Some(body_name(path)),
                                                    ..body
                                                },
                                            },
                                        ),
                                        st4,
                                    ),
                                }
                            },
                        }
                    },
                }
            } else if at(inp, st1, TokenKind::Question) {
                let (params, st2) = read_params(inp, step(st1), start);
                match params {
                    Err(stop) => (Err(stop), st2),
                    Ok(params) => {
                        let (body, st3) = read_func_body(
                            inp,
                            skip(inp, ahead(step(st1), st2)),
                            params,
                        );
                        match body {
                            Err(stop) => (Err(stop), st3),
                            Ok((body, captures)) => (
                                Ok(
                                    RstTree::Closure {
                                        params,
                                        captures,
                                        expr: SequenceTree { name: Some("closure"@), ..body },
                                    },
                                ),
                                st3,
                            ),
                        }
                    },
                }
            } else {
                read_calls(inp, st1, flag, None)
            }
        }),
{
    reveal(read_calls);
    reveal(read_func_access);
    reveal(read_func_body);
    reveal(read_path);
}

/// What reading calls amounts to.
pub(crate) proof fn unfold_calls(
    inp: Input,
    st: State,
    flag: PrintFlag,
    composed: Option<RstTree>,
)
    ensures
        read_calls(inp, st, flag, composed) == ({
            let (result, st1) = read_call(inp, st, flag, composed);
            match result {
                Err(stop) => (Err(stop), st1),
                Ok((call, finished)) => if finished || !unread(inp, st) {
                    (Ok(call), st1)
                } else {
                    read_calls(inp, past(st, st1), flag, Some(call))
                },
            }
        }),
{
    reveal(read_call);
    reveal(read_calls);
}

/// What reading what follows the function of a call amounts to.
pub(crate) proof fn unfold_call_rest(
    inp: Input,
    st: State,
    composed: Option<RstTree>,
    composing: bool,
)
    ensures
        read_call_rest(inp, st, composed, composing) == ({
            let (lexeme, st1) = solid(inp, st);
            match lexeme {
                None => (
                    Err(ParseStop::SyntaxError),
                    report(inp, st1, ProblemView::UnclosedFunctionCall, span_here(inp, st1)),
                ),
                Some(lexeme) => match lexeme.token {
                    RantToken::RightBracket => (
                        Ok(ArgsRead { args: Seq::empty(), composed, finished: true }),
                        st1,
                    ),
                    RantToken::Compose => (
                        Ok(ArgsRead { args: Seq::empty(), composed, finished: false }),
                        st1,
                    ),
                    RantToken::Colon => read_args(inp, st1, composing, composed, Seq::empty()),
                    _ => (Err(ParseStop::SyntaxError), report_unexpected(inp, st1)),
                },
            }
        }),
{
    reveal(read_args);
    reveal(read_call_rest);
}

/// What reading a call amounts to.
pub(crate) proof fn unfold_call(
    inp: Input,
    st: State,
    flag: PrintFlag,
    composed: Option<RstTree>,
)
    ensures
        read_call(inp, st, flag, composed) == ({
            let st1 = skip(inp, st);
            if at(inp, st1, TokenKind::Bang) {
                read_anon_call(inp, skip(inp, step(st1)), flag, composed)
            } else {
                read_named_call(inp, st1, flag, composed)
            }
        }),
{
    reveal(read_anon_call);
    reveal(read_call);
    reveal(read_named_call);
}

/// What reading an anonymous call amounts to.
pub(crate) proof fn unfold_anon_call(
    inp: Input,
    st: State,
    flag: PrintFlag,
    composed: Option<RstTree>,
)
    ensures
        read_anon_call(inp, st, flag, composed) == ({
            if at(inp, st, TokenKind::ComposeValue) {
                let st1 = step(st);
                match composed {
                    None => (
                        Err(ParseStop::SyntaxError),
                        report(inp, st1, ProblemView::NothingToCompose, span_here(inp, st1)),
                    ),
                    Some(node) => anon_call(
                        inp,
                        flag,
                        sequence_of(inp, node),
                        read_call_rest(inp, st1, None, true),
                    ),
                }
            } else {
                let (callee, st1) = read_sequence(inp, st, SequenceParseMode::AnonFunctionExpr);
                match callee {
                    Err(stop) => (Err(stop), st1),
                    Ok(callee) => anon_call(
                        inp,
                        flag,
                        callee.tree,
                        read_callee_args(inp, ahead(st, st1), callee.end, composed),
                    ),
                }
            }
        }),
{
    reveal(read_anon_call);
    reveal(read_call_rest);
    reveal(read_callee_args);
    reveal(read_sequence);
}

/// What reading the arguments of an anonymous call amounts to.
pub(crate) proof fn unfold_callee_args(
    inp: Input,
    st: State,
    end: SequenceEndType,
    composed: Option<RstTree>,
)
    ensures
        read_callee_args(inp, st, end, composed) == ({
            match end {
                SequenceEndType::AnonFunctionExprNoArgs => (
                    Ok(ArgsRead { args: Seq::empty(), composed, finished: true }),
                    st,
                ),
                SequenceEndType::AnonFunctionExprToCompose => (
                    Ok(ArgsRead { args: Seq::empty(), composed, finished: false }),
                    st,
                ),
                SequenceEndType::AnonFunctionExprToArgs => read_args(
                    inp,
                    st,
                    composed is Some,
                    composed,
                    Seq::empty(),
                ),
                _ => (Err(ParseStop::OpenCallee), st),
            }
        }),
{
    reveal(read_args);
    reveal(read_callee_args);
}

/// What reading a named call amounts to.
pub(crate) proof fn unfold_named_call(
    inp: Input,
    st: State,
    flag: PrintFlag,
    composed: Option<RstTree>,
)
    ensures
        read_named_call(inp, st, flag, composed) == ({
            let (path, st1) = read_path(inp, st, false);
            match path {
                Err(stop) => (Err(stop), st1),
                Ok(path) => named_call(
                    inp,
                    flag,
                    path,
                    read_call_rest(inp, ahead(st, st1), composed, composed is Some),
                ),
            }
        }),
{
    reveal(read_call_rest);
    reveal(read_named_call);
    reveal(read_path);
}

/// What reading arguments amounts to.
pub(crate) proof fn unfold_args(
    inp: Input,
    st: State,
    composing: bool,
    composed: Option<RstTree>,
    args: Seq<SequenceTree>,
)
    ensures
        read_args(inp, st, composing, composed, args) == ({
            let st1 = skip(inp, st);
            if at(inp, st1, TokenKind::ComposeValue) {
                let st2 = step(st1);
                if composing {
                    let (args1, st3) = match composed {
                        Some(node) => (args.push(sequence_of(inp, node)), st2),
                        None => (
                            args,
                            report(inp, st2, ProblemView::ComposeValueReused, span_here(inp, st2)),
                        ),
                    };
                    let (delimiter, st4) = solid(inp, st3);
                    match delimiter {
                        None => (
                            Err(ParseStop::SyntaxError),
                            report(
                                inp,
                                st4,
                                ProblemView::UnclosedFunctionCall,
                                span_here(inp, st4),
                            ),
                        ),
                        Some(delimiter) => match delimiter.token {
                            RantToken::Compose => (
                                Ok(ArgsRead { args: args1, composed: None, finished: false }),
                                st4,
                            ),
                            RantToken::Semi => read_args(inp, st4, composing, None, args1),
                            RantToken::RightBracket => (
                                Ok(ArgsRead { args: args1, composed: None, finished: true }),
                                st4,
                            ),
                            _ => (Err(ParseStop::SyntaxError), report_unexpected(inp, st4)),
                        },
                    }
                } else {
                    read_args(
                        inp,
                        report(inp, st2, ProblemView::NothingToCompose, span_here(inp, st2)),
                        composing,
                        composed,
                        args,
                    )
                }
            } else {
                let (result, st2) = read_sequence(inp, st1, SequenceParseMode::FunctionArg);
                match result {
                    Err(stop) => (Err(stop), st2),
                    Ok(read) => match read.end {
                        SequenceEndType::FunctionArgEndNext if unread(inp, st) => read_args(
                            inp,
                            past(st, st2),
                            composing,
                            composed,
                            args.push(read.tree),
                        ),
                        SequenceEndType::FunctionArgEndBreak => (
                            Ok(ArgsRead { args: args.push(read.tree), composed, finished: true }),
                            st2,
                        ),
                        SequenceEndType::FunctionArgEndToCompose => (
                            Ok(ArgsRead { args: args.push(read.tree), composed, finished: false }),
                            st2,
                        ),
                        _ => (
                            Err(ParseStop::SyntaxError),
                            report(
                                inp,
                                st2,
                                ProblemView::UnclosedFunctionCall,
                                span_here(inp, st2),
                            ),
                        ),
                    },
                }
            }
        }),
{
    reveal(read_args);
    reveal(read_sequence);
}

/// What reading accessors amounts to.
pub(crate) proof fn unfold_accessors(inp: Input, st: State, accessors: Seq<RstTree>)
    ensures
        read_accessors(inp, st, accessors) == ({
            let st1 = skip(inp, st);
            if accessors.len() > 0 && at(inp, st1, TokenKind::RightAngle) {
                (Ok(accessors), step(st1))
            } else {
                let (result, st2) = read_accessor(inp, st1, span_here(inp, st));
                match result {
                    Err(stop) => (Err(stop), st2),
                    Ok((accessor, more)) => if more && unread(inp, st) {
                        read_accessors(inp, past(st, st2), accessors.push(accessor))
                    } else {
                        (Ok(accessors.push(accessor)), st2)
                    },
                }
            }
        }),
{
    reveal(read_accessor);
    reveal(read_accessors);
}

/// What reading an accessor amounts to.
pub(crate) proof fn unfold_accessor(inp: Input, st: State, start: Range<usize>)
    ensures
        read_accessor(inp, st, start) == ({
            if at(inp, st, TokenKind::Dollar) {
                let (kind, st1) = read_path_kind(inp, skip(inp, step(st)));
                let (name, st2) = read_ident(inp, skip(inp, st1));
                match name {
                    Err(stop) => (Err(stop), st2),
                    Ok(name) => read_definition(inp, ahead(st, st2), name, kind),
                }
            } else {
                let (path, st1) = read_path(inp, st, true);
                match path {
                    Err(stop) => (Err(stop), st1),
                    Ok(path) => read_access(inp, ahead(st, st1), path, start),
                }
            }
        }),
{
    reveal(read_access);
    reveal(read_accessor);
    reveal(read_definition);
    reveal(read_path);
}

/// What reading a definition amounts to.
pub(crate) proof fn unfold_definition(
    inp: Input,
    st: State,
    name: Seq<char>,
    kind: AccessPathKind,
)
    ensures
        read_definition(inp, st, name, kind) == ({
            let (lexeme, st1) = solid(inp, st);
            let plain = RstTree::VarDef(name, kind, None);
            match lexeme {
                None => (
                    Err(ParseStop::SyntaxError),
                    report(inp, st1, ProblemView::UnclosedVariableAccess, span_here(inp, st1)),
                ),
                Some(lexeme) => match lexeme.token {
                    RantToken::RightAngle => (Ok((plain, false)), capture(st1, plain)),
                    RantToken::Semi => (Ok((plain, true)), capture(st1, plain)),
                    RantToken::Equals => {
                        let (value, st2) = read_sequence(
                            inp,
                            skip(inp, st1),
                            SequenceParseMode::VariableAssignment,
                        );
                        match value {
                            Err(stop) => (Err(stop), st2),
                            Ok(read) => finish_assignment(
                                inp,
                                st2,
                                RstTree::VarDef(name, kind, Some(read.tree)),
                                read.end,
                            ),
                        }
                    },
                    _ => (Err(ParseStop::SyntaxError), report_unexpected(inp, st1)),
                },
            }
        }),
{
    reveal(read_definition);
    reveal(read_sequence);
}

/// What reading a getter or setter amounts to.
pub(crate) proof fn unfold_access(inp: Input, st: State, path: PathTree, start: Range<usize>)
    ensures
        read_access(inp, st, path, start) == ({
            let (lexeme, st1) = solid(inp, st);
            let plain = RstTree::VarGet(path, None);
            match lexeme {
                None => (
                    Err(ParseStop::SyntaxError),
                    report(inp, st1, ProblemView::UnclosedVariableAccess, span_here(inp, st1)),
                ),
                Some(lexeme) => match lexeme.token {
                    RantToken::RightAngle => (Ok((plain, false)), capture(st1, plain)),
                    RantToken::Semi => (Ok((plain, true)), capture(st1, plain)),
                    RantToken::Question => {
                        let (value, st2) = read_sequence(
                            inp,
                            skip(inp, st1),
                            SequenceParseMode::AccessorFallbackValue,
                        );
                        match value {
                            Err(stop) => (Err(stop), st2),
                            Ok(read) => finish_assignment(
                                inp,
                                st2,
                                RstTree::VarGet(path, Some(read.tree)),
                                read.end,
                            ),
                        }
                    },
                    RantToken::Equals => {
                        let (value, st2) = read_sequence(
                            inp,
                            skip(inp, st1),
                            SequenceParseMode::VariableAssignment,
                        );
                        match value {
                            Err(stop) => (Err(stop), st2),
                            Ok(read) => finish_assignment(
                                inp,
                                if path.anonymous() && path.parts.len() == 1 {
                                    report(
                                        inp,
                                        st2,
                                        ProblemView::AnonValueAssignment,
                                        covering(start, span_here(inp, st2)),
                                    )
                                } else {
                                    st2
                                },
                                RstTree::VarSet(path, read.tree),
                                read.end,
                            ),
                        }
                    },
                    _ => (Err(ParseStop::SyntaxError), report_unexpected(inp, st1)),
                },
            }
        }),
{
    reveal(read_access);
    reveal(read_sequence);
}

} // verus!
