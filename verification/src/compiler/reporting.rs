//! What is reported.

use std::ops::Range;
use vstd::prelude::*;
use crate::compiler::grammar::{
    after_key, ahead, any_variadic, at, blank, capture, covering, enter_scope, has_param, left,
    name_part, param_names, past, read_access, read_accessor, read_accessors, read_anon_call,
    read_args, read_block, read_block_element, read_block_elements, read_call, read_call_rest,
    read_callee_args, read_calls, read_definition, read_dynamic_key, read_func_access,
    read_func_body, read_ident, read_item, read_items, read_list, read_list_elements, read_map,
    read_map_key, read_named_call, read_opened, read_param, read_param_list, read_params, read_path,
    read_path_kind, read_path_rest, read_sequence, report, sequence_of, skip, solid, span_here,
    step, unflagged, unread, with_composed, Draft, Input, ItemRead, ParseStop, SequenceEndType,
    SequenceParseMode, SequenceRead, State,
};
use crate::compiler::lang::{
    valid_ident, AccessPathKind, ComponentTree, KeyTree, ParameterTree, PathTree, PrintFlag,
    RstTree, SequenceTree, Varity,
};
use crate::compiler::lexer::{Lexeme, RantToken};
use crate::compiler::message::{ProblemView, Severity};
use crate::compiler::positions::{lemma_read_accessor, lemma_read_anon_call, lemma_read_func_access};
use crate::compiler::production::functions::lemma_read_named_call;
use crate::compiler::production::items::lemma_read_opened;
use crate::compiler::production::sequences::lemma_read_block_element;
use crate::compiler::reader::{after_ws, kind_at, lemma_after_ws, TokenKind};
use crate::compiler::scopes::{col_of, line_of};
use crate::compiler::unfolding::{
    unfold_access, unfold_accessor, unfold_anon_call, unfold_args, unfold_block_elements,
    unfold_call_rest, unfold_dynamic_key, unfold_item, unfold_items, unfold_list_elements,
    unfold_map, unfold_map_key, unfold_opened, unfold_param_list, unfold_path, unfold_path_rest,
};
use crate::compiler::writing::can_be_params;

verus! {

broadcast use lemma_after_ws;

/// From `a` to `b`, what has been reported stays, and more may come after it.
pub open spec fn grows(a: State, b: State) -> bool {
    a.reports.is_prefix_of(b.reports)
}

proof fn capture_grows(st: State, node: RstTree)
    ensures
        capture(st, node).reports == st.reports,
{
}

/// Reading parameters keeps what has been reported.
proof fn params_grow(inp: Input, st: State, start: Range<usize>)
    ensures
        grows(st, read_params(inp, st, start).1),
{
    let (lexeme, st1) = solid(inp, st);
    if lexeme matches Some(lexeme) && lexeme.token is Colon {
        param_list_grows(inp, st1, start, Seq::empty());
    }
}

proof fn param_list_grows(inp: Input, st: State, start: Range<usize>, params: Seq<ParameterTree>)
    ensures
        grows(st, read_param_list(inp, st, start, params).1),
    decreases left(inp, st),
{
    reveal(read_param_list);
    let (lexeme, st1) = solid(inp, st);
    if let Some(lexeme) = lexeme {
        match lexeme.token {
            RantToken::Fragment => {
                let (param, st2) = read_param(inp, st1, params, lexeme);
                let (delimiter, st3) = solid(inp, st2);
                if delimiter matches Some(delimiter) && delimiter.token is Semi {
                    param_list_grows(inp, st3, start, params.push(param));
                }
            },
            RantToken::RightBracket => {},
            _ => param_list_grows(
                inp,
                report(inp, st1, ProblemView::InvalidIdentifier(lexeme.text@), lexeme.span),
                start,
                params,
            ),
        }
    }
}

proof fn sequence_grows(
    inp: Input,
    st: State,
    mode: SequenceParseMode,
)
    ensures
        grows(st, read_sequence(inp, st, mode).1),
    decreases left(inp, st), 2nat,
{
    reveal(read_sequence);
    reveal(read_items);
    let inner = enter_scope(st, Set::empty());
    items_grows(inp, inner, mode, blank());
}

proof fn items_grows(
    inp: Input,
    st: State,
    mode: SequenceParseMode,
    d: Draft,
)
    ensures
        grows(st, read_items(inp, st, mode, d).1),
    decreases left(inp, st), 1nat,
{
    reveal(read_items);
    reveal(read_item);
    if st.pos < inp.lexemes.len() {
        item_grows(inp, st, mode, d);
        let (result, st1) = read_item(inp, st, mode, d);
        match result {
            Ok(ItemRead::Flagged(d1)) => items_grows(inp, past(st, st1), mode, d1),
            Ok(ItemRead::Item(d1)) => items_grows(inp, past(st, st1), mode, unflagged(d1)),
            _ => {},
        }
    }
}

proof fn item_grows(
    inp: Input,
    st: State,
    mode: SequenceParseMode,
    d: Draft,
)
    ensures
        grows(st, read_item(inp, st, mode, d).1),
    decreases left(inp, st), 0nat,
{
    unfold_item(inp, st, mode, d);
    if st.pos < inp.lexemes.len() {
        opened_grows(inp, step(st), d, inp.lexemes[st.pos as int]);
    }
}

proof fn opened_grows(
    inp: Input,
    st: State,
    d: Draft,
    lexeme: Lexeme,
)
    ensures
        grows(st, read_opened(inp, st, d, lexeme).1),
    decreases left(inp, st), 10nat,
{
    lemma_read_opened(inp, st, d, lexeme);
    match lexeme.token {
        RantToken::Star => block_grows(inp, skip(inp, st), true, d.flag),
        RantToken::LeftBrace => block_grows(inp, st, false, d.flag),
        RantToken::At => map_grows(inp, solid(inp, st).1, lexeme.span, Seq::empty()),
        RantToken::LeftParen => list_grows(inp, st, lexeme.span),
        RantToken::LeftBracket => func_access_grows(inp, st, d.flag),
        RantToken::LeftAngle => accessors_grows(inp, st, Seq::empty()),
        _ => {},
    }
}

proof fn block_grows(
    inp: Input,
    st: State,
    expect_opening_brace: bool,
    flag: PrintFlag,
)
    ensures
        grows(st, read_block(inp, st, expect_opening_brace, flag).1),
    decreases left(inp, st), 4nat,
{
    reveal(read_block);
    reveal(read_block_elements);
    let st1 = if expect_opening_brace {
        step(st)
    } else {
        st
    };
    if !expect_opening_brace || at(inp, st, TokenKind::LeftBrace) {
        block_elements_grows(inp, st1, span_here(inp, st1).start, Seq::empty(), false);
    }
}

proof fn block_element_grows(
    inp: Input,
    st: State,
)
    ensures
        grows(st, read_block_element(inp, st).1),
    decreases left(inp, st), 2nat,
{
    lemma_read_block_element(inp, st);
    let st0 = enter_scope(st, Set::empty());
    items_grows(inp, st0, SequenceParseMode::BlockElementAny, blank());
    let (result, st1) = read_items(inp, st0, SequenceParseMode::BlockElementAny, blank());
    if let Ok(key) = result {
        if key.end == SequenceEndType::BlockAssocDelim && unread(inp, st) {
            let st2 = past(st0, st1);
            let d = after_key(inp, st1, key);
            items_grows(inp, st2, SequenceParseMode::BlockElementRhs, d);
            let st3 = read_items(inp, st2, SequenceParseMode::BlockElementRhs, d).1;
            }
    }
}

proof fn block_elements_grows(
    inp: Input,
    st: State,
    start: usize,
    elements: Seq<SequenceTree>,
    printing: bool,
)
    ensures
        grows(st, read_block_elements(inp, st, start, elements, printing).1),
    decreases left(inp, st), 3nat,
{
    reveal(read_block_elements);
    reveal(read_block_element);
    block_element_grows(inp, st);
    let (result, st1) = read_block_element(inp, st);
    if let Ok(read) = result {
        if read.end == SequenceEndType::BlockDelim && unread(inp, st) {
            block_elements_grows(
                inp,
                past(st, st1),
                start,
                elements.push(read.tree),
                printing || read.printing,
            );
        }
    }
}

proof fn list_grows(
    inp: Input,
    st: State,
    start: Range<usize>,
)
    ensures
        grows(st, read_list(inp, st, start).1),
    decreases left(inp, st), 4nat,
{
    reveal(read_list);
    reveal(read_list_elements);
    let st1 = skip(inp, st);
    if !at(inp, st1, TokenKind::RightParen) {
        list_elements_grows(inp, st1, start, Seq::empty());
    }
}

proof fn list_elements_grows(
    inp: Input,
    st: State,
    start: Range<usize>,
    elements: Seq<SequenceTree>,
)
    ensures
        grows(st, read_list_elements(inp, st, start, elements).1),
    decreases left(inp, st), 3nat,
{
    reveal(read_list_elements);
    reveal(read_sequence);
    let st0 = skip(inp, st);
    sequence_grows(inp, st0, SequenceParseMode::CollectionInit);
    let (result, st1) = read_sequence(inp, st0, SequenceParseMode::CollectionInit);
    if let Ok(read) = result {
        if read.end == SequenceEndType::CollectionInitDelim && unread(inp, st) {
            list_elements_grows(inp, past(st, st1), start, elements.push(read.tree));
        }
    }
}

proof fn map_grows(
    inp: Input,
    st: State,
    start: Range<usize>,
    pairs: Seq<(KeyTree, SequenceTree)>,
)
    ensures
        grows(st, read_map(inp, st, start, pairs).1),
    decreases left(inp, st), 5nat,
{
    reveal(read_map);
    reveal(read_map_key);
    reveal(read_sequence);
    map_key_grows(inp, st, start);
    let (key, st1) = read_map_key(inp, st, start);
    if let Ok(Some(key)) = key {
        let st2 = skip(inp, past(st, st1));
        if at(inp, st2, TokenKind::Equals) {
            let st3 = skip(inp, step(st2));
            sequence_grows(inp, st3, SequenceParseMode::CollectionInit);
            let (result, st4) = read_sequence(inp, st3, SequenceParseMode::CollectionInit);
            if let Ok(read) = result {
                if read.end == SequenceEndType::CollectionInitDelim {
                    map_grows(inp, ahead(st3, st4), start, pairs.push((key, read.tree)));
                }
            }
        }
    }
}

proof fn map_key_grows(
    inp: Input,
    st: State,
    start: Range<usize>,
)
    ensures
        grows(st, read_map_key(inp, st, start).1),
    decreases left(inp, st), 4nat,
{
    reveal(read_map_key);
    reveal(read_dynamic_key);
    let (lexeme, st1) = solid(inp, st);
    if lexeme matches Some(lexeme) && lexeme.token is LeftBrace {
        dynamic_key_grows(inp, st1, false);
    }
}

proof fn dynamic_key_grows(
    inp: Input,
    st: State,
    expect_opening_brace: bool,
)
    ensures
        grows(st, read_dynamic_key(inp, st, expect_opening_brace).1),
    decreases left(inp, st), 3nat,
{
    reveal(read_dynamic_key);
    reveal(read_sequence);
    let st1 = if expect_opening_brace {
        step(st)
    } else {
        st
    };
    if !expect_opening_brace || at(inp, st, TokenKind::LeftBrace) {
        sequence_grows(inp, st1, SequenceParseMode::DynamicKey);
    }
}

proof fn path_grows(
    inp: Input,
    st: State,
    allow_anonymous: bool,
)
    ensures
        grows(st, read_path(inp, st, allow_anonymous).1),
    decreases left(inp, st), 5nat,
{
    unfold_path(inp, st, allow_anonymous);
    let st1 = skip(inp, st);
    if allow_anonymous && at(inp, st1, TokenKind::Bang) {
        let st2 = skip(inp, step(st1));
        sequence_grows(inp, st2, SequenceParseMode::SingleItem);
        let (result, st3) = read_sequence(inp, st2, SequenceParseMode::SingleItem);
        if let Ok(read) = result {
            let part = ComponentTree::AnonymousValue(read.tree);
            path_rest_grows(inp, ahead(st2, st3), seq![part], AccessPathKind::Local);
        }
    } else {
        let (kind, st2) = read_path_kind(inp, st1);
        let (first, st3) = solid(inp, st2);
        if let Some(lexeme) = first {
            match lexeme.token {
                RantToken::LeftBrace => {
                    dynamic_key_grows(inp, st3, false);
                    let (result, st4) = read_dynamic_key(inp, st3, false);
                    if let Ok(key) = result {
                        let part = ComponentTree::DynamicKey(key);
                        path_rest_grows(inp, ahead(st3, st4), seq![part], kind);
                    }
                },
                RantToken::Integer(_) => path_rest_grows(
                inp,
                    report(inp, st3, ProblemView::LocalPathStartsWithIndex, lexeme.span),
                    Seq::empty(),
                    kind,
                ),
                _ => {
                    let (parts, st4) = name_part(inp, st3, Seq::empty(), lexeme);
                    path_rest_grows(inp, st4, parts, kind);
                },
            }
        }
    }
}

proof fn path_rest_grows(
    inp: Input,
    st: State,
    parts: Seq<ComponentTree>,
    kind: AccessPathKind,
)
    ensures
        grows(st, read_path_rest(inp, st, parts, kind).1),
    decreases left(inp, st), 4nat,
{
    reveal(read_path_rest);
    reveal(read_dynamic_key);
    let st1 = skip(inp, st);
    if at(inp, st1, TokenKind::Slash) {
        let (component, st2) = solid(inp, step(st1));
        if let Some(lexeme) = component {
            match lexeme.token {
                RantToken::Integer(index) => path_rest_grows(
                inp,
                    st2,
                    parts.push(ComponentTree::Index(index)),
                    kind,
                ),
                RantToken::LeftBrace => {
                    dynamic_key_grows(inp, st2, false);
                    let (result, st3) = read_dynamic_key(inp, st2, false);
                    if let Ok(key) = result {
                        let part = ComponentTree::DynamicKey(key);
                        path_rest_grows(inp, ahead(st2, st3), parts.push(part), kind);
                    }
                },
                _ => {
                    let (parts1, st3) = name_part(inp, st2, parts, lexeme);
                    path_rest_grows(inp, st3, parts1, kind);
                },
            }
        }
    }
}

proof fn func_body_grows(
    inp: Input,
    st: State,
    params: Seq<ParameterTree>,
)
    ensures
        grows(st, read_func_body(inp, st, params).1),
    decreases left(inp, st), 3nat,
{
    reveal(read_func_body);
    reveal(read_items);
    if at(inp, st, TokenKind::LeftBrace) {
        let st1 = step(st);
        let outer = State {
            captures: st1.captures.push((st1.scopes.len(), Set::empty())),
            ..st1
        };
        let st2 = enter_scope(outer, param_names(params));
        items_grows(inp, st2, SequenceParseMode::FunctionBody, blank());
        let st3 = read_items(inp, st2, SequenceParseMode::FunctionBody, blank()).1;
    }
}

proof fn func_access_grows(
    inp: Input,
    st: State,
    flag: PrintFlag,
)
    ensures
        grows(st, read_func_access(inp, st, flag).1),
    decreases left(inp, st), 9nat,
{
    lemma_read_func_access(inp, st, flag);
    let start = span_here(inp, st);
    let st1 = skip(inp, st);
    if at(inp, st1, TokenKind::Dollar) {
        path_grows(inp, step(st1), false);
        let (path, st2) = read_path(inp, step(st1), false);
        if let Ok(path) = path {
            let (params, st3) = read_params(inp, ahead(step(st1), st2), start);
            params_grow(inp, ahead(step(st1), st2), start);
            if let Ok(params) = params {
                func_body_grows(inp, skip(inp, ahead(step(st1), st3)), params);
            }
        }
    } else if at(inp, st1, TokenKind::Question) {
        let (params, st2) = read_params(inp, step(st1), start);
        params_grow(inp, step(st1), start);
        if let Ok(params) = params {
            func_body_grows(inp, skip(inp, ahead(step(st1), st2)), params);
        }
    } else {
        calls_grows(inp, st1, flag, None);
    }
}

proof fn calls_grows(
    inp: Input,
    st: State,
    flag: PrintFlag,
    composed: Option<RstTree>,
)
    ensures
        grows(st, read_calls(inp, st, flag, composed).1),
    decreases left(inp, st), 8nat,
{
    reveal(read_calls);
    reveal(read_call);
    call_grows(inp, st, flag, composed);
    let (result, st1) = read_call(inp, st, flag, composed);
    if let Ok((call, finished)) = result {
        if !finished && unread(inp, st) {
            calls_grows(inp, past(st, st1), flag, Some(call));
        }
    }
}

proof fn call_grows(
    inp: Input,
    st: State,
    flag: PrintFlag,
    composed: Option<RstTree>,
)
    ensures
        grows(st, read_call(inp, st, flag, composed).1),
    decreases left(inp, st), 7nat,
{
    reveal(read_call);
    reveal(read_anon_call);
    reveal(read_named_call);
    let st1 = skip(inp, st);
    if at(inp, st1, TokenKind::Bang) {
        anon_call_grows(inp, skip(inp, step(st1)), flag, composed);
    } else {
        named_call_grows(inp, st1, flag, composed);
    }
}

proof fn anon_call_grows(
    inp: Input,
    st: State,
    flag: PrintFlag,
    composed: Option<RstTree>,
)
    ensures
        grows(st, read_anon_call(inp, st, flag, composed).1),
    decreases left(inp, st), 6nat,
{
    lemma_read_anon_call(inp, st, flag, composed);
    if at(inp, st, TokenKind::ComposeValue) {
        call_rest_grows(inp, step(st), None, true);
    } else {
        sequence_grows(inp, st, SequenceParseMode::AnonFunctionExpr);
        let (callee, st1) = read_sequence(inp, st, SequenceParseMode::AnonFunctionExpr);
        if let Ok(callee) = callee {
            callee_args_grows(inp, ahead(st, st1), callee.end, composed);
        }
    }
}

proof fn callee_args_grows(
    inp: Input,
    st: State,
    end: SequenceEndType,
    composed: Option<RstTree>,
)
    ensures
        grows(st, read_callee_args(inp, st, end, composed).1),
    decreases left(inp, st), 5nat,
{
    reveal(read_callee_args);
    reveal(read_args);
    if end == SequenceEndType::AnonFunctionExprToArgs {
        args_grows(inp, st, composed is Some, composed, Seq::empty());
    }
}

proof fn named_call_grows(
    inp: Input,
    st: State,
    flag: PrintFlag,
    composed: Option<RstTree>,
)
    ensures
        grows(st, read_named_call(inp, st, flag, composed).1),
    decreases left(inp, st), 6nat,
{
    lemma_read_named_call(inp, st, flag, composed);
    path_grows(inp, st, false);
    let (path, st1) = read_path(inp, st, false);
    if let Ok(path) = path {
        let st2 = ahead(st, st1);
        call_rest_grows(inp, st2, composed, composed is Some);
        let (result, st3) = read_call_rest(inp, st2, composed, composed is Some);
        if let Ok(read) = result {
            let call = RstTree::FuncCall { id: path, args: with_composed(inp, read), flag };
            capture_grows(st3, call);
        }
    }
}

proof fn call_rest_grows(
    inp: Input,
    st: State,
    composed: Option<RstTree>,
    composing: bool,
)
    ensures
        grows(st, read_call_rest(inp, st, composed, composing).1),
    decreases left(inp, st), 4nat,
{
    reveal(read_call_rest);
    reveal(read_args);
    let (lexeme, st1) = solid(inp, st);
    if lexeme matches Some(lexeme) && lexeme.token is Colon {
        args_grows(inp, st1, composing, composed, Seq::empty());
    }
}

proof fn args_grows(
    inp: Input,
    st: State,
    composing: bool,
    composed: Option<RstTree>,
    args: Seq<SequenceTree>,
)
    ensures
        grows(st, read_args(inp, st, composing, composed, args).1),
    decreases left(inp, st), 3nat,
{
    reveal(read_args);
    reveal(read_sequence);
    let st1 = skip(inp, st);
    if at(inp, st1, TokenKind::ComposeValue) {
        let st2 = step(st1);
        if composing {
            let (args1, st3) = match composed {
                Some(node) => (args.push(sequence_of(inp, node)), st2),
                None => (
                    args,
                    report(inp, st2, ProblemView::ComposeValueReused, span_here(inp, st2)),
                ),
            };
            let (delimiter, st4) = solid(inp, st3);
            if delimiter matches Some(delimiter) && delimiter.token is Semi {
                args_grows(inp, st4, composing, None, args1);
            }
        } else {
            let st3 = report(inp, st2, ProblemView::NothingToCompose, span_here(inp, st2));
            args_grows(inp, st3, composing, composed, args);
        }
    } else {
        sequence_grows(inp, st1, SequenceParseMode::FunctionArg);
        let (result, st2) = read_sequence(inp, st1, SequenceParseMode::FunctionArg);
        if let Ok(read) = result {
            if read.end == SequenceEndType::FunctionArgEndNext && unread(inp, st) {
                args_grows(inp, past(st, st2), composing, composed, args.push(read.tree));
            }
        }
    }
}

proof fn accessors_grows(
    inp: Input,
    st: State,
    accessors: Seq<RstTree>,
)
    ensures
        grows(st, read_accessors(inp, st, accessors).1),
    decreases left(inp, st), 7nat,
{
    reveal(read_accessors);
    reveal(read_accessor);
    let st1 = skip(inp, st);
    if !(accessors.len() > 0 && at(inp, st1, TokenKind::RightAngle)) {
        accessor_grows(inp, st1, span_here(inp, st));
        let (result, st2) = read_accessor(inp, st1, span_here(inp, st));
        if let Ok((accessor, more)) = result {
            if more && unread(inp, st) {
                accessors_grows(inp, past(st, st2), accessors.push(accessor));
            }
        }
    }
}

proof fn accessor_grows(
    inp: Input,
    st: State,
    start: Range<usize>,
)
    ensures
        grows(st, read_accessor(inp, st, start).1),
    decreases left(inp, st), 6nat,
{
    lemma_read_accessor(inp, st, start);
    if at(inp, st, TokenKind::Dollar) {
        let (kind, st1) = read_path_kind(inp, skip(inp, step(st)));
        let (name, st2) = read_ident(inp, skip(inp, st1));
        if let Ok(name) = name {
            definition_grows(inp, ahead(st, st2), name, kind);
        }
    } else {
        path_grows(inp, st, true);
        let (path, st1) = read_path(inp, st, true);
        if let Ok(path) = path {
            access_grows(inp, ahead(st, st1), path, start);
        }
    }
}

proof fn definition_grows(
    inp: Input,
    st: State,
    name: Seq<char>,
    kind: AccessPathKind,
)
    ensures
        grows(st, read_definition(inp, st, name, kind).1),
    decreases left(inp, st), 5nat,
{
    reveal(read_definition);
    reveal(read_sequence);
    let (lexeme, st1) = solid(inp, st);
    capture_grows(st1, RstTree::VarDef(name, kind, None));
    if lexeme matches Some(lexeme) && lexeme.token is Equals {
        let mode = SequenceParseMode::VariableAssignment;
        sequence_grows(inp, skip(inp, st1), mode);
        let (value, st2) = read_sequence(inp, skip(inp, st1), mode);
        if let Ok(read) = value {
            capture_grows(st2, RstTree::VarDef(name, kind, Some(read.tree)));
        }
    }
}

proof fn access_grows(
    inp: Input,
    st: State,
    path: PathTree,
    start: Range<usize>,
)
    ensures
        grows(st, read_access(inp, st, path, start).1),
    decreases left(inp, st), 5nat,
{
    reveal(read_access);
    reveal(read_sequence);
    let (lexeme, st1) = solid(inp, st);
    capture_grows(st1, RstTree::VarGet(path, None));
    if let Some(lexeme) = lexeme {
        if lexeme.token is Question {
            let mode = SequenceParseMode::AccessorFallbackValue;
            sequence_grows(inp, skip(inp, st1), mode);
            let (value, st2) = read_sequence(inp, skip(inp, st1), mode);
            if let Ok(read) = value {
                capture_grows(st2, RstTree::VarGet(path, Some(read.tree)));
            }
        } else if lexeme.token is Equals {
            let mode = SequenceParseMode::VariableAssignment;
            sequence_grows(inp, skip(inp, st1), mode);
            let (value, st2) = read_sequence(inp, skip(inp, st1), mode);
            if let Ok(read) = value {
                let st3 = report(
                    inp,
                    st2,
                    ProblemView::AnonValueAssignment,
                    covering(start, span_here(inp, st2)),
                );
                capture_grows(st2, RstTree::VarSet(path, read.tree));
                capture_grows(st3, RstTree::VarSet(path, read.tree));
            }
        }
    }
}

// Names.

/// The first report of what was read from `st` on.
pub open spec fn first_report(st: State, after: State) -> ProblemView {
    after.reports[st.reports.len() as int].info
}

/// The part of the source that the first report of what was read from `st` on is about.
pub open spec fn first_place(st: State, after: State) -> Range<usize> {
    after.reports[st.reports.len() as int].pos->Some_0.span
}

/// Whether something was reported between the two.
pub open spec fn reported_since(st: State, after: State) -> bool {
    after.reports.len() > st.reports.len()
}

/// The first report stays the first.
proof fn first_report_stays(st: State, middle: State, after: State)
    requires
        grows(middle, after),
        reported_since(st, middle),
    ensures
        reported_since(st, after),
        first_report(st, after) == first_report(st, middle),
        first_place(st, after) == first_place(st, middle),
{
    let len = middle.reports.len();
    assert(middle.reports[st.reports.len() as int] == after.reports.subrange(
        0,
        len as int,
    )[st.reports.len() as int]);
}

/// What can be a name is an identifier in one fragment.
pub open spec fn can_be_name(lexeme: Lexeme) -> bool {
    lexeme.token is Fragment && valid_ident(lexeme.text@)
}

/// A path whose first component is neither a name nor an expression is reported.
pub proof fn paths_start_with_a_name(inp: Input, st: State, allow_anonymous: bool, place: nat)
    requires
        !(allow_anonymous && kind_at(inp.lexemes, after_ws(inp.lexemes, st.pos), TokenKind::Bang)),
        place == after_ws(
            inp.lexemes,
            read_path_kind(inp, skip(inp, st)).1.pos,
        ),
        place < inp.lexemes.len(),
        !can_be_name(inp.lexemes[place as int]),
        !(inp.lexemes[place as int].token is LeftBrace),
    ensures
        ({
            let after = read_path(inp, st, allow_anonymous).1;
            &&& reported_since(st, after)
            &&& first_place(st, after) == inp.lexemes[place as int].span
            &&& first_report(st, after) == if inp.lexemes[place as int].token is Integer {
                ProblemView::LocalPathStartsWithIndex
            } else {
                ProblemView::InvalidIdentifier(inp.lexemes[place as int].text@)
            }
        }),
{
    unfold_path(inp, st, allow_anonymous);
    let (kind, st2) = read_path_kind(inp, skip(inp, st));
    let (first, st3) = solid(inp, st2);
    let lexeme = inp.lexemes[place as int];
    let (parts, st4) = if lexeme.token is Integer {
        (
            Seq::empty(),
            report(inp, st3, ProblemView::LocalPathStartsWithIndex, lexeme.span),
        )
    } else {
        name_part(inp, st3, Seq::empty(), lexeme)
    };
    path_rest_grows(inp, st4, parts, kind);
    first_report_stays(st, st4, read_path(inp, st, allow_anonymous).1);
}

/// A component of a path that is no name, index or expression is reported.
pub proof fn path_components_are_checked(
    inp: Input,
    st: State,
    parts: Seq<ComponentTree>,
    kind: AccessPathKind,
    slash: nat,
    place: nat,
)
    requires
        slash == after_ws(inp.lexemes, st.pos),
        slash < inp.lexemes.len(),
        inp.lexemes[slash as int].token is Slash,
        place == after_ws(inp.lexemes, slash + 1),
        place < inp.lexemes.len(),
        !can_be_name(inp.lexemes[place as int]),
        !(inp.lexemes[place as int].token is LeftBrace),
        !(inp.lexemes[place as int].token is Integer),
    ensures
        ({
            let after = read_path_rest(inp, st, parts, kind).1;
            &&& reported_since(st, after)
            &&& first_place(st, after) == inp.lexemes[place as int].span
            &&& first_report(st, after) == ProblemView::InvalidIdentifier(
                inp.lexemes[place as int].text@,
            )
        }),
{
    unfold_path_rest(inp, st, parts, kind);
    let (component, st2) = solid(inp, step(skip(inp, st)));
    let (parts1, st3) = name_part(inp, st2, parts, inp.lexemes[place as int]);
    path_rest_grows(inp, st3, parts1, kind);
    first_report_stays(st, st3, read_path_rest(inp, st, parts, kind).1);
}

/// The name of a definition is an identifier, or it is reported.
pub proof fn defined_names_are_checked(inp: Input, st: State, start: Range<usize>, name: Lexeme)
    requires
        st.pos < inp.lexemes.len(),
        inp.lexemes[st.pos as int].token is Dollar,
        ({
            let place = after_ws(
                inp.lexemes,
                read_path_kind(inp, skip(inp, step(st))).1.pos,
            );
            place < inp.lexemes.len() && name == inp.lexemes[place as int]
        }),
        !can_be_name(name),
    ensures
        ({
            let after = read_accessor(inp, st, start).1;
            &&& reported_since(st, after)
            &&& first_place(st, after) == name.span
            &&& first_report(st, after) == if name.token is Fragment {
                ProblemView::InvalidIdentifier(name.text@)
            } else {
                ProblemView::UnexpectedToken(name.text@)
            }
        }),
{
    unfold_accessor(inp, st, start);
    let (kind, st1) = read_path_kind(inp, skip(inp, step(st)));
    let (ident, st2) = read_ident(inp, skip(inp, st1));
    if let Ok(ident) = ident {
        definition_grows(inp, ahead(st, st2), ident, kind);
        first_report_stays(st, st2, read_accessor(inp, st, start).1);
    }
}

/// A key of a map that is no identifier, string or expression is reported.
pub proof fn keys_are_checked(inp: Input, st: State, start: Range<usize>, place: nat)
    requires
        place == after_ws(inp.lexemes, st.pos),
        place < inp.lexemes.len(),
        !can_be_name(inp.lexemes[place as int]),
        !(inp.lexemes[place as int].token is LeftBrace),
        !(inp.lexemes[place as int].token is StringLiteral),
        !(inp.lexemes[place as int].token is RightParen),
    ensures
        ({
            let after = read_map_key(inp, st, start).1;
            &&& reported_since(st, after)
            &&& first_place(st, after) == inp.lexemes[place as int].span
            &&& first_report(st, after) == if inp.lexemes[place as int].token is Fragment {
                ProblemView::InvalidIdentifier(inp.lexemes[place as int].text@)
            } else {
                ProblemView::UnexpectedToken(inp.lexemes[place as int].text@)
            }
        }),
{
    unfold_map_key(inp, st, start);
}

// Parameters.

/// Whether parameters that were read can stand in a signature, and are identifiers.
pub open spec fn good_params(params: Seq<ParameterTree>) -> bool {
    &&& can_be_params(params)
    &&& forall|i: int| 0 <= i < params.len() ==> valid_ident((#[trigger] params[i]).name)
}

/// Parameters that are read without a report are identifiers, no two of which are the same, in an
/// order that their varities allow.
pub proof fn unreported_parameters_are_good(inp: Input, st: State, start: Range<usize>)
    ensures
        ({
            let (result, after) = read_params(inp, st, start);
            result matches Ok(params) ==> after.reports == st.reports ==> good_params(params)
        }),
{
    let (lexeme, st1) = solid(inp, st);
    if lexeme matches Some(lexeme) && lexeme.token is Colon {
        unreported_list_is_good(inp, st1, start, Seq::empty());
    }
}

proof fn unreported_list_is_good(
    inp: Input,
    st: State,
    start: Range<usize>,
    params: Seq<ParameterTree>,
)
    requires
        good_params(params),
    ensures
        ({
            let (result, after) = read_param_list(inp, st, start, params);
            result matches Ok(all) ==> after.reports == st.reports ==> good_params(all)
        }),
    decreases left(inp, st),
{
    unfold_param_list(inp, st, start, params);
    let (lexeme, st1) = solid(inp, st);
    if let Some(lexeme) = lexeme {
        if lexeme.token is Fragment {
            let (param, st2) = read_param(inp, st1, params, lexeme);
            let (delimiter, st3) = solid(inp, st2);
            let longer = params.push(param);
            if st2.reports == st.reports {
                assert(st2.reports.len() == st.reports.len());
                assert(!has_param(params, param.name));
                assert(good_params(longer)) by {
                    assert forall|i: int, j: int| 0 <= i < j < longer.len() implies (
                    #[trigger] longer[i]).name != (#[trigger] longer[j]).name by {
                        if j == params.len() {
                            assert(longer[i] == params[i]);
                            assert(params[i].name != param.name);
                        } else {
                            assert(params[i].name != params[j].name);
                        }
                    }
                    assert forall|i: int, j: int| 0 <= i < j < longer.len() implies match ((
                    #[trigger] longer[i]).varity, (#[trigger] longer[j]).varity) {
                        (Varity::Required, _) => true,
                        (Varity::Optional, Varity::Optional) => true,
                        (Varity::Optional, Varity::VariadicStar) => true,
                        _ => false,
                    } by {
                        let last = params.len() - 1;
                        if j == params.len() {
                            assert(longer[i] == params[i]);
                            assert(longer[last] == params[last]);
                            if i < last {
                                assert(match (params[i].varity, params[last].varity) {
                                    (Varity::Required, _) => true,
                                    (Varity::Optional, Varity::Optional) => true,
                                    (Varity::Optional, Varity::VariadicStar) => true,
                                    _ => false,
                                });
                            }
                        } else {
                            assert(longer[i] == params[i] && longer[j] == params[j]);
                        }
                    }
                }
            }
            if delimiter matches Some(delimiter) && delimiter.token is Semi {
                if st2.reports == st.reports {
                    unreported_list_is_good(inp, st3, start, longer);
                }
                param_list_grows(inp, st3, start, longer);
            }
        } else {
            param_list_grows(
                inp,
                report(inp, st1, ProblemView::InvalidIdentifier(lexeme.text@), lexeme.span),
                start,
                params,
            );
        }
    }
}

// Compositions.

/// A compose value in a call that no call comes before is reported.
pub proof fn compose_values_need_a_call_before(
    inp: Input,
    st: State,
    composed: Option<RstTree>,
    args: Seq<SequenceTree>,
)
    requires
        at(inp, skip(inp, st), TokenKind::ComposeValue),
    ensures
        ({
            let after = read_args(inp, st, false, composed, args).1;
            &&& reported_since(st, after)
            &&& first_report(st, after) == ProblemView::NothingToCompose
            &&& first_place(st, after) == inp.lexemes[skip(inp, st).pos as int].span
        }),
{
    unfold_args(inp, st, false, composed, args);
    let st2 = step(skip(inp, st));
    let st3 = report(inp, st2, ProblemView::NothingToCompose, span_here(inp, st2));
    args_grows(inp, st3, false, composed, args);
    first_report_stays(st, st3, read_args(inp, st, false, composed, args).1);
}

/// A compose value that comes after another in the same call is reported.
pub proof fn compose_values_are_used_once(inp: Input, st: State, args: Seq<SequenceTree>)
    requires
        at(inp, skip(inp, st), TokenKind::ComposeValue),
    ensures
        ({
            let after = read_args(inp, st, true, None, args).1;
            &&& reported_since(st, after)
            &&& first_report(st, after) == ProblemView::ComposeValueReused
            &&& first_place(st, after) == inp.lexemes[skip(inp, st).pos as int].span
        }),
{
    unfold_args(inp, st, true, None, args);
    let st2 = step(skip(inp, st));
    let st3 = report(inp, st2, ProblemView::ComposeValueReused, span_here(inp, st2));
    let (delimiter, st4) = solid(inp, st3);
    args_grows(inp, st4, true, None, args);
    first_report_stays(st, st3, read_args(inp, st, true, None, args).1);
}

/// A callee that is a compose value needs a call before it.
pub proof fn composed_callees_need_a_call_before(inp: Input, st: State, flag: PrintFlag)
    requires
        at(inp, st, TokenKind::ComposeValue),
    ensures
        ({
            let (result, after) = read_anon_call(inp, st, flag, None);
            &&& result is Err
            &&& reported_since(st, after)
            &&& first_place(st, after) == inp.lexemes[st.pos as int].span
            &&& first_report(st, after) == ProblemView::NothingToCompose
        }),
{
    unfold_anon_call(inp, st, flag, None);
}

/// A compose value among the arguments of a call whose callee is one already is reported as used
/// again.
pub proof fn composed_callees_use_the_compose_value(
    inp: Input,
    st: State,
    flag: PrintFlag,
    before: RstTree,
    colon: nat,
)
    requires
        at(inp, st, TokenKind::ComposeValue),
        colon == after_ws(inp.lexemes, st.pos + 1),
        colon < inp.lexemes.len(),
        inp.lexemes[colon as int].token is Colon,
        kind_at(inp.lexemes, after_ws(inp.lexemes, colon + 1), TokenKind::ComposeValue),
    ensures
        ({
            let after = read_anon_call(inp, st, flag, Some(before)).1;
            &&& reported_since(st, after)
            &&& first_report(st, after) == ProblemView::ComposeValueReused
        }),
{
    unfold_anon_call(inp, st, flag, Some(before));
    unfold_call_rest(inp, step(st), None, true);
    compose_values_are_used_once(inp, State { pos: colon + 1, ..st }, Seq::empty());
}

// Hints and sinks.

/// A hint or sink before something that takes none is reported, and so is one before something
/// that ends or separates, or at the end of the input.
pub proof fn flags_are_checked(inp: Input, st: State, mode: SequenceParseMode, d: Draft)
    requires
        d.flag != PrintFlag::Plain,
    ensures
        !unread(inp, st) ==> {
            let after = read_items(inp, st, mode, d).1;
            &&& reported_since(st, after)
            &&& first_place(st, after) == d.flag_span
            &&& first_report(st, after) == if d.flag == PrintFlag::Hint {
                ProblemView::InvalidHint
            } else {
                ProblemView::InvalidSink
            }
        },
        unread(inp, st) ==> {
            let token = inp.lexemes[st.pos as int].token;
            let (result, after) = read_item(inp, st, mode, d);
            let text = token is Fragment || token is Escape || token is StringLiteral
                || token is Bang || token is Question || token is Slash || token is Plus
                || token is Dollar || token is Equals;
            let bars = token is Hint || token is Sink || token is Compose || token is Pipe
                || token is RightBrace || token is RightParen || token is RightBracket
                || token is LeftAngle || token is RightAngle || token is Whitespace
                || token is Colon || token is Semi;
            &&& bars ==> result == Ok::<ItemRead, ParseStop>(ItemRead::Item(d)) && reported_since(
                st,
                after,
            ) && first_report(st, after) == (if d.flag == PrintFlag::Hint {
                ProblemView::InvalidHint
            } else {
                ProblemView::InvalidSink
            }) && after.pos == st.pos + 1 && first_place(st, after) == d.flag_span
            &&& text ==> reported_since(st, after) && first_report(st, after) == (if d.flag
                == PrintFlag::Hint {
                ProblemView::InvalidHintOn("fragment"@)
            } else {
                ProblemView::InvalidSinkOn("fragment"@)
            }) && first_place(st, after) == d.flag_span
            &&& token is Integer || token is Float || token is True || token is False
                || token is EmptyValue ==> reported_since(st, after) && first_place(st, after)
                == d.flag_span
        },
{
    unfold_items(inp, st, mode, d);
    unfold_item(inp, st, mode, d);
}

/// A token that ends nothing where it stands, and cannot be text, is reported.
pub proof fn stray_tokens_are_reported(inp: Input, st: State, mode: SequenceParseMode, d: Draft)
    requires
        unread(inp, st),
        d.flag == PrintFlag::Plain,
        ({
            let token = inp.lexemes[st.pos as int].token;
            ||| token is Compose && mode != SequenceParseMode::FunctionArg && mode
                != SequenceParseMode::AnonFunctionExpr
            ||| token is Pipe && mode != SequenceParseMode::BlockElementAny && mode
                != SequenceParseMode::BlockElementRhs
            ||| token is RightBrace && mode != SequenceParseMode::BlockElementAny && mode
                != SequenceParseMode::BlockElementRhs && mode != SequenceParseMode::FunctionBody
                && mode != SequenceParseMode::DynamicKey
            ||| token is RightParen && mode != SequenceParseMode::CollectionInit
            ||| token is RightBracket && mode != SequenceParseMode::FunctionArg && mode
                != SequenceParseMode::AnonFunctionExpr
            ||| token is RightAngle && mode != SequenceParseMode::VariableAssignment && mode
                != SequenceParseMode::AccessorFallbackValue
            ||| token is Caret
            ||| token is ComposeValue
            ||| token is Error
        }),
    ensures
        ({
            let lexeme = inp.lexemes[st.pos as int];
            let (result, after) = read_item(inp, st, mode, d);
            &&& result matches Ok(ItemRead::Item(d1)) && d1.nodes == d.nodes
            &&& reported_since(st, after)
            &&& first_place(st, after) == lexeme.span
            &&& after.pos == st.pos + 1
            &&& first_report(st, after) == if lexeme.token is Pipe && mode
                == SequenceParseMode::DynamicKey {
                ProblemView::DynamicKeyBlockMultiElement
            } else if lexeme.token is Pipe && mode == SequenceParseMode::FunctionBody {
                ProblemView::FunctionBodyBlockMultiElement
            } else {
                ProblemView::UnexpectedToken(lexeme.text@)
            }
        }),
{
    unfold_item(inp, st, mode, d);
}

/// Collections take no hints or sinks: one before a collection that is read is reported last.
pub proof fn collections_take_no_flags(inp: Input, st: State, mode: SequenceParseMode, d: Draft)
    requires
        unread(inp, st),
        d.flag != PrintFlag::Plain,
        inp.lexemes[st.pos as int].token is LeftParen || inp.lexemes[st.pos as int].token is At,
    ensures
        ({
            let (result, after) = read_item(inp, st, mode, d);
            result is Ok ==> reported_since(st, after) && ({
                let last = after.reports.last().info;
                ||| d.flag == PrintFlag::Hint && last is InvalidHintOn
                ||| d.flag == PrintFlag::Sink && last is InvalidSinkOn
            })
        }),
{
    let lexeme = inp.lexemes[st.pos as int];
    unfold_item(inp, st, mode, d);
    unfold_opened(inp, step(st), d, lexeme);
    if lexeme.token is LeftParen {
        list_grows(inp, step(st), lexeme.span);
    } else {
        map_grows(inp, solid(inp, step(st)).1, lexeme.span, Seq::empty());
    }
}

/// A string literal that does not end stops reading, and is reported.
pub proof fn open_strings_stop_reading(inp: Input, st: State, mode: SequenceParseMode, d: Draft)
    requires
        unread(inp, st),
        inp.lexemes[st.pos as int].token is UnterminatedStringLiteral,
    ensures
        ({
            let (result, after) = read_items(inp, st, mode, d);
            &&& result == Err::<SequenceRead, ParseStop>(ParseStop::SyntaxError)
            &&& reported_since(st, after)
            &&& first_report(st, after) == ProblemView::UnclosedStringLiteral
        }),
{
    unfold_items(inp, st, mode, d);
    unfold_item(inp, st, mode, d);
}

/// An assignment to nothing but an anonymous value is reported.
pub proof fn anonymous_values_are_not_assigned(
    inp: Input,
    st: State,
    path: PathTree,
    start: Range<usize>,
)
    requires
        path.parts.len() == 1,
        path.parts[0] is AnonymousValue,
        at(inp, skip(inp, st), TokenKind::Equals),
    ensures
        ({
            let (result, after) = read_access(inp, st, path, start);
            result is Ok ==> reported_since(st, after)
                && after.reports.last().info == ProblemView::AnonValueAssignment
        }),
{
    unfold_access(inp, st, path, start);
    let st1 = skip(inp, step(skip(inp, st)));
    sequence_grows(inp, st1, SequenceParseMode::VariableAssignment);
}

/// A key of a map that no equals sign follows stops reading, and is reported.
pub proof fn keys_need_an_equals_sign(
    inp: Input,
    st: State,
    start: Range<usize>,
    pairs: Seq<(KeyTree, SequenceTree)>,
)
    requires
        read_map_key(inp, st, start).0 matches Ok(Some(_)),
        !at(inp, skip(inp, past(st, read_map_key(inp, st, start).1)), TokenKind::Equals),
    ensures
        ({
            let (result, after) = read_map(inp, st, start, pairs);
            &&& result == Err::<RstTree, ParseStop>(ParseStop::SyntaxError)
            &&& after.reports.len() > 0
            &&& after.reports.last().info == ProblemView::ExpectedToken("="@)
        }),
{
    unfold_map(inp, st, start, pairs);
}

/// A parameter that is missing before the closing bracket of a signature is reported.
pub proof fn missing_parameters_are_reported(
    inp: Input,
    st: State,
    start: Range<usize>,
    params: Seq<ParameterTree>,
    place: nat,
)
    requires
        place == after_ws(inp.lexemes, st.pos),
        place < inp.lexemes.len(),
        !(inp.lexemes[place as int].token is Fragment),
    ensures
        ({
            let after = read_param_list(inp, st, start, params).1;
            &&& reported_since(st, after)
            &&& first_place(st, after) == inp.lexemes[place as int].span
            &&& first_report(st, after) == if inp.lexemes[place as int].token is RightBracket {
                ProblemView::MissingIdentifier
            } else {
                ProblemView::InvalidIdentifier(inp.lexemes[place as int].text@)
            }
        }),
{
    unfold_param_list(inp, st, start, params);
    let lexeme = inp.lexemes[place as int];
    let (_, st1) = solid(inp, st);
    if !(lexeme.token is RightBracket) {
        let st2 = report(inp, st1, ProblemView::InvalidIdentifier(lexeme.text@), lexeme.span);
        param_list_grows(inp, st2, start, params);
        first_report_stays(st, st2, read_param_list(inp, st, start, params).1);
    }
}

/// Each problem of a parameter is reported: that it is no identifier, that another has its name,
/// and that it cannot come after those before it.
pub proof fn parameters_are_checked(
    inp: Input,
    st: State,
    params: Seq<ParameterTree>,
    lexeme: Lexeme,
)
    ensures
        ({
            let (param, after) = read_param(inp, st, params, lexeme);
            let bad = !valid_ident(lexeme.text@);
            let taken = has_param(params, lexeme.text@);
            let again = any_variadic(params) && param.varity.spec_is_variadic();
            let misplaced = !again && params.len() > 0 && !Varity::valid_order(
                params.last().varity,
                param.varity,
            );
            let count = |b: bool| if b { 1int } else { 0 };
            &&& param.name == lexeme.text@
            &&& after.reports.len() == st.reports.len() + count(bad) + count(taken) + count(
                again || misplaced,
            )
            &&& bad ==> first_report(st, after) == ProblemView::InvalidIdentifier(lexeme.text@)
                && first_place(st, after) == lexeme.span
            &&& !bad && taken ==> first_report(st, after) == ProblemView::DuplicateParameter(
                lexeme.text@,
            ) && first_place(st, after) == lexeme.span
            &&& again ==> after.reports.last().info == ProblemView::MultipleVariadicParams
            &&& misplaced ==> after.reports.last().info == ProblemView::InvalidParamOrder(
                params.last().varity.label(),
                param.varity.label(),
            )
        }),
{
}

/// A block, list or dynamic key that the input ends within stops reading, and is reported as not
/// closed: a block from where it starts to the end of the source, a list from where it starts on.
pub proof fn open_ends_are_reported(
    inp: Input,
    st: State,
    from: usize,
    start: Range<usize>,
    sequences: Seq<SequenceTree>,
    printing: bool,
)
    ensures
        read_block_element(inp, st).0 matches Ok(read) && read.end == SequenceEndType::ProgramEnd
            ==> ({
            let (result, after) = read_block_elements(inp, st, from, sequences, printing);
            &&& result is Err
            &&& after.reports.last().info == ProblemView::UnclosedBlock
            &&& after.reports.last().pos->Some_0.span == (from..inp.source.len() as usize)
        }),
        read_sequence(inp, skip(inp, st), SequenceParseMode::CollectionInit).0 matches Ok(read)
            && read.end == SequenceEndType::ProgramEnd ==> ({
            let (result, after) = read_list_elements(inp, st, start, sequences);
            &&& result is Err
            &&& after.reports.last().info == ProblemView::UnclosedList
            &&& after.reports.last().pos->Some_0.span.start <= start.start
        }),
        read_sequence(inp, st, SequenceParseMode::DynamicKey).0 matches Ok(read) && read.end
            == SequenceEndType::ProgramEnd ==> ({
            let (result, after) = read_dynamic_key(inp, st, false);
            &&& result is Err
            &&& after.reports.last().info == ProblemView::UnclosedBlock
        }),
{
    unfold_block_elements(inp, st, from, sequences, printing);
    unfold_list_elements(inp, st, start, sequences);
    unfold_dynamic_key(inp, st, false);
}

// Positions.

/// Lines and columns are counted from 1. Each line break starts another line, and anything else is
/// one column further.
pub proof fn positions_are_counted(source: Seq<u8>, index: nat)
    ensures
        line_of(source, 0) == 1,
        col_of(source, 0) == 1,
        line_of(source, index + 1) == line_of(source, index) + if source[index as int] == 10u8 {
            1int
        } else {
            0
        },
        col_of(source, index + 1) == if source[index as int] == 10u8 {
            1
        } else {
            col_of(source, index) + 1
        },
{
}

/// A report is one more message, an error, which is about the given part of the source and says on
/// which line and in which column it starts.
pub proof fn reports_say_what_and_where(
    inp: Input,
    st: State,
    problem: ProblemView,
    span: Range<usize>,
)
    ensures
        ({
            let after = report(inp, st, problem, span);
            let message = after.reports.last();
            &&& after.reports.len() == st.reports.len() + 1
            &&& after.reports.drop_last() == st.reports
            &&& message.info == problem
            &&& message.severity == Severity::Error
            &&& message.pos matches Some(pos) && pos.span == span && pos.line == line_of(
                inp.source,
                span.start as nat,
            ) as usize && pos.col == col_of(inp.source, span.start as nat) as usize
            &&& after.pos == st.pos && after.scopes == st.scopes && after.captures == st.captures
        }),
{
    let after = report(inp, st, problem, span);
    assert(after.reports.drop_last() =~= st.reports);
}

} // verus!
