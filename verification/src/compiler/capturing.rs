//! A function body captures none of its parameters.

use std::ops::Range;
use vstd::prelude::*;
use crate::compiler::grammar::{
    after_key, ahead, at, blank, capture, capture_path, covering, enter_scope, leave_scope, left,
    name_part, param_names, past, read_access, read_accessor, read_accessors, read_anon_call,
    read_args, read_block, read_block_element, read_block_elements, read_call, read_call_rest,
    read_callee_args, read_calls, read_definition, read_dynamic_key, read_func_access,
    read_func_body, read_ident, read_item, read_items, read_list, read_list_elements, read_map,
    read_map_key, read_named_call, read_opened, read_param, read_param_list, read_params, read_path,
    read_path_kind, read_path_rest, read_sequence, report, sequence_of, skip, solid, span_here,
    step, unflagged, unread, with_composed, Draft, Input, ItemRead, SequenceEndType,
    SequenceParseMode, State,
};
use crate::compiler::lang::{
    AccessPathKind, ComponentTree, KeyTree, ParameterTree, PathTree, PrintFlag, RstTree,
    SequenceTree,
};
use crate::compiler::lexer::{Lexeme, RantToken};
use crate::compiler::message::ProblemView;
use crate::compiler::positions::{lemma_read_accessor, lemma_read_anon_call, lemma_read_func_access};
use crate::compiler::production::functions::lemma_read_named_call;
use crate::compiler::production::items::lemma_read_opened;
use crate::compiler::production::sequences::lemma_read_block_element;
use crate::compiler::reader::{lemma_after_ws, TokenKind};
use crate::compiler::scopes::layer_below;
use crate::laws::height_is_highest;

verus! {

broadcast use lemma_after_ws;

/// What a function body being read is to keep: the number of scopes around it, its place among the
/// function bodies being read, and names that are defined in its own scope.
pub struct Ward {
    pub height: nat,
    pub frame: int,
    pub names: Set<Seq<char>>,
}

/// The names are defined in the body's own scope, and the body captures none of them.
#[verifier::opaque]
pub open spec fn guards(
    w: Ward,
    scopes: Seq<Set<Seq<char>>>,
    captures: Seq<(nat, Set<Seq<char>>)>,
) -> bool {
    &&& w.height < scopes.len()
    &&& 0 <= w.frame < captures.len()
    &&& captures[w.frame].0 == w.height
    &&& forall|name: Seq<char>| #[trigger]
        w.names.contains(name) ==> {
            &&& scopes[w.height as int].contains(name)
            &&& !captures[w.frame].1.contains(name)
        }
}

/// From `a` to `b`, reading leaves every scope and function body that it enters, and keeps what is
/// to be kept.
pub open spec fn kept(w: Ward, a: State, b: State) -> bool {
    a.scopes.len() > 0 ==> {
        &&& b.scopes.len() == a.scopes.len()
        &&& b.captures.len() == a.captures.len()
        &&& guards(w, a.scopes, a.captures) ==> guards(w, b.scopes, b.captures)
    }
}

/// Defining variables and capturing others keeps it.
proof fn capture_keeps(w: Ward, st: State, node: RstTree)
    ensures
        kept(w, st, capture(st, node)),
{
    reveal(guards);
    match node {
        RstTree::VarDef(id, kind, _) => {
            let depth = match kind {
                AccessPathKind::Descope(n) => n as nat,
                _ => 0,
            };
            if st.scopes.len() > 0 {
                assert(0 <= layer_below(st.scopes.len(), depth) < st.scopes.len());
            }
        },
        RstTree::VarGet(path, _) => capture_path_keeps(w, st, path),
        RstTree::VarSet(path, _) => capture_path_keeps(w, st, path),
        RstTree::FuncCall { id, .. } => capture_path_keeps(w, st, id),
        _ => {},
    }
}

proof fn capture_path_keeps(w: Ward, st: State, path: PathTree)
    ensures
        kept(w, st, capture_path(st, path)),
{
    reveal(guards);
    if let Some(id) = path.variable() {
        if guards(w, st.scopes, st.captures) && w.names.contains(id) {
            height_is_highest(st.scopes, id, w.height as int);
        }
    }
}

/// Entering a scope, and leaving it after reading inside it, keeps it.
proof fn scope_keeps(w: Ward, st: State, names: Set<Seq<char>>, inner: State)
    requires
        kept(w, enter_scope(st, names), inner),
    ensures
        kept(w, st, leave_scope(inner)),
        inner.scopes.len() == st.scopes.len() + 1,
        inner.captures.len() == st.captures.len(),
{
    reveal(guards);
    assert(enter_scope(st, names).scopes.len() > 0);
}

/// Parameters are read without touching scopes and captures.
proof fn params_keep(inp: Input, st: State, start: Range<usize>)
    ensures
        read_params(inp, st, start).1.scopes == st.scopes,
        read_params(inp, st, start).1.captures == st.captures,
{
    let (lexeme, st1) = solid(inp, st);
    if lexeme matches Some(lexeme) && lexeme.token is Colon {
        param_list_keeps(inp, st1, start, Seq::empty());
    }
}

proof fn param_list_keeps(inp: Input, st: State, start: Range<usize>, params: Seq<ParameterTree>)
    ensures
        read_param_list(inp, st, start, params).1.scopes == st.scopes,
        read_param_list(inp, st, start, params).1.captures == st.captures,
    decreases left(inp, st),
{
    reveal(read_param_list);
    let (lexeme, st1) = solid(inp, st);
    if let Some(lexeme) = lexeme {
        match lexeme.token {
            RantToken::Fragment => {
                let (param, st2) = read_param(inp, st1, params, lexeme);
                let (delimiter, st3) = solid(inp, st2);
                if delimiter matches Some(delimiter) && delimiter.token is Semi {
                    param_list_keeps(inp, st3, start, params.push(param));
                }
            },
            RantToken::RightBracket => {},
            _ => param_list_keeps(
                inp,
                report(inp, st1, ProblemView::InvalidIdentifier(lexeme.text@), lexeme.span),
                start,
                params,
            ),
        }
    }
}

proof fn sequence_keeps(
    w: Ward,
    inp: Input,
    st: State,
    mode: SequenceParseMode,
)
    ensures
        kept(w, st, read_sequence(inp, st, mode).1),
    decreases left(inp, st), 2nat,
{
    reveal(read_sequence);
    reveal(read_items);
    let inner = enter_scope(st, Set::empty());
    items_keeps(w, inp, inner, mode, blank());
    scope_keeps(w, st, Set::empty(), read_items(inp, inner, mode, blank()).1);
}

proof fn items_keeps(
    w: Ward,
    inp: Input,
    st: State,
    mode: SequenceParseMode,
    d: Draft,
)
    ensures
        kept(w, st, read_items(inp, st, mode, d).1),
    decreases left(inp, st), 1nat,
{
    reveal(read_items);
    reveal(read_item);
    if st.pos < inp.lexemes.len() {
        item_keeps(w, inp, st, mode, d);
        let (result, st1) = read_item(inp, st, mode, d);
        match result {
            Ok(ItemRead::Flagged(d1)) => items_keeps(w, inp, past(st, st1), mode, d1),
            Ok(ItemRead::Item(d1)) => items_keeps(w, inp, past(st, st1), mode, unflagged(d1)),
            _ => {},
        }
    }
}

proof fn item_keeps(
    w: Ward,
    inp: Input,
    st: State,
    mode: SequenceParseMode,
    d: Draft,
)
    ensures
        kept(w, st, read_item(inp, st, mode, d).1),
    decreases left(inp, st), 0nat,
{
    reveal(read_item);
    reveal(read_opened);
    if st.pos < inp.lexemes.len() {
        opened_keeps(w, inp, step(st), d, inp.lexemes[st.pos as int]);
    }
}

proof fn opened_keeps(
    w: Ward,
    inp: Input,
    st: State,
    d: Draft,
    lexeme: Lexeme,
)
    ensures
        kept(w, st, read_opened(inp, st, d, lexeme).1),
    decreases left(inp, st), 10nat,
{
    lemma_read_opened(inp, st, d, lexeme);
    match lexeme.token {
        RantToken::Star => block_keeps(w, inp, skip(inp, st), true, d.flag),
        RantToken::LeftBrace => block_keeps(w, inp, st, false, d.flag),
        RantToken::At => map_keeps(w, inp, solid(inp, st).1, lexeme.span, Seq::empty()),
        RantToken::LeftParen => list_keeps(w, inp, st, lexeme.span),
        RantToken::LeftBracket => func_access_keeps(w, inp, st, d.flag),
        RantToken::LeftAngle => accessors_keeps(w, inp, st, Seq::empty()),
        _ => {},
    }
}

proof fn block_keeps(
    w: Ward,
    inp: Input,
    st: State,
    expect_opening_brace: bool,
    flag: PrintFlag,
)
    ensures
        kept(w, st, read_block(inp, st, expect_opening_brace, flag).1),
    decreases left(inp, st), 4nat,
{
    reveal(read_block);
    reveal(read_block_elements);
    let st1 = if expect_opening_brace {
        step(st)
    } else {
        st
    };
    if !expect_opening_brace || at(inp, st, TokenKind::LeftBrace) {
        block_elements_keeps(w, inp, st1, span_here(inp, st1).start, Seq::empty(), false);
    }
}

proof fn block_element_keeps(
    w: Ward,
    inp: Input,
    st: State,
)
    ensures
        kept(w, st, read_block_element(inp, st).1),
    decreases left(inp, st), 2nat,
{
    lemma_read_block_element(inp, st);
    let st0 = enter_scope(st, Set::empty());
    items_keeps(w, inp, st0, SequenceParseMode::BlockElementAny, blank());
    let (result, st1) = read_items(inp, st0, SequenceParseMode::BlockElementAny, blank());
    scope_keeps(w, st, Set::empty(), st1);
    if let Ok(key) = result {
        if key.end == SequenceEndType::BlockAssocDelim && unread(inp, st) {
            let st2 = past(st0, st1);
            let d = after_key(inp, st1, key);
            items_keeps(w, inp, st2, SequenceParseMode::BlockElementRhs, d);
            let st3 = read_items(inp, st2, SequenceParseMode::BlockElementRhs, d).1;
            scope_keeps(w, st, Set::empty(), st3);
        }
    }
}

proof fn block_elements_keeps(
    w: Ward,
    inp: Input,
    st: State,
    start: usize,
    elements: Seq<SequenceTree>,
    printing: bool,
)
    ensures
        kept(w, st, read_block_elements(inp, st, start, elements, printing).1),
    decreases left(inp, st), 3nat,
{
    reveal(read_block_elements);
    reveal(read_block_element);
    block_element_keeps(w, inp, st);
    let (result, st1) = read_block_element(inp, st);
    if let Ok(read) = result {
        if read.end == SequenceEndType::BlockDelim && unread(inp, st) {
            block_elements_keeps(
                w,
                inp,
                past(st, st1),
                start,
                elements.push(read.tree),
                printing || read.printing,
            );
        }
    }
}

proof fn list_keeps(
    w: Ward,
    inp: Input,
    st: State,
    start: Range<usize>,
)
    ensures
        kept(w, st, read_list(inp, st, start).1),
    decreases left(inp, st), 4nat,
{
    reveal(read_list);
    reveal(read_list_elements);
    let st1 = skip(inp, st);
    if !at(inp, st1, TokenKind::RightParen) {
        list_elements_keeps(w, inp, st1, start, Seq::empty());
    }
}

proof fn list_elements_keeps(
    w: Ward,
    inp: Input,
    st: State,
    start: Range<usize>,
    elements: Seq<SequenceTree>,
)
    ensures
        kept(w, st, read_list_elements(inp, st, start, elements).1),
    decreases left(inp, st), 3nat,
{
    reveal(read_list_elements);
    reveal(read_sequence);
    let st0 = skip(inp, st);
    sequence_keeps(w, inp, st0, SequenceParseMode::CollectionInit);
    let (result, st1) = read_sequence(inp, st0, SequenceParseMode::CollectionInit);
    if let Ok(read) = result {
        if read.end == SequenceEndType::CollectionInitDelim && unread(inp, st) {
            list_elements_keeps(w, inp, past(st, st1), start, elements.push(read.tree));
        }
    }
}

proof fn map_keeps(
    w: Ward,
    inp: Input,
    st: State,
    start: Range<usize>,
    pairs: Seq<(KeyTree, SequenceTree)>,
)
    ensures
        kept(w, st, read_map(inp, st, start, pairs).1),
    decreases left(inp, st), 5nat,
{
    reveal(read_map);
    reveal(read_map_key);
    reveal(read_sequence);
    map_key_keeps(w, inp, st, start);
    let (key, st1) = read_map_key(inp, st, start);
    if let Ok(Some(key)) = key {
        let st2 = skip(inp, past(st, st1));
        if at(inp, st2, TokenKind::Equals) {
            let st3 = skip(inp, step(st2));
            sequence_keeps(w, inp, st3, SequenceParseMode::CollectionInit);
            let (result, st4) = read_sequence(inp, st3, SequenceParseMode::CollectionInit);
            if let Ok(read) = result {
                if read.end == SequenceEndType::CollectionInitDelim {
                    map_keeps(w, inp, ahead(st3, st4), start, pairs.push((key, read.tree)));
                }
            }
        }
    }
}

proof fn map_key_keeps(
    w: Ward,
    inp: Input,
    st: State,
    start: Range<usize>,
)
    ensures
        kept(w, st, read_map_key(inp, st, start).1),
    decreases left(inp, st), 4nat,
{
    reveal(read_map_key);
    reveal(read_dynamic_key);
    let (lexeme, st1) = solid(inp, st);
    if lexeme matches Some(lexeme) && lexeme.token is LeftBrace {
        dynamic_key_keeps(w, inp, st1, false);
    }
}

proof fn dynamic_key_keeps(
    w: Ward,
    inp: Input,
    st: State,
    expect_opening_brace: bool,
)
    ensures
        kept(w, st, read_dynamic_key(inp, st, expect_opening_brace).1),
    decreases left(inp, st), 3nat,
{
    reveal(read_dynamic_key);
    reveal(read_sequence);
    let st1 = if expect_opening_brace {
        step(st)
    } else {
        st
    };
    if !expect_opening_brace || at(inp, st, TokenKind::LeftBrace) {
        sequence_keeps(w, inp, st1, SequenceParseMode::DynamicKey);
    }
}

proof fn path_keeps(
    w: Ward,
    inp: Input,
    st: State,
    allow_anonymous: bool,
)
    ensures
        kept(w, st, read_path(inp, st, allow_anonymous).1),
    decreases left(inp, st), 5nat,
{
    reveal(read_path);
    reveal(read_sequence);
    reveal(read_dynamic_key);
    reveal(read_path_rest);
    let st1 = skip(inp, st);
    if allow_anonymous && at(inp, st1, TokenKind::Bang) {
        let st2 = skip(inp, step(st1));
        sequence_keeps(w, inp, st2, SequenceParseMode::SingleItem);
        let (result, st3) = read_sequence(inp, st2, SequenceParseMode::SingleItem);
        if let Ok(read) = result {
            let part = ComponentTree::AnonymousValue(read.tree);
            path_rest_keeps(w, inp, ahead(st2, st3), seq![part], AccessPathKind::Local);
        }
    } else {
        let (kind, st2) = read_path_kind(inp, st1);
        let (first, st3) = solid(inp, st2);
        if let Some(lexeme) = first {
            match lexeme.token {
                RantToken::LeftBrace => {
                    dynamic_key_keeps(w, inp, st3, false);
                    let (result, st4) = read_dynamic_key(inp, st3, false);
                    if let Ok(key) = result {
                        let part = ComponentTree::DynamicKey(key);
                        path_rest_keeps(w, inp, ahead(st3, st4), seq![part], kind);
                    }
                },
                RantToken::Integer(_) => path_rest_keeps(
                    w,
                    inp,
                    report(inp, st3, ProblemView::LocalPathStartsWithIndex, lexeme.span),
                    Seq::empty(),
                    kind,
                ),
                _ => {
                    let (parts, st4) = name_part(inp, st3, Seq::empty(), lexeme);
                    path_rest_keeps(w, inp, st4, parts, kind);
                },
            }
        }
    }
}

proof fn path_rest_keeps(
    w: Ward,
    inp: Input,
    st: State,
    parts: Seq<ComponentTree>,
    kind: AccessPathKind,
)
    ensures
        kept(w, st, read_path_rest(inp, st, parts, kind).1),
    decreases left(inp, st), 4nat,
{
    reveal(read_path_rest);
    reveal(read_dynamic_key);
    let st1 = skip(inp, st);
    if at(inp, st1, TokenKind::Slash) {
        let (component, st2) = solid(inp, step(st1));
        if let Some(lexeme) = component {
            match lexeme.token {
                RantToken::Integer(index) => path_rest_keeps(
                    w,
                    inp,
                    st2,
                    parts.push(ComponentTree::Index(index)),
                    kind,
                ),
                RantToken::LeftBrace => {
                    dynamic_key_keeps(w, inp, st2, false);
                    let (result, st3) = read_dynamic_key(inp, st2, false);
                    if let Ok(key) = result {
                        let part = ComponentTree::DynamicKey(key);
                        path_rest_keeps(w, inp, ahead(st2, st3), parts.push(part), kind);
                    }
                },
                _ => {
                    let (parts1, st3) = name_part(inp, st2, parts, lexeme);
                    path_rest_keeps(w, inp, st3, parts1, kind);
                },
            }
        }
    }
}

proof fn func_body_keeps(
    w: Ward,
    inp: Input,
    st: State,
    params: Seq<ParameterTree>,
)
    ensures
        kept(w, st, read_func_body(inp, st, params).1),
    decreases left(inp, st), 3nat,
{
    reveal(read_func_body);
    reveal(read_items);
    if at(inp, st, TokenKind::LeftBrace) {
        let st1 = step(st);
        let outer = State {
            captures: st1.captures.push((st1.scopes.len(), Set::empty())),
            ..st1
        };
        let st2 = enter_scope(outer, param_names(params));
        items_keeps(w, inp, st2, SequenceParseMode::FunctionBody, blank());
        let st3 = read_items(inp, st2, SequenceParseMode::FunctionBody, blank()).1;
        scope_keeps(w, outer, param_names(params), st3);
        reveal(guards);
    }
}

proof fn func_access_keeps(
    w: Ward,
    inp: Input,
    st: State,
    flag: PrintFlag,
)
    ensures
        kept(w, st, read_func_access(inp, st, flag).1),
    decreases left(inp, st), 9nat,
{
    lemma_read_func_access(inp, st, flag);
    let start = span_here(inp, st);
    let st1 = skip(inp, st);
    if at(inp, st1, TokenKind::Dollar) {
        path_keeps(w, inp, step(st1), false);
        let (path, st2) = read_path(inp, step(st1), false);
        if let Ok(path) = path {
            let (params, st3) = read_params(inp, ahead(step(st1), st2), start);
            params_keep(inp, ahead(step(st1), st2), start);
            if let Ok(params) = params {
                func_body_keeps(w, inp, skip(inp, ahead(step(st1), st3)), params);
            }
        }
    } else if at(inp, st1, TokenKind::Question) {
        let (params, st2) = read_params(inp, step(st1), start);
        params_keep(inp, step(st1), start);
        if let Ok(params) = params {
            func_body_keeps(w, inp, skip(inp, ahead(step(st1), st2)), params);
        }
    } else {
        calls_keeps(w, inp, st1, flag, None);
    }
}

proof fn calls_keeps(
    w: Ward,
    inp: Input,
    st: State,
    flag: PrintFlag,
    composed: Option<RstTree>,
)
    ensures
        kept(w, st, read_calls(inp, st, flag, composed).1),
    decreases left(inp, st), 8nat,
{
    reveal(read_calls);
    reveal(read_call);
    call_keeps(w, inp, st, flag, composed);
    let (result, st1) = read_call(inp, st, flag, composed);
    if let Ok((call, finished)) = result {
        if !finished && unread(inp, st) {
            calls_keeps(w, inp, past(st, st1), flag, Some(call));
        }
    }
}

proof fn call_keeps(
    w: Ward,
    inp: Input,
    st: State,
    flag: PrintFlag,
    composed: Option<RstTree>,
)
    ensures
        kept(w, st, read_call(inp, st, flag, composed).1),
    decreases left(inp, st), 7nat,
{
    reveal(read_call);
    reveal(read_anon_call);
    reveal(read_named_call);
    let st1 = skip(inp, st);
    if at(inp, st1, TokenKind::Bang) {
        anon_call_keeps(w, inp, skip(inp, step(st1)), flag, composed);
    } else {
        named_call_keeps(w, inp, st1, flag, composed);
    }
}

proof fn anon_call_keeps(
    w: Ward,
    inp: Input,
    st: State,
    flag: PrintFlag,
    composed: Option<RstTree>,
)
    ensures
        kept(w, st, read_anon_call(inp, st, flag, composed).1),
    decreases left(inp, st), 6nat,
{
    lemma_read_anon_call(inp, st, flag, composed);
    if at(inp, st, TokenKind::ComposeValue) {
        call_rest_keeps(w, inp, step(st), None, true);
    } else {
        sequence_keeps(w, inp, st, SequenceParseMode::AnonFunctionExpr);
        let (callee, st1) = read_sequence(inp, st, SequenceParseMode::AnonFunctionExpr);
        if let Ok(callee) = callee {
            callee_args_keeps(w, inp, ahead(st, st1), callee.end, composed);
        }
    }
}

proof fn callee_args_keeps(
    w: Ward,
    inp: Input,
    st: State,
    end: SequenceEndType,
    composed: Option<RstTree>,
)
    ensures
        kept(w, st, read_callee_args(inp, st, end, composed).1),
    decreases left(inp, st), 5nat,
{
    reveal(read_callee_args);
    reveal(read_args);
    if end == SequenceEndType::AnonFunctionExprToArgs {
        args_keeps(w, inp, st, composed is Some, composed, Seq::empty());
    }
}

proof fn named_call_keeps(
    w: Ward,
    inp: Input,
    st: State,
    flag: PrintFlag,
    composed: Option<RstTree>,
)
    ensures
        kept(w, st, read_named_call(inp, st, flag, composed).1),
    decreases left(inp, st), 6nat,
{
    lemma_read_named_call(inp, st, flag, composed);
    path_keeps(w, inp, st, false);
    let (path, st1) = read_path(inp, st, false);
    if let Ok(path) = path {
        let st2 = ahead(st, st1);
        call_rest_keeps(w, inp, st2, composed, composed is Some);
        let (result, st3) = read_call_rest(inp, st2, composed, composed is Some);
        if let Ok(read) = result {
            let call = RstTree::FuncCall { id: path, args: with_composed(inp, read), flag };
            capture_keeps(w, st3, call);
        }
    }
}

proof fn call_rest_keeps(
    w: Ward,
    inp: Input,
    st: State,
    composed: Option<RstTree>,
    composing: bool,
)
    ensures
        kept(w, st, read_call_rest(inp, st, composed, composing).1),
    decreases left(inp, st), 4nat,
{
    reveal(read_call_rest);
    reveal(read_args);
    let (lexeme, st1) = solid(inp, st);
    if lexeme matches Some(lexeme) && lexeme.token is Colon {
        args_keeps(w, inp, st1, composing, composed, Seq::empty());
    }
}

proof fn args_keeps(
    w: Ward,
    inp: Input,
    st: State,
    composing: bool,
    composed: Option<RstTree>,
    args: Seq<SequenceTree>,
)
    ensures
        kept(w, st, read_args(inp, st, composing, composed, args).1),
    decreases left(inp, st), 3nat,
{
    reveal(read_args);
    reveal(read_sequence);
    let st1 = skip(inp, st);
    if at(inp, st1, TokenKind::ComposeValue) {
        let st2 = step(st1);
        if composing {
            let (args1, st3) = match composed {
                Some(node) => (args.push(sequence_of(inp, node)), st2),
                None => (
                    args,
                    report(inp, st2, ProblemView::ComposeValueReused, span_here(inp, st2)),
                ),
            };
            let (delimiter, st4) = solid(inp, st3);
            if delimiter matches Some(delimiter) && delimiter.token is Semi {
                args_keeps(w, inp, st4, composing, None, args1);
            }
        } else {
            let st3 = report(inp, st2, ProblemView::NothingToCompose, span_here(inp, st2));
            args_keeps(w, inp, st3, composing, composed, args);
        }
    } else {
        sequence_keeps(w, inp, st1, SequenceParseMode::FunctionArg);
        let (result, st2) = read_sequence(inp, st1, SequenceParseMode::FunctionArg);
        if let Ok(read) = result {
            if read.end == SequenceEndType::FunctionArgEndNext && unread(inp, st) {
                args_keeps(w, inp, past(st, st2), composing, composed, args.push(read.tree));
            }
        }
    }
}

proof fn accessors_keeps(
    w: Ward,
    inp: Input,
    st: State,
    accessors: Seq<RstTree>,
)
    ensures
        kept(w, st, read_accessors(inp, st, accessors).1),
    decreases left(inp, st), 7nat,
{
    reveal(read_accessors);
    reveal(read_accessor);
    let st1 = skip(inp, st);
    if !(accessors.len() > 0 && at(inp, st1, TokenKind::RightAngle)) {
        accessor_keeps(w, inp, st1, span_here(inp, st));
        let (result, st2) = read_accessor(inp, st1, span_here(inp, st));
        if let Ok((accessor, more)) = result {
            if more && unread(inp, st) {
                accessors_keeps(w, inp, past(st, st2), accessors.push(accessor));
            }
        }
    }
}

proof fn accessor_keeps(
    w: Ward,
    inp: Input,
    st: State,
    start: Range<usize>,
)
    ensures
        kept(w, st, read_accessor(inp, st, start).1),
    decreases left(inp, st), 6nat,
{
    lemma_read_accessor(inp, st, start);
    if at(inp, st, TokenKind::Dollar) {
        let (kind, st1) = read_path_kind(inp, skip(inp, step(st)));
        let (name, st2) = read_ident(inp, skip(inp, st1));
        if let Ok(name) = name {
            definition_keeps(w, inp, ahead(st, st2), name, kind);
        }
    } else {
        path_keeps(w, inp, st, true);
        let (path, st1) = read_path(inp, st, true);
        if let Ok(path) = path {
            access_keeps(w, inp, ahead(st, st1), path, start);
        }
    }
}

proof fn definition_keeps(
    w: Ward,
    inp: Input,
    st: State,
    name: Seq<char>,
    kind: AccessPathKind,
)
    ensures
        kept(w, st, read_definition(inp, st, name, kind).1),
    decreases left(inp, st), 5nat,
{
    reveal(read_definition);
    reveal(read_sequence);
    let (lexeme, st1) = solid(inp, st);
    capture_keeps(w, st1, RstTree::VarDef(name, kind, None));
    if lexeme matches Some(lexeme) && lexeme.token is Equals {
        let mode = SequenceParseMode::VariableAssignment;
        sequence_keeps(w, inp, skip(inp, st1), mode);
        let (value, st2) = read_sequence(inp, skip(inp, st1), mode);
        if let Ok(read) = value {
            capture_keeps(w, st2, RstTree::VarDef(name, kind, Some(read.tree)));
        }
    }
}

proof fn access_keeps(
    w: Ward,
    inp: Input,
    st: State,
    path: PathTree,
    start: Range<usize>,
)
    ensures
        kept(w, st, read_access(inp, st, path, start).1),
    decreases left(inp, st), 5nat,
{
    reveal(read_access);
    reveal(read_sequence);
    let (lexeme, st1) = solid(inp, st);
    capture_keeps(w, st1, RstTree::VarGet(path, None));
    if let Some(lexeme) = lexeme {
        if lexeme.token is Question {
            let mode = SequenceParseMode::AccessorFallbackValue;
            sequence_keeps(w, inp, skip(inp, st1), mode);
            let (value, st2) = read_sequence(inp, skip(inp, st1), mode);
            if let Ok(read) = value {
                capture_keeps(w, st2, RstTree::VarGet(path, Some(read.tree)));
            }
        } else if lexeme.token is Equals {
            let mode = SequenceParseMode::VariableAssignment;
            sequence_keeps(w, inp, skip(inp, st1), mode);
            let (value, st2) = read_sequence(inp, skip(inp, st1), mode);
            if let Ok(read) = value {
                let st3 = report(
                    inp,
                    st2,
                    ProblemView::AnonValueAssignment,
                    covering(start, span_here(inp, st2)),
                );
                capture_keeps(w, st2, RstTree::VarSet(path, read.tree));
                capture_keeps(w, st3, RstTree::VarSet(path, read.tree));
            }
        }
    }
}

/// No name that a function body captures is the name of one of its parameters.
pub proof fn parameters_are_never_captured(
    inp: Input,
    st: State,
    params: Seq<ParameterTree>,
    name: Seq<char>,
)
    ensures
        read_func_body(inp, st, params).0 matches Ok((_, captures))
            ==> captures.names.contains(name) ==> !param_names(params).contains(name),
{
    reveal(read_func_body);
    reveal(read_items);
    if at(inp, st, TokenKind::LeftBrace) {
        let st1 = step(st);
        let st2 = enter_scope(
            State { captures: st1.captures.push((st1.scopes.len(), Set::empty())), ..st1 },
            param_names(params),
        );
        let w = Ward {
            height: st.scopes.len(),
            frame: st.captures.len() as int,
            names: param_names(params),
        };
        assert(guards(w, st2.scopes, st2.captures)) by {
            reveal(guards);
        }
        items_keeps(w, inp, st2, SequenceParseMode::FunctionBody, blank());
        let st3 = read_items(inp, st2, SequenceParseMode::FunctionBody, blank()).1;
        assert(guards(w, st3.scopes, st3.captures));
        assert(w.names.contains(name) ==> !st3.captures.last().1.contains(name)) by {
            reveal(guards);
        }
    }
}

} // verus!
