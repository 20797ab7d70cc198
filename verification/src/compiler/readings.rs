//! What is read, in terms of the tokens that it is read from.

use std::ops::Range;
use vstd::prelude::*;
use crate::compiler::grammar::{
    ahead, at, blank, capture, carets, closing, enter_scope, left, name_part, past, read_accessor,
    read_anon_call, read_args, read_call, read_call_rest, read_callee_args, read_calls,
    read_dynamic_key, read_ident, read_item, read_items, read_map, read_path, read_path_kind,
    read_path_rest, read_sequence, report, sequence_of, skip, solid, span_here, step, unflagged,
    unread, with_composed, ArgsRead, Draft, Input, ItemRead, ParseStop, SequenceEndType,
    SequenceParseMode, State,
};
use crate::compiler::lang::{
    is_ident_char, parts_text, valid_ident, AccessPathKind, ComponentTree, KeyTree, PathTree,
    PrintFlag, RstTree, SequenceTree,
};
use crate::compiler::lexer::{Lexeme, RantToken};
use crate::compiler::message::ProblemView;
use crate::compiler::reader::{after_ws, kind_at, lemma_after_ws, TokenKind};
use crate::compiler::scopes::height_in;
use crate::compiler::unfolding::{
    unfold_accessor, unfold_anon_call, unfold_args, unfold_call, unfold_call_rest,
    unfold_callee_args, unfold_calls, unfold_definition, unfold_item, unfold_list, unfold_map,
    unfold_map_key, unfold_named_call, unfold_opened, unfold_path, unfold_path_rest,
};

verus! {

broadcast use lemma_after_ws;

// Compositions.

/// Whether `arg` is a call that another is composed with, as its argument or callee.
pub open spec fn stands_for(arg: SequenceTree, call: RstTree) -> bool {
    arg.name is None && arg.elements == seq![call]
}

/// Whether exactly one of the arguments is the call before.
pub open spec fn among_once(args: Seq<SequenceTree>, call: RstTree) -> bool {
    exists|i: int|
        {
            &&& 0 <= i < args.len()
            &&& stands_for(#[trigger] args[i], call)
            &&& forall|j: int| 0 <= j < args.len() && j != i ==> (#[trigger] args[j]).name is Some
        }
}

/// Whether none of the arguments is a call before.
pub open spec fn all_written(args: Seq<SequenceTree>) -> bool {
    forall|i: int| 0 <= i < args.len() ==> (#[trigger] args[i]).name is Some
}

/// Whether `call` has the call `before` as exactly one of its arguments, or as its callee.
pub open spec fn follows_call(call: RstTree, before: RstTree) -> bool {
    match call {
        RstTree::FuncCall { args, .. } => among_once(args, before),
        RstTree::AnonFuncCall { expr, args, .. } => {
            ||| among_once(args, before) && expr.name is Some
            ||| all_written(args) && stands_for(expr, before)
        },
        _ => false,
    }
}

/// Whether `call` comes of `before` by composing `count` more calls.
pub open spec fn composed_of(call: RstTree, before: RstTree, count: nat) -> bool
    decreases count,
{
    if count == 0 {
        call == before
    } else {
        exists|middle: RstTree| #[trigger]
            follows_call(call, middle) && composed_of(middle, before, (count - 1) as nat)
    }
}

/// What has been read of arguments: one is the call before, or the call before is still to go.
spec fn keeps_call(args: Seq<SequenceTree>, rest: Option<RstTree>, call: RstTree) -> bool {
    match rest {
        Some(node) => node == call && all_written(args),
        None => among_once(args, call),
    }
}

proof fn written_argument_keeps(
    args: Seq<SequenceTree>,
    rest: Option<RstTree>,
    call: RstTree,
    arg: SequenceTree,
)
    requires
        keeps_call(args, rest, call),
        arg.name is Some,
    ensures
        keeps_call(args.push(arg), rest, call),
        all_written(args) ==> all_written(args.push(arg)),
{
    if rest is None {
        let i = choose|i: int|
            {
                &&& 0 <= i < args.len()
                &&& stands_for(#[trigger] args[i], call)
                &&& forall|j: int|
                    0 <= j < args.len() && j != i ==> (#[trigger] args[j]).name is Some
            };
        assert(stands_for(args.push(arg)[i], call));
    }
}

proof fn argument_has_a_name(inp: Input, st: State)
    ensures
        read_sequence(inp, st, SequenceParseMode::FunctionArg).0 matches Ok(read) ==> read.end
            != SequenceEndType::ProgramEnd ==> read.tree.name == Some("argument"@),
{
    reveal(read_sequence);
    items_are_named(
        inp,
        enter_scope(st, Set::empty()),
        SequenceParseMode::FunctionArg,
        blank(),
        "argument"@,
    );
    reveal(read_items);
}

/// A sequence whose every end gives it the same name has that name.
proof fn items_are_named(
    inp: Input,
    st: State,
    mode: SequenceParseMode,
    d: Draft,
    name: Seq<char>,
)
    requires
        mode != SequenceParseMode::SingleItem,
        forall|token: RantToken| (#[trigger] closing(mode, token)) matches
            Some(c) ==> c.name == Some(name),
    ensures
        read_items(inp, st, mode, d).0 matches Ok(read) ==> read.end
            != SequenceEndType::ProgramEnd ==> read.tree.name == Some(name),
    decreases left(inp, st),
{
    reveal(read_items);
    reveal(read_item);
    if st.pos < inp.lexemes.len() {
        let lexeme = inp.lexemes[st.pos as int];
        let (result, st1) = read_item(inp, st, mode, d);
        match result {
            Ok(ItemRead::Flagged(d1)) => items_are_named(inp, past(st, st1), mode, d1, name),
            Ok(ItemRead::Item(d1)) => items_are_named(
                inp,
                past(st, st1),
                mode,
                unflagged(d1),
                name,
            ),
            Ok(ItemRead::Ended(read)) => {
                assert(closing(mode, lexeme.token) matches Some(c)
                    && c.name == read.tree.name);
            },
            Err(_) => {},
        }
    }
}

proof fn arguments_keep_the_call(
    inp: Input,
    st: State,
    composed: Option<RstTree>,
    args: Seq<SequenceTree>,
    call: RstTree,
)
    requires
        keeps_call(args, composed, call),
    ensures
        read_args(inp, st, true, composed, args).0 matches Ok(read) ==> keeps_call(
            read.args,
            read.composed,
            call,
        ),
    decreases left(inp, st),
{
    unfold_args(inp, st, true, composed, args);
    let st1 = skip(inp, st);
    if at(inp, st1, TokenKind::ComposeValue) {
        let st2 = step(st1);
        let (args1, st3) = match composed {
            Some(node) => (args.push(sequence_of(inp, node)), st2),
            None => (
                args,
                report(inp, st2, ProblemView::ComposeValueReused, span_here(inp, st2)),
            ),
        };
        if let Some(node) = composed {
            assert(stands_for(args1[args.len() as int], call));
        }
        assert(keeps_call(args1, None, call));
        let (delimiter, st4) = solid(inp, st3);
        if delimiter matches Some(delimiter) && delimiter.token is Semi {
            arguments_keep_the_call(inp, st4, None, args1, call);
        }
    } else {
        let (result, st2) = read_sequence(inp, st1, SequenceParseMode::FunctionArg);
        argument_has_a_name(inp, st1);
        if let Ok(read) = result {
            if read.end != SequenceEndType::ProgramEnd {
                written_argument_keeps(args, composed, call, read.tree);
            }
            if read.end == SequenceEndType::FunctionArgEndNext && unread(inp, st) {
                arguments_keep_the_call(inp, past(st, st2), composed, args.push(read.tree), call);
            }
        }
    }
}

/// Arguments after a callee that is the call before are as they are written.
proof fn arguments_are_written(inp: Input, st: State, args: Seq<SequenceTree>)
    requires
        all_written(args),
    ensures
        read_args(inp, st, true, None, args).0 matches Ok(read) ==> read.composed is None
            && all_written(read.args),
    decreases left(inp, st),
{
    unfold_args(inp, st, true, None, args);
    let st1 = skip(inp, st);
    if at(inp, st1, TokenKind::ComposeValue) {
        let st2 = step(st1);
        let st3 = report(inp, st2, ProblemView::ComposeValueReused, span_here(inp, st2));
        let (delimiter, st4) = solid(inp, st3);
        if delimiter matches Some(delimiter) && delimiter.token is Semi {
            arguments_are_written(inp, st4, args);
        }
    } else {
        let (result, st2) = read_sequence(inp, st1, SequenceParseMode::FunctionArg);
        argument_has_a_name(inp, st1);
        if let Ok(read) = result {
            if read.end == SequenceEndType::FunctionArgEndNext && unread(inp, st) {
                arguments_are_written(inp, past(st, st2), args.push(read.tree));
            }
        }
    }
}

proof fn fallback_keeps_the_call(inp: Input, read: ArgsRead, call: RstTree)
    requires
        keeps_call(read.args, read.composed, call),
    ensures
        among_once(with_composed(inp, read), call),
{
    let args = with_composed(inp, read);
    if let Some(node) = read.composed {
        assert(stands_for(args[0], call));
        assert forall|j: int| 0 <= j < args.len() && j != 0 implies (
        #[trigger] args[j]).name is Some by {
            assert(args[j] == read.args[j - 1]);
        }
    }
}

proof fn callee_has_a_name(inp: Input, st: State)
    ensures
        read_sequence(inp, st, SequenceParseMode::AnonFunctionExpr).0 matches Ok(read)
            ==> read.end != SequenceEndType::ProgramEnd ==> read.tree.name is Some,
{
    reveal(read_sequence);
    reveal(read_items);
    items_are_named(
        inp,
        enter_scope(st, Set::empty()),
        SequenceParseMode::AnonFunctionExpr,
        blank(),
        "anonymous function expression"@,
    );
}

/// A call that follows another in a composition has it as exactly one of its arguments, or as its
/// callee.
pub proof fn calls_take_the_call_before(inp: Input, st: State, flag: PrintFlag, before: RstTree)
    ensures
        read_call(inp, st, flag, Some(before)).0 matches Ok((call, _)) ==> follows_call(
            call,
            before,
        ),
{
    unfold_call(inp, st, flag, Some(before));
    let st1 = skip(inp, st);
    if at(inp, st1, TokenKind::Bang) {
        anonymous_call_takes_the_call_before(inp, skip(inp, step(st1)), flag, before);
    } else {
        unfold_named_call(inp, st1, flag, Some(before));
        let (path, st2) = read_path(inp, st1, false);
        if let Ok(path) = path {
            rest_keeps_the_call(inp, ahead(st1, st2), before);
        }
    }
}

proof fn rest_keeps_the_call(inp: Input, st: State, before: RstTree)
    ensures
        read_call_rest(inp, st, Some(before), true).0 matches Ok(read) ==> among_once(
            with_composed(inp, read),
            before,
        ),
{
    unfold_call_rest(inp, st, Some(before), true);
    assert(keeps_call(Seq::empty(), Some(before), before));
    arguments_keep_the_call(inp, solid(inp, st).1, Some(before), Seq::empty(), before);
    if let Ok(read) = read_call_rest(inp, st, Some(before), true).0 {
        fallback_keeps_the_call(inp, read, before);
    }
}

proof fn anonymous_call_takes_the_call_before(
    inp: Input,
    st: State,
    flag: PrintFlag,
    before: RstTree,
)
    ensures
        read_anon_call(inp, st, flag, Some(before)).0 matches Ok((call, _)) ==> follows_call(
            call,
            before,
        ),
{
    unfold_anon_call(inp, st, flag, Some(before));
    if at(inp, st, TokenKind::ComposeValue) {
        unfold_call_rest(inp, step(st), None, true);
        arguments_are_written(inp, solid(inp, step(st)).1, Seq::empty());
        assert(stands_for(sequence_of(inp, before), before));
    } else {
        callee_has_a_name(inp, st);
        let (callee, st1) = read_sequence(inp, st, SequenceParseMode::AnonFunctionExpr);
        if let Ok(callee) = callee {
            let st2 = ahead(st, st1);
            unfold_callee_args(inp, st2, callee.end, Some(before));
            assert(keeps_call(Seq::empty(), Some(before), before));
            arguments_keep_the_call(inp, st2, Some(before), Seq::empty(), before);
            if let Ok(read) = read_callee_args(inp, st2, callee.end, Some(before)).0 {
                fallback_keeps_the_call(inp, read, before);
            }
        }
    }
}

/// No call of a composition is lost: what is read comes of the call before by composing one more
/// call for each that was read.
pub proof fn compositions_keep_every_call(inp: Input, st: State, flag: PrintFlag, before: RstTree)
    ensures
        read_calls(inp, st, flag, Some(before)).0 matches Ok(call) ==> exists|count: nat|
            count > 0 && #[trigger] composed_of(call, before, count),
{
    reveal_with_fuel(composed_of, 2);
    assert(composed_of(before, before, 0));
    composition_goes_on(inp, st, flag, before, before, 0);
}

proof fn composition_goes_on(
    inp: Input,
    st: State,
    flag: PrintFlag,
    first: RstTree,
    before: RstTree,
    count: nat,
)
    requires
        composed_of(before, first, count),
    ensures
        read_calls(inp, st, flag, Some(before)).0 matches Ok(call) ==> exists|n: nat|
            n > count && #[trigger] composed_of(call, first, n),
    decreases left(inp, st),
{
    unfold_calls(inp, st, flag, Some(before));
    calls_take_the_call_before(inp, st, flag, before);
    let (result, st1) = read_call(inp, st, flag, Some(before));
    if let Ok((call, finished)) = result {
        assert(follows_call(call, before));
        assert(composed_of(call, first, count + 1));
        if !(finished || !unread(inp, st)) {
            composition_goes_on(inp, past(st, st1), flag, first, call, count + 1);
        }
    }
}

// Captures.

/// Whether a name is one that the innermost function body being read has from outside: the body
/// has a scope around it, and no scope inside the body holds the name.
pub open spec fn comes_from_outside(st: State, id: Seq<char>) -> bool {
    &&& st.captures.len() > 0
    &&& st.captures.last().0 > 0
    &&& forall|layer: int|
        st.captures.last().0 <= layer < st.scopes.len() ==> !(#[trigger] st.scopes[layer]).contains(
            id,
        )
}

proof fn height_from_outside(scopes: Seq<Set<Seq<char>>>, id: Seq<char>, height: nat)
    requires
        height > 0,
    ensures
        (forall|layer: int|
            height <= layer < scopes.len() ==> !(#[trigger] scopes[layer]).contains(id)) <==> (
        match height_in(scopes, id) {
            Some(h) => h < height,
            None => true,
        }),
    decreases scopes.len(),
{
    if scopes.len() > 0 {
        if scopes.last().contains(id) {
            assert(scopes[scopes.len() - 1].contains(id));
        } else {
            height_from_outside(scopes.drop_last(), id, height);
            assert forall|layer: int|
                height <= layer < scopes.len() - 1 implies #[trigger] scopes[layer]
                == scopes.drop_last()[layer] by {}
            if forall|layer: int|
                height <= layer < scopes.len() - 1 ==> !(
                #[trigger] scopes.drop_last()[layer]).contains(id) {
                assert forall|layer: int| height <= layer < scopes.len() implies !(
                #[trigger] scopes[layer]).contains(id) by {
                    if layer < scopes.len() - 1 {
                        assert(!scopes.drop_last()[layer].contains(id));
                    }
                }
            } else {
                let layer = choose|layer: int|
                    height <= layer < scopes.len() - 1 && (
                    #[trigger] scopes.drop_last()[layer]).contains(id);
                assert(scopes[layer].contains(id));
            }
        }
    }
}

/// Getters, setters and calls of a local path capture its variable, and do nothing else, if the
/// function body has the variable from outside. Otherwise they do nothing.
pub proof fn uses_capture_what_comes_from_outside(
    st: State,
    path: PathTree,
    fallback: Option<SequenceTree>,
    value: SequenceTree,
    args: Seq<SequenceTree>,
    flag: PrintFlag,
    id: Seq<char>,
)
    requires
        path.kind is Local,
        path.parts.len() > 0,
        path.parts[0] == ComponentTree::Name(id),
    ensures
        ({
            let after = if comes_from_outside(st, id) {
                State {
                    captures: st.captures.drop_last().push(
                        (st.captures.last().0, st.captures.last().1.insert(id)),
                    ),
                    ..st
                }
            } else {
                st
            };
            &&& capture(st, RstTree::VarGet(path, fallback)) == after
            &&& capture(st, RstTree::VarSet(path, value)) == after
            &&& capture(st, RstTree::FuncCall { id: path, args, flag }) == after
        }),
{
    if st.captures.len() > 0 && st.captures.last().0 > 0 {
        height_from_outside(st.scopes, id, st.captures.last().0);
    }
}

/// Paths that are not local, or start with no name, capture nothing.
pub proof fn other_uses_capture_nothing(
    st: State,
    path: PathTree,
    fallback: Option<SequenceTree>,
    value: SequenceTree,
    args: Seq<SequenceTree>,
    flag: PrintFlag,
)
    requires
        !(path.kind is Local) || path.parts.len() == 0 || !(path.parts[0] is Name),
    ensures
        capture(st, RstTree::VarGet(path, fallback)) == st,
        capture(st, RstTree::VarSet(path, value)) == st,
        capture(st, RstTree::FuncCall { id: path, args, flag }) == st,
{
}

/// A definition puts its name in the scope that it is made in, and does nothing else: the innermost
/// one or, if it is descoped, the one that many levels further out; the outermost one if there are
/// not that many. A global definition does nothing.
pub proof fn definitions_enter_their_scope(
    st: State,
    id: Seq<char>,
    depth: usize,
    value: Option<SequenceTree>,
    layer: int,
)
    requires
        0 <= layer < st.scopes.len(),
    ensures
        capture(st, RstTree::VarDef(id, AccessPathKind::ExplicitGlobal, value)) == st,
        ({
            let after = capture(st, RstTree::VarDef(id, AccessPathKind::Local, value));
            &&& after.scopes.len() == st.scopes.len()
            &&& after.scopes[layer] == if layer == st.scopes.len() - 1 {
                st.scopes[layer].insert(id)
            } else {
                st.scopes[layer]
            }
            &&& after.captures == st.captures
            &&& after.pos == st.pos
            &&& after.reports == st.reports
        }),
        ({
            let after = capture(st, RstTree::VarDef(id, AccessPathKind::Descope(depth), value));
            &&& after.scopes.len() == st.scopes.len()
            &&& after.scopes[layer] == if layer + depth == st.scopes.len() - 1 || layer == 0
                && depth >= st.scopes.len() {
                st.scopes[layer].insert(id)
            } else {
                st.scopes[layer]
            }
            &&& after.captures == st.captures
            &&& after.pos == st.pos
            &&& after.reports == st.reports
        }),
{
}

// Accessors.

/// The kind of a path or definition that is written with a slash, or else with `count` carets.
pub open spec fn written_kind(global: bool, count: nat) -> AccessPathKind {
    if global {
        AccessPathKind::ExplicitGlobal
    } else if count > 0 {
        AccessPathKind::Descope(count as usize)
    } else {
        AccessPathKind::Local
    }
}

/// Whether `count` carets, and no more, stand from `pos` on.
pub open spec fn carets_at(lexemes: Seq<Lexeme>, pos: nat, count: nat) -> bool {
    &&& pos + count <= lexemes.len()
    &&& forall|i: int| pos <= i < pos + count ==> (#[trigger] lexemes[i]).token is Caret
    &&& pos + count < lexemes.len() ==> !(lexemes[(pos + count) as int].token is Caret)
}

pub(crate) proof fn carets_are_counted(lexemes: Seq<Lexeme>, pos: nat, count: nat)
    requires
        carets_at(lexemes, pos, count),
    ensures
        carets(lexemes, pos) == count,
    decreases count,
{
    if count > 0 {
        assert(lexemes[pos as int].token is Caret);
        carets_are_counted(lexemes, pos + 1, (count - 1) as nat);
    }
}

/// A definition has the access kind that is written behind its dollar sign, and the name that comes
/// next. It has a value if and only if an equals sign follows the name.
pub proof fn definitions_are_as_written(
    inp: Input,
    st: State,
    start: Range<usize>,
    global: bool,
    count: nat,
)
    requires
        st.pos < inp.lexemes.len(),
        inp.lexemes[st.pos as int].token is Dollar,
        ({
            let modifiers = after_ws(inp.lexemes, st.pos + 1);
            if global {
                modifiers < inp.lexemes.len() && inp.lexemes[modifiers as int].token is Slash
            } else {
                carets_at(inp.lexemes, modifiers, count) && !kind_at(
                    inp.lexemes,
                    modifiers,
                    TokenKind::Slash,
                )
            }
        }),
        count <= usize::MAX,
    ensures
        read_accessor(inp, st, start).0 matches Ok((node, _)) ==> ({
            let modifiers = after_ws(inp.lexemes, st.pos + 1);
            let place = after_ws(
                inp.lexemes,
                if global {
                    modifiers + 1
                } else {
                    modifiers + count
                },
            );
            let next = after_ws(inp.lexemes, place + 1);
            &&& node is VarDef
            &&& place < inp.lexemes.len() && inp.lexemes[place as int].token is Fragment
            &&& node->VarDef_0 == inp.lexemes[place as int].text@
            &&& node->VarDef_1 == written_kind(global, count)
            &&& next < inp.lexemes.len()
            &&& node->VarDef_2 is Some <==> inp.lexemes[next as int].token is Equals
        }),
{
    unfold_accessor(inp, st, start);
    let st1 = skip(inp, step(st));
    if !global {
        carets_are_counted(inp.lexemes, st1.pos, count);
    }
    let (kind, st2) = read_path_kind(inp, st1);
    solid_after_skip(inp, st2);
    let (name, st3) = read_ident(inp, skip(inp, st2));
    if let Ok(name) = name {
        unfold_definition(inp, ahead(st, st3), name, kind);
    }
}

/// Past whitespace, there is none to skip.
proof fn solid_after_skip(inp: Input, st: State)
    ensures
        skip(inp, skip(inp, st)) == skip(inp, st),
        solid(inp, skip(inp, st)) == solid(inp, st),
{
}

/// A path has the access kind that is written before it.
pub proof fn paths_are_as_written(
    inp: Input,
    st: State,
    allow_anonymous: bool,
    global: bool,
    count: nat,
)
    requires
        ({
            let modifiers = after_ws(inp.lexemes, st.pos);
            &&& !(allow_anonymous && kind_at(inp.lexemes, modifiers, TokenKind::Bang))
            &&& if global {
                modifiers < inp.lexemes.len() && inp.lexemes[modifiers as int].token is Slash
            } else {
                carets_at(inp.lexemes, modifiers, count) && !kind_at(
                    inp.lexemes,
                    modifiers,
                    TokenKind::Slash,
                )
            }
        }),
        count <= usize::MAX,
    ensures
        read_path(inp, st, allow_anonymous).0 matches Ok(path) ==> ({
            let modifiers = after_ws(inp.lexemes, st.pos);
            let place = after_ws(
                inp.lexemes,
                if global {
                    modifiers + 1
                } else {
                    modifiers + count
                },
            );
            &&& path.kind == written_kind(global, count)
            &&& place < inp.lexemes.len()
            &&& inp.lexemes[place as int].token is Fragment
                && valid_ident(inp.lexemes[place as int].text@)
                ==> path.variable() == Some(inp.lexemes[place as int].text@)
            &&& inp.lexemes[place as int].token is LeftBrace ==> path.parts.len() > 0
                && path.parts[0] is DynamicKey
        }),
{
    unfold_path(inp, st, allow_anonymous);
    let st1 = skip(inp, st);
    if !global {
        carets_are_counted(inp.lexemes, st1.pos, count);
    }
    let (kind, st2) = read_path_kind(inp, st1);
    let (first, st3) = solid(inp, st2);
    if let Some(lexeme) = first {
        match lexeme.token {
            RantToken::LeftBrace => {
                let (result, st4) = read_dynamic_key(inp, st3, false);
                if let Ok(key) = result {
                    rest_keeps_path(
                        inp,
                        ahead(st3, st4),
                        seq![ComponentTree::DynamicKey(key)],
                        kind,
                    );
                }
            },
            RantToken::Integer(_) => rest_keeps_path(
                inp,
                report(inp, st3, ProblemView::LocalPathStartsWithIndex, lexeme.span),
                Seq::empty(),
                kind,
            ),
            _ => {
                let (parts, st4) = name_part(
                    inp,
                    st3,
                    Seq::empty(),
                    lexeme,
                );
                rest_keeps_path(inp, st4, parts, kind);
            },
        }
    }
}

proof fn rest_keeps_path(
    inp: Input,
    st: State,
    parts: Seq<ComponentTree>,
    kind: AccessPathKind,
)
    ensures
        read_path_rest(inp, st, parts, kind).0 matches Ok(path) ==> path.kind == kind
            && path.parts.len() >= parts.len() && path.parts.take(parts.len() as int) == parts && (
            parts.len() > 0 ==> path.parts[0] == parts[0]),
    decreases left(inp, st),
{
    unfold_path_rest(inp, st, parts, kind);
    assert(parts.take(parts.len() as int) =~= parts);
    let st1 = skip(inp, st);
    if at(inp, st1, TokenKind::Slash) {
        let (component, st2) = solid(inp, step(st1));
        if let Some(lexeme) = component {
            let (longer, st4) = match lexeme.token {
                RantToken::Integer(index) => (parts.push(ComponentTree::Index(index)), st2),
                RantToken::LeftBrace => {
                    let (result, st3) = read_dynamic_key(inp, st2, false);
                    match result {
                        Ok(key) => (parts.push(ComponentTree::DynamicKey(key)), ahead(st2, st3)),
                        Err(_) => (parts, st3),
                    }
                },
                _ => name_part(inp, st2, parts, lexeme),
            };
            if read_path_rest(inp, st, parts, kind).0 is Ok {
                rest_keeps_path(inp, st4, longer, kind);
                let path = read_path_rest(inp, st, parts, kind).0->Ok_0;
                assert(path.parts.take(parts.len() as int) =~= path.parts.take(
                    longer.len() as int,
                ).take(parts.len() as int));
                assert(longer.take(parts.len() as int) =~= parts);
                if parts.len() > 0 {
                    assert(longer[0] == parts[0]);
                }
            }
        }
    }
}

// Collections.

/// A closing parenthesis where a key could stand ends a map with the pairs that have been read.
pub proof fn maps_end_at_the_parenthesis(
    inp: Input,
    st: State,
    start: Range<usize>,
    pairs: Seq<(KeyTree, SequenceTree)>,
)
    requires
        after_ws(inp.lexemes, st.pos) < inp.lexemes.len(),
        inp.lexemes[after_ws(inp.lexemes, st.pos) as int].token is RightParen,
    ensures
        read_map(inp, st, start, pairs) == (
            Ok::<RstTree, ParseStop>(RstTree::MapInit(pairs)),
            State { pos: after_ws(inp.lexemes, st.pos) + 1, ..st },
        ),
{
    unfold_map(inp, st, start, pairs);
    unfold_map_key(inp, st, start);
}

/// Empty parentheses are an empty list, and with an at sign before them an empty map. Nothing is
/// reported.
pub proof fn empty_collections_are_read(
    inp: Input,
    st: State,
    mode: SequenceParseMode,
    d: Draft,
    open: nat,
    close: nat,
)
    requires
        !inp.debug,
        d.flag == PrintFlag::Plain,
        open < close < inp.lexemes.len(),
        close == after_ws(inp.lexemes, open + 1),
        inp.lexemes[open as int].token is LeftParen,
        inp.lexemes[close as int].token is RightParen,
    ensures
        st.pos == open ==> read_item(inp, st, mode, d) == (
            Ok::<ItemRead, ParseStop>(
                ItemRead::Item(
                    Draft { nodes: d.nodes.push(RstTree::ListInit(Seq::empty())), ..d },
                ),
            ),
            State { pos: close + 1, ..st },
        ),
        st.pos < open && inp.lexemes[st.pos as int].token is At && after_ws(
            inp.lexemes,
            st.pos + 1,
        ) == open ==> read_item(inp, st, mode, d) == (
            Ok::<ItemRead, ParseStop>(
                ItemRead::Item(
                    Draft { nodes: d.nodes.push(RstTree::MapInit(Seq::empty())), ..d },
                ),
            ),
            State { pos: close + 1, ..st },
        ),
{
    unfold_item(inp, st, mode, d);
    unfold_list(inp, step(st), inp.lexemes[st.pos as int].span);
    if st.pos < open {
        maps_end_at_the_parenthesis(
            inp,
            State { pos: open + 1, ..st },
            inp.lexemes[st.pos as int].span,
            Seq::empty(),
        );
    }
    unfold_opened(
        inp,
        step(st),
        d,
        inp.lexemes[st.pos as int],
    );
}

// Names.

/// Whether a character is a digit.
pub open spec fn is_digit(c: char) -> bool {
    48 <= c as int <= 57
}

/// Whether a character is a letter or digit of the Latin alphabet, an underscore or a hyphen.
pub open spec fn can_be_in_name(c: char) -> bool {
    let code = c as int;
    97 <= code <= 122 || 65 <= code <= 90 || 48 <= code <= 57 || code == 95 || code == 45
}

/// An identifier is made of letters and digits of the Latin alphabet, underscores and hyphens, and
/// is not all digits; and whatever is so made is an identifier.
pub proof fn identifiers_are_letters_digits_and_marks(name: Seq<char>)
    ensures
        valid_ident(name) <==> (forall|i: int|
            0 <= i < name.len() ==> can_be_in_name(#[trigger] name[i])) && (exists|i: int|
            0 <= i < name.len() && !is_digit(#[trigger] name[i])),
{
    assert forall|i: int| 0 <= i < name.len() implies is_ident_char(#[trigger] name[i])
        == can_be_in_name(name[i]) by {}
    if valid_ident(name) {
        let i = choose|i: int| 0 <= i < name.len() && !('0' <= #[trigger] name[i] <= '9');
        assert(!is_digit(name[i]));
    }
    if (exists|i: int| 0 <= i < name.len() && !is_digit(#[trigger] name[i])) {
        let i = choose|i: int| 0 <= i < name.len() && !is_digit(#[trigger] name[i]);
        assert(!('0' <= name[i] <= '9'));
    }
}

/// A path is written with what says where it starts before its components, and with slashes
/// between them.
pub proof fn path_texts_join_their_components(
    parts: Seq<ComponentTree>,
    kind: AccessPathKind,
    part: ComponentTree,
)
    ensures
        parts.len() > 0 ==> (PathTree { parts: parts.push(part), kind }).text() == (PathTree {
            parts,
            kind,
        }).text() + seq!['/'] + part.text(),
        (PathTree { parts: seq![part], kind }).text() == (match kind {
            AccessPathKind::Local => Seq::empty(),
            AccessPathKind::Descope(n) => Seq::new(n as nat, |i: int| '^'),
            AccessPathKind::ExplicitGlobal => seq!['/'],
        }) + part.text(),
{
    let longer = parts.push(part);
    assert(longer.drop_last() =~= parts);
    if parts.len() > 0 {
        assert((PathTree { parts: longer, kind }).text() =~= (PathTree { parts, kind }).text()
            + seq!['/'] + part.text());
    }
    assert(parts_text(seq![part]) == part.text());
}

} // verus!
