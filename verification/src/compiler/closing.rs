//! What is opened is closed.

use std::ops::Range;
use vstd::prelude::*;
use crate::compiler::grammar::{
    ahead, at, blank, closing, enter_scope, left, param_names, past, read_accessor, read_accessors,
    read_anon_call, read_args, read_block, read_block_element, read_block_elements, read_call,
    read_call_rest, read_calls, read_dynamic_key, read_func_body, read_ident, read_item, read_items,
    read_list, read_list_elements, read_map, read_map_key, read_path, read_path_kind, read_sequence,
    report, sequence_of, skip, solid, span_here, step, unflagged, unread, Draft, Input, ItemRead,
    ParseStop, SequenceEndType, SequenceParseMode, State,
};
use crate::compiler::lang::{KeyTree, ParameterTree, PrintFlag, RstTree, SequenceTree};
use crate::compiler::lexer::RantToken;
use crate::compiler::message::ProblemView;
use crate::compiler::reader::{lemma_after_ws, TokenKind};
use crate::compiler::unfolding::{
    unfold_access, unfold_accessor, unfold_accessors, unfold_anon_call, unfold_args, unfold_block,
    unfold_block_elements, unfold_call, unfold_call_rest, unfold_callee_args, unfold_calls,
    unfold_definition, unfold_dynamic_key, unfold_func_body, unfold_item, unfold_items, unfold_list,
    unfold_list_elements, unfold_map, unfold_map_key, unfold_named_call, unfold_sequence,
};
use crate::laws::{blocks_make_nothing_of_keys, sequences_end_as_their_mode_says};

verus! {

broadcast use lemma_after_ws;

/// The token before `st`.
pub open spec fn token_before(inp: Input, st: State) -> RantToken {
    inp.lexemes[st.pos - 1].token
}

/// Whether a token lies between the two, and the last one is before the end.
spec fn reads_on(inp: Input, st: State, after: State) -> bool {
    st.pos < after.pos <= inp.lexemes.len()
}

proof fn items_end_at_a_token(inp: Input, st: State, mode: SequenceParseMode, d: Draft)
    requires
        mode != SequenceParseMode::SingleItem,
    ensures
        ({
            let (result, after) = read_items(inp, st, mode, d);
            result matches Ok(read) ==> read.end != SequenceEndType::ProgramEnd ==> reads_on(
                inp,
                st,
                after,
            ) && (closing(mode, token_before(inp, after)) matches Some(c) && c.end == read.end)
        }),
    decreases left(inp, st),
{
    unfold_items(inp, st, mode, d);
    if st.pos < inp.lexemes.len() {
        unfold_item(inp, st, mode, d);
        let (result, st1) = read_item(inp, st, mode, d);
        match result {
            Ok(ItemRead::Flagged(d1)) => items_end_at_a_token(inp, past(st, st1), mode, d1),
            Ok(ItemRead::Item(d1)) => items_end_at_a_token(
                inp,
                past(st, st1),
                mode,
                unflagged(d1),
            ),
            _ => {},
        }
    }
}

proof fn sequence_ends_at_a_token(inp: Input, st: State, mode: SequenceParseMode)
    requires
        mode != SequenceParseMode::SingleItem,
    ensures
        ({
            let (result, after) = read_sequence(inp, st, mode);
            result matches Ok(read) ==> read.end != SequenceEndType::ProgramEnd ==> reads_on(
                inp,
                st,
                after,
            ) && (closing(mode, token_before(inp, after)) matches Some(c) && c.end == read.end)
        }),
{
    unfold_sequence(inp, st, mode);
    items_end_at_a_token(inp, enter_scope(st, Set::empty()), mode, blank());
}

/// A block that is read ends with a closing brace.
pub proof fn blocks_are_closed(inp: Input, st: State, expect_opening_brace: bool, flag: PrintFlag)
    ensures
        ({
            let (result, after) = read_block(inp, st, expect_opening_brace, flag);
            result is Ok ==> st.pos < after.pos <= inp.lexemes.len() && token_before(
                inp,
                after,
            ) is RightBrace
        }),
{
    unfold_block(inp, st, expect_opening_brace, flag);
    let st1 = if expect_opening_brace {
        step(st)
    } else {
        st
    };
    block_elements_are_closed(inp, st1, span_here(inp, st1).start, Seq::empty(), false);
}

proof fn block_elements_are_closed(
    inp: Input,
    st: State,
    start: usize,
    elements: Seq<SequenceTree>,
    printing: bool,
)
    ensures
        ({
            let (result, after) = read_block_elements(inp, st, start, elements, printing);
            result is Ok ==> reads_on(inp, st, after) && token_before(inp, after) is RightBrace
        }),
    decreases left(inp, st),
{
    unfold_block_elements(inp, st, start, elements, printing);
    blocks_make_nothing_of_keys(inp, st);
    sequence_ends_at_a_token(inp, st, SequenceParseMode::BlockElementRhs);
    let (result, st1) = read_block_element(inp, st);
    if let Ok(read) = result {
        if read.end == SequenceEndType::BlockDelim && unread(inp, st) {
            block_elements_are_closed(
                inp,
                past(st, st1),
                start,
                elements.push(read.tree),
                printing || read.printing,
            );
        }
    }
}

/// A list that is read ends with a closing parenthesis.
pub proof fn lists_are_closed(inp: Input, st: State, start: Range<usize>)
    ensures
        ({
            let (result, after) = read_list(inp, st, start);
            result is Ok ==> st.pos < after.pos <= inp.lexemes.len() && token_before(
                inp,
                after,
            ) is RightParen
        }),
{
    unfold_list(inp, st, start);
    list_elements_are_closed(inp, skip(inp, st), start, Seq::empty());
}

proof fn list_elements_are_closed(
    inp: Input,
    st: State,
    start: Range<usize>,
    elements: Seq<SequenceTree>,
)
    ensures
        ({
            let (result, after) = read_list_elements(inp, st, start, elements);
            result is Ok ==> reads_on(inp, st, after) && token_before(inp, after) is RightParen
        }),
    decreases left(inp, st),
{
    unfold_list_elements(inp, st, start, elements);
    let st0 = skip(inp, st);
    sequence_ends_at_a_token(inp, st0, SequenceParseMode::CollectionInit);
    let (result, st1) = read_sequence(inp, st0, SequenceParseMode::CollectionInit);
    if let Ok(read) = result {
        if read.end == SequenceEndType::CollectionInitDelim && unread(inp, st) {
            list_elements_are_closed(inp, past(st, st1), start, elements.push(read.tree));
        }
    }
}

/// A map that is read ends with a closing parenthesis.
#[verifier::rlimit(40)]
pub proof fn maps_are_closed(
    inp: Input,
    st: State,
    start: Range<usize>,
    pairs: Seq<(KeyTree, SequenceTree)>,
)
    ensures
        ({
            let (result, after) = read_map(inp, st, start, pairs);
            result is Ok ==> st.pos < after.pos <= inp.lexemes.len() && token_before(
                inp,
                after,
            ) is RightParen
        }),
    decreases left(inp, st),
{
    unfold_map(inp, st, start, pairs);
    unfold_map_key(inp, st, start);
    let (key, st1) = read_map_key(inp, st, start);
    if let Ok(Some(key)) = key {
        let st2 = skip(inp, past(st, st1));
        if at(inp, st2, TokenKind::Equals) {
            let st3 = skip(inp, step(st2));
            sequence_ends_at_a_token(inp, st3, SequenceParseMode::CollectionInit);
            let (result, st4) = read_sequence(inp, st3, SequenceParseMode::CollectionInit);
            if let Ok(read) = result {
                if read.end == SequenceEndType::CollectionInitDelim {
                    maps_are_closed(inp, ahead(st3, st4), start, pairs.push((key, read.tree)));
                }
            }
        }
    }
}

/// A dynamic key that is read ends with a closing brace.
pub proof fn dynamic_keys_are_closed(inp: Input, st: State, expect_opening_brace: bool)
    ensures
        ({
            let (result, after) = read_dynamic_key(inp, st, expect_opening_brace);
            result is Ok ==> st.pos < after.pos <= inp.lexemes.len() && token_before(
                inp,
                after,
            ) is RightBrace
        }),
{
    unfold_dynamic_key(inp, st, expect_opening_brace);
    let st1 = if expect_opening_brace {
        step(st)
    } else {
        st
    };
    sequence_ends_at_a_token(inp, st1, SequenceParseMode::DynamicKey);
}

/// A function body that is read starts with an opening brace and ends with a closing one.
pub proof fn function_bodies_are_closed(inp: Input, st: State, params: Seq<ParameterTree>)
    ensures
        ({
            let (result, after) = read_func_body(inp, st, params);
            result is Ok ==> st.pos < inp.lexemes.len() && inp.lexemes[st.pos as int].token is
                LeftBrace && st.pos < after.pos <= inp.lexemes.len() && token_before(
                inp,
                after,
            ) is RightBrace
        }),
{
    unfold_func_body(inp, st, params);
    let st1 = step(st);
    let st2 = enter_scope(
        State { captures: st1.captures.push((st1.scopes.len(), Set::empty())), ..st1 },
        param_names(params),
    );
    items_end_at_a_token(inp, st2, SequenceParseMode::FunctionBody, blank());
}

/// A list of accessors that is read ends with a closing angle bracket, and there is at least one.
pub proof fn accessors_are_closed(inp: Input, st: State, accessors: Seq<RstTree>)
    ensures
        ({
            let (result, after) = read_accessors(inp, st, accessors);
            result matches Ok(all) ==> all.len() > 0 && st.pos < after.pos <= inp.lexemes.len()
                && token_before(inp, after) is RightAngle
        }),
    decreases left(inp, st),
{
    unfold_accessors(inp, st, accessors);
    let st1 = skip(inp, st);
    accessor_ends_at_a_token(inp, st1, span_here(inp, st));
    let (result, st2) = read_accessor(inp, st1, span_here(inp, st));
    if let Ok((accessor, more)) = result {
        if more && unread(inp, st) {
            accessors_are_closed(inp, past(st, st2), accessors.push(accessor));
        }
    }
}

/// Whether an accessor that was read ends as it should: more may follow a semicolon only.
spec fn accessor_ends(
    inp: Input,
    st: State,
    outcome: (Result<(RstTree, bool), ParseStop>, State),
) -> bool {
    outcome.0 matches Ok((_, more)) ==> {
        &&& reads_on(inp, st, outcome.1)
        &&& more ==> token_before(inp, outcome.1) is Semi
        &&& !more ==> token_before(inp, outcome.1) is RightAngle
    }
}

#[verifier::spinoff_prover]
#[verifier::rlimit(40)]
proof fn accessor_ends_at_a_token(inp: Input, st: State, start: Range<usize>)
    ensures
        accessor_ends(inp, st, read_accessor(inp, st, start)),
{
    unfold_accessor(inp, st, start);
    if at(inp, st, TokenKind::Dollar) {
        let (kind, st1) = read_path_kind(inp, skip(inp, step(st)));
        let (name, st2) = read_ident(inp, skip(inp, st1));
        if let Ok(name) = name {
            let st3 = ahead(st, st2);
            unfold_definition(inp, st3, name, kind);
            sequence_ends_at_a_token(
                inp,
                skip(inp, solid(inp, st3).1),
                SequenceParseMode::VariableAssignment,
            );
        }
    } else {
        let (path, st1) = read_path(inp, st, true);
        if let Ok(path) = path {
            let st2 = ahead(st, st1);
            unfold_access(inp, st2, path, start);
            let st3 = skip(inp, solid(inp, st2).1);
            sequence_ends_at_a_token(inp, st3, SequenceParseMode::VariableAssignment);
            sequence_ends_at_a_token(inp, st3, SequenceParseMode::AccessorFallbackValue);
        }
    }
}

/// Whether a call that was read ends as it should: another may follow a composing sign only.
spec fn call_ends(inp: Input, st: State, finished: bool, after: State) -> bool {
    &&& reads_on(inp, st, after)
    &&& finished ==> token_before(inp, after) is RightBracket
    &&& !finished ==> token_before(inp, after) is Compose
}

#[verifier::spinoff_prover]
#[verifier::rlimit(40)]
proof fn args_end_at_a_token(
    inp: Input,
    st: State,
    composing: bool,
    composed: Option<RstTree>,
    args: Seq<SequenceTree>,
)
    ensures
        ({
            let (result, after) = read_args(inp, st, composing, composed, args);
            result matches Ok(read) ==> call_ends(inp, st, read.finished, after)
        }),
    decreases left(inp, st),
{
    unfold_args(inp, st, composing, composed, args);
    let st1 = skip(inp, st);
    if at(inp, st1, TokenKind::ComposeValue) {
        let st2 = step(st1);
        if composing {
            let (args1, st3) = match composed {
                Some(node) => (args.push(sequence_of(inp, node)), st2),
                None => (
                    args,
                    report(inp, st2, ProblemView::ComposeValueReused, span_here(inp, st2)),
                ),
            };
            let (delimiter, st4) = solid(inp, st3);
            if delimiter matches Some(delimiter) && delimiter.token is Semi {
                args_end_at_a_token(inp, st4, composing, None, args1);
            }
        } else {
            let st3 = report(inp, st2, ProblemView::NothingToCompose, span_here(inp, st2));
            args_end_at_a_token(inp, st3, composing, composed, args);
        }
    } else {
        sequence_ends_at_a_token(inp, st1, SequenceParseMode::FunctionArg);
        let (result, st2) = read_sequence(inp, st1, SequenceParseMode::FunctionArg);
        if let Ok(read) = result {
            if read.end == SequenceEndType::FunctionArgEndNext && unread(inp, st) {
                args_end_at_a_token(inp, past(st, st2), composing, composed, args.push(read.tree));
            }
        }
    }
}

proof fn call_rest_ends_at_a_token(
    inp: Input,
    st: State,
    composed: Option<RstTree>,
    composing: bool,
)
    ensures
        ({
            let (result, after) = read_call_rest(inp, st, composed, composing);
            result matches Ok(read) ==> call_ends(inp, st, read.finished, after)
        }),
{
    unfold_call_rest(inp, st, composed, composing);
    args_end_at_a_token(inp, solid(inp, st).1, composing, composed, Seq::empty());
}

#[verifier::spinoff_prover]
#[verifier::rlimit(40)]
proof fn call_ends_at_a_token(inp: Input, st: State, flag: PrintFlag, composed: Option<RstTree>)
    ensures
        ({
            let (result, after) = read_call(inp, st, flag, composed);
            result matches Ok((_, finished)) ==> call_ends(inp, st, finished, after)
        }),
{
    unfold_call(inp, st, flag, composed);
    let st1 = skip(inp, st);
    if at(inp, st1, TokenKind::Bang) {
        anonymous_call_ends_at_a_token(inp, skip(inp, step(st1)), flag, composed);
    } else {
        unfold_named_call(inp, st1, flag, composed);
        let (path, st2) = read_path(inp, st1, false);
        if let Ok(path) = path {
            let st3 = ahead(st1, st2);
            call_rest_ends_at_a_token(inp, st3, composed, composed is Some);
        }
    }
}

#[verifier::spinoff_prover]
#[verifier::rlimit(40)]
proof fn anonymous_call_ends_at_a_token(
    inp: Input,
    st: State,
    flag: PrintFlag,
    composed: Option<RstTree>,
)
    ensures
        ({
            let (result, after) = read_anon_call(inp, st, flag, composed);
            result matches Ok((_, finished)) ==> call_ends(inp, st, finished, after)
        }),
{
    unfold_anon_call(inp, st, flag, composed);
    if at(inp, st, TokenKind::ComposeValue) {
        call_rest_ends_at_a_token(inp, step(st), None, true);
    } else {
        sequence_ends_at_a_token(inp, st, SequenceParseMode::AnonFunctionExpr);
        sequences_end_as_their_mode_says(inp, st, SequenceParseMode::AnonFunctionExpr);
        let (callee, st1) = read_sequence(inp, st, SequenceParseMode::AnonFunctionExpr);
        if let Ok(callee) = callee {
            let st2 = ahead(st, st1);
            unfold_callee_args(inp, st2, callee.end, composed);
            args_end_at_a_token(inp, st2, composed is Some, composed, Seq::empty());
        }
    }
}

/// Calls that are read end with a closing bracket.
pub proof fn calls_are_closed(inp: Input, st: State, flag: PrintFlag, composed: Option<RstTree>)
    ensures
        ({
            let (result, after) = read_calls(inp, st, flag, composed);
            result is Ok ==> st.pos < after.pos <= inp.lexemes.len() && token_before(
                inp,
                after,
            ) is RightBracket
        }),
    decreases left(inp, st),
{
    unfold_calls(inp, st, flag, composed);
    call_ends_at_a_token(inp, st, flag, composed);
    let (result, st1) = read_call(inp, st, flag, composed);
    if let Ok((call, finished)) = result {
        if !(finished || !unread(inp, st)) {
            calls_are_closed(inp, past(st, st1), flag, Some(call));
        }
    }
}

} // verus!
