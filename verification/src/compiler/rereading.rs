//! What is written is what is read.

use std::ops::Range;
use vstd::prelude::*;
use crate::compiler::grammar::{
    after_fragments, any_variadic, blank, capture, carets, closing, enter_scope, fragment_text,
    has_param, leave_scope, left, param_names, read_access, read_accessor, read_accessors,
    read_args, read_block_elements, read_calls, read_definition, read_dynamic_key, read_func_access,
    read_func_body, read_item, read_items, read_list, read_list_elements, read_map, read_map_key,
    read_opened, read_param, read_param_list, read_params, read_path, read_path_kind,
    read_path_rest, read_sequence, sequence_of, skip, span_here, step, unflagged, unread,
    with_accessors, with_composed, ArgsRead, Draft, Input, ItemRead, ParseStop, SequenceEndType,
    SequenceParseMode, SequenceRead, State,
};
use crate::compiler::lang::{
    valid_ident, AccessPathKind, BlockTree, CaptureTree, ComponentTree, KeyTree, ParameterTree,
    PathTree, PrintFlag, RstTree, SequenceTree,
};
use crate::compiler::lexer::{Lexeme, RantToken};
use crate::compiler::reader::lemma_after_ws;
use crate::compiler::readings::{
    all_written, carets_are_counted, other_uses_capture_nothing,
    uses_capture_what_comes_from_outside,
};
use crate::compiler::unfolding::{
    unfold_access, unfold_accessor, unfold_accessors, unfold_anon_call, unfold_args, unfold_block,
    unfold_block_elements, unfold_call, unfold_call_rest, unfold_callee_args, unfold_calls,
    unfold_definition, unfold_dynamic_key, unfold_func_access, unfold_func_body, unfold_item,
    unfold_items, unfold_list, unfold_list_elements, unfold_map, unfold_map_key, unfold_named_call,
    unfold_opened, unfold_param_list, unfold_path, unfold_path_rest, unfold_sequence,
};
use crate::compiler::writing::{
    any_prints, any_sequence_prints, can_be_params, defining, drops_space, names_of, place_of_call,
    prints, sees, sees_text, spells_accessor, spells_accessors, spells_args, spells_assigned,
    spells_before, spells_before_args, spells_block, spells_block_elements, spells_call_rest,
    spells_calls, spells_dynamic_key, spells_end, spells_fallback, spells_function, spells_item,
    spells_key, spells_kind, spells_letters, spells_list, spells_list_elements, spells_map,
    spells_next_accessor, spells_node, spells_nodes, spells_params, spells_parts, spells_path,
    spells_sequence, spells_signature, spells_single, using, Sign,
};
use crate::laws::blocks_make_nothing_of_keys;

verus! {

broadcast use lemma_after_ws;

/// Behind `st`, with as many scopes.
spec fn goes_on(st: State, st1: State) -> bool {
    st.pos <= st1.pos && st1.scopes.len() == st.scopes.len()
}

/// A draft with a node added, and whitespace before it if it prints.
spec fn with_item(d: Draft, node: RstTree) -> Draft {
    Draft {
        nodes: (if prints(node) && d.ws is Some {
            d.nodes.push(RstTree::Whitespace(d.ws->Some_0))
        } else {
            d.nodes
        }).push(node),
        flag: PrintFlag::Plain,
        flag_span: 0usize..0usize,
        printing: d.printing || prints(node),
        ws: if prints(node) || drops_space(node) {
            None
        } else {
            d.ws
        },
    }
}

/// Whether a sequence that was written up to `st` was read, where `mode` says what ends it.
spec fn read_up_to(
    inp: Input,
    st: State,
    mode: SequenceParseMode,
    nodes: Seq<RstTree>,
    outcome: (Result<SequenceRead, ParseStop>, State),
) -> bool {
    outcome.0 matches Ok(read) && if unread(inp, st) {
        let c = closing(mode, inp.lexemes[st.pos as int].token)->Some_0;
        &&& read.tree == (SequenceTree { name: c.name, origin: inp.origin, elements: nodes })
        &&& read.end == c.end
        &&& read.printing == (c.prints || any_prints(nodes, nodes.len()))
        &&& outcome.1 == step(st)
    } else {
        &&& read.tree == (SequenceTree {
            name: Some("main scope"@),
            origin: inp.origin,
            elements: nodes,
        })
        &&& read.end == SequenceEndType::ProgramEnd
        &&& read.printing == any_prints(nodes, nodes.len())
        &&& outcome.1 == st
    }
}

proof fn prints_one_more(nodes: Seq<RstTree>, i: nat)
    requires
        i < nodes.len(),
    ensures
        any_prints(nodes, i + 1) == (any_prints(nodes, i) || prints(nodes[i as int])),
{
    if prints(nodes[i as int]) {
        assert(any_prints(nodes, i + 1));
    }
    if any_prints(nodes, i) {
        let j = choose|j: int| 0 <= j < i && j < nodes.len() && prints(#[trigger] nodes[j]);
        assert(prints(nodes[j]));
    }
}

proof fn sequence_prints_one_more(elements: Seq<SequenceTree>, i: nat)
    requires
        i < elements.len(),
    ensures
        any_sequence_prints(elements, i + 1) == (any_sequence_prints(elements, i) || any_prints(
            elements[i as int].elements,
            elements[i as int].elements.len(),
        )),
{
    let e = elements[i as int];
    if any_prints(e.elements, e.elements.len()) {
        assert(any_sequence_prints(elements, i + 1));
    }
    if any_sequence_prints(elements, i) {
        let j = choose|j: int|
            0 <= j < i && j < elements.len() && any_prints(
                (#[trigger] elements[j]).elements,
                elements[j].elements.len(),
            );
        assert(any_prints(elements[j].elements, elements[j].elements.len()));
    }
}

proof fn use_is_captured(st: State, path: PathTree)
    ensures
        forall|fallback: Option<SequenceTree>| #[trigger]
            capture(st, RstTree::VarGet(path, fallback)) == using(st, path),
        forall|value: SequenceTree| #[trigger]
            capture(st, RstTree::VarSet(path, value)) == using(st, path),
        forall|args: Seq<SequenceTree>, flag: PrintFlag|
            #[trigger] capture(st, RstTree::FuncCall { id: path, args, flag }) == using(st, path),
        using(st, path).pos == st.pos,
        using(st, path).scopes == st.scopes,
{
    let none = SequenceTree {
        name: None,
        origin: arbitrary(),
        elements: Seq::empty(),
    };
    assert forall|fallback: Option<SequenceTree>| #[trigger]
        capture(st, RstTree::VarGet(path, fallback)) == using(st, path) by {
        use_is_captured_by(st, path, fallback, none, Seq::empty(), PrintFlag::Plain);
    }
    assert forall|value: SequenceTree| #[trigger]
        capture(st, RstTree::VarSet(path, value)) == using(st, path) by {
        use_is_captured_by(st, path, None, value, Seq::empty(), PrintFlag::Plain);
    }
    assert forall|args: Seq<SequenceTree>, flag: PrintFlag|
        #[trigger] capture(st, RstTree::FuncCall { id: path, args, flag }) == using(st, path) by {
        use_is_captured_by(st, path, None, none, args, flag);
    }
}

proof fn use_is_captured_by(
    st: State,
    path: PathTree,
    fallback: Option<SequenceTree>,
    value: SequenceTree,
    args: Seq<SequenceTree>,
    flag: PrintFlag,
)
    ensures
        capture(st, RstTree::VarGet(path, fallback)) == using(st, path),
        capture(st, RstTree::VarSet(path, value)) == using(st, path),
        capture(st, RstTree::FuncCall { id: path, args, flag }) == using(st, path),
{
    if path.kind is Local && path.parts.len() > 0 && path.parts[0] is Name {
        uses_capture_what_comes_from_outside(
            st,
            path,
            fallback,
            value,
            args,
            flag,
            path.parts[0]->Name_0,
        );
    } else {
        other_uses_capture_nothing(st, path, fallback, value, args, flag);
    }
}

proof fn definition_is_captured(
    st: State,
    id: Seq<char>,
    kind: AccessPathKind,
    value: Option<SequenceTree>,
)
    requires
        st.scopes.len() > 0,
    ensures
        capture(st, RstTree::VarDef(id, kind, value)) == defining(st, id, kind),
        goes_on(st, defining(st, id, kind)),
        defining(st, id, kind).pos == st.pos,
{
    assert(capture(st, RstTree::VarDef(id, kind, value)) =~= defining(st, id, kind));
}

// Sequences.

proof fn space_is_read(inp: Input, st: State, mode: SequenceParseMode, d: Draft)
    requires
        unread(inp, st),
        inp.lexemes[st.pos as int].token is Whitespace,
        mode != SequenceParseMode::SingleItem,
        d.flag == PrintFlag::Plain,
    ensures
        read_items(inp, st, mode, d) == read_items(
            inp,
            step(st),
            mode,
            Draft {
                ws: if d.printing {
                    Some(inp.lexemes[st.pos as int].text@)
                } else {
                    d.ws
                },
                ..unflagged(d)
            },
        ),
{
    unfold_items(inp, st, mode, d);
    unfold_item(inp, st, mode, d);
}

proof fn nodes_end_here(
    inp: Input,
    st: State,
    mode: SequenceParseMode,
    d: Draft,
    nodes: Seq<RstTree>,
)
    requires
        mode != SequenceParseMode::SingleItem,
        d.flag == PrintFlag::Plain,
        d.nodes == nodes,
        d.printing == any_prints(nodes, nodes.len()),
        unread(inp, st) ==> closing(mode, inp.lexemes[st.pos as int].token) is Some,
    ensures
        read_up_to(inp, st, mode, nodes, read_items(inp, st, mode, d)),
{
    unfold_items(inp, st, mode, d);
    if unread(inp, st) {
        unfold_item(inp, st, mode, d);
    }
}

#[verifier::spinoff_prover]
#[verifier::rlimit(60)]
proof fn nodes_reread(
    inp: Input,
    st: State,
    mode: SequenceParseMode,
    d: Draft,
    nodes: Seq<RstTree>,
    i: nat,
)
    requires
        !inp.debug,
        mode != SequenceParseMode::SingleItem,
        st.scopes.len() > 0,
        i <= nodes.len(),
        d.flag == PrintFlag::Plain,
        d.nodes == nodes.take(i as int),
        d.printing == any_prints(nodes, i),
        d.ws is Some ==> d.printing,
        spells_nodes(inp, st, nodes, i, d.ws) matches Some(st1) && (unread(inp, st1) ==> closing(
            mode,
            inp.lexemes[st1.pos as int].token,
        ) is Some),
    ensures
        read_up_to(
            inp,
            spells_nodes(inp, st, nodes, i, d.ws)->Some_0,
            mode,
            nodes,
            read_items(inp, st, mode, d),
        ),
        goes_on(st, spells_nodes(inp, st, nodes, i, d.ws)->Some_0),
    decreases nodes, nodes.len() - i, left(inp, st),
{
    if unread(inp, st) && inp.lexemes[st.pos as int].token is Whitespace {
        space_is_read(inp, st, mode, d);
        let d1 = Draft {
            ws: if d.printing {
                Some(inp.lexemes[st.pos as int].text@)
            } else {
                d.ws
            },
            ..unflagged(d)
        };
        nodes_reread(inp, step(st), mode, d1, nodes, i);
    } else if i >= nodes.len() {
        assert(nodes.take(i as int) =~= nodes);
        nodes_end_here(inp, st, mode, d, nodes);
    } else if nodes[i as int] is Whitespace {
        let node = nodes[(i + 1) as int];
        item_rereads(inp, st, mode, d, node);
        let st2 = spells_item(inp, st, node)->Some_0;
        prints_one_more(nodes, i);
        prints_one_more(nodes, i + 1);
        assert(with_item(d, node).nodes =~= nodes.take((i + 2) as int));
        nodes_reread(inp, st2, mode, with_item(d, node), nodes, i + 2);
    } else {
        let node = nodes[i as int];
        item_rereads(inp, st, mode, d, node);
        let st2 = spells_item(inp, st, node)->Some_0;
        prints_one_more(nodes, i);
        assert(with_item(d, node).nodes =~= nodes.take((i + 1) as int));
        nodes_reread(inp, st2, mode, with_item(d, node), nodes, i + 1);
    }
}

#[verifier::spinoff_prover]
#[verifier::rlimit(40)]
proof fn item_rereads(inp: Input, st: State, mode: SequenceParseMode, d: Draft, node: RstTree)
    requires
        !inp.debug,
        st.scopes.len() > 0,
        d.flag == PrintFlag::Plain,
        spells_item(inp, st, node) is Some,
    ensures
        ({
            let st1 = spells_item(inp, st, node)->Some_0;
            &&& goes_on(st, st1)
            &&& st.pos < st1.pos
            &&& mode != SequenceParseMode::SingleItem ==> read_items(inp, st, mode, d)
                == read_items(inp, st1, mode, with_item(d, node))
            &&& mode == SequenceParseMode::SingleItem ==> {
                let (result, st2) = read_items(inp, st, mode, d);
                &&& result matches Ok(read) && read.tree == (SequenceTree {
                    name: None,
                    origin: inp.origin,
                    elements: with_item(d, node).nodes,
                }) && read.end == SequenceEndType::SingleItemEnd
                &&& st2 == st1
            }
        }),
    decreases node, 2nat, 0nat,
{
    unfold_items(inp, st, mode, d);
    if sees(inp, st, Sign::Hint) || sees(inp, st, Sign::Sink) {
        unfold_item(inp, st, mode, d);
        let (result, st1) = read_item(inp, st, mode, d);
        let d1 = result->Ok_0->Flagged_0;
        assert(st1 == step(st));
        node_rereads(inp, step(st), mode, d1, node);
        unfold_items(inp, step(st), mode, d1);
        assert(with_item(d1, node) =~= with_item(d, node));
    } else {
        node_rereads(inp, st, mode, d, node);
    }
}

#[verifier::spinoff_prover]
#[verifier::rlimit(60)]
proof fn node_rereads(inp: Input, st: State, mode: SequenceParseMode, d: Draft, node: RstTree)
    requires
        !inp.debug,
        st.scopes.len() > 0,
        d.flag != PrintFlag::Plain ==> d.ws is None,
        d.flag == PrintFlag::Hint ==> d.printing,
        spells_node(inp, st, node, d.flag) is Some,
    ensures
        ({
            let st1 = spells_node(inp, st, node, d.flag)->Some_0;
            let (result, st2) = read_item(inp, st, mode, d);
            &&& goes_on(st, st1)
            &&& st.pos < st1.pos
            &&& result matches Ok(ItemRead::Item(d1)) && unflagged(d1) == with_item(d, node)
            &&& st2 == st1
        }),
        d.flag == PrintFlag::Hint ==> prints(node),
        d.flag == PrintFlag::Sink ==> drops_space(node),
    decreases node, 1nat, 0nat,
{
    let lexeme = inp.lexemes[st.pos as int];
    unfold_item(inp, st, mode, d);
    match node {
        RstTree::Fragment(text) => literal_rereads(inp, st, mode, d, node),
        RstTree::Integer(_) => literal_rereads(inp, st, mode, d, node),
        RstTree::Float(_) => literal_rereads(inp, st, mode, d, node),
        RstTree::Boolean(_) => literal_rereads(inp, st, mode, d, node),
        RstTree::EmptyVal => literal_rereads(inp, st, mode, d, node),
        RstTree::Block(block) => {
            unfold_opened(inp, step(st), d, lexeme);
            block_rereads(inp, step(st), span_here(inp, step(st)).start, block, d.flag);
            unfold_block(inp, step(st), false, d.flag);
        },
        RstTree::BlockValue(block) => {
            unfold_opened(inp, step(st), d, lexeme);
            let st1 = skip(inp, step(st));
            block_rereads(inp, step(st1), span_here(inp, step(st1)).start, block, d.flag);
            unfold_block(inp, st1, true, d.flag);
        },
        RstTree::ListInit(elements) => {
            unfold_opened(inp, step(st), d, lexeme);
            list_rereads(inp, step(st), lexeme.span, elements);
        },
        RstTree::MapInit(pairs) => {
            unfold_opened(inp, step(st), d, lexeme);
            map_rereads(inp, step(skip(inp, step(st))), lexeme.span, pairs, 0);
            assert(pairs.take(0) =~= Seq::empty());
        },
        RstTree::VarDef(..) => accessor_item_rereads(inp, st, d, lexeme, node),
        RstTree::VarGet(..) => accessor_item_rereads(inp, st, d, lexeme, node),
        RstTree::VarSet(..) => accessor_item_rereads(inp, st, d, lexeme, node),
        RstTree::FuncDef { id, params, captures, body } => {
            unfold_opened(inp, step(st), d, lexeme);
            definition_rereads(inp, step(st), node);
        },
        RstTree::Closure { params, captures, expr } => {
            unfold_opened(inp, step(st), d, lexeme);
            closure_rereads(inp, step(st), node);
        },
        RstTree::FuncCall { .. } => {
            unfold_opened(inp, step(st), d, lexeme);
            unfold_func_access(inp, step(st), d.flag);
            calls_reread(inp, skip(inp, step(st)), node, d.flag);
        },
        RstTree::AnonFuncCall { .. } => {
            unfold_opened(inp, step(st), d, lexeme);
            unfold_func_access(inp, step(st), d.flag);
            calls_reread(inp, skip(inp, step(st)), node, d.flag);
        },
        _ => {},
    }
}

proof fn letters_reread(inp: Input, st: State, text: Seq<char>, from: nat)
    requires
        from <= text.len(),
        spells_letters(inp, st, text, from) is Some,
    ensures
        fragment_text(inp.lexemes, st.pos) == text.skip(from as int),
        spells_letters(inp, st, text, from) == Some(
            State { pos: after_fragments(inp.lexemes, st.pos), ..st },
        ),
        after_fragments(inp.lexemes, st.pos) >= st.pos,
    decreases left(inp, st),
{
    if sees_text(inp, st) {
        let lexeme = inp.lexemes[st.pos as int];
        let piece = match lexeme.token {
            RantToken::Escape(c) => seq![c],
            _ => lexeme.text@,
        };
        let to = from + piece.len();
        letters_reread(inp, step(st), text, to);
        assert(piece + text.skip(to as int) =~= text.skip(from as int));
    } else {
        assert(text.skip(from as int) =~= Seq::empty());
    }
}

proof fn literal_rereads(inp: Input, st: State, mode: SequenceParseMode, d: Draft, node: RstTree)
    requires
        !inp.debug,
        node is Fragment || node is Integer || node is Float || node is Boolean || node is EmptyVal,
        spells_node(inp, st, node, d.flag) is Some,
    ensures
        d.flag == PrintFlag::Plain,
        ({
            let st1 = spells_node(inp, st, node, d.flag)->Some_0;
            let (result, st2) = read_item(inp, st, mode, d);
            &&& goes_on(st, st1)
            &&& st.pos < st1.pos
            &&& result matches Ok(ItemRead::Item(d1)) && unflagged(d1) == with_item(d, node)
            &&& st2 == st1
        }),
{
    unfold_item(inp, st, mode, d);
    if let RstTree::Fragment(text) = node {
        if sees_text(inp, st) {
            letters_reread(inp, st, text, 0);
            assert(text.skip(0) =~= text);
            letters_start(inp, st);
        }
    }
}

proof fn letters_start(inp: Input, st: State)
    requires
        sees_text(inp, st),
    ensures
        after_fragments(inp.lexemes, st.pos) == after_fragments(inp.lexemes, st.pos + 1),
        after_fragments(inp.lexemes, st.pos + 1) > st.pos,
        fragment_text(inp.lexemes, st.pos) == (match inp.lexemes[st.pos as int].token {
            RantToken::Escape(c) => seq![c],
            _ => inp.lexemes[st.pos as int].text@,
        }) + fragment_text(inp.lexemes, st.pos + 1),
{
    text_does_not_go_back(inp.lexemes, st.pos + 1);
}

proof fn text_does_not_go_back(lexemes: Seq<Lexeme>, pos: nat)
    ensures
        after_fragments(lexemes, pos) >= pos,
    decreases lexemes.len() - pos,
{
    if pos < lexemes.len() && (lexemes[pos as int].token is Fragment
        || lexemes[pos as int].token is Escape) {
        text_does_not_go_back(lexemes, pos + 1);
    }
}

proof fn sequence_rereads(inp: Input, st: State, mode: SequenceParseMode, sequence: SequenceTree)
    requires
        !inp.debug,
        mode != SequenceParseMode::SingleItem,
        spells_sequence(inp, st, sequence) matches Some(st1) && (unread(inp, st1) ==> closing(
            mode,
            inp.lexemes[st1.pos as int].token,
        ) is Some),
    ensures
        read_up_to(
            inp,
            spells_sequence(inp, st, sequence)->Some_0,
            mode,
            sequence.elements,
            read_sequence(inp, st, mode),
        ),
        goes_on(st, spells_sequence(inp, st, sequence)->Some_0),
    decreases sequence, 0nat, 0nat,
{
    unfold_sequence(inp, st, mode);
    let inner = enter_scope(st, Set::empty());
    assert(sequence.elements.take(0) =~= Seq::empty());
    nodes_reread(inp, inner, mode, blank(), sequence.elements, 0);
}

// Blocks and collections.

proof fn block_rereads(inp: Input, st: State, start: usize, block: BlockTree, flag: PrintFlag)
    requires
        !inp.debug,
        spells_block(inp, st, block, flag) is Some,
    ensures
        ({
            let st1 = spells_block(inp, st, block, flag)->Some_0;
            &&& goes_on(st, st1)
            &&& read_block_elements(inp, st, start, Seq::empty(), false) == (
                Ok::<(Seq<SequenceTree>, bool), ParseStop>(
                    (
                        block.elements,
                        any_sequence_prints(block.elements, block.elements.len()),
                    ),
                ),
                st1,
            )
        }),
    decreases block, 0nat, 0nat,
{
    assert(block.elements.take(0) =~= Seq::empty());
    block_elements_reread(inp, st, start, block.elements, 0);
}

#[verifier::spinoff_prover]
#[verifier::rlimit(40)]
proof fn block_elements_reread(
    inp: Input,
    st: State,
    start: usize,
    elements: Seq<SequenceTree>,
    i: nat,
)
    requires
        !inp.debug,
        spells_block_elements(inp, st, elements, i) is Some,
    ensures
        ({
            let st1 = spells_block_elements(inp, st, elements, i)->Some_0;
            &&& goes_on(st, st1)
            &&& st.pos < st1.pos
            &&& read_block_elements(
                inp,
                st,
                start,
                elements.take(i as int),
                any_sequence_prints(elements, i),
            ) == (
                Ok::<(Seq<SequenceTree>, bool), ParseStop>(
                    (elements, any_sequence_prints(elements, elements.len())),
                ),
                st1,
            )
        }),
    decreases elements, elements.len() - i, 0nat,
{
    let element = elements[i as int];
    let printing = any_sequence_prints(elements, i);
    unfold_block_elements(inp, st, start, elements.take(i as int), printing);
    blocks_make_nothing_of_keys(inp, st);
    sequence_rereads(inp, st, SequenceParseMode::BlockElementRhs, element);
    sequence_prints_one_more(elements, i);
    let st1 = spells_sequence(inp, st, element)->Some_0;
    let read = read_sequence(inp, st, SequenceParseMode::BlockElementRhs).0->Ok_0;
    assert(read.tree == element);
    assert(elements.take(i as int).push(element) =~= elements.take((i + 1) as int));
    if i + 1 < elements.len() {
        block_elements_reread(inp, step(st1), start, elements, i + 1);
    } else {
        assert(elements.take((i + 1) as int) =~= elements);
    }
}

proof fn list_rereads(inp: Input, st: State, start: Range<usize>, elements: Seq<SequenceTree>)
    requires
        !inp.debug,
        spells_list(inp, st, elements) is Some,
    ensures
        goes_on(st, spells_list(inp, st, elements)->Some_0),
        read_list(inp, st, start) == (
            Ok::<RstTree, ParseStop>(RstTree::ListInit(elements)),
            spells_list(inp, st, elements)->Some_0,
        ),
    decreases elements, elements.len() + 1, 0nat,
{
    unfold_list(inp, st, start);
    let st1 = skip(inp, st);
    if sees(inp, st1, Sign::RightParen) {
        assert(elements =~= Seq::empty());
    } else {
        assert(elements.take(0) =~= Seq::empty());
        list_elements_reread(inp, st1, start, elements, 0);
    }
}

#[verifier::spinoff_prover]
#[verifier::rlimit(40)]
proof fn list_elements_reread(
    inp: Input,
    st: State,
    start: Range<usize>,
    elements: Seq<SequenceTree>,
    i: nat,
)
    requires
        !inp.debug,
        spells_list_elements(inp, st, elements, i) is Some,
    ensures
        ({
            let st1 = spells_list_elements(inp, st, elements, i)->Some_0;
            &&& goes_on(st, st1)
            &&& st.pos < st1.pos
            &&& read_list_elements(inp, st, start, elements.take(i as int)) == (
                Ok::<RstTree, ParseStop>(RstTree::ListInit(elements)),
                st1,
            )
        }),
    decreases elements, elements.len() - i, 0nat,
{
    let element = elements[i as int];
    unfold_list_elements(inp, st, start, elements.take(i as int));
    sequence_rereads(inp, skip(inp, st), SequenceParseMode::CollectionInit, element);
    let st1 = spells_sequence(inp, skip(inp, st), element)->Some_0;
    let read = read_sequence(inp, skip(inp, st), SequenceParseMode::CollectionInit).0->Ok_0;
    assert(read.tree == element);
    assert(elements.take(i as int).push(element) =~= elements.take((i + 1) as int));
    if i + 1 < elements.len() {
        list_elements_reread(inp, step(st1), start, elements, i + 1);
    } else {
        assert(elements.take((i + 1) as int) =~= elements);
    }
}

proof fn key_rereads(inp: Input, st: State, start: Range<usize>, key: KeyTree)
    requires
        !inp.debug,
        spells_key(inp, skip(inp, st), key) is Some,
    ensures
        ({
            let st1 = spells_key(inp, skip(inp, st), key)->Some_0;
            &&& goes_on(st, st1)
            &&& st.pos < st1.pos
            &&& read_map_key(inp, st, start) == (
                Ok::<Option<KeyTree>, ParseStop>(Some(key)),
                st1,
            )
        }),
    decreases key, 0nat, 0nat,
{
    unfold_map_key(inp, st, start);
    if let KeyTree::Dynamic(sequence) = key {
        dynamic_key_rereads(inp, step(skip(inp, st)), sequence);
    }
}

proof fn dynamic_key_rereads(inp: Input, st: State, sequence: SequenceTree)
    requires
        !inp.debug,
        spells_dynamic_key(inp, st, sequence) is Some,
    ensures
        goes_on(st, spells_dynamic_key(inp, st, sequence)->Some_0),
        read_dynamic_key(inp, st, false) == (
            Ok::<SequenceTree, ParseStop>(sequence),
            spells_dynamic_key(inp, st, sequence)->Some_0,
        ),
    decreases sequence, 1nat, 0nat,
{
    unfold_dynamic_key(inp, st, false);
    sequence_rereads(inp, st, SequenceParseMode::DynamicKey, sequence);
    let read = read_sequence(inp, st, SequenceParseMode::DynamicKey).0->Ok_0;
    assert(read.tree == sequence);
}

#[verifier::spinoff_prover]
#[verifier::rlimit(40)]
proof fn map_rereads(
    inp: Input,
    st: State,
    start: Range<usize>,
    pairs: Seq<(KeyTree, SequenceTree)>,
    i: nat,
)
    requires
        !inp.debug,
        i <= pairs.len(),
        spells_map(inp, st, pairs, i) is Some,
    ensures
        goes_on(st, spells_map(inp, st, pairs, i)->Some_0),
        read_map(inp, st, start, pairs.take(i as int)) == (
            Ok::<RstTree, ParseStop>(RstTree::MapInit(pairs)),
            spells_map(inp, st, pairs, i)->Some_0,
        ),
    decreases pairs, pairs.len() - i, 0nat,
{
    unfold_map(inp, st, start, pairs.take(i as int));
    if i >= pairs.len() {
        unfold_map_key(inp, st, start);
        assert(pairs.take(i as int) =~= pairs);
    } else {
        let (key, value) = pairs[i as int];
        key_rereads(inp, st, start, key);
        let st1 = spells_key(inp, skip(inp, st), key)->Some_0;
        let st2 = skip(inp, step(skip(inp, st1)));
        sequence_rereads(inp, st2, SequenceParseMode::CollectionInit, value);
        let read = read_sequence(inp, st2, SequenceParseMode::CollectionInit).0->Ok_0;
        assert(read.tree == value);
        assert(pairs.take(i as int).push((key, value)) =~= pairs.take((i + 1) as int));
        let st3 = spells_sequence(inp, st2, value)->Some_0;
        if sees(inp, st3, Sign::Semi) {
            map_rereads(inp, step(st3), start, pairs, i + 1);
        } else {
            assert(pairs.take((i + 1) as int) =~= pairs);
        }
    }
}

// Access paths.

proof fn kind_rereads(inp: Input, st: State, kind: AccessPathKind)
    requires
        spells_kind(inp, st, kind) is Some,
    ensures
        goes_on(st, spells_kind(inp, st, kind)->Some_0),
        read_path_kind(inp, st) == (kind, spells_kind(inp, st, kind)->Some_0),
{
    match kind {
        AccessPathKind::Descope(n) => {
            carets_are_counted(inp.lexemes, st.pos, n as nat);
            assert(inp.lexemes[st.pos as int].token is Caret);
        },
        AccessPathKind::Local => {
            reveal_with_fuel(carets, 2);
        },
        AccessPathKind::ExplicitGlobal => {},
    }
}

#[verifier::spinoff_prover]
#[verifier::rlimit(40)]
proof fn path_rereads(inp: Input, st: State, path: PathTree, allow_anonymous: bool)
    requires
        !inp.debug,
        spells_path(inp, st, path, allow_anonymous) is Some,
    ensures
        goes_on(st, spells_path(inp, st, path, allow_anonymous)->Some_0),
        st.pos < spells_path(inp, st, path, allow_anonymous)->Some_0.pos,
        read_path(inp, st, allow_anonymous) == (
            Ok::<PathTree, ParseStop>(path),
            spells_path(inp, st, path, allow_anonymous)->Some_0,
        ),
    decreases path, 0nat, 0nat,
{
    unfold_path(inp, st, allow_anonymous);
    let st1 = skip(inp, st);
    assert(path.parts.take(1) =~= seq![path.parts[0]]);
    if allow_anonymous && sees(inp, st1, Sign::Bang) {
        let value = path.parts[0]->AnonymousValue_0;
        let st2 = skip(inp, step(st1));
        single_rereads(inp, st2, value);
        let st3 = spells_single(inp, st2, value)->Some_0;
        parts_reread(inp, st3, path.parts, path.kind, 1);
    } else {
        kind_rereads(inp, st1, path.kind);
        let st2 = spells_kind(inp, st1, path.kind)->Some_0;
        let st3 = step(skip(inp, st2));
        match path.parts[0] {
            ComponentTree::Name(name) => {
                assert(Seq::<ComponentTree>::empty().push(path.parts[0]) =~= path.parts.take(1));
                parts_reread(inp, st3, path.parts, path.kind, 1);
            },
            ComponentTree::DynamicKey(key) => {
                dynamic_key_rereads(inp, st3, key);
                let st4 = spells_dynamic_key(inp, st3, key)->Some_0;
                parts_reread(inp, st4, path.parts, path.kind, 1);
            },
            _ => {},
        }
    }
}

proof fn single_rereads(inp: Input, st: State, sequence: SequenceTree)
    requires
        !inp.debug,
        spells_single(inp, st, sequence) is Some,
    ensures
        ({
            let st1 = spells_single(inp, st, sequence)->Some_0;
            let (result, st2) = read_sequence(inp, st, SequenceParseMode::SingleItem);
            &&& goes_on(st, st1)
            &&& result matches Ok(read) && read.tree == sequence && read.end
                == SequenceEndType::SingleItemEnd
            &&& st2 == st1
        }),
    decreases sequence, 0nat, 0nat,
{
    unfold_sequence(inp, st, SequenceParseMode::SingleItem);
    let inner = enter_scope(st, Set::empty());
    item_rereads(inp, inner, SequenceParseMode::SingleItem, blank(), sequence.elements[0]);
    assert(with_item(blank(), sequence.elements[0]).nodes =~= sequence.elements);
}

#[verifier::spinoff_prover]
#[verifier::rlimit(40)]
proof fn parts_reread(
    inp: Input,
    st: State,
    parts: Seq<ComponentTree>,
    kind: AccessPathKind,
    i: nat,
)
    requires
        !inp.debug,
        i <= parts.len(),
        spells_parts(inp, st, parts, i) is Some,
    ensures
        goes_on(st, spells_parts(inp, st, parts, i)->Some_0),
        read_path_rest(inp, st, parts.take(i as int), kind) == (
            Ok::<PathTree, ParseStop>(PathTree { parts, kind }),
            spells_parts(inp, st, parts, i)->Some_0,
        ),
    decreases parts, parts.len() - i, 0nat,
{
    unfold_path_rest(inp, st, parts.take(i as int), kind);
    let st1 = skip(inp, st);
    if i >= parts.len() {
        assert(parts.take(i as int) =~= parts);
    } else {
        let st2 = skip(inp, step(st1));
        assert(parts.take(i as int).push(parts[i as int]) =~= parts.take((i + 1) as int));
        match parts[i as int] {
            ComponentTree::DynamicKey(key) => {
                dynamic_key_rereads(inp, step(st2), key);
                let st3 = spells_dynamic_key(inp, step(st2), key)->Some_0;
                parts_reread(inp, st3, parts, kind, i + 1);
            },
            _ => parts_reread(inp, step(st2), parts, kind, i + 1),
        }
    }
}

// Accessors.

#[verifier::spinoff_prover]
#[verifier::rlimit(40)]
proof fn accessor_item_rereads(inp: Input, st: State, d: Draft, lexeme: Lexeme, node: RstTree)
    requires
        !inp.debug,
        st.scopes.len() > 0,
        node is VarDef || node is VarGet || node is VarSet,
        unread(inp, st),
        lexeme == inp.lexemes[st.pos as int],
        spells_node(inp, st, node, d.flag) is Some,
    ensures
        lexeme.token is LeftAngle,
        d.flag == PrintFlag::Plain,
        ({
            let st1 = spells_node(inp, st, node, d.flag)->Some_0;
            let (result, st2) = read_opened(inp, step(st), d, lexeme);
            &&& goes_on(st, st1)
            &&& st.pos < st1.pos
            &&& result matches Ok(d1) && unflagged(d1) == with_item(d, node)
            &&& st2 == st1
        }),
    decreases node, 0nat, 1nat,
{
    unfold_opened(inp, step(st), d, lexeme);
    let st1 = skip(inp, step(st));
    unfold_accessors(inp, step(st), Seq::empty());
    accessor_rereads(inp, st1, span_here(inp, step(st)), node);
    let (st2, more) = spells_accessor(inp, st1, node)->Some_0;
    let list = Seq::<RstTree>::empty().push(node);
    if more {
        unfold_accessors(inp, st2, list);
    }
    assert(list.drop_last() =~= Seq::empty());
    reveal_with_fuel(with_accessors, 2);
}

/// What was read of an accessor.
spec fn accessor_read(
    st: State,
    written: Option<(State, bool)>,
    node: RstTree,
    outcome: (Result<(RstTree, bool), ParseStop>, State),
    inp: Input,
) -> bool {
    written matches Some((st1, more)) && {
        &&& goes_on(st, st1)
        &&& st.pos < st1.pos
        &&& st1.pos <= inp.lexemes.len()
        &&& outcome == (Ok::<(RstTree, bool), ParseStop>((node, more)), st1)
    }
}

#[verifier::spinoff_prover]
#[verifier::rlimit(40)]
proof fn accessor_rereads(inp: Input, st: State, start: Range<usize>, node: RstTree)
    requires
        !inp.debug,
        st.scopes.len() > 0,
        spells_accessor(inp, st, node) is Some,
    ensures
        accessor_read(
            st,
            spells_accessor(inp, st, node),
            node,
            read_accessor(inp, st, start),
            inp,
        ),
    decreases node, 0nat, 0nat,
{
    unfold_accessor(inp, st, start);
    match node {
        RstTree::VarDef(id, kind, value) => {
            let st0 = skip(inp, step(st));
            kind_rereads(inp, st0, kind);
            let st1 = spells_kind(inp, st0, kind)->Some_0;
            let st2 = step(skip(inp, st1));
            assert(skip(inp, skip(inp, st1)) == skip(inp, st1));
            variable_definition_rereads(inp, st2, id, kind, value);
        },
        RstTree::VarGet(path, fallback) => {
            path_rereads(inp, st, path, true);
            let st1 = spells_path(inp, st, path, true)->Some_0;
            getter_rereads(inp, st1, path, start, fallback);
        },
        RstTree::VarSet(path, value) => {
            path_rereads(inp, st, path, true);
            let st1 = spells_path(inp, st, path, true)->Some_0;
            setter_rereads(inp, st1, path, start, value);
        },
        _ => {},
    }
}

/// What is written behind the name of a definition.
spec fn definition_end(inp: Input, st: State, value: Option<SequenceTree>) -> Option<
    (State, bool),
> {
    match value {
        Some(value) => spells_assigned(inp, st, value),
        None => spells_end(inp, skip(inp, st)),
    }
}

/// What is written behind the path of a getter.
spec fn getter_end(inp: Input, st: State, fallback: Option<SequenceTree>) -> Option<
    (State, bool),
> {
    match fallback {
        Some(value) => spells_fallback(inp, st, value),
        None => spells_end(inp, skip(inp, st)),
    }
}

#[verifier::spinoff_prover]
#[verifier::rlimit(40)]
proof fn variable_definition_rereads(
    inp: Input,
    st: State,
    id: Seq<char>,
    kind: AccessPathKind,
    value: Option<SequenceTree>,
)
    requires
        !inp.debug,
        st.scopes.len() > 0,
        definition_end(inp, st, value) is Some,
    ensures
        ({
            let (st1, more) = definition_end(inp, st, value)->Some_0;
            accessor_read(
                st,
                Some((defining(st1, id, kind), more)),
                RstTree::VarDef(id, kind, value),
                read_definition(inp, st, id, kind),
                inp,
            )
        }),
    decreases value, 0nat, 0nat,
{
    unfold_definition(inp, st, id, kind);
    match value {
        Some(v) => {
            let st3 = skip(inp, step(skip(inp, st)));
            let mode = SequenceParseMode::VariableAssignment;
            sequence_rereads(inp, st3, mode, v);
            let st4 = spells_sequence(inp, st3, v)->Some_0;
            assert(read_sequence(inp, st3, mode).0->Ok_0.tree == v);
            definition_is_captured(step(st4), id, kind, value);
        },
        None => definition_is_captured(step(skip(inp, st)), id, kind, value),
    }
}

#[verifier::spinoff_prover]
#[verifier::rlimit(40)]
proof fn getter_rereads(
    inp: Input,
    st: State,
    path: PathTree,
    start: Range<usize>,
    fallback: Option<SequenceTree>,
)
    requires
        !inp.debug,
        getter_end(inp, st, fallback) is Some,
    ensures
        ({
            let (st1, more) = getter_end(inp, st, fallback)->Some_0;
            accessor_read(
                st,
                Some((using(st1, path), more)),
                RstTree::VarGet(path, fallback),
                read_access(inp, st, path, start),
                inp,
            )
        }),
    decreases fallback, 0nat, 0nat,
{
    unfold_access(inp, st, path, start);
    match fallback {
        Some(v) => {
            let st3 = skip(inp, step(skip(inp, st)));
            let mode = SequenceParseMode::AccessorFallbackValue;
            sequence_rereads(inp, st3, mode, v);
            let st4 = spells_sequence(inp, st3, v)->Some_0;
            assert(read_sequence(inp, st3, mode).0->Ok_0.tree == v);
            use_is_captured(step(st4), path);
        },
        None => use_is_captured(step(skip(inp, st)), path),
    }
}

#[verifier::spinoff_prover]
#[verifier::rlimit(40)]
proof fn setter_rereads(
    inp: Input,
    st: State,
    path: PathTree,
    start: Range<usize>,
    value: SequenceTree,
)
    requires
        !inp.debug,
        !(path.parts.len() == 1 && path.parts[0] is AnonymousValue),
        spells_assigned(inp, st, value) is Some,
    ensures
        ({
            let (st1, more) = spells_assigned(inp, st, value)->Some_0;
            accessor_read(
                st,
                Some((using(st1, path), more)),
                RstTree::VarSet(path, value),
                read_access(inp, st, path, start),
                inp,
            )
        }),
    decreases value, 1nat, 0nat,
{
    unfold_access(inp, st, path, start);
    let st3 = skip(inp, step(skip(inp, st)));
    let mode = SequenceParseMode::VariableAssignment;
    sequence_rereads(inp, st3, mode, value);
    let st4 = spells_sequence(inp, st3, value)->Some_0;
    assert(read_sequence(inp, st3, mode).0->Ok_0.tree == value);
    use_is_captured(step(st4), path);
}

// Functions.

#[verifier::spinoff_prover]
#[verifier::rlimit(40)]
proof fn params_reread(
    inp: Input,
    st: State,
    start: Range<usize>,
    params: Seq<ParameterTree>,
    i: nat,
)
    requires
        can_be_params(params),
        spells_params(inp, st, params, i) is Some,
    ensures
        goes_on(st, spells_params(inp, st, params, i)->Some_0),
        read_param_list(inp, st, start, params.take(i as int)) == (
            Ok::<Seq<ParameterTree>, ParseStop>(params),
            spells_params(inp, st, params, i)->Some_0,
        ),
    decreases params.len() - i,
{
    let before = params.take(i as int);
    unfold_param_list(inp, st, start, before);
    let param = params[i as int];
    let st0 = skip(inp, st);
    let lexeme = inp.lexemes[st0.pos as int];
    let (read, st1) = read_param(inp, step(st0), before, lexeme);
    assert(!has_param(before, param.name)) by {
        if has_param(before, param.name) {
            let j = choose|j: int|
                0 <= j < before.len() && (#[trigger] before[j]).name == param.name;
            assert(params[j].name == param.name);
        }
    }
    assert(any_variadic(before) ==> false) by {
        if any_variadic(before) {
            let j = choose|j: int|
                0 <= j < before.len() && (#[trigger] before[j]).varity.spec_is_variadic();
            assert(params[j].varity.spec_is_variadic());
        }
    }
    if i > 0 {
        assert(before.last() == params[i - 1]);
    }
    assert(read == param);
    assert(before.push(param) =~= params.take((i + 1) as int));
    if i + 1 < params.len() {
        params_reread(inp, step(skip(inp, st1)), start, params, i + 1);
    } else {
        assert(params.take((i + 1) as int) =~= params);
    }
}

proof fn signature_rereads(
    inp: Input,
    st: State,
    start: Range<usize>,
    params: Seq<ParameterTree>,
)
    requires
        spells_signature(inp, st, params) is Some,
    ensures
        goes_on(st, spells_signature(inp, st, params)->Some_0),
        read_params(inp, st, start) == (
            Ok::<Seq<ParameterTree>, ParseStop>(params),
            spells_signature(inp, st, params)->Some_0,
        ),
{
    if params.len() == 0 {
        assert(params =~= Seq::empty());
    } else {
        assert(params.take(0) =~= Seq::empty());
        params_reread(inp, step(skip(inp, st)), start, params, 0);
    }
}

#[verifier::spinoff_prover]
#[verifier::rlimit(40)]
proof fn body_rereads(
    inp: Input,
    st: State,
    start: Range<usize>,
    params: Seq<ParameterTree>,
    captures: CaptureTree,
    body: SequenceTree,
    name: Seq<char>,
)
    requires
        !inp.debug,
        spells_function(inp, st, params, captures, body, name) is Some,
    ensures
        ({
            let st1 = spells_signature(inp, st, params)->Some_0;
            let st2 = spells_function(inp, st, params, captures, body, name)->Some_0;
            let (result, st3) = read_func_body(inp, skip(inp, st1), params);
            &&& spells_signature(inp, st, params) is Some
            &&& goes_on(st, st2)
            &&& goes_on(st, st1)
            &&& read_params(inp, st, start) == (Ok::<Seq<ParameterTree>, ParseStop>(params), st1)
            &&& result matches Ok((read, names)) && (SequenceTree { name: Some(name), ..read })
                == body && names == captures
            &&& st3 == st2
        }),
    decreases body, 0nat, 0nat,
{
    signature_rereads(inp, st, start, params);
    let st1 = spells_signature(inp, st, params)->Some_0;
    let st2 = skip(inp, st1);
    unfold_func_body(inp, st2, params);
    let inside = State {
        pos: st2.pos + 1,
        reports: st2.reports,
        scopes: st2.scopes.push(names_of(params)),
        captures: st2.captures.push((st2.scopes.len(), Set::empty())),
    };
    assert(param_names(params) =~= names_of(params)) by {
        let names = params.map_values(|param: ParameterTree| param.name);
        assert forall|name: Seq<char>|
            param_names(params).contains(name) <==> names_of(params).contains(name) by {
            if param_names(params).contains(name) {
                let j = choose|j: int| 0 <= j < names.len() && names[j] == name;
                assert(params[j].name == name);
            }
            if names_of(params).contains(name) {
                let j = choose|j: int|
                    0 <= j < params.len() && (#[trigger] params[j]).name == name;
                assert(names[j] == name);
            }
        }
    }
    assert(body.elements.take(0) =~= Seq::empty());
    nodes_reread(inp, inside, SequenceParseMode::FunctionBody, blank(), body.elements, 0);
}

proof fn definition_rereads(inp: Input, st: State, node: RstTree)
    requires
        !inp.debug,
        node is FuncDef,
        sees(inp, skip(inp, st), Sign::Dollar),
        spells_path(inp, step(skip(inp, st)), node->FuncDef_id, false) matches Some(st1)
            && spells_function(
            inp,
            st1,
            node->FuncDef_params,
            node->FuncDef_captures,
            node->FuncDef_body,
            seq!['['] + node->FuncDef_id.text() + seq![']'],
        ) is Some,
    ensures
        ({
            let st1 = spells_path(inp, step(skip(inp, st)), node->FuncDef_id, false)->Some_0;
            let st2 = spells_function(
                inp,
                st1,
                node->FuncDef_params,
                node->FuncDef_captures,
                node->FuncDef_body,
                seq!['['] + node->FuncDef_id.text() + seq![']'],
            )->Some_0;
            &&& goes_on(st, st2)
            &&& forall|flag: PrintFlag| #[trigger]
                read_func_access(inp, st, flag) == (Ok::<RstTree, ParseStop>(node), st2)
        }),
    decreases node, 0nat, 1nat,
{
    let st0 = step(skip(inp, st));
    let id = node->FuncDef_id;
    path_rereads(inp, st0, id, false);
    let st1 = spells_path(inp, st0, id, false)->Some_0;
    let name = seq!['['] + id.text() + seq![']'];
    body_rereads(
        inp,
        st1,
        span_here(inp, st),
        node->FuncDef_params,
        node->FuncDef_captures,
        node->FuncDef_body,
        name,
    );
    let st2 = spells_function(
        inp,
        st1,
        node->FuncDef_params,
        node->FuncDef_captures,
        node->FuncDef_body,
        name,
    )->Some_0;
    assert forall|flag: PrintFlag| #[trigger]
        read_func_access(inp, st, flag) == (Ok::<RstTree, ParseStop>(node), st2) by {
        unfold_func_access(inp, st, flag);
    }
}

proof fn closure_rereads(inp: Input, st: State, node: RstTree)
    requires
        !inp.debug,
        node is Closure,
        sees(inp, skip(inp, st), Sign::Question),
        spells_function(
            inp,
            step(skip(inp, st)),
            node->Closure_params,
            node->Closure_captures,
            node->Closure_expr,
            "closure"@,
        ) is Some,
    ensures
        ({
            let st2 = spells_function(
                inp,
                step(skip(inp, st)),
                node->Closure_params,
                node->Closure_captures,
                node->Closure_expr,
                "closure"@,
            )->Some_0;
            &&& goes_on(st, st2)
            &&& forall|flag: PrintFlag| #[trigger]
                read_func_access(inp, st, flag) == (Ok::<RstTree, ParseStop>(node), st2)
        }),
    decreases node, 0nat, 1nat,
{
    let st0 = step(skip(inp, st));
    body_rereads(
        inp,
        st0,
        span_here(inp, st),
        node->Closure_params,
        node->Closure_captures,
        node->Closure_expr,
        "closure"@,
    );
    let st2 = spells_function(
        inp,
        st0,
        node->Closure_params,
        node->Closure_captures,
        node->Closure_expr,
        "closure"@,
    )->Some_0;
    assert forall|flag: PrintFlag| #[trigger]
        read_func_access(inp, st, flag) == (Ok::<RstTree, ParseStop>(node), st2) by {
        unfold_func_access(inp, st, flag);
    }
}

// Calls.

/// What reading calls from `st` on comes to, once those up to `node` have been read.
spec fn calls_come_to(
    inp: Input,
    st: State,
    flag: PrintFlag,
    st1: State,
    node: RstTree,
    finished: bool,
) -> bool {
    if finished {
        read_calls(inp, st, flag, None) == (Ok::<RstTree, ParseStop>(node), st1)
    } else {
        read_calls(inp, st, flag, None) == read_calls(inp, st1, flag, Some(node))
    }
}

proof fn place_is_first(args: Seq<SequenceTree>)
    ensures
        place_of_call(args) <= args.len(),
        place_of_call(args) < args.len() ==> args[place_of_call(args) as int].name is None,
        place_of_call(args) == args.len() ==> all_written(args),
    decreases args.len(),
{
    if args.len() > 0 && args[0].name is Some {
        let rest = args.drop_first();
        place_is_first(rest);
        if place_of_call(rest) == rest.len() {
            assert forall|i: int| 0 <= i < args.len() implies (
            #[trigger] args[i]).name is Some by {
                if i > 0 {
                    assert(args[i] == rest[i - 1]);
                }
            }
        }
    }
}

proof fn before_rereads(inp: Input, st: State, arg: SequenceTree, flag: PrintFlag)
    requires
        !inp.debug,
        spells_before(inp, st, arg, flag) is Some,
    ensures
        ({
            let st1 = spells_before(inp, st, arg, flag)->Some_0;
            &&& goes_on(st, st1)
            &&& arg.elements.len() == 1
            &&& arg == sequence_of(inp, arg.elements[0])
            &&& read_calls(inp, st, flag, None) == read_calls(
                inp,
                st1,
                flag,
                Some(arg.elements[0]),
            )
        }),
    decreases arg, 0nat, 0nat,
{
    calls_reread(inp, st, arg.elements[0], flag);
    assert(arg.elements =~= seq![arg.elements[0]]);
}

/// The call that is composed with the one to be read, if any.
spec fn call_before(args: Seq<SequenceTree>) -> Option<RstTree> {
    if place_of_call(args) < args.len() {
        Some(args[place_of_call(args) as int].elements[0])
    } else {
        None
    }
}

proof fn before_args_reread(inp: Input, st: State, args: Seq<SequenceTree>, flag: PrintFlag)
    requires
        !inp.debug,
        spells_before_args(inp, st, args, flag) is Some,
    ensures
        ({
            let st1 = spells_before_args(inp, st, args, flag)->Some_0;
            let place = place_of_call(args);
            &&& goes_on(st, st1)
            &&& place <= args.len()
            &&& place < args.len() ==> args[place as int] == sequence_of(
                inp,
                args[place as int].elements[0],
            )
            &&& read_calls(inp, st, flag, None) == read_calls(inp, st1, flag, call_before(args))
        }),
    decreases args, args.len() + 2, 0nat,
{
    place_is_first(args);
    let place = place_of_call(args);
    if place < args.len() {
        before_rereads(inp, st, args[place as int], flag);
    }
}

#[verifier::spinoff_prover]
#[verifier::rlimit(50)]
proof fn calls_reread(inp: Input, st: State, node: RstTree, flag: PrintFlag)
    requires
        !inp.debug,
        spells_calls(inp, st, node, flag) is Some,
    ensures
        ({
            let (st1, finished) = spells_calls(inp, st, node, flag)->Some_0;
            &&& goes_on(st, st1)
            &&& calls_come_to(inp, st, flag, st1, node, finished)
            &&& node is FuncCall ==> node->FuncCall_flag == flag
            &&& node is AnonFuncCall ==> node->AnonFuncCall_flag == flag
            &&& node is FuncCall || node is AnonFuncCall
        }),
    decreases node, 0nat, 0nat,
{
    let (st9, finished) = spells_calls(inp, st, node, flag)->Some_0;
    match node {
        RstTree::FuncCall { id, args, flag: own } => {
            before_args_reread(inp, st, args, flag);
            let st1 = spells_before_args(inp, st, args, flag)->Some_0;
            let composed = call_before(args);
            unfold_calls(inp, st1, flag, composed);
            unfold_call(inp, st1, flag, composed);
            let st2 = skip(inp, st1);
            unfold_named_call(inp, st2, flag, composed);
            path_rereads(inp, st2, id, false);
            let st3 = spells_path(inp, st2, id, false)->Some_0;
            unfold_call_rest(inp, st3, composed, composed is Some);
            call_rest_rereads(
                inp,
                skip(inp, st3),
                args,
                place_of_call(args),
                composed,
                composed is Some,
            );
            let st4 = spells_call_rest(inp, skip(inp, st3), args, place_of_call(args))->Some_0.0;
            use_is_captured(st4, id);
        },
        RstTree::AnonFuncCall { expr, args, flag: own } => {
            if expr.name is None {
                before_rereads(inp, st, expr, flag);
                let st1 = spells_before(inp, st, expr, flag)->Some_0;
                let composed = Some(expr.elements[0]);
                unfold_calls(inp, st1, flag, composed);
                unfold_call(inp, st1, flag, composed);
                let st2 = skip(inp, st1);
                let st3 = skip(inp, step(st2));
                unfold_anon_call(inp, st3, flag, composed);
                unfold_call_rest(inp, step(st3), None, true);
                call_rest_rereads(inp, skip(inp, step(st3)), args, args.len(), None, true);
            } else {
                before_args_reread(inp, st, args, flag);
                let st1 = spells_before_args(inp, st, args, flag)->Some_0;
                let composed = call_before(args);
                unfold_calls(inp, st1, flag, composed);
                unfold_call(inp, st1, flag, composed);
                let st2 = skip(inp, st1);
                let st3 = skip(inp, step(st2));
                unfold_anon_call(inp, st3, flag, composed);
                let mode = SequenceParseMode::AnonFunctionExpr;
                let st4 = spells_sequence(inp, st3, expr)->Some_0;
                call_rest_rereads(
                    inp,
                    st4,
                    args,
                    place_of_call(args),
                    composed,
                    composed is Some,
                );
                sequence_rereads(inp, st3, mode, expr);
                let read = read_sequence(inp, st3, mode).0->Ok_0;
                assert(read.tree == expr);
                unfold_callee_args(inp, step(st4), read.end, composed);
            }
        },
        _ => {},
    }
}

/// What was read behind the function of a call.
spec fn rest_read(
    inp: Input,
    args: Seq<SequenceTree>,
    outcome: (Result<ArgsRead, ParseStop>, State),
    st: State,
    finished: bool,
) -> bool {
    &&& outcome.0 matches Ok(read) && with_composed(inp, read) == args && read.finished == finished
    &&& outcome.1 == st
}

#[verifier::spinoff_prover]
#[verifier::rlimit(50)]
proof fn call_rest_rereads(
    inp: Input,
    st: State,
    args: Seq<SequenceTree>,
    place: nat,
    composed: Option<RstTree>,
    composing: bool,
)
    requires
        !inp.debug,
        place <= args.len(),
        place < args.len() ==> composing && composed == Some(args[place as int].elements[0])
            && args[place as int] == sequence_of(inp, args[place as int].elements[0]),
        place == args.len() ==> composed is None,
        spells_call_rest(inp, st, args, place) is Some,
    ensures
        ({
            let (st1, finished) = spells_call_rest(inp, st, args, place)->Some_0;
            let token = inp.lexemes[st.pos as int].token;
            &&& goes_on(st, st1)
            &&& st.pos < st1.pos
            &&& unread(inp, st)
            &&& token is RightBracket || token is Compose || token is Colon
            &&& token is RightBracket || token is Compose ==> {
                &&& with_composed(inp, ArgsRead { args: Seq::empty(), composed, finished }) == args
                &&& finished == (token is RightBracket)
                &&& st1 == step(st)
            }
            &&& token is Colon ==> rest_read(
                inp,
                args,
                read_args(inp, step(st), composing, composed, Seq::empty()),
                st1,
                finished,
            )
        }),
    decreases args, args.len() + 1, 0nat,
{
    let token = inp.lexemes[st.pos as int].token;
    if token is Colon {
        if place == 0 && args.len() > 0 && !sees(inp, skip(inp, step(st)), Sign::ComposeValue) {
            assert(args.subrange(1, 1) =~= Seq::empty());
            args_reread(inp, step(st), args, 1, 1, args.len(), composed, composing);
            assert(seq![args[0]] + args.subrange(1, args.len() as int) =~= args);
        } else {
            assert(args.subrange(0, 0) =~= Seq::empty());
            args_reread(inp, step(st), args, 0, 0, place, composed, composing);
            assert(args.subrange(0, args.len() as int) =~= args);
        }
    } else {
        let read = ArgsRead { args: Seq::empty(), composed, finished: true };
        assert(with_composed(inp, read) =~= args);
    }
}

#[verifier::spinoff_prover]
#[verifier::rlimit(50)]
proof fn args_reread(
    inp: Input,
    st: State,
    args: Seq<SequenceTree>,
    from: nat,
    i: nat,
    place: nat,
    composed: Option<RstTree>,
    composing: bool,
)
    requires
        !inp.debug,
        from <= i <= args.len(),
        i <= place < args.len() ==> composing && composed == Some(args[place as int].elements[0])
            && args[place as int] == sequence_of(inp, args[place as int].elements[0]),
        spells_args(inp, st, args, i, place) is Some,
    ensures
        ({
            let (st1, finished) = spells_args(inp, st, args, i, place)->Some_0;
            &&& goes_on(st, st1)
            &&& st.pos < st1.pos
            &&& read_args(
                inp,
                st,
                composing,
                composed,
                args.subrange(from as int, i as int),
            ) == (
                Ok::<ArgsRead, ParseStop>(
                    ArgsRead {
                        args: args.subrange(from as int, args.len() as int),
                        composed: if i <= place < args.len() {
                            None
                        } else {
                            composed
                        },
                        finished,
                    },
                ),
                st1,
            )
        }),
    decreases args, args.len() - i, 0nat,
{
    let before = args.subrange(from as int, i as int);
    unfold_args(inp, st, composing, composed, before);
    let st1 = skip(inp, st);
    let arg = args[i as int];
    assert(before.push(arg) =~= args.subrange(from as int, (i + 1) as int));
    if i == place {
        let st2 = skip(inp, step(st1));
        if i + 1 < args.len() {
            args_reread(inp, step(st2), args, from, i + 1, place, None, composing);
        }
    } else {
        sequence_rereads(inp, st1, SequenceParseMode::FunctionArg, arg);
        let read = read_sequence(inp, st1, SequenceParseMode::FunctionArg).0->Ok_0;
        assert(read.tree == arg);
        let st2 = spells_sequence(inp, st1, arg)->Some_0;
        if i + 1 < args.len() {
            args_reread(inp, step(st2), args, from, i + 1, place, composed, composing);
        }
    }
}

// What holds of every program.

/// A program is read as it is written: if the tokens spell the nodes to their end, the nodes are
/// what is read, and nothing is reported.
pub proof fn programs_are_read_as_written(inp: Input, st: State, nodes: Seq<RstTree>)
    requires
        !inp.debug,
        spells_nodes(inp, enter_scope(st, Set::empty()), nodes, 0, None) matches Some(st1)
            && st1.pos >= inp.lexemes.len(),
    ensures
        ({
            let (result, after) = read_sequence(inp, st, SequenceParseMode::TopLevel);
            &&& result matches Ok(read) && read.tree == (SequenceTree {
                name: Some("main scope"@),
                origin: inp.origin,
                elements: nodes,
            }) && read.printing == any_prints(nodes, nodes.len())
            &&& after == leave_scope(
                spells_nodes(inp, enter_scope(st, Set::empty()), nodes, 0, None)->Some_0,
            )
        }),
{
    let sequence = SequenceTree { name: None, origin: inp.origin, elements: nodes };
    sequence_rereads(inp, st, SequenceParseMode::TopLevel, sequence);
}

/// A sequence inside a program is read as it is written, up to the token that ends it.
pub proof fn sequences_are_read_as_written(
    inp: Input,
    st: State,
    mode: SequenceParseMode,
    sequence: SequenceTree,
)
    requires
        !inp.debug,
        mode != SequenceParseMode::SingleItem,
        spells_sequence(inp, st, sequence) matches Some(st1) && unread(inp, st1) && closing(
            mode,
            inp.lexemes[st1.pos as int].token,
        ) is Some,
    ensures
        ({
            let (result, after) = read_sequence(inp, st, mode);
            &&& result matches Ok(read) && read.tree.elements == sequence.elements
            &&& after == step(spells_sequence(inp, st, sequence)->Some_0)
        }),
{
    sequence_rereads(inp, st, mode, sequence);
}

/// A list of accessors is read as it is written.
pub proof fn accessors_are_read_as_written(inp: Input, st: State, nodes: Seq<RstTree>)
    requires
        !inp.debug,
        st.scopes.len() > 0,
        spells_accessors(inp, st, nodes, 0) is Some,
    ensures
        read_accessors(inp, st, Seq::empty()) == (
            Ok::<Seq<RstTree>, ParseStop>(nodes),
            spells_accessors(inp, st, nodes, 0)->Some_0,
        ),
{
    assert(nodes.take(0) =~= Seq::empty());
    accessors_reread(inp, st, nodes, 0);
}

/// What reading accessors comes to, once one has been read.
proof fn accessors_go_on(
    inp: Input,
    st: State,
    accessors: Seq<RstTree>,
    node: RstTree,
    more: bool,
    st1: State,
)
    requires
        accessors.len() > 0 ==> !sees(inp, skip(inp, st), Sign::RightAngle),
        read_accessor(inp, skip(inp, st), span_here(inp, st)) == (
            Ok::<(RstTree, bool), ParseStop>((node, more)),
            st1,
        ),
        st.pos < st1.pos <= inp.lexemes.len(),
    ensures
        read_accessors(inp, st, accessors) == if more {
            read_accessors(inp, st1, accessors.push(node))
        } else {
            (Ok::<Seq<RstTree>, ParseStop>(accessors.push(node)), st1)
        },
        sees(inp, skip(inp, st1), Sign::RightAngle) ==> read_accessors(
            inp,
            st1,
            accessors.push(node),
        ) == (
            Ok::<Seq<RstTree>, ParseStop>(accessors.push(node)),
            step(skip(inp, st1)),
        ),
{
    unfold_accessors(inp, st, accessors);
    unfold_accessors(inp, st1, accessors.push(node));
}

proof fn next_accessor_rereads(inp: Input, st: State, node: RstTree)
    requires
        !inp.debug,
        st.scopes.len() > 0,
        spells_next_accessor(inp, st, node) is Some,
    ensures
        accessor_read(
            skip(inp, st),
            spells_next_accessor(inp, st, node),
            node,
            read_accessor(inp, skip(inp, st), span_here(inp, st)),
            inp,
        ),
{
    reveal(spells_next_accessor);
    accessor_rereads(inp, skip(inp, st), span_here(inp, st), node);
}

proof fn accessors_reread(inp: Input, st: State, nodes: Seq<RstTree>, i: nat)
    requires
        !inp.debug,
        st.scopes.len() > 0,
        i > 0 ==> !sees(inp, skip(inp, st), Sign::RightAngle),
        spells_accessors(inp, st, nodes, i) is Some,
    ensures
        read_accessors(inp, st, nodes.take(i as int)) == (
            Ok::<Seq<RstTree>, ParseStop>(nodes),
            spells_accessors(inp, st, nodes, i)->Some_0,
        ),
    decreases nodes.len() - i,
{
    let node = nodes[i as int];
    next_accessor_rereads(inp, st, node);
    let (st1, more) = spells_next_accessor(inp, st, node)->Some_0;
    accessors_go_on(inp, st, nodes.take(i as int), node, more, st1);
    assert(nodes.take(i as int).push(node) =~= nodes.take((i + 1) as int));
    if i + 1 < nodes.len() {
        accessors_reread(inp, st1, nodes, i + 1);
    } else {
        assert(nodes.take((i + 1) as int) =~= nodes);
    }
}

/// The call of a function by its name, with the call of the function before it in `names` as its
/// one argument, and so on.
pub open spec fn nested(inp: Input, names: Seq<Seq<char>>, count: nat, flag: PrintFlag) -> RstTree
    decreases count,
{
    let id = PathTree {
        parts: seq![ComponentTree::Name(names[count - 1])],
        kind: AccessPathKind::Local,
    };
    if count <= 1 {
        RstTree::FuncCall { id, args: Seq::empty(), flag }
    } else {
        let before = nested(inp, names, (count - 1) as nat, flag);
        RstTree::FuncCall {
            id,
            args: seq![SequenceTree { name: None, origin: inp.origin, elements: seq![before] }],
            flag,
        }
    }
}

/// Whether the tokens from `pos` on are the names, with signs that compose them in between and a
/// closing bracket at the end.
pub open spec fn composes(inp: Input, pos: nat, names: Seq<Seq<char>>) -> bool {
    &&& pos + 2 * names.len() <= inp.lexemes.len()
    &&& forall|i: int|
        0 <= i < names.len() ==> {
            &&& valid_ident(#[trigger] names[i])
            &&& inp.lexemes[pos + 2 * i].token is Fragment
            &&& inp.lexemes[pos + 2 * i].text@ == names[i]
            &&& i + 1 < names.len() ==> inp.lexemes[pos + 2 * i + 1].token is Compose
            &&& i + 1 == names.len() ==> inp.lexemes[pos + 2 * i + 1].token is RightBracket
        }
}

/// The names of functions, with signs that compose them in between and a closing bracket at the
/// end, are a call of the last function on a call of the one before it, and so on.
pub proof fn plain_compositions_nest(
    inp: Input,
    st: State,
    flag: PrintFlag,
    names: Seq<Seq<char>>,
)
    requires
        !inp.debug,
        names.len() > 0,
        composes(inp, st.pos, names),
    ensures
        ({
            let (result, after) = read_calls(inp, st, flag, None);
            &&& result == Ok::<RstTree, ParseStop>(nested(inp, names, names.len(), flag))
            &&& after.pos == st.pos + 2 * names.len()
            &&& after.reports == st.reports
        }),
{
    composition_is_spelled(inp, st, flag, names, names.len());
    calls_reread(inp, st, nested(inp, names, names.len(), flag), flag);
}

#[verifier::spinoff_prover]
#[verifier::rlimit(60)]
proof fn composition_is_spelled(
    inp: Input,
    st: State,
    flag: PrintFlag,
    names: Seq<Seq<char>>,
    count: nat,
)
    requires
        0 < count <= names.len(),
        composes(inp, st.pos, names),
    ensures
        spells_calls(inp, st, nested(inp, names, count, flag), flag) matches Some((st1, finished))
            && st1.pos == st.pos + 2 * count && st1.reports == st.reports && finished == (count
            == names.len()),
    decreases count,
{
    let node = nested(inp, names, count, flag);
    let args = node->FuncCall_args;
    let id = node->FuncCall_id;
    let name = names[count - 1];
    reveal_with_fuel(place_of_call, 2);
    if count > 1 {
        let before = (count - 1) as nat;
        composition_is_spelled(inp, st, flag, names, before);
        let arg = args[0];
        assert(arg.elements =~= seq![nested(inp, names, before, flag)]);
        assert(spells_before(inp, st, arg, flag) is Some);
    }
    let st1 = spells_before_args(inp, st, args, flag)->Some_0;
    assert(st1.pos == st.pos + 2 * (count - 1));
    assert(inp.lexemes[st1.pos as int].token is Fragment);
    assert(skip(inp, st1) == st1);
    let st2 = step(st1);
    assert(inp.lexemes[st2.pos as int].token is Compose
        || inp.lexemes[st2.pos as int].token is RightBracket);
    assert(skip(inp, st2) == st2);
    assert(spells_parts(inp, st2, id.parts, 1) == Some(st2));
    assert(spells_path(inp, st1, id, false) == Some(st2));
    assert(spells_call_rest(inp, st2, args, place_of_call(args)) == Some(
        (step(st2), count == names.len()),
    ));
}

/// A colon or a semicolon is text where it ends nothing. It keeps the whitespace before it waiting
/// for what prints.
pub proof fn separators_are_text_where_they_end_nothing(
    inp: Input,
    st: State,
    mode: SequenceParseMode,
    d: Draft,
)
    requires
        !inp.debug,
        d.flag == PrintFlag::Plain,
        unread(inp, st),
        ({
            let token = inp.lexemes[st.pos as int].token;
            ||| token is Colon && mode != SequenceParseMode::AnonFunctionExpr && mode
                != SequenceParseMode::BlockElementAny
            ||| token is Semi && mode != SequenceParseMode::FunctionArg && mode
                != SequenceParseMode::VariableAssignment && mode
                != SequenceParseMode::AccessorFallbackValue && mode
                != SequenceParseMode::CollectionInit
        }),
    ensures
        read_item(inp, st, mode, d) == (
            Ok::<ItemRead, ParseStop>(
                ItemRead::Item(
                    Draft {
                        nodes: d.nodes.push(
                            RstTree::Fragment(
                                if inp.lexemes[st.pos as int].token is Colon {
                                    ":"@
                                } else {
                                    ";"@
                                },
                            ),
                        ),
                        ..d
                    },
                ),
            ),
            step(st),
        ),
{
    unfold_item(inp, st, mode, d);
}

/// A list of accessors adds each of them in order. Whitespace before the list is kept if a getter
/// is among them: it goes before the first one.
pub proof fn accessors_are_added_in_order(
    inp: Input,
    d: Draft,
    span: Range<usize>,
    accessors: Seq<RstTree>,
    first: nat,
)
    requires
        !inp.debug,
        first <= accessors.len(),
        forall|i: int| 0 <= i < first ==> !(#[trigger] accessors[i] is VarGet),
        first < accessors.len() ==> accessors[first as int] is VarGet,
    ensures
        ({
            let after = with_accessors(inp, d, span, accessors);
            &&& after.flag == d.flag && after.flag_span == d.flag_span
            &&& first == accessors.len() ==> after.nodes == d.nodes + accessors && after.ws == d.ws
                && after.printing == d.printing
            &&& first < accessors.len() ==> after.printing && after.ws is None && after.nodes
                == d.nodes + accessors.take(first as int) + (match d.ws {
                Some(ws) => seq![RstTree::Whitespace(ws)],
                None => Seq::empty(),
            }) + accessors.skip(first as int)
        }),
    decreases accessors.len(),
{
    if accessors.len() > 0 {
        let before = accessors.drop_last();
        let last = accessors.last();
        let place = (accessors.len() - 1) as nat;
        let space = match d.ws {
            Some(ws) => seq![RstTree::Whitespace(ws)],
            None => Seq::empty(),
        };
        if first < accessors.len() {
            if first < place {
                assert(before[first as int] == accessors[first as int]);
                assert forall|i: int| 0 <= i < first implies !(
                #[trigger] before[i] is VarGet) by {
                    assert(before[i] == accessors[i]);
                }
                accessors_are_added_in_order(inp, d, span, before, first);
                assert(before.take(first as int) =~= accessors.take(first as int));
                assert(before.skip(first as int).push(last) =~= accessors.skip(first as int));
            } else {
                assert forall|i: int| 0 <= i < place implies !(
                #[trigger] before[i] is VarGet) by {
                    assert(before[i] == accessors[i]);
                }
                accessors_are_added_in_order(inp, d, span, before, place);
                assert(before =~= accessors.take(first as int));
                assert(accessors.skip(first as int) =~= seq![last]);
            }
            let after = with_accessors(inp, d, span, accessors);
            assert(after.nodes =~= d.nodes + accessors.take(first as int) + space + accessors.skip(
                first as int,
            ));
        } else {
            assert forall|i: int| 0 <= i < place implies !(#[trigger] before[i] is VarGet) by {
                assert(before[i] == accessors[i]);
            }
            accessors_are_added_in_order(inp, d, span, before, place);
            assert(accessors[place as int] == last);
            assert(d.nodes + accessors =~= (d.nodes + before).push(last));
        }
    } else {
        assert(d.nodes + accessors =~= d.nodes);
    }
}

} // verus!
