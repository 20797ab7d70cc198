//! Recording positions changes nothing else.
//!
//! A parser that records positions reads, reports and builds the same as one that does not, but for
//! the positions in the tree.

use std::ops::Range;
use vstd::prelude::*;
use crate::compiler::grammar::{
    after_key, ahead, anon_call, at, blank, block_item, body_name, capture, covering, enter_scope,
    left, literal, location, name_part, param_names, past, read_access, read_accessor,
    read_accessors, read_anon_call, read_args, read_block, read_block_element, read_block_elements,
    read_call, read_call_rest, read_callee_args, read_calls, read_definition, read_dynamic_key,
    read_func_access, read_func_body, read_ident, read_item, read_items, read_list,
    read_list_elements, read_map, read_map_key, read_named_call, read_opened, read_param,
    read_param_list, read_params, read_path, read_path_kind, read_path_rest, read_plain,
    read_sequence, report, sequence_of, skip, solid, span_here, step, unflagged, unread,
    with_accessors, with_block, with_composed, with_node, with_printing, with_ws, ArgsRead, Draft,
    Input, ItemRead, ParseStop, SequenceEndType, SequenceParseMode, SequenceRead, State,
};
use crate::compiler::lang::{
    parts_text, AccessPathKind, BlockTree, CaptureTree, ComponentTree, KeyTree, ParameterTree,
    PathTree, PrintFlag, RstTree, SequenceTree,
};
use crate::compiler::lexer::{Lexeme, RantToken};
use crate::compiler::message::ProblemView;
use crate::compiler::production::functions::lemma_read_named_call;
use crate::compiler::production::items::lemma_read_opened;
use crate::compiler::production::sequences::lemma_read_block_element;
use crate::compiler::reader::{lemma_after_ws, TokenKind};

verus! {

broadcast use lemma_after_ws;

// Trees without positions.

/// A list of nodes without the positions in it.
pub open spec fn bare_nodes(nodes: Seq<RstTree>) -> Seq<RstTree>
    decreases nodes,
{
    if nodes.len() == 0 {
        Seq::empty()
    } else if nodes.last() is DebugCursor {
        bare_nodes(nodes.drop_last())
    } else {
        bare_nodes(nodes.drop_last()).push(bare(nodes.last()))
    }
}

pub open spec fn bare_sequence(tree: SequenceTree) -> SequenceTree
    decreases tree,
{
    SequenceTree { elements: bare_nodes(tree.elements), ..tree }
}

pub open spec fn bare_sequences(trees: Seq<SequenceTree>) -> Seq<SequenceTree>
    decreases trees,
{
    if trees.len() == 0 {
        Seq::empty()
    } else {
        bare_sequences(trees.drop_last()).push(bare_sequence(trees.last()))
    }
}

pub open spec fn bare_block(tree: BlockTree) -> BlockTree
    decreases tree,
{
    BlockTree { elements: bare_sequences(tree.elements), ..tree }
}

pub open spec fn bare_component(tree: ComponentTree) -> ComponentTree
    decreases tree,
{
    match tree {
        ComponentTree::DynamicKey(key) => ComponentTree::DynamicKey(bare_sequence(key)),
        ComponentTree::AnonymousValue(value) => ComponentTree::AnonymousValue(bare_sequence(value)),
        _ => tree,
    }
}

pub open spec fn bare_components(trees: Seq<ComponentTree>) -> Seq<ComponentTree>
    decreases trees,
{
    if trees.len() == 0 {
        Seq::empty()
    } else {
        bare_components(trees.drop_last()).push(bare_component(trees.last()))
    }
}

pub open spec fn bare_path(tree: PathTree) -> PathTree
    decreases tree,
{
    PathTree { parts: bare_components(tree.parts), ..tree }
}

pub open spec fn bare_key(tree: KeyTree) -> KeyTree
    decreases tree,
{
    match tree {
        KeyTree::Dynamic(key) => KeyTree::Dynamic(bare_sequence(key)),
        KeyTree::Static(_) => tree,
    }
}

pub open spec fn bare_pairs(trees: Seq<(KeyTree, SequenceTree)>) -> Seq<(KeyTree, SequenceTree)>
    decreases trees,
{
    if trees.len() == 0 {
        Seq::empty()
    } else {
        bare_pairs(trees.drop_last()).push(
            (bare_key(trees.last().0), bare_sequence(trees.last().1)),
        )
    }
}

/// A node without the positions inside it.
pub open spec fn bare(tree: RstTree) -> RstTree
    decreases tree,
{
    match tree {
        RstTree::ListInit(items) => RstTree::ListInit(bare_sequences(items)),
        RstTree::MapInit(pairs) => RstTree::MapInit(bare_pairs(pairs)),
        RstTree::Block(block) => RstTree::Block(bare_block(block)),
        RstTree::BlockValue(block) => RstTree::BlockValue(bare_block(block)),
        RstTree::VarDef(id, kind, value) => RstTree::VarDef(
            id,
            kind,
            match value {
                Some(value) => Some(bare_sequence(value)),
                None => None,
            },
        ),
        RstTree::VarGet(path, fallback) => RstTree::VarGet(
            bare_path(path),
            match fallback {
                Some(fallback) => Some(bare_sequence(fallback)),
                None => None,
            },
        ),
        RstTree::VarSet(path, value) => RstTree::VarSet(bare_path(path), bare_sequence(value)),
        RstTree::FuncDef { id, params, captures, body } => RstTree::FuncDef {
            id: bare_path(id),
            params,
            captures,
            body: bare_sequence(body),
        },
        RstTree::Closure { params, captures, expr } => RstTree::Closure {
            params,
            captures,
            expr: bare_sequence(expr),
        },
        RstTree::AnonFuncCall { expr, args, flag } => RstTree::AnonFuncCall {
            expr: bare_sequence(expr),
            args: bare_sequences(args),
            flag,
        },
        RstTree::FuncCall { id, args, flag } => RstTree::FuncCall {
            id: bare_path(id),
            args: bare_sequences(args),
            flag,
        },
        _ => tree,
    }
}

pub(crate) proof fn lemma_nodes_push(nodes: Seq<RstTree>, node: RstTree)
    ensures
        bare_nodes(nodes.push(node)) == if node is DebugCursor {
            bare_nodes(nodes)
        } else {
            bare_nodes(nodes).push(bare(node))
        },
{
    assert(nodes.push(node).drop_last() =~= nodes);
}

proof fn lemma_sequences_push(trees: Seq<SequenceTree>, tree: SequenceTree)
    ensures
        bare_sequences(trees.push(tree)) == bare_sequences(trees).push(bare_sequence(tree)),
{
    assert(trees.push(tree).drop_last() =~= trees);
}

proof fn lemma_sequences_first(tree: SequenceTree, trees: Seq<SequenceTree>)
    ensures
        bare_sequences(seq![tree] + trees) == seq![bare_sequence(tree)] + bare_sequences(trees),
    decreases trees.len(),
{
    let all = seq![tree] + trees;
    if trees.len() == 0 {
        lemma_sequences_push(Seq::empty(), tree);
        assert(all =~= Seq::empty().push(tree));
        assert(bare_sequences(all) =~= seq![bare_sequence(tree)] + bare_sequences(trees));
    } else {
        lemma_sequences_first(tree, trees.drop_last());
        assert(all.drop_last() =~= seq![tree] + trees.drop_last());
        assert(bare_sequences(all) =~= seq![bare_sequence(tree)] + bare_sequences(trees));
    }
}

proof fn lemma_components_push(trees: Seq<ComponentTree>, tree: ComponentTree)
    ensures
        bare_components(trees.push(tree)) == bare_components(trees).push(bare_component(tree)),
{
    assert(trees.push(tree).drop_last() =~= trees);
}

proof fn lemma_components_one(tree: ComponentTree)
    ensures
        bare_components(seq![tree]) == seq![bare_component(tree)],
{
    lemma_components_push(Seq::empty(), tree);
    assert(seq![tree] =~= Seq::empty().push(tree));
    assert(bare_components(seq![tree]) =~= seq![bare_component(tree)]);
}

proof fn lemma_pairs_push(trees: Seq<(KeyTree, SequenceTree)>, tree: (KeyTree, SequenceTree))
    ensures
        bare_pairs(trees.push(tree)) == bare_pairs(trees).push(
            (bare_key(tree.0), bare_sequence(tree.1)),
        ),
{
    assert(trees.push(tree).drop_last() =~= trees);
}

/// A path reads and captures the same without the positions inside it.
proof fn lemma_path(path: PathTree)
    ensures
        bare_path(path).variable() == path.variable(),
        bare_path(path).anonymous() == path.anonymous(),
        bare_path(path).parts.len() == path.parts.len(),
        bare_path(path).text() == path.text(),
{
    lemma_components(path.parts);
    if path.parts.len() > 0 {
        assert(bare_path(path).parts[0] == bare_component(path.parts[0]));
    }
}

proof fn lemma_components(parts: Seq<ComponentTree>)
    ensures
        bare_components(parts).len() == parts.len(),
        forall|i: int|
            0 <= i < parts.len() ==> #[trigger] bare_components(parts)[i] == bare_component(
                parts[i],
            ),
        parts_text(bare_components(parts))
            == parts_text(parts),
    decreases parts.len(),
{
    if parts.len() > 0 {
        let rest = parts.drop_last();
        lemma_components(rest);
        let bare_parts = bare_components(parts);
        assert(bare_parts.drop_last() =~= bare_components(rest));
        assert forall|i: int| 0 <= i < parts.len() implies #[trigger] bare_parts[i]
            == bare_component(parts[i]) by {
            if i < rest.len() {
                assert(bare_components(rest)[i] == bare_component(rest[i]));
            }
        }
        assert(bare_component(parts.last()).text() == parts.last().text());
        if parts.len() == 1 {
            assert(bare_parts[0] == bare_component(parts[0]));
        }
    }
}

proof fn lemma_capture(st: State, node: RstTree)
    ensures
        capture(st, bare(node)) == capture(st, node),
        bare(node).label() == node.label(),
{
    match node {
        RstTree::VarGet(path, _) => lemma_path(path),
        RstTree::VarSet(path, _) => lemma_path(path),
        RstTree::FuncCall { id, .. } => lemma_path(id),
        _ => {},
    }
}

// Drafts.

/// The same input, read without recording positions.
pub open spec fn plain(inp: Input) -> Input {
    Input { debug: false, ..inp }
}

pub open spec fn bare_draft(d: Draft) -> Draft {
    Draft { nodes: bare_nodes(d.nodes), ..d }
}

proof fn lemma_with_node(inp: Input, d: Draft, span: Range<usize>, node: RstTree)
    requires
        !(node is DebugCursor),
    ensures
        with_node(plain(inp), bare_draft(d), span, bare(node)) == bare_draft(
            with_node(inp, d, span, node),
        ),
{
    let cursor = RstTree::DebugCursor(location(inp, span));
    lemma_nodes_push(d.nodes, node);
    lemma_nodes_push(d.nodes, cursor);
    lemma_nodes_push(d.nodes.push(cursor), node);
}

proof fn lemma_with_ws(inp: Input, d: Draft, span: Range<usize>)
    ensures
        with_ws(plain(inp), bare_draft(d), span) == bare_draft(with_ws(inp, d, span)),
        with_printing(plain(inp), bare_draft(d), span) == bare_draft(with_printing(inp, d, span)),
{
    if let Some(ws) = d.ws {
        lemma_with_node(inp, Draft { ws: None, ..d }, span, RstTree::Whitespace(ws));
    }
}

proof fn lemma_with_block(
    inp: Input,
    d: Draft,
    span: Range<usize>,
    block_flag: PrintFlag,
    node: RstTree,
)
    requires
        !(node is DebugCursor),
    ensures
        with_block(plain(inp), bare_draft(d), span, block_flag, bare(node)) == bare_draft(
            with_block(inp, d, span, block_flag, node),
        ),
{
    lemma_with_ws(inp, d, span);
    lemma_with_node(inp, with_printing(inp, d, span), span, node);
    lemma_with_node(inp, d, span, node);
}

/// No node of a list is a position.
pub open spec fn no_cursors(nodes: Seq<RstTree>) -> bool {
    forall|i: int| 0 <= i < nodes.len() ==> !((#[trigger] nodes[i]) is DebugCursor)
}

proof fn lemma_no_cursors(nodes: Seq<RstTree>)
    requires
        no_cursors(nodes),
    ensures
        bare_nodes(nodes).len() == nodes.len(),
        nodes.len() > 0 ==> {
            &&& bare_nodes(nodes).drop_last() == bare_nodes(nodes.drop_last())
            &&& bare_nodes(nodes).last() == bare(nodes.last())
        },
    decreases nodes.len(),
{
    if nodes.len() > 0 {
        assert(!(nodes[nodes.len() - 1] is DebugCursor));
        let rest = nodes.drop_last();
        assert forall|i: int| 0 <= i < rest.len() implies !((#[trigger] rest[i]) is DebugCursor) by {
            assert(!(nodes[i] is DebugCursor));
        }
        lemma_no_cursors(rest);
        assert(bare_nodes(nodes).drop_last() =~= bare_nodes(rest));
    }
}

proof fn lemma_with_accessors(inp: Input, d: Draft, span: Range<usize>, accessors: Seq<RstTree>)
    requires
        no_cursors(accessors),
    ensures
        with_accessors(plain(inp), bare_draft(d), span, bare_nodes(accessors)) == bare_draft(
            with_accessors(inp, d, span, accessors),
        ),
    decreases accessors.len(),
{
    lemma_no_cursors(accessors);
    if accessors.len() > 0 {
        let rest = accessors.drop_last();
        assert forall|i: int| 0 <= i < rest.len() implies !((#[trigger] rest[i]) is DebugCursor) by {
            assert(!(accessors[i] is DebugCursor));
        }
        assert(!(accessors[accessors.len() - 1] is DebugCursor));
        lemma_with_accessors(inp, d, span, rest);
        let before = with_accessors(inp, d, span, rest);
        lemma_with_ws(inp, before, span);
        lemma_with_node(inp, with_printing(inp, before, span), span, accessors.last());
        lemma_with_node(inp, before, span, accessors.last());
    }
}

// Results.

pub open spec fn bare_read(read: SequenceRead) -> SequenceRead {
    SequenceRead { tree: bare_sequence(read.tree), ..read }
}

pub open spec fn bare_read_result(result: Result<SequenceRead, ParseStop>) -> Result<
    SequenceRead,
    ParseStop,
> {
    match result {
        Ok(read) => Ok(bare_read(read)),
        Err(stop) => Err(stop),
    }
}

pub(crate) open spec fn bare_item(item: ItemRead) -> ItemRead {
    match item {
        ItemRead::Flagged(d) => ItemRead::Flagged(bare_draft(d)),
        ItemRead::Item(d) => ItemRead::Item(bare_draft(d)),
        ItemRead::Ended(read) => ItemRead::Ended(bare_read(read)),
    }
}

pub(crate) open spec fn bare_item_result(
    result: Result<ItemRead, ParseStop>,
) -> Result<ItemRead, ParseStop> {
    match result {
        Ok(item) => Ok(bare_item(item)),
        Err(stop) => Err(stop),
    }
}

pub(crate) open spec fn bare_draft_result(
    result: Result<Draft, ParseStop>,
) -> Result<Draft, ParseStop> {
    match result {
        Ok(d) => Ok(bare_draft(d)),
        Err(stop) => Err(stop),
    }
}

pub(crate) open spec fn bare_node_result(
    result: Result<RstTree, ParseStop>,
) -> Result<RstTree, ParseStop> {
    match result {
        Ok(node) => Ok(bare(node)),
        Err(stop) => Err(stop),
    }
}

pub(crate) open spec fn bare_block_result(
    result: Result<BlockTree, ParseStop>,
) -> Result<BlockTree, ParseStop> {
    match result {
        Ok(block) => Ok(bare_block(block)),
        Err(stop) => Err(stop),
    }
}

pub(crate) open spec fn bare_elements_result(
    result: Result<(Seq<SequenceTree>, bool), ParseStop>,
) -> Result<(Seq<SequenceTree>, bool), ParseStop> {
    match result {
        Ok((elements, printing)) => Ok((bare_sequences(elements), printing)),
        Err(stop) => Err(stop),
    }
}

pub(crate) open spec fn bare_key_result(result: Result<Option<KeyTree>, ParseStop>) -> Result<
    Option<KeyTree>,
    ParseStop,
> {
    match result {
        Ok(Some(key)) => Ok(Some(bare_key(key))),
        Ok(None) => Ok(None),
        Err(stop) => Err(stop),
    }
}

pub(crate) open spec fn bare_tree_result(result: Result<SequenceTree, ParseStop>) -> Result<
    SequenceTree,
    ParseStop,
> {
    match result {
        Ok(tree) => Ok(bare_sequence(tree)),
        Err(stop) => Err(stop),
    }
}

pub(crate) open spec fn bare_path_result(
    result: Result<PathTree, ParseStop>,
) -> Result<PathTree, ParseStop> {
    match result {
        Ok(path) => Ok(bare_path(path)),
        Err(stop) => Err(stop),
    }
}

pub(crate) open spec fn bare_body_result(
    result: Result<(SequenceTree, CaptureTree), ParseStop>,
) -> Result<(SequenceTree, CaptureTree), ParseStop> {
    match result {
        Ok((body, captures)) => Ok((bare_sequence(body), captures)),
        Err(stop) => Err(stop),
    }
}

pub(crate) open spec fn bare_flagged_result(result: Result<(RstTree, bool), ParseStop>) -> Result<
    (RstTree, bool),
    ParseStop,
> {
    match result {
        Ok((node, flag)) => Ok((bare(node), flag)),
        Err(stop) => Err(stop),
    }
}

pub(crate) open spec fn bare_option(node: Option<RstTree>) -> Option<RstTree> {
    match node {
        Some(node) => Some(bare(node)),
        None => None,
    }
}

pub(crate) open spec fn bare_args(read: ArgsRead) -> ArgsRead {
    ArgsRead {
        args: bare_sequences(read.args),
        composed: bare_option(read.composed),
        finished: read.finished,
    }
}

pub(crate) open spec fn bare_args_result(
    result: Result<ArgsRead, ParseStop>,
) -> Result<ArgsRead, ParseStop> {
    match result {
        Ok(read) => Ok(bare_args(read)),
        Err(stop) => Err(stop),
    }
}

pub(crate) open spec fn bare_nodes_result(result: Result<Seq<RstTree>, ParseStop>) -> Result<
    Seq<RstTree>,
    ParseStop,
> {
    match result {
        Ok(nodes) => Ok(bare_nodes(nodes)),
        Err(stop) => Err(stop),
    }
}

/// A composed value that is not a position.
pub(crate) open spec fn proper(node: Option<RstTree>) -> bool {
    node matches Some(node) ==> !(node is DebugCursor)
}

proof fn lemma_sequence_of(inp: Input, node: RstTree)
    requires
        !(node is DebugCursor),
    ensures
        bare_sequence(sequence_of(inp, node)) == sequence_of(plain(inp), bare(node)),
{
    lemma_nodes_push(Seq::empty(), node);
    assert(seq![node] =~= Seq::empty().push(node));
    assert(bare_nodes(seq![node]) =~= seq![bare(node)]);
}

proof fn lemma_with_composed(inp: Input, read: ArgsRead)
    requires
        proper(read.composed),
    ensures
        with_composed(plain(inp), bare_args(read)) == bare_sequences(with_composed(inp, read)),
{
    if let Some(node) = read.composed {
        lemma_sequence_of(inp, node);
        lemma_sequences_first(sequence_of(inp, node), read.args);
    }
}

// Items.

proof fn lemma_plain_items(
    inp: Input,
    st: State,
    mode: SequenceParseMode,
    d: Draft,
    lexeme: Lexeme,
)
    ensures
        ({
            let (result, st1) = read_plain(inp, st, mode, d, lexeme);
            read_plain(plain(inp), st, mode, bare_draft(d), lexeme) == (
                bare_item_result(result),
                st1,
            )
        }),
{
    lemma_with_ws(inp, d, lexeme.span);
    if let Some((node, _)) = literal(inp, st, lexeme) {
        lemma_with_node(inp, with_printing(inp, d, lexeme.span), lexeme.span, node);
        lemma_with_node(inp, d, lexeme.span, node);
        assert(bare(node) == node);
    }
    lemma_with_node(inp, d, lexeme.span, RstTree::Fragment(":"@));
    lemma_with_node(inp, d, lexeme.span, RstTree::Fragment(";"@));
}

// Constructs.

pub(crate) proof fn same_sequence(
    inp: Input,
    st: State,
    mode: SequenceParseMode,
)
    ensures
        ({
            let (result, st1) = read_sequence(inp, st, mode);
            read_sequence(plain(inp), st, mode) == (bare_read_result(result), st1)
        }),
    decreases left(inp, st), 2nat,
{
    reveal(read_sequence);
    reveal(read_items);
    assert(bare_draft(blank()) == blank());
    same_items(inp, enter_scope(st, Set::empty()), mode, blank());
}

pub(crate) proof fn same_items(
    inp: Input,
    st: State,
    mode: SequenceParseMode,
    d: Draft,
)
    ensures
        ({
            let (result, st1) = read_items(inp, st, mode, d);
            read_items(plain(inp), st, mode, bare_draft(d)) == (bare_read_result(result), st1)
        }),
    decreases left(inp, st), 1nat,
{
    reveal(read_items);
    reveal(read_item);
    if st.pos < inp.lexemes.len() {
        same_item(inp, st, mode, d);
        let (result, st1) = read_item(inp, st, mode, d);
        match result {
            Ok(ItemRead::Flagged(d1)) => same_items(inp, past(st, st1), mode, d1),
            Ok(ItemRead::Item(d1)) => {
                let d2 = unflagged(d1);
                assert(bare_draft(d2) == unflagged(bare_draft(d1)));
                same_items(inp, past(st, st1), mode, d2);
            },
            _ => {},
        }
    }
}

pub(crate) proof fn same_item(
    inp: Input,
    st: State,
    mode: SequenceParseMode,
    d: Draft,
)
    ensures
        ({
            let (result, st1) = read_item(inp, st, mode, d);
            read_item(plain(inp), st, mode, bare_draft(d)) == (bare_item_result(result), st1)
        }),
    decreases left(inp, st), 0nat,
{
    reveal(read_item);
    reveal(read_opened);
    if st.pos < inp.lexemes.len() {
        let lexeme = inp.lexemes[st.pos as int];
        lemma_plain_items(inp, step(st), mode, d, lexeme);
        same_opened(inp, step(st), d, lexeme);
    }
}

pub(crate) proof fn same_opened(
    inp: Input,
    st: State,
    d: Draft,
    lexeme: Lexeme,
)
    ensures
        ({
            let (result, st1) = read_opened(inp, st, d, lexeme);
            read_opened(plain(inp), st, bare_draft(d), lexeme) == (bare_draft_result(result), st1)
        }),
    decreases left(inp, st), 10nat,
{
    lemma_read_opened(inp, st, d, lexeme);
    lemma_read_opened(plain(inp), st, bare_draft(d), lexeme);
    match lexeme.token {
        RantToken::Star => same_block_item(inp, skip(inp, st), d, lexeme.span, true),
        RantToken::LeftBrace => same_block_item(inp, st, d, lexeme.span, false),
        RantToken::At => {
            let (opening, st1) = solid(inp, st);
            lemma_with_node(inp, d, lexeme.span, RstTree::EmptyVal);
            if opening matches Some(opening) && opening.token is LeftParen {
                same_map(inp, st1, lexeme.span, Seq::empty());
                let (result, st2) = read_map(inp, st1, lexeme.span, Seq::empty());
                assert(bare_pairs(Seq::empty()) =~= Seq::empty());
                if let Ok(node) = result {
                    lemma_with_node(inp, d, lexeme.span, node);
                    lemma_capture(st2, node);
                }
            }
        },
        RantToken::LeftParen => {
            same_list(inp, st, lexeme.span);
            let (result, st1) = read_list(inp, st, lexeme.span);
            if let Ok(node) = result {
                lemma_with_node(inp, d, lexeme.span, node);
                lemma_capture(st1, node);
            }
        },
        RantToken::LeftBracket => {
            same_func_access(inp, st, d.flag);
            let (result, st1) = read_func_access(inp, st, d.flag);
            if let Ok(node) = result {
                lemma_with_ws(inp, d, lexeme.span);
                lemma_with_node(inp, with_ws(inp, d, lexeme.span), lexeme.span, node);
                lemma_with_node(inp, d, lexeme.span, node);
                let d1 = Draft { ws: None, ..d };
                assert(bare_draft(d1) == (Draft { ws: None, ..bare_draft(d) }));
                lemma_with_node(inp, d1, lexeme.span, node);
            }
        },
        RantToken::LeftAngle => {
            assert(bare_nodes(Seq::empty()) =~= Seq::empty());
            same_accessors(inp, st, Seq::empty());
            let (result, st1) = read_accessors(inp, st, Seq::empty());
            if let Ok(accessors) = result {
                lemma_with_accessors(inp, d, lexeme.span, accessors);
            }
        },
        _ => {},
    }
}

pub(crate) proof fn same_block_item(
    inp: Input,
    st: State,
    d: Draft,
    span: Range<usize>,
    deferred: bool,
)
    ensures
        ({
            let (result, st1) = block_item(
                inp,
                d,
                span,
                deferred,
                read_block(inp, st, deferred, d.flag),
            );
            block_item(
                plain(inp),
                bare_draft(d),
                span,
                deferred,
                read_block(plain(inp), st, deferred, d.flag),
            ) == (bare_draft_result(result), st1)
        }),
    decreases left(inp, st), 9nat,
{
    same_block(inp, st, deferred, d.flag);
    let (result, st1) = read_block(inp, st, deferred, d.flag);
    if let Ok(block) = result {
        lemma_with_block(inp, d, span, block.flag, RstTree::BlockValue(block));
        lemma_with_block(inp, d, span, block.flag, RstTree::Block(block));
    }
}

pub(crate) proof fn same_block(
    inp: Input,
    st: State,
    expect_opening_brace: bool,
    flag: PrintFlag,
)
    ensures
        ({
            let (result, st1) = read_block(inp, st, expect_opening_brace, flag);
            read_block(
                plain(inp),
                st,
                expect_opening_brace,
                flag,
            ) == (bare_block_result(result), st1)
        }),
    decreases left(inp, st), 4nat,
{
    reveal(read_block);
    reveal(read_block_elements);
    let st1 = if expect_opening_brace {
        step(st)
    } else {
        st
    };
    if !expect_opening_brace || at(inp, st, TokenKind::LeftBrace) {
        assert(bare_sequences(Seq::empty()) =~= Seq::empty());
        same_block_elements(inp, st1, span_here(inp, st1).start, Seq::empty(), false);
    }
}

pub(crate) proof fn same_block_element(inp: Input, st: State)
    ensures
        ({
            let (result, st1) = read_block_element(inp, st);
            read_block_element(plain(inp), st) == (bare_read_result(result), st1)
        }),
    decreases left(inp, st), 2nat,
{
    lemma_read_block_element(inp, st);
    lemma_read_block_element(plain(inp), st);
    assert(bare_draft(blank()) == blank());
    let st0 = enter_scope(st, Set::empty());
    same_items(inp, st0, SequenceParseMode::BlockElementAny, blank());
    let (result, st1) = read_items(inp, st0, SequenceParseMode::BlockElementAny, blank());
    if let Ok(key) = result {
        if key.end == SequenceEndType::BlockAssocDelim && unread(inp, st) {
            let d = Draft {
                nodes: key.tree.elements,
                flag: PrintFlag::Plain,
                flag_span: 0usize..0usize,
                printing: key.printing,
                ws: key.ws,
            };
            lemma_with_node(inp, d, span_here(inp, st1), RstTree::Fragment(":"@));
            same_items(
                inp,
                past(st0, st1),
                SequenceParseMode::BlockElementRhs,
                after_key(inp, st1, key),
            );
        }
    }
}

pub(crate) proof fn same_block_elements(
    inp: Input,
    st: State,
    start: usize,
    elements: Seq<SequenceTree>,
    printing: bool,
)
    ensures
        ({
            let (result, st1) = read_block_elements(inp, st, start, elements, printing);
            read_block_elements(
                plain(inp),
                st,
                start,
                bare_sequences(elements),
                printing,
            ) == (bare_elements_result(result), st1)
        }),
    decreases left(inp, st), 3nat,
{
    reveal(read_block_elements);
    reveal(read_block_element);
    same_block_element(inp, st);
    let (result, st1) = read_block_element(inp, st);
    if let Ok(read) = result {
        lemma_sequences_push(elements, read.tree);
        if read.end == SequenceEndType::BlockDelim && unread(inp, st) {
            same_block_elements(
                inp,
                past(st, st1),
                start,
                elements.push(read.tree),
                printing || read.printing,
            );
        }
    }
}

pub(crate) proof fn same_list(
    inp: Input,
    st: State,
    start: Range<usize>,
)
    ensures
        ({
            let (result, st1) = read_list(inp, st, start);
            &&& read_list(plain(inp), st, start) == (bare_node_result(result), st1)
            &&& result matches Ok(node) ==> !(node is DebugCursor)
        }),
    decreases left(inp, st), 4nat,
{
    reveal(read_list);
    reveal(read_list_elements);
    let st1 = skip(inp, st);
    assert(bare_sequences(Seq::empty()) =~= Seq::empty());
    if !at(inp, st1, TokenKind::RightParen) {
        same_list_elements(inp, st1, start, Seq::empty());
    }
}

pub(crate) proof fn same_list_elements(
    inp: Input,
    st: State,
    start: Range<usize>,
    elements: Seq<SequenceTree>,
)
    ensures
        ({
            let (result, st1) = read_list_elements(inp, st, start, elements);
            &&& read_list_elements(
                plain(inp),
                st,
                start,
                bare_sequences(elements),
            ) == (bare_node_result(result), st1)
            &&& result matches Ok(node) ==> !(node is DebugCursor)
        }),
    decreases left(inp, st), 3nat,
{
    reveal(read_list_elements);
    reveal(read_sequence);
    let st0 = skip(inp, st);
    same_sequence(inp, st0, SequenceParseMode::CollectionInit);
    let (result, st1) = read_sequence(inp, st0, SequenceParseMode::CollectionInit);
    if let Ok(read) = result {
        lemma_sequences_push(elements, read.tree);
        if read.end == SequenceEndType::CollectionInitDelim && unread(inp, st) {
            same_list_elements(inp, past(st, st1), start, elements.push(read.tree));
        }
    }
}

pub(crate) proof fn same_map(
    inp: Input,
    st: State,
    start: Range<usize>,
    pairs: Seq<(KeyTree, SequenceTree)>,
)
    ensures
        ({
            let (result, st1) = read_map(inp, st, start, pairs);
            &&& read_map(
                plain(inp),
                st,
                start,
                bare_pairs(pairs),
            ) == (bare_node_result(result), st1)
            &&& result matches Ok(node) ==> !(node is DebugCursor)
        }),
    decreases left(inp, st), 5nat,
{
    reveal(read_map);
    reveal(read_map_key);
    reveal(read_sequence);
    same_map_key(inp, st, start);
    let (key, st1) = read_map_key(inp, st, start);
    if let Ok(Some(key)) = key {
        let st2 = skip(inp, past(st, st1));
        if at(inp, st2, TokenKind::Equals) {
            let st3 = skip(inp, step(st2));
            same_sequence(inp, st3, SequenceParseMode::CollectionInit);
            let (result, st4) = read_sequence(inp, st3, SequenceParseMode::CollectionInit);
            if let Ok(read) = result {
                lemma_pairs_push(pairs, (key, read.tree));
                if read.end == SequenceEndType::CollectionInitDelim {
                    same_map(inp, ahead(st3, st4), start, pairs.push((key, read.tree)));
                }
            }
        }
    }
}

pub(crate) proof fn same_map_key(
    inp: Input,
    st: State,
    start: Range<usize>,
)
    ensures
        ({
            let (result, st1) = read_map_key(inp, st, start);
            read_map_key(plain(inp), st, start) == (bare_key_result(result), st1)
        }),
    decreases left(inp, st), 4nat,
{
    reveal(read_map_key);
    reveal(read_dynamic_key);
    let (lexeme, st1) = solid(inp, st);
    if lexeme matches Some(lexeme) && lexeme.token is LeftBrace {
        same_dynamic_key(inp, st1, false);
    }
}

pub(crate) proof fn same_dynamic_key(
    inp: Input,
    st: State,
    expect_opening_brace: bool,
)
    ensures
        ({
            let (result, st1) = read_dynamic_key(inp, st, expect_opening_brace);
            read_dynamic_key(
                plain(inp),
                st,
                expect_opening_brace,
            ) == (bare_tree_result(result), st1)
        }),
    decreases left(inp, st), 3nat,
{
    reveal(read_dynamic_key);
    reveal(read_sequence);
    let st1 = if expect_opening_brace {
        step(st)
    } else {
        st
    };
    if !expect_opening_brace || at(inp, st, TokenKind::LeftBrace) {
        same_sequence(inp, st1, SequenceParseMode::DynamicKey);
    }
}

pub(crate) proof fn same_path(
    inp: Input,
    st: State,
    allow_anonymous: bool,
)
    ensures
        ({
            let (result, st1) = read_path(inp, st, allow_anonymous);
            read_path(plain(inp), st, allow_anonymous) == (bare_path_result(result), st1)
        }),
    decreases left(inp, st), 5nat,
{
    reveal(read_path);
    reveal(read_sequence);
    reveal(read_dynamic_key);
    reveal(read_path_rest);
    let st1 = skip(inp, st);
    assert(bare_components(Seq::empty()) =~= Seq::empty());
    if allow_anonymous && at(inp, st1, TokenKind::Bang) {
        let st2 = skip(inp, step(st1));
        same_sequence(inp, st2, SequenceParseMode::SingleItem);
        let (result, st3) = read_sequence(inp, st2, SequenceParseMode::SingleItem);
        if let Ok(read) = result {
            let part = ComponentTree::AnonymousValue(read.tree);
            lemma_components_one(part);
            same_path_rest(inp, ahead(st2, st3), seq![part], AccessPathKind::Local);
        }
    } else {
        let (kind, st2) = read_path_kind(inp, st1);
        let (first, st3) = solid(inp, st2);
        if let Some(lexeme) = first {
            match lexeme.token {
                RantToken::LeftBrace => {
                    same_dynamic_key(inp, st3, false);
                    let (result, st4) = read_dynamic_key(inp, st3, false);
                    if let Ok(key) = result {
                        let part = ComponentTree::DynamicKey(key);
                        lemma_components_one(part);
                        same_path_rest(inp, ahead(st3, st4), seq![part], kind);
                    }
                },
                RantToken::Integer(_) => same_path_rest(
                    inp,
                    report(inp, st3, ProblemView::LocalPathStartsWithIndex, lexeme.span),
                    Seq::empty(),
                    kind,
                ),
                _ => {
                    let (parts, st4) = name_part(inp, st3, Seq::empty(), lexeme);
                    lemma_components_push(Seq::empty(), ComponentTree::Name(lexeme.text@));
                    same_path_rest(inp, st4, parts, kind);
                },
            }
        }
    }
}

pub(crate) proof fn same_path_rest(
    inp: Input,
    st: State,
    parts: Seq<ComponentTree>,
    kind: AccessPathKind,
)
    ensures
        ({
            let (result, st1) = read_path_rest(inp, st, parts, kind);
            read_path_rest(
                plain(inp),
                st,
                bare_components(parts),
                kind,
            ) == (bare_path_result(result), st1)
        }),
    decreases left(inp, st), 4nat,
{
    reveal(read_path_rest);
    reveal(read_dynamic_key);
    let st1 = skip(inp, st);
    if at(inp, st1, TokenKind::Slash) {
        let (component, st2) = solid(inp, step(st1));
        if let Some(lexeme) = component {
            match lexeme.token {
                RantToken::Integer(index) => {
                    let part = ComponentTree::Index(index);
                    lemma_components_push(parts, part);
                    same_path_rest(inp, st2, parts.push(part), kind);
                },
                RantToken::LeftBrace => {
                    same_dynamic_key(inp, st2, false);
                    let (result, st3) = read_dynamic_key(inp, st2, false);
                    if let Ok(key) = result {
                        let part = ComponentTree::DynamicKey(key);
                        lemma_components_push(parts, part);
                        same_path_rest(inp, ahead(st2, st3), parts.push(part), kind);
                    }
                },
                _ => {
                    let (parts1, st3) = name_part(inp, st2, parts, lexeme);
                    lemma_components_push(parts, ComponentTree::Name(lexeme.text@));
                    same_path_rest(inp, st3, parts1, kind);
                },
            }
        }
    }
}

pub(crate) proof fn same_func_body(
    inp: Input,
    st: State,
    params: Seq<ParameterTree>,
)
    ensures
        ({
            let (result, st1) = read_func_body(inp, st, params);
            read_func_body(plain(inp), st, params) == (bare_body_result(result), st1)
        }),
    decreases left(inp, st), 3nat,
{
    reveal(read_func_body);
    reveal(read_items);
    if at(inp, st, TokenKind::LeftBrace) {
        let st1 = step(st);
        let st2 = enter_scope(
            State { captures: st1.captures.push((st1.scopes.len(), Set::empty())), ..st1 },
            param_names(params),
        );
        assert(bare_draft(blank()) == blank());
        same_items(inp, st2, SequenceParseMode::FunctionBody, blank());
    }
}

pub(crate) proof fn same_func_access(
    inp: Input,
    st: State,
    flag: PrintFlag,
)
    ensures
        ({
            let (result, st1) = read_func_access(inp, st, flag);
            &&& read_func_access(plain(inp), st, flag) == (bare_node_result(result), st1)
            &&& result matches Ok(node) ==> !(node is DebugCursor)
        }),
    decreases left(inp, st), 9nat,
{
    lemma_read_func_access(inp, st, flag);
    lemma_read_func_access(plain(inp), st, flag);
    let start = span_here(inp, st);
    let st1 = skip(inp, st);
    if at(inp, st1, TokenKind::Dollar) {
        same_path(inp, step(st1), false);
        let (path, st2) = read_path(inp, step(st1), false);
        if let Ok(path) = path {
            lemma_path(path);
            let (params, st3) = read_params(inp, ahead(step(st1), st2), start);
            same_params(inp, ahead(step(st1), st2), start);
            if let Ok(params) = params {
                same_func_body(inp, skip(inp, ahead(step(st1), st3)), params);
            }
        }
    } else if at(inp, st1, TokenKind::Question) {
        let (params, st2) = read_params(inp, step(st1), start);
        same_params(inp, step(st1), start);
        if let Ok(params) = params {
            same_func_body(inp, skip(inp, ahead(step(st1), st2)), params);
        }
    } else {
        same_calls(inp, st1, flag, None);
    }
}

pub(crate) proof fn same_calls(
    inp: Input,
    st: State,
    flag: PrintFlag,
    composed: Option<RstTree>,
)
    requires
        proper(composed),
    ensures
        ({
            let (result, st1) = read_calls(inp, st, flag, composed);
            &&& read_calls(
                plain(inp),
                st,
                flag,
                bare_option(composed),
            ) == (bare_node_result(result), st1)
            &&& result matches Ok(node) ==> !(node is DebugCursor)
        }),
    decreases left(inp, st), 8nat,
{
    reveal(read_calls);
    reveal(read_call);
    same_call(inp, st, flag, composed);
    let (result, st1) = read_call(inp, st, flag, composed);
    if let Ok((call, finished)) = result {
        if !finished && unread(inp, st) {
            same_calls(inp, past(st, st1), flag, Some(call));
        }
    }
}

pub(crate) proof fn same_call(
    inp: Input,
    st: State,
    flag: PrintFlag,
    composed: Option<RstTree>,
)
    requires
        proper(composed),
    ensures
        ({
            let (result, st1) = read_call(inp, st, flag, composed);
            &&& read_call(
                plain(inp),
                st,
                flag,
                bare_option(composed),
            ) == (bare_flagged_result(result), st1)
            &&& result matches Ok((node, _)) ==> !(node is DebugCursor)
        }),
    decreases left(inp, st), 7nat,
{
    reveal(read_call);
    reveal(read_anon_call);
    reveal(read_named_call);
    let st1 = skip(inp, st);
    if at(inp, st1, TokenKind::Bang) {
        same_anon_call(inp, skip(inp, step(st1)), flag, composed);
    } else {
        same_named_call(inp, st1, flag, composed);
    }
}

pub(crate) proof fn same_anon_call(
    inp: Input,
    st: State,
    flag: PrintFlag,
    composed: Option<RstTree>,
)
    requires
        proper(composed),
    ensures
        ({
            let (result, st1) = read_anon_call(inp, st, flag, composed);
            &&& read_anon_call(
                plain(inp),
                st,
                flag,
                bare_option(composed),
            ) == (bare_flagged_result(result), st1)
            &&& result matches Ok((node, _)) ==> !(node is DebugCursor)
        }),
    decreases left(inp, st), 6nat,
{
    lemma_read_anon_call(inp, st, flag, composed);
    lemma_read_anon_call(plain(inp), st, flag, bare_option(composed));
    if at(inp, st, TokenKind::ComposeValue) {
        let st1 = step(st);
        if let Some(node) = composed {
            same_call_rest(inp, st1, None, true);
            let (result, st2) = read_call_rest(inp, st1, None, true);
            lemma_sequence_of(inp, node);
            if let Ok(read) = result {
                lemma_with_composed(inp, read);
            }
        }
    } else {
        same_sequence(inp, st, SequenceParseMode::AnonFunctionExpr);
        let (callee, st1) = read_sequence(inp, st, SequenceParseMode::AnonFunctionExpr);
        if let Ok(callee) = callee {
            same_callee_args(inp, ahead(st, st1), callee.end, composed);
            let (result, st2) = read_callee_args(inp, ahead(st, st1), callee.end, composed);
            if let Ok(read) = result {
                lemma_with_composed(inp, read);
            }
        }
    }
}

pub(crate) proof fn same_callee_args(
    inp: Input,
    st: State,
    end: SequenceEndType,
    composed: Option<RstTree>,
)
    requires
        proper(composed),
    ensures
        ({
            let (result, st1) = read_callee_args(inp, st, end, composed);
            &&& read_callee_args(
                plain(inp),
                st,
                end,
                bare_option(composed),
            ) == (bare_args_result(result), st1)
            &&& result matches Ok(read) ==> proper(read.composed)
        }),
    decreases left(inp, st), 5nat,
{
    reveal(read_callee_args);
    reveal(read_args);
    assert(bare_sequences(Seq::empty()) =~= Seq::empty());
    if end == SequenceEndType::AnonFunctionExprToArgs {
        same_args(inp, st, composed is Some, composed, Seq::empty());
    }
}

pub(crate) proof fn same_named_call(
    inp: Input,
    st: State,
    flag: PrintFlag,
    composed: Option<RstTree>,
)
    requires
        proper(composed),
    ensures
        ({
            let (result, st1) = read_named_call(inp, st, flag, composed);
            &&& read_named_call(
                plain(inp),
                st,
                flag,
                bare_option(composed),
            ) == (bare_flagged_result(result), st1)
            &&& result matches Ok((node, _)) ==> !(node is DebugCursor)
        }),
    decreases left(inp, st), 6nat,
{
    lemma_read_named_call(inp, st, flag, composed);
    lemma_read_named_call(plain(inp), st, flag, bare_option(composed));
    same_path(inp, st, false);
    let (path, st1) = read_path(inp, st, false);
    if let Ok(path) = path {
        let st2 = ahead(st, st1);
        same_call_rest(inp, st2, composed, composed is Some);
        let (result, st3) = read_call_rest(inp, st2, composed, composed is Some);
        if let Ok(read) = result {
            lemma_with_composed(inp, read);
            let call = RstTree::FuncCall { id: path, args: with_composed(inp, read), flag };
            lemma_capture(st3, call);
        }
    }
}

pub(crate) proof fn same_call_rest(
    inp: Input,
    st: State,
    composed: Option<RstTree>,
    composing: bool,
)
    requires
        proper(composed),
    ensures
        ({
            let (result, st1) = read_call_rest(inp, st, composed, composing);
            &&& read_call_rest(
                plain(inp),
                st,
                bare_option(composed),
                composing,
            ) == (bare_args_result(result), st1)
            &&& result matches Ok(read) ==> proper(read.composed)
        }),
    decreases left(inp, st), 4nat,
{
    reveal(read_call_rest);
    reveal(read_args);
    assert(bare_sequences(Seq::empty()) =~= Seq::empty());
    let (lexeme, st1) = solid(inp, st);
    if lexeme matches Some(lexeme) && lexeme.token is Colon {
        same_args(inp, st1, composing, composed, Seq::empty());
    }
}

#[verifier::rlimit(60)]
pub(crate) proof fn same_args(
    inp: Input,
    st: State,
    composing: bool,
    composed: Option<RstTree>,
    args: Seq<SequenceTree>,
)
    requires
        proper(composed),
    ensures
        ({
            let (result, st1) = read_args(inp, st, composing, composed, args);
            &&& read_args(
                plain(inp),
                st,
                composing,
                bare_option(composed),
                bare_sequences(args),
            ) == (bare_args_result(result), st1)
            &&& result matches Ok(read) ==> proper(read.composed)
        }),
    decreases left(inp, st), 3nat,
{
    reveal(read_args);
    reveal(read_sequence);
    let st1 = skip(inp, st);
    if at(inp, st1, TokenKind::ComposeValue) {
        let st2 = step(st1);
        if composing {
            let (args1, st3) = match composed {
                Some(node) => (args.push(sequence_of(inp, node)), st2),
                None => (
                    args,
                    report(inp, st2, ProblemView::ComposeValueReused, span_here(inp, st2)),
                ),
            };
            if let Some(node) = composed {
                lemma_sequence_of(inp, node);
                lemma_sequences_push(args, sequence_of(inp, node));
            }
            let (delimiter, st4) = solid(inp, st3);
            if delimiter matches Some(delimiter) && delimiter.token is Semi {
                same_args(inp, st4, composing, None, args1);
            }
        } else {
            let st3 = report(inp, st2, ProblemView::NothingToCompose, span_here(inp, st2));
            same_args(inp, st3, composing, composed, args);
        }
    } else {
        same_sequence(inp, st1, SequenceParseMode::FunctionArg);
        let (result, st2) = read_sequence(inp, st1, SequenceParseMode::FunctionArg);
        if let Ok(read) = result {
            lemma_sequences_push(args, read.tree);
            if read.end == SequenceEndType::FunctionArgEndNext && unread(inp, st) {
                same_args(inp, past(st, st2), composing, composed, args.push(read.tree));
            }
        }
    }
}

pub(crate) proof fn same_accessors(
    inp: Input,
    st: State,
    accessors: Seq<RstTree>,
)
    requires
        no_cursors(accessors),
    ensures
        ({
            let (result, st1) = read_accessors(inp, st, accessors);
            &&& read_accessors(
                plain(inp),
                st,
                bare_nodes(accessors),
            ) == (bare_nodes_result(result), st1)
            &&& result matches Ok(nodes) ==> no_cursors(nodes)
        }),
    decreases left(inp, st), 7nat,
{
    reveal(read_accessors);
    reveal(read_accessor);
    lemma_no_cursors(accessors);
    let st1 = skip(inp, st);
    if !(accessors.len() > 0 && at(inp, st1, TokenKind::RightAngle)) {
        same_accessor(inp, st1, span_here(inp, st));
        let (result, st2) = read_accessor(inp, st1, span_here(inp, st));
        if let Ok((accessor, more)) = result {
            lemma_nodes_push(accessors, accessor);
            assert(no_cursors(accessors.push(accessor))) by {
                assert forall|i: int| 0 <= i < accessors.push(accessor).len() implies !((
                #[trigger] accessors.push(accessor)[i]) is DebugCursor) by {
                    if i < accessors.len() {
                        assert(!(accessors[i] is DebugCursor));
                    }
                }
            }
            if more && unread(inp, st) {
                same_accessors(inp, past(st, st2), accessors.push(accessor));
            }
        }
    }
}

pub(crate) proof fn same_accessor(
    inp: Input,
    st: State,
    start: Range<usize>,
)
    ensures
        ({
            let (result, st1) = read_accessor(inp, st, start);
            &&& read_accessor(plain(inp), st, start) == (bare_flagged_result(result), st1)
            &&& result matches Ok((node, _)) ==> !(node is DebugCursor)
        }),
    decreases left(inp, st), 6nat,
{
    lemma_read_accessor(inp, st, start);
    lemma_read_accessor(plain(inp), st, start);
    if at(inp, st, TokenKind::Dollar) {
        let (kind, st1) = read_path_kind(inp, skip(inp, step(st)));
        let (name, st2) = read_ident(inp, skip(inp, st1));
        if let Ok(name) = name {
            same_definition(inp, ahead(st, st2), name, kind);
        }
    } else {
        same_path(inp, st, true);
        let (path, st1) = read_path(inp, st, true);
        if let Ok(path) = path {
            same_access(inp, ahead(st, st1), path, start);
        }
    }
}

pub(crate) proof fn same_definition(
    inp: Input,
    st: State,
    name: Seq<char>,
    kind: AccessPathKind,
)
    ensures
        ({
            let (result, st1) = read_definition(inp, st, name, kind);
            &&& read_definition(plain(inp), st, name, kind) == (bare_flagged_result(result), st1)
            &&& result matches Ok((node, _)) ==> !(node is DebugCursor)
        }),
    decreases left(inp, st), 5nat,
{
    reveal(read_definition);
    reveal(read_sequence);
    let (lexeme, st1) = solid(inp, st);
    lemma_capture(st1, RstTree::VarDef(name, kind, None));
    if lexeme matches Some(lexeme) && lexeme.token is Equals {
        let mode = SequenceParseMode::VariableAssignment;
        same_sequence(inp, skip(inp, st1), mode);
        let (value, st2) = read_sequence(inp, skip(inp, st1), mode);
        if let Ok(read) = value {
            lemma_capture(st2, RstTree::VarDef(name, kind, Some(read.tree)));
        }
    }
}

pub(crate) proof fn same_access(
    inp: Input,
    st: State,
    path: PathTree,
    start: Range<usize>,
)
    ensures
        ({
            let (result, st1) = read_access(inp, st, path, start);
            &&& read_access(
                plain(inp),
                st,
                bare_path(path),
                start,
            ) == (bare_flagged_result(result), st1)
            &&& result matches Ok((node, _)) ==> !(node is DebugCursor)
        }),
    decreases left(inp, st), 5nat,
{
    reveal(read_access);
    reveal(read_sequence);
    lemma_path(path);
    let (lexeme, st1) = solid(inp, st);
    lemma_capture(st1, RstTree::VarGet(path, None));
    if let Some(lexeme) = lexeme {
        if lexeme.token is Question {
            let mode = SequenceParseMode::AccessorFallbackValue;
            same_sequence(inp, skip(inp, st1), mode);
            let (value, st2) = read_sequence(inp, skip(inp, st1), mode);
            if let Ok(read) = value {
                lemma_capture(st2, RstTree::VarGet(path, Some(read.tree)));
            }
        } else if lexeme.token is Equals {
            let mode = SequenceParseMode::VariableAssignment;
            same_sequence(inp, skip(inp, st1), mode);
            let (value, st2) = read_sequence(inp, skip(inp, st1), mode);
            if let Ok(read) = value {
                let st3 = report(
                    inp,
                    st2,
                    ProblemView::AnonValueAssignment,
                    covering(start, span_here(inp, st2)),
                );
                lemma_capture(st2, RstTree::VarSet(path, read.tree));
                lemma_capture(st3, RstTree::VarSet(path, read.tree));
            }
        }
    }
}

/// Parameters are read the same.
pub(crate) proof fn same_params(inp: Input, st: State, start: Range<usize>)
    ensures
        read_params(plain(inp), st, start) == read_params(inp, st, start),
{
    let (lexeme, st1) = solid(inp, st);
    if lexeme matches Some(lexeme) && lexeme.token is Colon {
        same_param_list(inp, st1, start, Seq::empty());
    }
}

#[verifier::rlimit(60)]
pub(crate) proof fn same_param_list(
    inp: Input,
    st: State,
    start: Range<usize>,
    params: Seq<ParameterTree>,
)
    ensures
        read_param_list(plain(inp), st, start, params) == read_param_list(inp, st, start, params),
    decreases left(inp, st),
{
    reveal(read_param_list);
    let (lexeme, st1) = solid(inp, st);
    if let Some(lexeme) = lexeme {
        match lexeme.token {
            RantToken::Fragment => {
                let (param, st2) = read_param(inp, st1, params, lexeme);
                let (delimiter, st3) = solid(inp, st2);
                if delimiter matches Some(delimiter) && delimiter.token is Semi {
                    same_param_list(inp, st3, start, params.push(param));
                }
            },
            RantToken::RightBracket => {},
            _ => same_param_list(
                inp,
                report(inp, st1, ProblemView::InvalidIdentifier(lexeme.text@), lexeme.span),
                start,
                params,
            ),
        }
    }
}

/// What reading a function access amounts to.
pub(crate) proof fn lemma_read_func_access(inp: Input, st: State, flag: PrintFlag)
    ensures
        read_func_access(inp, st, flag) == {
            let start = span_here(inp, st);
            let st1 = skip(inp, st);
            if at(inp, st1, TokenKind::Dollar) {
                let (path, st2) = read_path(inp, step(st1), false);
                match path {
                    Err(stop) => (Err(stop), st2),
                    Ok(path) => {
                        let (params, st3) = read_params(inp, ahead(step(st1), st2), start);
                        match params {
                            Err(stop) => (Err(stop), st3),
                            Ok(params) => {
                                let (body, st4) = read_func_body(
                                    inp,
                                    skip(inp, ahead(step(st1), st3)),
                                    params,
                                );
                                match body {
                                    Err(stop) => (Err(stop), st4),
                                    Ok((body, captures)) => (
                                        Ok(
                                            RstTree::FuncDef {
                                                id: path,
                                                params,
                                                captures,
                                                body: SequenceTree {
                                                    name: Some(body_name(path)),
                                                    ..body
                                                },
                                            },
                                        ),
                                        st4,
                                    ),
                                }
                            },
                        }
                    },
                }
            } else if at(inp, st1, TokenKind::Question) {
                let (params, st2) = read_params(inp, step(st1), start);
                match params {
                    Err(stop) => (Err(stop), st2),
                    Ok(params) => {
                        let (body, st3) = read_func_body(
                            inp,
                            skip(inp, ahead(step(st1), st2)),
                            params,
                        );
                        match body {
                            Err(stop) => (Err(stop), st3),
                            Ok((body, captures)) => (
                                Ok(
                                    RstTree::Closure {
                                        params,
                                        captures,
                                        expr: SequenceTree { name: Some("closure"@), ..body },
                                    },
                                ),
                                st3,
                            ),
                        }
                    },
                }
            } else {
                read_calls(inp, st1, flag, None)
            }
        },
{
    reveal(read_func_access);
    reveal(read_path);
    reveal(read_func_body);
    reveal(read_calls);
}

/// What reading an anonymous function call amounts to.
pub(crate) proof fn lemma_read_anon_call(
    inp: Input,
    st: State,
    flag: PrintFlag,
    composed: Option<RstTree>,
)
    ensures
        read_anon_call(inp, st, flag, composed) == if at(inp, st, TokenKind::ComposeValue) {
            let st1 = step(st);
            match composed {
                None => (
                    Err(ParseStop::SyntaxError),
                    report(inp, st1, ProblemView::NothingToCompose, span_here(inp, st1)),
                ),
                Some(node) => anon_call(
                    inp,
                    flag,
                    sequence_of(inp, node),
                    read_call_rest(inp, st1, None, true),
                ),
            }
        } else {
            let (callee, st1) = read_sequence(inp, st, SequenceParseMode::AnonFunctionExpr);
            match callee {
                Err(stop) => (Err(stop), st1),
                Ok(callee) => anon_call(
                    inp,
                    flag,
                    callee.tree,
                    read_callee_args(inp, ahead(st, st1), callee.end, composed),
                ),
            }
        },
{
    reveal(read_anon_call);
    reveal(read_sequence);
    reveal(read_call_rest);
    reveal(read_callee_args);
}

/// What reading an accessor amounts to.
pub(crate) proof fn lemma_read_accessor(inp: Input, st: State, start: Range<usize>)
    ensures
        read_accessor(inp, st, start) == if at(inp, st, TokenKind::Dollar) {
            let (kind, st1) = read_path_kind(inp, skip(inp, step(st)));
            let (name, st2) = read_ident(inp, skip(inp, st1));
            match name {
                Err(stop) => (Err(stop), st2),
                Ok(name) => read_definition(inp, ahead(st, st2), name, kind),
            }
        } else {
            let (path, st1) = read_path(inp, st, true);
            match path {
                Err(stop) => (Err(stop), st1),
                Ok(path) => read_access(inp, ahead(st, st1), path, start),
            }
        },
{
    reveal(read_accessor);
    reveal(read_definition);
    reveal(read_path);
    reveal(read_access);
}

} // verus!
