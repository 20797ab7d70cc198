//! Where positions are recorded, and that recording them changes nothing else.

use std::ops::Range;
use vstd::prelude::*;
use crate::compiler::grammar::{
    blank, enter_scope, left, literal, past, read_accessors, read_block, read_func_access,
    read_item, read_items, read_list, read_map, read_opened, read_sequence, skip, solid, step,
    unflagged, with_accessors, with_node, with_printing, with_ws, Draft, Input, ItemRead,
    SequenceParseMode, State,
};
use crate::compiler::lang::RstTree;
use crate::compiler::lexer::{Lexeme, RantToken};
use crate::compiler::positions::{
    bare, bare_nodes, bare_read_result, lemma_nodes_push, no_cursors, plain, same_accessors,
    same_func_access, same_list, same_map, same_sequence,
};
use crate::compiler::production::items::lemma_read_opened;
use crate::compiler::reader::lemma_after_ws;

verus! {

broadcast use lemma_after_ws;

/// Every node of a list is preceded by a position, and there are no others.
#[verifier::opaque]
pub open spec fn spaced(nodes: Seq<RstTree>) -> bool {
    &&& nodes.len() % 2 == 0
    &&& forall|i: int|
        0 <= i < nodes.len() ==> ((#[trigger] nodes[i]) is DebugCursor <==> i % 2 == 0)
}

proof fn lemma_spaced_node(inp: Input, d: Draft, span: Range<usize>, node: RstTree)
    requires
        inp.debug,
        spaced(d.nodes),
        !(node is DebugCursor),
    ensures
        spaced(with_node(inp, d, span, node).nodes),
{
    reveal(spaced);
}

proof fn lemma_spaced_ws(inp: Input, d: Draft, span: Range<usize>)
    requires
        inp.debug,
        spaced(d.nodes),
    ensures
        spaced(with_ws(inp, d, span).nodes),
        spaced(with_printing(inp, d, span).nodes),
{
    if let Some(ws) = d.ws {
        lemma_spaced_node(inp, Draft { ws: None, ..d }, span, RstTree::Whitespace(ws));
    }
}

proof fn lemma_spaced_accessors(inp: Input, d: Draft, span: Range<usize>, accessors: Seq<RstTree>)
    requires
        inp.debug,
        spaced(d.nodes),
        no_cursors(accessors),
    ensures
        spaced(with_accessors(inp, d, span, accessors).nodes),
    decreases accessors.len(),
{
    if accessors.len() > 0 {
        let rest = accessors.drop_last();
        assert forall|i: int| 0 <= i < rest.len() implies !((#[trigger] rest[i]) is DebugCursor) by {
            assert(!(accessors[i] is DebugCursor));
        }
        assert(!(accessors[accessors.len() - 1] is DebugCursor));
        lemma_spaced_accessors(inp, d, span, rest);
        let before = with_accessors(inp, d, span, rest);
        lemma_spaced_ws(inp, before, span);
        lemma_spaced_node(inp, with_printing(inp, before, span), span, accessors.last());
        lemma_spaced_node(inp, before, span, accessors.last());
    }
}

proof fn lemma_spaced_opened(inp: Input, st: State, d: Draft, lexeme: Lexeme)
    requires
        inp.debug,
        spaced(d.nodes),
    ensures
        read_opened(inp, st, d, lexeme).0 matches Ok(d1) ==> spaced(d1.nodes),
{
    lemma_read_opened(inp, st, d, lexeme);
    lemma_spaced_ws(inp, d, lexeme.span);
    let shown = with_printing(inp, d, lexeme.span);
    match lexeme.token {
        RantToken::Star => {
            if let Ok(block) = read_block(inp, skip(inp, st), true, d.flag).0 {
                lemma_spaced_node(inp, shown, lexeme.span, RstTree::BlockValue(block));
                lemma_spaced_node(inp, d, lexeme.span, RstTree::BlockValue(block));
            }
        },
        RantToken::LeftBrace => {
            if let Ok(block) = read_block(inp, st, false, d.flag).0 {
                lemma_spaced_node(inp, shown, lexeme.span, RstTree::Block(block));
                lemma_spaced_node(inp, d, lexeme.span, RstTree::Block(block));
            }
        },
        RantToken::At => {
            let st1 = solid(inp, st).1;
            same_map(inp, st1, lexeme.span, Seq::empty());
            lemma_spaced_node(inp, d, lexeme.span, RstTree::EmptyVal);
            if let Ok(node) = read_map(inp, st1, lexeme.span, Seq::empty()).0 {
                lemma_spaced_node(inp, d, lexeme.span, node);
            }
        },
        RantToken::LeftParen => {
            same_list(inp, st, lexeme.span);
            if let Ok(node) = read_list(inp, st, lexeme.span).0 {
                lemma_spaced_node(inp, d, lexeme.span, node);
            }
        },
        RantToken::LeftBracket => {
            same_func_access(inp, st, d.flag);
            if let Ok(node) = read_func_access(inp, st, d.flag).0 {
                lemma_spaced_node(inp, with_ws(inp, d, lexeme.span), lexeme.span, node);
                lemma_spaced_node(inp, Draft { ws: None, ..d }, lexeme.span, node);
                lemma_spaced_node(inp, d, lexeme.span, node);
            }
        },
        RantToken::LeftAngle => {
            same_accessors(inp, st, Seq::empty());
            if let Ok(accessors) = read_accessors(inp, st, Seq::empty()).0 {
                lemma_spaced_accessors(inp, d, lexeme.span, accessors);
            }
        },
        _ => {},
    }
}

proof fn lemma_spaced_item(inp: Input, st: State, mode: SequenceParseMode, d: Draft)
    requires
        inp.debug,
        spaced(d.nodes),
    ensures
        match read_item(inp, st, mode, d).0 {
            Ok(ItemRead::Flagged(d1)) => spaced(d1.nodes),
            Ok(ItemRead::Item(d1)) => spaced(d1.nodes),
            Ok(ItemRead::Ended(read)) => spaced(read.tree.elements),
            Err(_) => true,
        },
{
    reveal(read_item);
    reveal(read_opened);
    if st.pos < inp.lexemes.len() {
        let lexeme = inp.lexemes[st.pos as int];
        lemma_spaced_opened(inp, step(st), d, lexeme);
        lemma_spaced_ws(inp, d, lexeme.span);
        if let Some((node, _)) = literal(inp, step(st), lexeme) {
            lemma_spaced_node(inp, with_printing(inp, d, lexeme.span), lexeme.span, node);
            lemma_spaced_node(inp, d, lexeme.span, node);
        }
        lemma_spaced_node(inp, d, lexeme.span, RstTree::Fragment(":"@));
        lemma_spaced_node(inp, d, lexeme.span, RstTree::Fragment(";"@));
    }
}

proof fn lemma_spaced_items(inp: Input, st: State, mode: SequenceParseMode, d: Draft)
    requires
        inp.debug,
        spaced(d.nodes),
    ensures
        read_items(inp, st, mode, d).0 matches Ok(read) ==> spaced(read.tree.elements),
    decreases left(inp, st),
{
    reveal(read_items);
    reveal(read_item);
    if st.pos < inp.lexemes.len() {
        lemma_spaced_item(inp, st, mode, d);
        let (result, st1) = read_item(inp, st, mode, d);
        match result {
            Ok(ItemRead::Flagged(d1)) => lemma_spaced_items(inp, past(st, st1), mode, d1),
            Ok(ItemRead::Item(d1)) => lemma_spaced_items(
                inp,
                past(st, st1),
                mode,
                unflagged(d1),
            ),
            _ => {},
        }
    }
}

/// Without its positions a list has half as many nodes, which are the same.
proof fn lemma_spaced_bare(nodes: Seq<RstTree>)
    requires
        spaced(nodes),
    ensures
        each_is_preceded(nodes, bare_nodes(nodes)),
    decreases nodes.len(),
{
    reveal(spaced);
    if nodes.len() > 0 {
        let len = nodes.len() as int;
        assert((len - 1) % 2 == 1 && (len - 2) % 2 == 0);
        let cursor = nodes[len - 2];
        let node = nodes[len - 1];
        let rest = nodes.drop_last().drop_last();
        assert(nodes =~= rest.push(cursor).push(node));
        assert(spaced(rest)) by {
            assert forall|i: int| 0 <= i < rest.len() implies ((
            #[trigger] rest[i]) is DebugCursor <==> i % 2 == 0) by {
                assert(rest[i] == nodes[i]);
            }
        }
        lemma_spaced_bare(rest);
        lemma_nodes_push(rest, cursor);
        lemma_nodes_push(rest.push(cursor), node);
        let before = bare_nodes(rest);
        let all = bare_nodes(nodes);
        assert(all == before.push(bare(node)));
        assert forall|i: int| 0 <= i < all.len() implies {
            &&& nodes[2 * i] is DebugCursor
            &&& !(nodes[2 * i + 1] is DebugCursor)
            &&& #[trigger] all[i] == bare(nodes[2 * i + 1])
            &&& !(all[i] is DebugCursor)
        } by {
            if i < before.len() {
                assert(before[i] == bare(rest[2 * i + 1]));
            }
        }
    }
}

proof fn lemma_spaced_sequence(inp: Input, st: State, mode: SequenceParseMode)
    requires
        inp.debug,
    ensures
        read_sequence(inp, st, mode).0 matches Ok(read) ==> spaced(read.tree.elements),
{
    reveal(read_sequence);
    reveal(read_items);
    assert(spaced(blank().nodes)) by {
        reveal(spaced);
    }
    lemma_spaced_items(inp, enter_scope(st, Set::empty()), mode, blank());
}

/// Recording positions changes nothing of a sequence but the positions in its tree: the same is
/// read, reported, defined and captured, and the trees are the same without the positions.
///
/// Where positions are recorded, each node of the sequence is preceded by one position, so that
/// there are twice as many nodes; where they are not, there is none.
pub proof fn positions_change_nothing_else(inp: Input, st: State, mode: SequenceParseMode)
    ensures
        ({
            let (result, after) = read_sequence(inp, st, mode);
            let (bare_result, bare_after) = read_sequence(plain(inp), st, mode);
            &&& bare_after == after
            &&& bare_result == bare_read_result(result)
            &&& inp.debug ==> match (result, bare_result) {
                (Ok(read), Ok(bare_read)) => each_is_preceded(
                    read.tree.elements,
                    bare_read.tree.elements,
                ),
                (Err(_), Err(_)) => true,
                _ => false,
            }
        }),
{
    same_sequence(inp, st, mode);
    if inp.debug {
        lemma_spaced_sequence(inp, st, mode);
        if let Ok(read) = read_sequence(inp, st, mode).0 {
            lemma_spaced_bare(read.tree.elements);
        }
    }
}

/// `nodes` are the nodes of `plain`, each preceded by one position; `plain` holds none.
pub open spec fn each_is_preceded(nodes: Seq<RstTree>, plain: Seq<RstTree>) -> bool {
    &&& nodes.len() == 2 * plain.len()
    &&& forall|i: int|
        0 <= i < plain.len() ==> {
            &&& nodes[2 * i] is DebugCursor
            &&& !(nodes[2 * i + 1] is DebugCursor)
            &&& #[trigger] plain[i] == bare(nodes[2 * i + 1])
            &&& !(plain[i] is DebugCursor)
        }
}

} // verus!
