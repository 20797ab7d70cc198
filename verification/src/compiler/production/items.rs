//! Parsing the items that others are nested in.

use std::ops::Range;
use std::rc::Rc;
use vstd::prelude::*;
use crate::compiler::grammar::{
    accessor_item, block_item, collection_item, func_item, left, read_accessors, read_block,
    read_func_access, read_list, read_map, read_opened, report, skip, solid, span_here,
    with_accessors, CollectionInitKind, Draft, Input, State,
};
use crate::compiler::lang::{node_trees, PrintFlag, Rst, RstTree};
use crate::compiler::lexer::{Lexeme, RantToken};
use crate::compiler::message::{Problem, ProblemView};
use crate::compiler::parser::{follows, RantParser};
use crate::compiler::production::parts::{
    draft_result, node_result, reported, text_of, ParseResult, SequenceDraft,
};
use crate::compiler::reader::lemma_after_ws;

verus! {

broadcast use lemma_after_ws;

/// What reading an item from behind its first token on amounts to.
pub proof fn lemma_read_opened(inp: Input, st: State, d: Draft, lexeme: Lexeme)
    ensures
        read_opened(inp, st, d, lexeme) == match lexeme.token {
            RantToken::Star => block_item(
                inp,
                d,
                lexeme.span,
                true,
                read_block(inp, skip(inp, st), true, d.flag),
            ),
            RantToken::LeftBrace => block_item(
                inp,
                d,
                lexeme.span,
                false,
                read_block(inp, st, false, d.flag),
            ),
            RantToken::At => {
                let (opening, st1) = solid(inp, st);
                let outcome = if opening matches Some(opening) && opening.token is LeftParen {
                    read_map(inp, st1, lexeme.span, Seq::empty())
                } else {
                    (
                        Ok(RstTree::EmptyVal),
                        report(
                            inp,
                            st1,
                            ProblemView::ExpectedToken("("@),
                            span_here(inp, st1),
                        ),
                    )
                };
                collection_item(inp, d, lexeme.span, outcome)
            },
            RantToken::LeftParen => collection_item(
                inp,
                d,
                lexeme.span,
                read_list(inp, st, lexeme.span),
            ),
            RantToken::LeftBracket => func_item(
                inp,
                d,
                lexeme.span,
                read_func_access(inp, st, d.flag),
            ),
            RantToken::LeftAngle => accessor_item(
                inp,
                d,
                lexeme.span,
                read_accessors(inp, st, Seq::empty()),
            ),
            _ => (Ok(d), st),
        },
{
    reveal(read_opened);
    match lexeme.token {
        RantToken::Star => {
            reveal(read_block);
        },
        RantToken::LeftBrace => {
            reveal(read_block);
        },
        RantToken::At => {
            reveal(read_map);
        },
        RantToken::LeftParen => {
            reveal(read_list);
        },
        RantToken::LeftBracket => {
            reveal(read_func_access);
        },
        RantToken::LeftAngle => {
            reveal(read_accessors);
        },
        _ => {},
    }
}

impl<'source> RantParser<'source> {
    /// Parses an item that others are nested in, from behind its first token on.
    pub(crate) fn parse_opened(&mut self, d: SequenceDraft, lexeme: Lexeme) -> (result: ParseResult<
        SequenceDraft,
    >)
        requires
            old(self).wf(),
            d.flag_span.start <= old(self).input().source.len(),
            lexeme.span.start <= old(self).input().source.len(),
        ensures
            final(self).continues(old(self)),
            (draft_result(result), final(self).state()) == read_opened(
                old(self).input(),
                old(self).state(),
                d.draft(),
                lexeme,
            ),
            follows(old(self).state(), final(self).state()),
            reported(result, old(self).state(), final(self).state()),
            result matches Ok(next) ==> next.flag_span == d.flag_span,
        decreases old(self).left(), 11nat,
    {
        proof {
            lemma_read_opened(self.input(), self.state(), d.draft(), lexeme);
        }
        match &lexeme.token {
            // Defer operator
            RantToken::Star => {
                self.skip_ws();
                self.parse_block_item(d, &lexeme.span, true)
            },
            // Block start
            RantToken::LeftBrace => self.parse_block_item(d, &lexeme.span, false),
            // Map initializer
            RantToken::At => {
                let opens = match self.next_solid() {
                    Some(opening) => matches!(opening.token, RantToken::LeftParen),
                    None => false,
                };
                let node = if opens {
                    self.parse_collection_initializer(CollectionInitKind::MapInit, &lexeme.span)
                } else {
                    let span = self.last_token_span();
                    self.syntax_error(Problem::ExpectedToken(text_of("(")), &span);
                    Ok(Rst::EmptyVal)
                };
                self.add_collection(d, &lexeme.span, node)
            },
            // List initializer
            RantToken::LeftParen => {
                let node = self.parse_collection_initializer(
                    CollectionInitKind::ListInit,
                    &lexeme.span,
                );
                self.add_collection(d, &lexeme.span, node)
            },
            // Function creation or call
            RantToken::LeftBracket => self.parse_func_item(d, &lexeme.span),
            // Variable access start
            RantToken::LeftAngle => self.parse_accessor_item(d, &lexeme.span),
            _ => Ok(d),
        }
    }

    fn parse_block_item(
        &mut self,
        d: SequenceDraft,
        span: &Range<usize>,
        deferred: bool,
    ) -> (result: ParseResult<SequenceDraft>)
        requires
            old(self).wf(),
            span.start <= old(self).input().source.len(),
        ensures
            final(self).continues(old(self)),
            (draft_result(result), final(self).state()) == block_item(
                old(self).input(),
                d.draft(),
                *span,
                deferred,
                read_block(old(self).input(), old(self).state(), deferred, d.flag),
            ),
            follows(old(self).state(), final(self).state()),
            reported(result, old(self).state(), final(self).state()),
            result matches Ok(next) ==> next.flag_span == d.flag_span,
        decreases old(self).left(), 10nat,
    {
        let block = self.parse_block(deferred, d.flag)?;
        let block_flag = block.flag;
        let node = if deferred {
            Rst::BlockValue(Rc::new(block))
        } else {
            Rst::Block(block)
        };
        Ok(self.add_block(d, span, block_flag, node))
    }

    /// Adds a collection. Collections take no hints or sinks.
    fn add_collection(
        &mut self,
        d: SequenceDraft,
        span: &Range<usize>,
        node: ParseResult<Rst>,
    ) -> (result: ParseResult<SequenceDraft>)
        requires
            old(self).wf(),
            span.start <= old(self).input().source.len(),
            d.flag_span.start <= old(self).input().source.len(),
        ensures
            final(self).continues(old(self)),
            (draft_result(result), final(self).state()) == collection_item(
                old(self).input(),
                d.draft(),
                *span,
                (node_result(node), old(self).state()),
            ),
            follows(old(self).state(), final(self).state()),
            result matches Err(stop) ==> node == Err::<Rst, _>(stop),
            result matches Ok(next) ==> next.flag_span == d.flag_span,
    {
        let node = node?;
        self.check_flag_on(d.flag, &d.flag_span, node.display_name());
        Ok(self.add_node(d, span, Rc::new(node)))
    }

    fn parse_func_item(&mut self, d: SequenceDraft, span: &Range<usize>) -> (result: ParseResult<
        SequenceDraft,
    >)
        requires
            old(self).wf(),
            span.start <= old(self).input().source.len(),
        ensures
            final(self).continues(old(self)),
            (draft_result(result), final(self).state()) == func_item(
                old(self).input(),
                d.draft(),
                *span,
                read_func_access(old(self).input(), old(self).state(), d.flag),
            ),
            follows(old(self).state(), final(self).state()),
            reported(result, old(self).state(), final(self).state()),
            result matches Ok(next) ==> next.flag_span == d.flag_span,
        decreases old(self).left(), 10nat,
    {
        let mut d = d;
        let node = self.parse_func_access(d.flag)?;
        match &node {
            // If the call is hinted, allow whitespace around it
            Rst::FuncCall(_) => {
                if d.flag == PrintFlag::Hint {
                    d = self.allow_ws(d, span);
                }
            },
            // Definitions are implicitly sinked and ignore surrounding whitespace
            Rst::FuncDef(_) => {
                d.ws = None;
                self.skip_ws();
            },
            _ => {},
        }
        Ok(self.add_node(d, span, Rc::new(node)))
    }

    fn parse_accessor_item(
        &mut self,
        d: SequenceDraft,
        span: &Range<usize>,
    ) -> (result: ParseResult<SequenceDraft>)
        requires
            old(self).wf(),
            span.start <= old(self).input().source.len(),
        ensures
            final(self).continues(old(self)),
            (draft_result(result), final(self).state()) == accessor_item(
                old(self).input(),
                d.draft(),
                *span,
                read_accessors(old(self).input(), old(self).state(), Seq::empty()),
            ),
            follows(old(self).state(), final(self).state()),
            reported(result, old(self).state(), final(self).state()),
            result matches Ok(next) ==> next.flag_span == d.flag_span,
        decreases old(self).left(), 10nat,
    {
        let accessors = self.parse_accessor()?;
        proof {
            lemma_accessors_keep_flag_span(
                self.input(),
                d.draft(),
                *span,
                node_trees(accessors@),
            );
        }
        Ok(self.add_accessors(d, span, accessors))
    }
}

proof fn lemma_accessors_keep_flag_span(
    inp: Input,
    d: Draft,
    span: Range<usize>,
    accessors: Seq<RstTree>,
)
    ensures
        with_accessors(inp, d, span, accessors).flag_span == d.flag_span,
    decreases accessors.len(),
{
    if accessors.len() > 0 {
        lemma_accessors_keep_flag_span(inp, d, span, accessors.drop_last());
    }
}

} // verus!
