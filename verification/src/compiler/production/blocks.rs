//! Parsing blocks and collections.

use std::ops::Range;
use std::rc::Rc;
use vstd::prelude::*;
use crate::compiler::grammar::{
    left, read_block, read_block_element, read_block_elements, read_dynamic_key, read_list,
    read_list_elements, read_map, read_map_key, read_sequence, CollectionInitKind, ParseStop,
    SequenceEndType, SequenceParseMode,
};
use crate::compiler::lang::{
    is_valid_ident, lemma_pair_trees_push, lemma_sequence_trees_push, pair_trees, sequence_trees,
    Block, BlockTree, MapKeyExpr, PrintFlag, Rst, Sequence,
};
use crate::compiler::lexer::RantToken;
use crate::compiler::message::Problem;
use crate::compiler::parser::{follows, super_range, RantParser};
use crate::compiler::production::parts::{
    block_result, key_result, node_result, reported, text_of, tree_result, ParseResult,
};
use crate::compiler::reader::{lemma_after_ws, TokenKind};

verus! {

broadcast use lemma_after_ws;

impl<'source> RantParser<'source> {
    /// Parses a block.
    pub(crate) fn parse_block(
        &mut self,
        expect_opening_brace: bool,
        flag: PrintFlag,
    ) -> (result: ParseResult<Block>)
        requires
            old(self).wf(),
        ensures
            final(self).continues(old(self)),
            (block_result(result), final(self).state()) == read_block(
                old(self).input(),
                old(self).state(),
                expect_opening_brace,
                flag,
            ),
            follows(old(self).state(), final(self).state()),
            reported(result, old(self).state(), final(self).state()),
        decreases old(self).left(), 4nat,
    {
        proof {
            reveal(read_block);
            reveal(read_block_elements);
        }
        if expect_opening_brace && !self.eat(TokenKind::LeftBrace) {
            let span = self.last_token_span();
            self.syntax_error(Problem::ExpectedToken(text_of("{")), &span);
            return Err(ParseStop::SyntaxError);
        }
        // Get position of starting brace for error reporting
        let start_pos: usize = self.last_token_pos();
        // Keeps track of inherited hinting
        let mut auto_hint = false;
        // Block content
        let mut sequences: Vec<Rc<Sequence>> = Vec::new();
        let ghost outcome = read_block_elements(
            self.input(),
            self.state(),
            start_pos,
            Seq::empty(),
            false,
        );
        let ghost whole = read_block(
            old(self).input(),
            old(self).state(),
            expect_opening_brace,
            flag,
        );
        loop
            invariant_except_break
                outcome == read_block_elements(
                    self.input(),
                    self.state(),
                    start_pos,
                    sequence_trees(sequences@),
                    auto_hint,
                ),
            invariant
                self.continues(old(self)),
                follows(old(self).state(), self.state()),
                start_pos <= self.input().source.len(),
                whole == read_block(
                    old(self).input(),
                    old(self).state(),
                    expect_opening_brace,
                    flag,
                ),
                outcome.0 matches Err(stop) ==> whole == (Err::<BlockTree, _>(stop), outcome.1),
            ensures
                self.continues(old(self)),
                follows(old(self).state(), self.state()),
                outcome == (
                    Ok::<_, ParseStop>((sequence_trees(sequences@), auto_hint)),
                    self.state(),
                ),
            decreases self.left(),
        {
            proof {
                reveal(read_block_elements);
                reveal(read_block_element);
            }
            let (seq, seq_end, is_seq_printing, _) = self.parse_block_element()?;
            auto_hint = auto_hint || is_seq_printing;
            let seq = Rc::new(seq);
            proof {
                lemma_sequence_trees_push(sequences@, seq);
            }
            match seq_end {
                SequenceEndType::BlockDelim => {
                    sequences.push(seq);
                },
                SequenceEndType::BlockEnd => {
                    sequences.push(seq);
                    break ;
                },
                _ => {
                    // Hard error if block isn't closed
                    let err_span = start_pos..self.source_len();
                    self.syntax_error(Problem::UnclosedBlock, &err_span);
                    return Err(ParseStop::SyntaxError);
                },
            }
        }
        // Figure out the flag before returning the block
        if auto_hint && flag != PrintFlag::Sink {
            Ok(Block::new(PrintFlag::Hint, sequences))
        } else {
            Ok(Block::new(flag, sequences))
        }
    }

    /// Parses a list/map initializer from behind its opening parenthesis on.
    pub(crate) fn parse_collection_initializer(
        &mut self,
        kind: CollectionInitKind,
        start_span: &Range<usize>,
    ) -> (result: ParseResult<Rst>)
        requires
            old(self).wf(),
            start_span.start <= old(self).input().source.len(),
        ensures
            final(self).continues(old(self)),
            (node_result(result), final(self).state()) == match kind {
                CollectionInitKind::ListInit => read_list(
                    old(self).input(),
                    old(self).state(),
                    *start_span,
                ),
                CollectionInitKind::MapInit => read_map(
                    old(self).input(),
                    old(self).state(),
                    *start_span,
                    Seq::empty(),
                ),
            },
            follows(old(self).state(), final(self).state()),
            reported(result, old(self).state(), final(self).state()),
        decreases old(self).left(), 5nat,
    {
        match kind {
            CollectionInitKind::ListInit => {
                proof {
                    reveal(read_list);
                    reveal(read_list_elements);
                }
                self.skip_ws();
                // Exit early on empty list
                if self.eat(TokenKind::RightParen) {
                    return Ok(Rst::ListInit(Rc::new(Vec::new())));
                }
                let mut sequences: Vec<Rc<Sequence>> = Vec::new();
                let ghost outcome = read_list(old(self).input(), old(self).state(), *start_span);
                loop
                    invariant
                        self.continues(old(self)),
                        follows(old(self).state(), self.state()),
                        start_span.start <= self.input().source.len(),
                        outcome == read_list(old(self).input(), old(self).state(), *start_span),
                        outcome == read_list_elements(
                            self.input(),
                            self.state(),
                            *start_span,
                            sequence_trees(sequences@),
                        ),
                        kind == CollectionInitKind::ListInit,
                    decreases self.left(),
                {
                    proof {
                        reveal(read_list_elements);
                        reveal(read_sequence);
                    }
                    self.skip_ws();
                    let (seq, seq_end, _, _) = self.parse_sequence(
                        SequenceParseMode::CollectionInit,
                    )?;
                    let seq = Rc::new(seq);
                    proof {
                        lemma_sequence_trees_push(sequences@, seq);
                    }
                    match seq_end {
                        SequenceEndType::CollectionInitDelim => {
                            sequences.push(seq);
                        },
                        SequenceEndType::CollectionInitEnd => {
                            sequences.push(seq);
                            return Ok(Rst::ListInit(Rc::new(sequences)));
                        },
                        _ => {
                            let span = super_range(start_span, &self.last_token_span());
                            self.syntax_error(Problem::UnclosedList, &span);
                            return Err(ParseStop::SyntaxError);
                        },
                    }
                }
            },
            CollectionInitKind::MapInit => {
                let mut pairs: Vec<(MapKeyExpr, Rc<Sequence>)> = Vec::new();
                let ghost outcome = read_map(
                    old(self).input(),
                    old(self).state(),
                    *start_span,
                    Seq::empty(),
                );
                loop
                    invariant
                        self.continues(old(self)),
                        follows(old(self).state(), self.state()),
                        start_span.start <= self.input().source.len(),
                        outcome == read_map(
                            old(self).input(),
                            old(self).state(),
                            *start_span,
                            Seq::empty(),
                        ),
                        outcome == read_map(
                            self.input(),
                            self.state(),
                            *start_span,
                            pair_trees(pairs@),
                        ),
                        kind == CollectionInitKind::MapInit,
                    decreases self.left(),
                {
                    proof {
                        reveal(read_map);
                        reveal(read_map_key);
                        reveal(read_sequence);
                    }
                    let key_expr = match self.parse_map_key(start_span)? {
                        Some(key_expr) => key_expr,
                        None => {
                            return Ok(Rst::MapInit(Rc::new(pairs)));
                        },
                    };
                    self.skip_ws();
                    if !self.eat(TokenKind::Equals) {
                        let span = self.last_token_span();
                        self.syntax_error(Problem::ExpectedToken(text_of("=")), &span);
                        return Err(ParseStop::SyntaxError);
                    }
                    self.skip_ws();
                    let (value_expr, value_end, _, _) = self.parse_sequence(
                        SequenceParseMode::CollectionInit,
                    )?;
                    let pair = (key_expr, Rc::new(value_expr));
                    proof {
                        lemma_pair_trees_push(pairs@, pair);
                    }
                    match value_end {
                        SequenceEndType::CollectionInitDelim => {
                            pairs.push(pair);
                        },
                        SequenceEndType::CollectionInitEnd => {
                            pairs.push(pair);
                            return Ok(Rst::MapInit(Rc::new(pairs)));
                        },
                        _ => {
                            let span = super_range(start_span, &self.last_token_span());
                            self.syntax_error(Problem::UnclosedMap, &span);
                            return Err(ParseStop::SyntaxError);
                        },
                    }
                }
            },
        }
    }

    /// Parses a key of a map initializer, or the end of the map.
    pub(crate) fn parse_map_key(&mut self, start_span: &Range<usize>) -> (result: ParseResult<
        Option<MapKeyExpr>,
    >)
        requires
            old(self).wf(),
            start_span.start <= old(self).input().source.len(),
        ensures
            final(self).continues(old(self)),
            (key_result(result), final(self).state()) == read_map_key(
                old(self).input(),
                old(self).state(),
                *start_span,
            ),
            follows(old(self).state(), final(self).state()),
            reported(result, old(self).state(), final(self).state()),
            result is Ok ==> old(self).state().pos < final(self).state().pos,
        decreases old(self).left(), 4nat,
    {
        proof {
            reveal(read_map_key);
            reveal(read_dynamic_key);
        }
        match self.next_solid() {
            Some(lexeme) => match &lexeme.token {
                // Allow blocks as dynamic keys
                RantToken::LeftBrace => {
                    let key = self.parse_dynamic_key(false)?;
                    Ok(Some(MapKeyExpr::Dynamic(Rc::new(key))))
                },
                // Allow fragments as keys if they are valid identifiers
                RantToken::Fragment => {
                    if !is_valid_ident(lexeme.text.as_str()) {
                        self.syntax_error(
                            Problem::InvalidIdentifier(lexeme.text.clone()),
                            &lexeme.span,
                        );
                    }
                    Ok(Some(MapKeyExpr::Static(lexeme.text)))
                },
                // Allow string literals as static keys
                RantToken::StringLiteral(s) => Ok(Some(MapKeyExpr::Static(s.clone()))),
                // End of map
                RantToken::RightParen => Ok(None),
                // Soft error on anything weird
                _ => {
                    self.unexpected_last_token_error();
                    Ok(Some(MapKeyExpr::Static(lexeme.text)))
                },
            },
            // Hard error on EOF
            None => {
                let span = super_range(start_span, &self.last_token_span());
                self.syntax_error(Problem::UnclosedMap, &span);
                Err(ParseStop::SyntaxError)
            },
        }
    }

    /// Parses a dynamic key.
    pub(crate) fn parse_dynamic_key(
        &mut self,
        expect_opening_brace: bool,
    ) -> (result: ParseResult<Sequence>)
        requires
            old(self).wf(),
        ensures
            final(self).continues(old(self)),
            (tree_result(result), final(self).state()) == read_dynamic_key(
                old(self).input(),
                old(self).state(),
                expect_opening_brace,
            ),
            follows(old(self).state(), final(self).state()),
            reported(result, old(self).state(), final(self).state()),
        decreases old(self).left(), 4nat,
    {
        proof {
            reveal(read_dynamic_key);
            reveal(read_sequence);
        }
        if expect_opening_brace && !self.eat(TokenKind::LeftBrace) {
            let span = self.last_token_span();
            self.syntax_error(Problem::ExpectedToken(text_of("{")), &span);
            return Err(ParseStop::SyntaxError);
        }
        let start_pos: usize = self.last_token_pos();
        let (seq, seq_end, _, _) = self.parse_sequence(SequenceParseMode::DynamicKey)?;
        match seq_end {
            SequenceEndType::DynamicKeyEnd => Ok(seq),
            _ => {
                // Hard error if block isn't closed
                let err_span = start_pos..self.source_len();
                self.syntax_error(Problem::UnclosedBlock, &err_span);
                Err(ParseStop::SyntaxError)
            },
        }
    }
}

} // verus!
