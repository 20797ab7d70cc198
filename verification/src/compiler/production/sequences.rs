//! Parsing sequences and their items.

use std::rc::Rc;
use vstd::prelude::*;
use crate::compiler::grammar::{
    after_key, blank, can_end, closing, enter_scope, leave_scope, left, past, read_block_element,
    read_item, read_items, read_opened, read_plain, read_sequence, unread, Input, ParseStop,
    SequenceEndType, SequenceParseMode, SequenceRead, State,
};
use crate::compiler::lang::{PrintFlag, Rst, Sequence};
use crate::compiler::lexer::{Lexeme, RantToken};
use crate::compiler::message::Problem;
use crate::compiler::parser::{follows, RantParser};
use crate::compiler::production::parts::{
    find_closing, item_result, reported, sequence_result, text_of, token_bars_flags,
    token_opens_item, ItemParsed, ParseResult, SequenceDraft, SequenceParsed,
};
use crate::compiler::reader::lemma_after_ws;

verus! {

broadcast use lemma_after_ws;

/// What ends an element of a block and is no key ends what follows a key as well.
proof fn lemma_element_ends(end: SequenceEndType)
    requires
        can_end(SequenceParseMode::BlockElementAny, end),
        end != SequenceEndType::BlockAssocDelim,
    ensures
        can_end(SequenceParseMode::BlockElementRhs, end),
{
    if end != SequenceEndType::ProgramEnd {
        let mode = SequenceParseMode::BlockElementAny;
        let token = choose|token: RantToken|
            (#[trigger] closing(mode, token)) matches Some(c) && c.end == end;
        assert(closing(SequenceParseMode::BlockElementRhs, token) == closing(mode, token));
    }
}

/// What reading an element of a block amounts to.
pub proof fn lemma_read_block_element(inp: Input, st: State)
    ensures
        read_block_element(inp, st) == {
            let st0 = enter_scope(st, Set::empty());
            let (result, st1) = read_items(inp, st0, SequenceParseMode::BlockElementAny, blank());
            match result {
                Ok(key) if key.end == SequenceEndType::BlockAssocDelim && unread(inp, st) => {
                    let (rest, st2) = read_items(
                        inp,
                        past(st0, st1),
                        SequenceParseMode::BlockElementRhs,
                        after_key(inp, st1, key),
                    );
                    (rest, leave_scope(st2))
                },
                _ => (result, leave_scope(st1)),
            }
        },
{
    reveal(read_block_element);
    reveal(read_items);
}

impl<'source> RantParser<'source> {
    /// What reading the rest of the input as a program gives.
    pub open spec fn program(&self) -> (Result<SequenceRead, ParseStop>, State) {
        read_sequence(self.input(), self.state(), SequenceParseMode::TopLevel)
    }

    /// Top-level parsing function invoked by the compiler.
    ///
    /// Parsing succeeds if and only if no error was reported. The input must not end within the
    /// expression of an anonymous function call.
    pub fn parse(&mut self) -> (result: Result<Rc<Sequence>, ()>)
        requires
            old(self).wf(),
            !(old(self).program().0 matches Err(ParseStop::OpenCallee)),
        ensures
            final(self).continues(old(self)),
            final(self).state() == old(self).program().1,
            follows(old(self).state(), final(self).state()),
            result is Ok <==> final(self).state().reports.len() == 0,
            result matches Ok(sequence) ==> old(self).program().0 matches Ok(read)
                && sequence.tree() == read.tree,
            result is Ok ==> final(self).state().pos == final(self).input().lexemes.len(),
    {
        match self.try_parse() {
            Ok(sequence) => Ok(sequence),
            Err(_) => Err(()),
        }
    }

    /// Parses the input as a program, whatever it holds.
    ///
    /// Fails with `OpenCallee` if the input ends within the expression of an anonymous function
    /// call; otherwise succeeds if and only if no error was reported.
    pub fn try_parse(&mut self) -> (result: Result<Rc<Sequence>, ParseStop>)
        requires
            old(self).wf(),
        ensures
            final(self).continues(old(self)),
            final(self).state() == old(self).program().1,
            follows(old(self).state(), final(self).state()),
            result matches Err(ParseStop::OpenCallee) <==> old(self).program().0 matches Err(
                ParseStop::OpenCallee,
            ),
            result matches Err(ParseStop::SyntaxError)
                ==> final(self).state().reports.len() > 0,
            result is Ok ==> final(self).state().reports.len() == 0,
            result matches Ok(sequence) ==> old(self).program().0 matches Ok(read)
                && sequence.tree() == read.tree,
            result is Ok ==> final(self).state().pos == final(self).input().lexemes.len(),
    {
        let (sequence, _, _, _) = self.parse_sequence(SequenceParseMode::TopLevel)?;
        // Fail if parsing "succeeded" but there are soft syntax errors
        if self.has_errors() {
            Err(ParseStop::SyntaxError)
        } else {
            Ok(Rc::new(sequence))
        }
    }

    /// Parses a sequence of items in a scope of its own. Items are individual elements of a Rant
    /// program (fragments, blocks, function calls, etc.)
    pub(crate) fn parse_sequence(&mut self, mode: SequenceParseMode) -> (result: ParseResult<
        SequenceParsed,
    >)
        requires
            old(self).wf(),
        ensures
            final(self).continues(old(self)),
            (sequence_result(result), final(self).state()) == read_sequence(
                old(self).input(),
                old(self).state(),
                mode,
            ),
            follows(old(self).state(), final(self).state()),
            reported(result, old(self).state(), final(self).state()),
            result matches Ok(parsed) ==> can_end(mode, parsed.1) && if parsed.1
                == SequenceEndType::ProgramEnd {
                final(self).state().pos == final(self).input().lexemes.len()
            } else {
                old(self).state().pos < final(self).state().pos
            },
        decreases old(self).left(), 3nat,
    {
        proof {
            reveal(read_sequence);
            reveal(read_items);
        }
        self.push_scope();
        let result = self.parse_sequence_inner(mode);
        self.pop_scope();
        result
    }

    /// Parses the items of a sequence.
    pub(crate) fn parse_sequence_inner(&mut self, mode: SequenceParseMode) -> (result: ParseResult<
        SequenceParsed,
    >)
        requires
            old(self).wf(),
        ensures
            final(self).continues(old(self)),
            (sequence_result(result), final(self).state()) == read_items(
                old(self).input(),
                old(self).state(),
                mode,
                blank(),
            ),
            follows(old(self).state(), final(self).state()),
            reported(result, old(self).state(), final(self).state()),
            result matches Ok(parsed) ==> can_end(mode, parsed.1) && if parsed.1
                == SequenceEndType::ProgramEnd {
                final(self).state().pos == final(self).input().lexemes.len()
            } else {
                old(self).state().pos < final(self).state().pos
            },
        decreases old(self).left(), 2nat,
    {
        self.parse_items(mode, SequenceDraft::new())
    }

    /// Parses the rest of the items of a sequence.
    fn parse_items(&mut self, mode: SequenceParseMode, start: SequenceDraft) -> (result: ParseResult<
        SequenceParsed,
    >)
        requires
            old(self).wf(),
            start.flag_span.start <= old(self).input().source.len(),
        ensures
            final(self).continues(old(self)),
            (sequence_result(result), final(self).state()) == read_items(
                old(self).input(),
                old(self).state(),
                mode,
                start.draft(),
            ),
            follows(old(self).state(), final(self).state()),
            reported(result, old(self).state(), final(self).state()),
            result matches Ok(parsed) ==> can_end(mode, parsed.1) && if parsed.1
                == SequenceEndType::ProgramEnd {
                final(self).state().pos == final(self).input().lexemes.len()
            } else {
                old(self).state().pos < final(self).state().pos
            },
        decreases old(self).left(), 1nat,
    {
        let ghost outcome = read_items(self.input(), self.state(), mode, start.draft());
        let mut d = start;
        while self.peek().is_some()
            invariant
                self.continues(old(self)),
                follows(old(self).state(), self.state()),
                d.flag_span.start <= self.input().source.len(),
                outcome == read_items(self.input(), self.state(), mode, d.draft()),
                outcome == read_items(old(self).input(), old(self).state(), mode, start.draft()),
            decreases self.left(),
        {
            proof {
                reveal(read_items);
                reveal(read_item);
            }
            match self.parse_item(mode, d) {
                Err(stop) => {
                    return Err(stop);
                },
                Ok(ItemParsed::Ended(sequence, end, printing, ws)) => {
                    return Ok((sequence, end, printing, ws));
                },
                Ok(ItemParsed::Flagged(next)) => {
                    d = next;
                },
                Ok(ItemParsed::Item(next)) => {
                    d = next;
                    // In single item mode, return the sequence immediately without looping
                    if mode == SequenceParseMode::SingleItem {
                        let sequence = Sequence {
                            name: None,
                            origin: Rc::clone(self.origin()),
                            elements: d.nodes,
                        };
                        return Ok((sequence, SequenceEndType::SingleItemEnd, d.printing, d.ws));
                    }
                    // Clear flag
                    d.flag = PrintFlag::Plain;
                    d.flag_span = 0..0;
                },
            }
        }
        proof {
            reveal(read_items);
        }
        // Make sure there are no dangling flags
        self.check_flag(d.flag, &d.flag_span);
        let sequence = Sequence {
            name: Some(text_of("main scope")),
            origin: Rc::clone(self.origin()),
            elements: d.nodes,
        };
        Ok((sequence, SequenceEndType::ProgramEnd, d.printing, d.ws))
    }

    /// Parses an element of a block in a scope of its own.
    pub(crate) fn parse_block_element(&mut self) -> (result: ParseResult<SequenceParsed>)
        requires
            old(self).wf(),
        ensures
            final(self).continues(old(self)),
            (sequence_result(result), final(self).state()) == read_block_element(
                old(self).input(),
                old(self).state(),
            ),
            follows(old(self).state(), final(self).state()),
            reported(result, old(self).state(), final(self).state()),
            result matches Ok(parsed) ==> can_end(SequenceParseMode::BlockElementRhs, parsed.1)
                && if parsed.1 == SequenceEndType::ProgramEnd {
                final(self).state().pos == final(self).input().lexemes.len()
            } else {
                old(self).state().pos < final(self).state().pos
            },
        decreases old(self).left(), 3nat,
    {
        proof {
            lemma_read_block_element(self.input(), self.state());
        }
        self.push_scope();
        let mut result = self.parse_sequence_inner(SequenceParseMode::BlockElementAny);
        if let Ok((key, SequenceEndType::BlockAssocDelim, printing, ws)) = result {
            // The key, the colon and what follows are one element
            let d = SequenceDraft {
                nodes: key.elements,
                flag: PrintFlag::Plain,
                flag_span: 0..0,
                printing,
                ws,
            };
            let span = self.last_token_span();
            let d = self.add_node(d, &span, Rc::new(Rst::Fragment(text_of(":"))));
            result = self.parse_items(SequenceParseMode::BlockElementRhs, d);
        } else {
            proof {
                if result is Ok {
                    lemma_element_ends(result->Ok_0.1);
                }
            }
        }
        self.pop_scope();
        result
    }

    /// Parses the next item of a sequence.
    pub(crate) fn parse_item(&mut self, mode: SequenceParseMode, d: SequenceDraft) -> (result:
        ParseResult<ItemParsed>)
        requires
            old(self).wf(),
            old(self).state().pos < old(self).input().lexemes.len(),
            d.flag_span.start <= old(self).input().source.len(),
        ensures
            final(self).continues(old(self)),
            (item_result(result), final(self).state()) == read_item(
                old(self).input(),
                old(self).state(),
                mode,
                d.draft(),
            ),
            follows(old(self).state(), final(self).state()),
            reported(result, old(self).state(), final(self).state()),
            result is Ok ==> old(self).state().pos < final(self).state().pos,
            match result {
                Ok(ItemParsed::Flagged(next)) => next.flag_span.start
                    <= old(self).input().source.len(),
                Ok(ItemParsed::Item(next)) => next.flag_span.start
                    <= old(self).input().source.len(),
                Ok(ItemParsed::Ended(_, end, _, _)) => can_end(mode, end) && end
                    != SequenceEndType::ProgramEnd,
                Err(_) => true,
            },
        decreases old(self).left(), 0nat,
    {
        proof {
            reveal(read_item);
            reveal(read_opened);
        }
        let lexeme = match self.next() {
            Some(lexeme) => lexeme,
            None => {
                return Ok(ItemParsed::Item(d));
            },
        };
        let barred = token_bars_flags(&lexeme.token) && d.flag != PrintFlag::Plain;
        if token_opens_item(&lexeme.token) && !barred {
            let d = self.parse_opened(d, lexeme)?;
            Ok(ItemParsed::Item(d))
        } else {
            self.parse_plain(mode, d, lexeme)
        }
    }

    /// Parses an item that nothing is nested in, from behind its first token on.
    fn parse_plain(&mut self, mode: SequenceParseMode, d: SequenceDraft, lexeme: Lexeme) -> (result:
        ParseResult<ItemParsed>)
        requires
            old(self).wf(),
            d.flag_span.start <= old(self).input().source.len(),
            lexeme.span.start <= old(self).input().source.len(),
        ensures
            final(self).continues(old(self)),
            (item_result(result), final(self).state()) == read_plain(
                old(self).input(),
                old(self).state(),
                mode,
                d.draft(),
                lexeme,
            ),
            follows(old(self).state(), final(self).state()),
            reported(result, old(self).state(), final(self).state()),
            match result {
                Ok(ItemParsed::Flagged(next)) => next.flag_span.start
                    <= old(self).input().source.len(),
                Ok(ItemParsed::Item(next)) => next.flag_span.start
                    <= old(self).input().source.len(),
                Ok(ItemParsed::Ended(_, end, _, _)) => can_end(mode, end) && end
                    != SequenceEndType::ProgramEnd,
                Err(_) => true,
            },
    {
        let mut d = d;
        // Some tokens take no hints or sinks
        if token_bars_flags(&lexeme.token) && d.flag != PrintFlag::Plain {
            self.check_flag(d.flag, &d.flag_span);
            return Ok(ItemParsed::Item(d));
        }
        match &lexeme.token {
            RantToken::Hint => {
                d = self.allow_printing(d, &lexeme.span);
                d.flag = PrintFlag::Hint;
                d.flag_span = lexeme.span;
                return Ok(ItemParsed::Flagged(d));
            },
            RantToken::Sink => {
                // Ignore pending whitespace
                d.ws = None;
                d.flag = PrintFlag::Sink;
                d.flag_span = lexeme.span;
                return Ok(ItemParsed::Flagged(d));
            },
            // Handle unclosed string literals as hard errors
            RantToken::UnterminatedStringLiteral => {
                self.syntax_error(Problem::UnclosedStringLiteral, &lexeme.span);
                return Err(ParseStop::SyntaxError);
            },
            _ => {},
        }
        if let Some(node) = self.parse_literal(&lexeme) {
            if let Rst::EmptyVal = &node {
            } else {
                d = self.allow_printing(d, &lexeme.span);
            }
            self.check_flag_on(d.flag, &d.flag_span, node.display_name());
            d = self.add_node(d, &lexeme.span, Rc::new(node));
            return Ok(ItemParsed::Item(d));
        }
        match find_closing(mode, &lexeme.token) {
            Some(closing) => {
                let sequence = Sequence {
                    name: match closing.name {
                        Some(name) => Some(text_of(name)),
                        None => None,
                    },
                    origin: Rc::clone(self.origin()),
                    elements: d.nodes,
                };
                let printing = closing.prints || d.printing;
                Ok(ItemParsed::Ended(sequence, closing.end, printing, d.ws))
            },
            None => {
                d = self.handle_stray(mode, d, &lexeme);
                Ok(ItemParsed::Item(d))
            },
        }
    }
}

} // verus!
