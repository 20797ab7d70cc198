//! Parsing accessors.

use std::ops::Range;
use std::rc::Rc;
use vstd::prelude::*;
use crate::compiler::grammar::{
    at, finish_assignment, left, read_access, read_accessor, read_accessors, read_definition,
    read_path, read_sequence, ParseStop, SequenceEndType, SequenceParseMode,
};
use crate::compiler::lang::{
    lemma_node_trees_push, node_trees, AccessPath, AccessPathKind, Identifier, Rst,
};
use crate::compiler::lexer::RantToken;
use crate::compiler::message::Problem;
use crate::compiler::parser::{follows, super_range, RantParser};
use crate::compiler::production::parts::{node_flag_result, nodes_result, reported, ParseResult};
use crate::compiler::reader::{lemma_after_ws, TokenKind};

verus! {

broadcast use lemma_after_ws;

impl<'source> RantParser<'source> {
    /// Parses one or more accessors (getter/setter/definition).
    pub(crate) fn parse_accessor(&mut self) -> (result: ParseResult<Vec<Rc<Rst>>>)
        requires
            old(self).wf(),
        ensures
            final(self).continues(old(self)),
            (nodes_result(result), final(self).state()) == read_accessors(
                old(self).input(),
                old(self).state(),
                Seq::empty(),
            ),
            follows(old(self).state(), final(self).state()),
            reported(result, old(self).state(), final(self).state()),
        decreases old(self).left(), 7nat,
    {
        let ghost outcome = read_accessors(self.input(), self.state(), Seq::empty());
        let mut accessors: Vec<Rc<Rst>> = Vec::new();
        loop
            invariant
                self.continues(old(self)),
                follows(old(self).state(), self.state()),
                outcome == read_accessors(old(self).input(), old(self).state(), Seq::empty()),
                outcome == read_accessors(self.input(), self.state(), node_trees(accessors@)),
                node_trees(accessors@).len() == accessors@.len(),
            decreases self.left(),
        {
            proof {
                reveal(read_accessors);
                reveal(read_accessor);
            }
            let access_start_span = self.last_token_span();
            self.skip_ws();
            // Check if the accessor ends here as long as there's at least one component
            if accessors.len() > 0 && self.eat(TokenKind::RightAngle) {
                return Ok(accessors);
            }
            let (accessor, more) = self.parse_single_accessor(&access_start_span)?;
            let accessor = Rc::new(accessor);
            proof {
                lemma_node_trees_push(accessors@, accessor);
            }
            accessors.push(accessor);
            if !more {
                return Ok(accessors);
            }
        }
    }

    /// Finishes an accessor whose value ended as `end` says.
    pub(crate) fn finish_accessor(
        &mut self,
        accessor: Rst,
        end: SequenceEndType,
    ) -> (result: ParseResult<(Rst, bool)>)
        requires
            old(self).wf(),
            accessor matches Rst::VarDef(_, AccessPathKind::Descope(n), _) ==> n < usize::MAX,
        ensures
            final(self).continues(old(self)),
            (node_flag_result(result), final(self).state()) == finish_assignment(
                old(self).input(),
                old(self).state(),
                accessor.tree(),
                end,
            ),
            follows(old(self).state(), final(self).state()),
            reported(result, old(self).state(), final(self).state()),
    {
        self.do_capture_pass(&accessor);
        match end {
            SequenceEndType::VariableAssignDelim
            | SequenceEndType::AccessorFallbackValueToDelim => Ok((accessor, true)),
            SequenceEndType::VariableAccessEnd
            | SequenceEndType::AccessorFallbackValueToEnd => Ok((accessor, false)),
            _ => {
                let span = self.last_token_span();
                self.syntax_error(Problem::UnclosedVariableAccess, &span);
                Err(ParseStop::SyntaxError)
            },
        }
    }

    /// Parses one accessor and says whether another follows.
    pub(crate) fn parse_single_accessor(&mut self, access_start_span: &Range<usize>) -> (result:
        ParseResult<(Rst, bool)>)
        requires
            old(self).wf(),
            access_start_span.start <= old(self).input().source.len(),
        ensures
            final(self).continues(old(self)),
            (node_flag_result(result), final(self).state()) == read_accessor(
                old(self).input(),
                old(self).state(),
                *access_start_span,
            ),
            follows(old(self).state(), final(self).state()),
            reported(result, old(self).state(), final(self).state()),
            result is Ok ==> old(self).state().pos < final(self).state().pos,
        decreases old(self).left(), 6nat,
    {
        proof {
            reveal(read_accessor);
            reveal(read_definition);
            reveal(read_path);
            reveal(read_access);
        }
        // Check if it's a definition. If not, it's a getter or setter
        if self.eat(TokenKind::Dollar) {
            self.skip_ws();
            // Check for accessor modifiers
            let access_kind = self.parse_access_path_kind();
            self.skip_ws();
            // Read name of variable we're defining
            let var_name = self.parse_ident()?;
            self.parse_definition(var_name, access_kind)
        } else {
            // Read the path to what we're accessing
            let var_path = self.parse_access_path(true)?;
            self.parse_access(var_path, access_start_span)
        }
    }

    /// Parses a definition from behind the name of its variable on.
    fn parse_definition(&mut self, var_name: Identifier, access_kind: AccessPathKind) -> (result:
        ParseResult<(Rst, bool)>)
        requires
            old(self).wf(),
            access_kind matches AccessPathKind::Descope(n) ==> n < usize::MAX,
        ensures
            final(self).continues(old(self)),
            (node_flag_result(result), final(self).state()) == read_definition(
                old(self).input(),
                old(self).state(),
                var_name@,
                access_kind,
            ),
            follows(old(self).state(), final(self).state()),
            reported(result, old(self).state(), final(self).state()),
            result is Ok ==> old(self).state().pos < final(self).state().pos,
        decreases old(self).left(), 5nat,
    {
        proof {
            reveal(read_definition);
            reveal(read_sequence);
        }
        match self.next_solid() {
            Some(lexeme) => match &lexeme.token {
                // Empty definition
                RantToken::RightAngle => {
                    let rst = Rst::VarDef(var_name, access_kind, None);
                    self.do_capture_pass(&rst);
                    Ok((rst, false))
                },
                // Accessor delimiter
                RantToken::Semi => {
                    let rst = Rst::VarDef(var_name, access_kind, None);
                    self.do_capture_pass(&rst);
                    Ok((rst, true))
                },
                // Definition and assignment
                RantToken::Equals => {
                    self.skip_ws();
                    let (var_assign_expr, end_type, _, _) = self.parse_sequence(
                        SequenceParseMode::VariableAssignment,
                    )?;
                    let rst = Rst::VarDef(var_name, access_kind, Some(Rc::new(var_assign_expr)));
                    self.finish_accessor(rst, end_type)
                },
                // Ran into something we don't support
                _ => {
                    self.unexpected_last_token_error();
                    Err(ParseStop::SyntaxError)
                },
            },
            None => {
                let span = self.last_token_span();
                self.syntax_error(Problem::UnclosedVariableAccess, &span);
                Err(ParseStop::SyntaxError)
            },
        }
    }

    /// Parses a getter or setter from behind its path on.
    fn parse_access(&mut self, var_path: AccessPath, access_start_span: &Range<usize>) -> (result:
        ParseResult<(Rst, bool)>)
        requires
            old(self).wf(),
            access_start_span.start <= old(self).input().source.len(),
        ensures
            final(self).continues(old(self)),
            (node_flag_result(result), final(self).state()) == read_access(
                old(self).input(),
                old(self).state(),
                var_path.tree(),
                *access_start_span,
            ),
            follows(old(self).state(), final(self).state()),
            reported(result, old(self).state(), final(self).state()),
            result is Ok ==> old(self).state().pos < final(self).state().pos,
        decreases old(self).left(), 5nat,
    {
        proof {
            reveal(read_access);
            reveal(read_sequence);
        }
        match self.next_solid() {
            Some(lexeme) => match &lexeme.token {
                // If we hit a '>', it's a getter
                RantToken::RightAngle => {
                    let rst = Rst::VarGet(Rc::new(var_path), None);
                    self.do_capture_pass(&rst);
                    Ok((rst, false))
                },
                // If we hit a ';', it's a getter with another accessor chained after it
                RantToken::Semi => {
                    let rst = Rst::VarGet(Rc::new(var_path), None);
                    self.do_capture_pass(&rst);
                    Ok((rst, true))
                },
                // If we hit a `?`, it's a getter with a fallback
                RantToken::Question => {
                    self.skip_ws();
                    let (fallback, end_type, _, _) = self.parse_sequence(
                        SequenceParseMode::AccessorFallbackValue,
                    )?;
                    let rst = Rst::VarGet(Rc::new(var_path), Some(Rc::new(fallback)));
                    self.finish_accessor(rst, end_type)
                },
                // If we hit a '=' here, it's a setter
                RantToken::Equals => {
                    self.skip_ws();
                    let (var_assign_rhs, end_type, _, _) = self.parse_sequence(
                        SequenceParseMode::VariableAssignment,
                    )?;
                    let assign_end_span = self.last_token_span();
                    // Don't allow setters directly on anonymous values
                    if var_path.is_anonymous() && var_path.len() == 1 {
                        let span = super_range(access_start_span, &assign_end_span);
                        self.syntax_error(Problem::AnonValueAssignment, &span);
                    }
                    let rst = Rst::VarSet(Rc::new(var_path), Rc::new(var_assign_rhs));
                    self.finish_accessor(rst, end_type)
                },
                // Anything else is an error
                _ => {
                    self.unexpected_last_token_error();
                    Err(ParseStop::SyntaxError)
                },
            },
            None => {
                let span = self.last_token_span();
                self.syntax_error(Problem::UnclosedVariableAccess, &span);
                Err(ParseStop::SyntaxError)
            },
        }
    }
}

} // verus!
