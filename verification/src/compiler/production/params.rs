//! Parsing function signatures.

use std::ops::Range;
use vstd::prelude::*;
use crate::compiler::grammar::{
    last_varity, left, read_param, read_param_list, read_params, read_varity, ParseStop,
};
use crate::compiler::lang::{is_valid_ident, parameter_trees, Identifier, Parameter, Varity};
use crate::compiler::lexer::{copy_span, Lexeme, RantToken};
use crate::compiler::message::Problem;
use crate::compiler::parser::{follows, super_range, RantParser};
use crate::compiler::production::parts::{
    has_variadic, is_param, lemma_parameter_trees_push, params_result, reported, ParseResult,
};
use crate::compiler::reader::{lemma_after_ws, TokenKind};

verus! {

broadcast use lemma_after_ws;

impl<'source> RantParser<'source> {
    /// Parses the mark that gives a parameter its varity.
    pub(crate) fn parse_varity(&mut self) -> (varity: Varity)
        requires
            old(self).wf(),
        ensures
            final(self).continues(old(self)),
            (varity, final(self).state()) == read_varity(old(self).input(), old(self).state()),
            follows(old(self).state(), final(self).state()),
    {
        if self.eat(TokenKind::Question) {
            Varity::Optional
        } else if self.eat(TokenKind::Star) {
            Varity::VariadicStar
        } else if self.eat(TokenKind::Plus) {
            Varity::VariadicPlus
        } else {
            Varity::Required
        }
    }

    /// Parses a parameter from behind its name on.
    pub(crate) fn parse_param(
        &mut self,
        params: &Vec<Parameter>,
        lexeme: &Lexeme,
    ) -> (param: Parameter)
        requires
            old(self).wf(),
            lexeme.span.start <= old(self).input().source.len(),
        ensures
            final(self).continues(old(self)),
            (param.tree(), final(self).state()) == read_param(
                old(self).input(),
                old(self).state(),
                parameter_trees(params@),
                *lexeme,
            ),
            follows(old(self).state(), final(self).state()),
    {
        let name = lexeme.text.clone();
        // Make sure it's a valid identifier
        if !is_valid_ident(name.as_str()) {
            self.syntax_error(Problem::InvalidIdentifier(name.clone()), &lexeme.span);
        }
        // Check for duplicates
        if is_param(params, &name) {
            self.syntax_error(Problem::DuplicateParameter(name.clone()), &lexeme.span);
        }
        // Get varity of parameter
        self.skip_ws();
        let varity = self.parse_varity();
        let span = if varity == Varity::Required {
            copy_span(&lexeme.span)
        } else {
            super_range(&lexeme.span, &self.last_token_span())
        };
        let previous = if params.len() > 0 {
            params[params.len() - 1].varity
        } else {
            Varity::Required
        };
        assert(previous == last_varity(parameter_trees(params@)));
        // Check for varity issues
        if has_variadic(params) && varity.is_variadic() {
            // Soft error on multiple variadics
            self.syntax_error(Problem::MultipleVariadicParams, &span);
        } else if !Varity::is_valid_order(previous, varity) {
            // Soft error on bad varity order
            self.syntax_error(
                Problem::InvalidParamOrder(previous.to_text(), varity.to_text()),
                &span,
            );
        }
        Parameter { name: Identifier::new(name), varity }
    }

    /// Parses the parameters of a function, with the bracket that closes the signature.
    pub(crate) fn parse_func_params(
        &mut self,
        start_span: &Range<usize>,
    ) -> (result: ParseResult<Vec<Parameter>>)
        requires
            old(self).wf(),
            start_span.start <= old(self).input().source.len(),
        ensures
            final(self).continues(old(self)),
            (params_result(result), final(self).state()) == read_params(
                old(self).input(),
                old(self).state(),
                *start_span,
            ),
            follows(old(self).state(), final(self).state()),
            reported(result, old(self).state(), final(self).state()),
    {
        let mut params: Vec<Parameter> = Vec::new();
        assert(parameter_trees(params@) =~= Seq::empty());
        // At this point there should either be ':' or ']'
        match self.next_solid() {
            Some(lexeme) => match &lexeme.token {
                // ':' means there are params to be read
                RantToken::Colon => {},
                // ']' means there are no params
                RantToken::RightBracket => {
                    return Ok(params);
                },
                // Something weird is here, emit a hard error
                _ => {
                    self.unexpected_last_token_error();
                    return Err(ParseStop::SyntaxError);
                },
            },
            // Nothing is here, emit a hard error
            None => {
                self.syntax_error(Problem::UnclosedFunctionSignature, start_span);
                return Err(ParseStop::SyntaxError);
            },
        }
        let ghost outcome = read_params(old(self).input(), old(self).state(), *start_span);
        // Read the params
        loop
            invariant
                self.continues(old(self)),
                start_span.start <= self.input().source.len(),
                outcome == read_params(old(self).input(), old(self).state(), *start_span),
                outcome == read_param_list(
                    self.input(),
                    self.state(),
                    *start_span,
                    parameter_trees(params@),
                ),
                follows(old(self).state(), self.state()),
            decreases self.left(),
        {
            proof {
                reveal(read_param_list);
            }
            match self.next_solid() {
                Some(lexeme) => match &lexeme.token {
                    // Regular parameter
                    RantToken::Fragment => {
                        let param = self.parse_param(&params, &lexeme);
                        proof {
                            lemma_parameter_trees_push(params@, param);
                        }
                        params.push(param);
                        // Check if there are more params or if the signature is done
                        match self.next_solid() {
                            Some(delimiter) => match &delimiter.token {
                                // ';' means there are more params
                                RantToken::Semi => {},
                                // ']' means end of signature
                                RantToken::RightBracket => {
                                    return Ok(params);
                                },
                                // Emit a hard error on anything else
                                _ => {
                                    self.unexpected_last_token_error();
                                    return Err(ParseStop::SyntaxError);
                                },
                            },
                            None => {
                                self.syntax_error(Problem::UnclosedFunctionSignature, start_span);
                                return Err(ParseStop::SyntaxError);
                            },
                        }
                    },
                    // Error on early close
                    RantToken::RightBracket => {
                        self.syntax_error(Problem::MissingIdentifier, &lexeme.span);
                        return Ok(params);
                    },
                    // Error on anything else
                    _ => {
                        self.syntax_error(
                            Problem::InvalidIdentifier(lexeme.text.clone()),
                            &lexeme.span,
                        );
                    },
                },
                None => {
                    self.syntax_error(Problem::UnclosedFunctionSignature, start_span);
                    return Err(ParseStop::SyntaxError);
                },
            }
        }
    }
}

} // verus!
