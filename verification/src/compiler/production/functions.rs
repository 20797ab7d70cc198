//! Parsing function definitions and calls.

use std::rc::Rc;
use vstd::prelude::*;
use crate::compiler::grammar::{
    ahead, anon_call, body_name, capture, left, named_call, read_anon_call, read_args, read_call,
    read_call_rest, read_callee_args, read_calls, read_func_access, read_func_body, read_items,
    read_named_call, read_path, read_sequence, with_composed, Input, ParseStop, SequenceEndType,
    SequenceParseMode, State,
};
use crate::compiler::lang::{
    lemma_sequence_trees_insert_first, lemma_sequence_trees_push, parameter_trees, sequence_trees,
    AnonFunctionCall, ClosureExpr, FunctionCall, FunctionDef, Identifier, Parameter, PrintFlag, Rst,
    RstTree, Sequence,
};
use crate::compiler::lexer::RantToken;
use crate::compiler::message::Problem;
use crate::compiler::parser::{follows, RantParser};
use crate::compiler::production::parts::{
    args_result, body_result, node_flag_result, node_result, opt_tree, reported, text_of,
    ArgsParsed, ParseResult,
};
use crate::compiler::reader::{lemma_after_ws, TokenKind};

verus! {

broadcast use lemma_after_ws;

/// What reading a call of a function that a path names amounts to.
pub proof fn lemma_read_named_call(
    inp: Input,
    st: State,
    flag: PrintFlag,
    composed: Option<RstTree>,
)
    ensures
        read_named_call(inp, st, flag, composed) == {
            let (path, st1) = read_path(inp, st, false);
            match path {
                Err(stop) => (Err(stop), st1),
                Ok(path) => named_call(
                    inp,
                    flag,
                    path,
                    read_call_rest(inp, ahead(st, st1), composed, composed is Some),
                ),
            }
        },
{
    reveal(read_named_call);
    reveal(read_path);
    reveal(read_call_rest);
}

impl<'source> RantParser<'source> {
    /// Parses a function body and captures variables.
    pub(crate) fn parse_func_body(&mut self, params: &Vec<Parameter>) -> (result: ParseResult<
        (Sequence, Vec<Identifier>),
    >)
        requires
            old(self).wf(),
        ensures
            final(self).continues(old(self)),
            (body_result(result), final(self).state()) == read_func_body(
                old(self).input(),
                old(self).state(),
                parameter_trees(params@),
            ),
            follows(old(self).state(), final(self).state()),
            reported(result, old(self).state(), final(self).state()),
        decreases old(self).left(), 4nat,
    {
        proof {
            reveal(read_func_body);
            reveal(read_items);
        }
        if !self.eat(TokenKind::LeftBrace) {
            let span = self.last_token_span();
            self.syntax_error(Problem::ExpectedToken(text_of("{")), &span);
            return Err(ParseStop::SyntaxError);
        }
        let start_pos: usize = self.last_token_pos();
        self.enter_body(params);
        // The items are parsed in the scope that holds the parameters
        let parse_result = self.parse_sequence_inner(SequenceParseMode::FunctionBody);
        let captures = self.leave_body();
        let (seq, seq_end, _, _) = parse_result?;
        match seq_end {
            SequenceEndType::FunctionBodyEnd => Ok((seq, captures)),
            _ => {
                // Hard error if block isn't closed
                let err_span = start_pos..self.source_len();
                self.syntax_error(Problem::UnclosedBlock, &err_span);
                Err(ParseStop::SyntaxError)
            },
        }
    }

    /// Parses a function definition, anonymous function, or function call.
    pub(crate) fn parse_func_access(&mut self, flag: PrintFlag) -> (result: ParseResult<Rst>)
        requires
            old(self).wf(),
        ensures
            final(self).continues(old(self)),
            (node_result(result), final(self).state()) == read_func_access(
                old(self).input(),
                old(self).state(),
                flag,
            ),
            follows(old(self).state(), final(self).state()),
            reported(result, old(self).state(), final(self).state()),
            result matches Ok(Rst::FuncCall(call)) ==> call.flag == flag,
        decreases old(self).left(), 9nat,
    {
        proof {
            reveal(read_func_access);
            reveal(read_path);
            reveal(read_func_body);
            reveal(read_calls);
        }
        let start_span = self.last_token_span();
        self.skip_ws();
        if self.eat(TokenKind::Dollar) {
            // Function definition
            let func_id = self.parse_access_path(false)?;
            let params = self.parse_func_params(&start_span)?;
            self.skip_ws();
            let (body, captures) = self.parse_func_body(&params)?;
            let mut name = text_of("[");
            name.append(func_id.to_text().as_str());
            name.push(']');
            proof {
                reveal_strlit("[");
                assert(name@ =~= body_name(func_id.tree()));
            }
            return Ok(
                Rst::FuncDef(
                    FunctionDef {
                        body: Rc::new(body.with_name_str(name.as_str())),
                        id: Rc::new(func_id),
                        params: Rc::new(params),
                        capture_vars: Rc::new(captures),
                    },
                ),
            );
        }
        if self.eat(TokenKind::Question) {
            // Closure
            let params = self.parse_func_params(&start_span)?;
            self.skip_ws();
            let (body, captures) = self.parse_func_body(&params)?;
            return Ok(
                Rst::Closure(
                    ClosureExpr {
                        capture_vars: Rc::new(captures),
                        expr: Rc::new(body.with_name_str("closure")),
                        params: Rc::new(params),
                    },
                ),
            );
        }
        // Function calls, both composed and otherwise

        let mut composed_func: Option<Rst> = None;
        let ghost outcome = read_func_access(old(self).input(), old(self).state(), flag);
        loop
            invariant
                self.continues(old(self)),
                follows(old(self).state(), self.state()),
                outcome == read_func_access(old(self).input(), old(self).state(), flag),
                outcome == read_calls(self.input(), self.state(), flag, opt_tree(composed_func)),
            decreases self.left(),
        {
            proof {
                reveal(read_calls);
                reveal(read_call);
            }
            let (call, is_finished) = self.parse_call(flag, composed_func)?;
            if is_finished {
                return Ok(call);
            }
            composed_func = Some(call);
        }
    }

    /// Puts a composed value that no argument is in front of the arguments.
    pub(crate) fn fallback_compose(&self, parsed: ArgsParsed) -> (args: Vec<Rc<Sequence>>)
        ensures
            sequence_trees(args@) == with_composed(self.input(), parsed.read()),
    {
        let mut args = parsed.args;
        if let Some(composed) = parsed.composed {
            let arg = Rc::new(Sequence::one(composed, self.origin()));
            proof {
                lemma_sequence_trees_insert_first(args@, arg);
            }
            args.insert(0, arg);
        }
        args
    }

    /// Parses one function call and says whether it is the last of the composition.
    pub(crate) fn parse_call(&mut self, flag: PrintFlag, composed: Option<Rst>) -> (result:
        ParseResult<(Rst, bool)>)
        requires
            old(self).wf(),
        ensures
            final(self).continues(old(self)),
            (node_flag_result(result), final(self).state()) == read_call(
                old(self).input(),
                old(self).state(),
                flag,
                opt_tree(composed),
            ),
            follows(old(self).state(), final(self).state()),
            reported(result, old(self).state(), final(self).state()),
            result is Ok ==> old(self).state().pos < final(self).state().pos,
            result matches Ok((Rst::FuncCall(call), _)) ==> call.flag == flag,
        decreases old(self).left(), 8nat,
    {
        proof {
            reveal(read_call);
            reveal(read_anon_call);
            reveal(read_named_call);
        }
        self.skip_ws();
        if self.eat(TokenKind::Bang) {
            self.skip_ws();
            self.parse_anon_call(flag, composed)
        } else {
            self.parse_named_call(flag, composed)
        }
    }

    /// Parses an anonymous function call from behind its `!` on.
    pub(crate) fn parse_anon_call(&mut self, flag: PrintFlag, composed: Option<Rst>) -> (result:
        ParseResult<(Rst, bool)>)
        requires
            old(self).wf(),
        ensures
            final(self).continues(old(self)),
            (node_flag_result(result), final(self).state()) == read_anon_call(
                old(self).input(),
                old(self).state(),
                flag,
                opt_tree(composed),
            ),
            follows(old(self).state(), final(self).state()),
            reported(result, old(self).state(), final(self).state()),
            result is Ok ==> old(self).state().pos < final(self).state().pos,
            result matches Ok((Rst::FuncCall(call), _)) ==> call.flag == flag,
        decreases old(self).left(), 7nat,
    {
        proof {
            reveal(read_anon_call);
            reveal(read_sequence);
            reveal(read_call_rest);
            reveal(read_callee_args);
        }
        // See if the composed value is explicitly piped into the call
        if self.eat(TokenKind::ComposeValue) {
            match composed {
                Some(func_expr) => {
                    let expr = Sequence::one(func_expr, self.origin());
                    let parsed = self.parse_call_rest(None, true)?;
                    Ok(self.make_anon_call(flag, expr, parsed))
                },
                None => {
                    let span = self.last_token_span();
                    self.syntax_error(Problem::NothingToCompose, &span);
                    Err(ParseStop::SyntaxError)
                },
            }
        } else {
            let (func_expr, func_expr_end, _, _) = self.parse_sequence(
                SequenceParseMode::AnonFunctionExpr,
            )?;
            let parsed = self.parse_callee_args(func_expr_end, composed)?;
            Ok(self.make_anon_call(flag, func_expr, parsed))
        }
    }

    fn make_anon_call(
        &self,
        flag: PrintFlag,
        expr: Sequence,
        parsed: ArgsParsed,
    ) -> (call: (Rst, bool))
        ensures
            forall|state: State|
                (node_flag_result(Ok(call)), state) == #[trigger] anon_call(
                    self.input(),
                    flag,
                    expr.tree(),
                    (Ok(parsed.read()), state),
                ),
            call.0 is AnonFuncCall,
    {
        let is_finished = parsed.finished;
        let args = self.fallback_compose(parsed);
        let call = AnonFunctionCall { expr: Rc::new(expr), args: Rc::new(args), flag };
        (Rst::AnonFuncCall(call), is_finished)
    }

    /// Parses the arguments of an anonymous function call whose function ended as `end` says.
    pub(crate) fn parse_callee_args(
        &mut self,
        end: SequenceEndType,
        composed: Option<Rst>,
    ) -> (result: ParseResult<ArgsParsed>)
        requires
            old(self).wf(),
        ensures
            final(self).continues(old(self)),
            (args_result(result), final(self).state()) == read_callee_args(
                old(self).input(),
                old(self).state(),
                end,
                opt_tree(composed),
            ),
            follows(old(self).state(), final(self).state()),
            reported(result, old(self).state(), final(self).state()),
            result is Ok ==> end != SequenceEndType::ProgramEnd,
        decreases old(self).left(), 6nat,
    {
        proof {
            reveal(read_callee_args);
            reveal(read_args);
        }
        match end {
            // No args
            SequenceEndType::AnonFunctionExprNoArgs => Ok(
                ArgsParsed { args: Vec::new(), composed, finished: true },
            ),
            // Compose without args
            SequenceEndType::AnonFunctionExprToCompose => Ok(
                ArgsParsed { args: Vec::new(), composed, finished: false },
            ),
            // Parse arguments
            SequenceEndType::AnonFunctionExprToArgs => {
                let composing = composed.is_some();
                self.parse_args(composing, composed)
            },
            _ => Err(ParseStop::OpenCallee),
        }
    }

    /// Parses a call of a function that a path names.
    pub(crate) fn parse_named_call(&mut self, flag: PrintFlag, composed: Option<Rst>) -> (result:
        ParseResult<(Rst, bool)>)
        requires
            old(self).wf(),
        ensures
            final(self).continues(old(self)),
            (node_flag_result(result), final(self).state()) == read_named_call(
                old(self).input(),
                old(self).state(),
                flag,
                opt_tree(composed),
            ),
            follows(old(self).state(), final(self).state()),
            reported(result, old(self).state(), final(self).state()),
            result is Ok ==> old(self).state().pos < final(self).state().pos,
            result matches Ok((Rst::FuncCall(call), _)) ==> call.flag == flag,
        decreases old(self).left(), 7nat,
    {
        proof {
            lemma_read_named_call(self.input(), self.state(), flag, opt_tree(composed));
        }
        let composing = composed.is_some();
        let func_name = self.parse_access_path(false)?;
        let parsed = self.parse_call_rest(composed, composing)?;
        let is_finished = parsed.finished;
        let args = self.fallback_compose(parsed);
        let func_call = Rst::FuncCall(
            FunctionCall { id: Rc::new(func_name), arguments: Rc::new(args), flag },
        );
        // Do variable capture pass on function call
        self.do_capture_pass(&func_call);
        Ok((func_call, is_finished))
    }

    /// Parses what follows the name of the function in a call.
    pub(crate) fn parse_call_rest(
        &mut self,
        composed: Option<Rst>,
        composing: bool,
    ) -> (result: ParseResult<ArgsParsed>)
        requires
            old(self).wf(),
        ensures
            final(self).continues(old(self)),
            (args_result(result), final(self).state()) == read_call_rest(
                old(self).input(),
                old(self).state(),
                opt_tree(composed),
                composing,
            ),
            follows(old(self).state(), final(self).state()),
            reported(result, old(self).state(), final(self).state()),
            result is Ok ==> old(self).state().pos < final(self).state().pos,
        decreases old(self).left(), 5nat,
    {
        proof {
            reveal(read_call_rest);
            reveal(read_args);
        }
        match self.next_solid() {
            Some(lexeme) => match &lexeme.token {
                // No args
                RantToken::RightBracket => Ok(
                    ArgsParsed { args: Vec::new(), composed, finished: true },
                ),
                // Compose without args
                RantToken::Compose => Ok(
                    ArgsParsed { args: Vec::new(), composed, finished: false },
                ),
                // Parse arguments
                RantToken::Colon => self.parse_args(composing, composed),
                _ => {
                    self.unexpected_last_token_error();
                    Err(ParseStop::SyntaxError)
                },
            },
            // Found EOF instead of end of function call, emit hard error
            None => {
                let span = self.last_token_span();
                self.syntax_error(Problem::UnclosedFunctionCall, &span);
                Err(ParseStop::SyntaxError)
            },
        }
    }

    /// Parses the arguments of a call.
    pub(crate) fn parse_args(
        &mut self,
        composing: bool,
        composed: Option<Rst>,
    ) -> (result: ParseResult<ArgsParsed>)
        requires
            old(self).wf(),
        ensures
            final(self).continues(old(self)),
            (args_result(result), final(self).state()) == read_args(
                old(self).input(),
                old(self).state(),
                composing,
                opt_tree(composed),
                Seq::empty(),
            ),
            follows(old(self).state(), final(self).state()),
            reported(result, old(self).state(), final(self).state()),
        decreases old(self).left(), 4nat,
    {
        let ghost outcome = read_args(
            self.input(),
            self.state(),
            composing,
            opt_tree(composed),
            Seq::empty(),
        );
        // The composed value, until an argument is it
        let mut unused = composed;
        let mut args: Vec<Rc<Sequence>> = Vec::new();
        loop
            invariant
                self.continues(old(self)),
                follows(old(self).state(), self.state()),
                outcome == read_args(
                    old(self).input(),
                    old(self).state(),
                    composing,
                    opt_tree(composed),
                    Seq::empty(),
                ),
                outcome == read_args(
                    self.input(),
                    self.state(),
                    composing,
                    opt_tree(unused),
                    sequence_trees(args@),
                ),
            decreases self.left(),
        {
            proof {
                reveal(read_args);
                reveal(read_sequence);
            }
            self.skip_ws();
            // Check for compose value
            if self.eat(TokenKind::ComposeValue) {
                let span = self.last_token_span();
                if composing {
                    match unused.take() {
                        Some(compose) => {
                            let arg = Rc::new(Sequence::one(compose, self.origin()));
                            proof {
                                lemma_sequence_trees_push(args@, arg);
                            }
                            args.push(arg);
                        },
                        // The compose value was already used
                        // No need to push an arg since it won't be used anyway
                        None => self.syntax_error(Problem::ComposeValueReused, &span),
                    }
                    // Read next delimiter
                    match self.next_solid() {
                        Some(lexeme) => match &lexeme.token {
                            RantToken::Compose => {
                                return Ok(ArgsParsed { args, composed: None, finished: false });
                            },
                            RantToken::Semi => {},
                            RantToken::RightBracket => {
                                return Ok(ArgsParsed { args, composed: None, finished: true });
                            },
                            _ => {
                                self.unexpected_last_token_error();
                                return Err(ParseStop::SyntaxError);
                            },
                        },
                        None => {
                            let span = self.last_token_span();
                            self.syntax_error(Problem::UnclosedFunctionCall, &span);
                            return Err(ParseStop::SyntaxError);
                        },
                    }
                } else {
                    self.syntax_error(Problem::NothingToCompose, &span);
                }
            } else {
                // Parse normal argument
                let (arg_seq, arg_end, _, _) = self.parse_sequence(SequenceParseMode::FunctionArg)?;
                let arg = Rc::new(arg_seq);
                proof {
                    lemma_sequence_trees_push(args@, arg);
                }
                args.push(arg);
                match arg_end {
                    SequenceEndType::FunctionArgEndNext => {},
                    SequenceEndType::FunctionArgEndBreak => {
                        return Ok(ArgsParsed { args, composed: unused, finished: true });
                    },
                    SequenceEndType::FunctionArgEndToCompose => {
                        return Ok(ArgsParsed { args, composed: unused, finished: false });
                    },
                    _ => {
                        let span = self.last_token_span();
                        self.syntax_error(Problem::UnclosedFunctionCall, &span);
                        return Err(ParseStop::SyntaxError);
                    },
                }
            }
        }
    }
}

} // verus!
