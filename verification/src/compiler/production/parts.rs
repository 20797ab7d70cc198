//! Parts of productions: drafts of sequences, and the items that are single values.

use std::ops::Range;
use std::rc::Rc;
use vstd::prelude::*;
use crate::compiler::grammar::{
    after_fragments, any_variadic, bars_flags, blank, carets, closing, fragment_text, has_param,
    left, literal, location, opens_item, report_flag, report_flag_on, stray, with_accessors,
    with_block, with_node, with_printing, with_ws, ArgsRead, Draft, ItemRead, ParseStop,
    SequenceEndType, SequenceParseMode, SequenceRead, State,
};
use crate::compiler::lang::{
    capture_tree, lemma_node_trees_push, node_trees, parameter_trees, sequence_trees, AccessPath,
    Block, BlockTree, CaptureTree, Identifier, KeyTree, MapKeyExpr, Parameter, ParameterTree,
    PathTree, PrintFlag, Rst, RstTree, Sequence, SequenceTree,
};
use crate::compiler::lexer::{Lexeme, RantToken};
use crate::compiler::message::Problem;
use crate::compiler::parser::{follows, RantParser};
use crate::compiler::reader::lemma_after_ws;
use crate::text::opt_text;

verus! {

broadcast use lemma_after_ws;

/// A sequence being parsed.
pub(crate) struct SequenceDraft {
    pub nodes: Vec<Rc<Rst>>,
    pub flag: PrintFlag,
    pub flag_span: Range<usize>,
    pub printing: bool,
    pub ws: Option<String>,
}

impl SequenceDraft {
    pub(crate) open spec fn draft(&self) -> Draft {
        Draft {
            nodes: node_trees(self.nodes@),
            flag: self.flag,
            flag_span: self.flag_span,
            printing: self.printing,
            ws: opt_text(self.ws),
        }
    }

    pub(crate) fn new() -> (d: Self)
        ensures
            d.draft() == blank(),
    {
        SequenceDraft {
            nodes: Vec::new(),
            flag: PrintFlag::Plain,
            flag_span: 0..0,
            printing: false,
            ws: None,
        }
    }
}

/// What became of an item.
pub(crate) enum ItemParsed {
    Flagged(SequenceDraft),
    Item(SequenceDraft),
    Ended(Sequence, SequenceEndType, bool, Option<String>),
}

pub(crate) type ParseResult<T> = Result<T, ParseStop>;

/// A sequence, what ended it, whether it prints, and the whitespace held back then.
pub(crate) type SequenceParsed = (Sequence, SequenceEndType, bool, Option<String>);

pub(crate) open spec fn sequence_view(parsed: SequenceParsed) -> SequenceRead {
    SequenceRead {
        tree: parsed.0.tree(),
        end: parsed.1,
        printing: parsed.2,
        ws: opt_text(parsed.3),
    }
}

pub(crate) open spec fn sequence_result(
    result: ParseResult<SequenceParsed>,
) -> ParseResult<SequenceRead> {
    match result {
        Ok(parsed) => Ok(sequence_view(parsed)),
        Err(stop) => Err(stop),
    }
}

pub(crate) open spec fn draft_result(result: ParseResult<SequenceDraft>) -> ParseResult<Draft> {
    match result {
        Ok(d) => Ok(d.draft()),
        Err(stop) => Err(stop),
    }
}

pub(crate) open spec fn item_result(result: ParseResult<ItemParsed>) -> ParseResult<ItemRead> {
    match result {
        Ok(ItemParsed::Flagged(d)) => Ok(ItemRead::Flagged(d.draft())),
        Ok(ItemParsed::Item(d)) => Ok(ItemRead::Item(d.draft())),
        Ok(ItemParsed::Ended(tree, end, printing, ws)) => Ok(
            ItemRead::Ended(sequence_view((tree, end, printing, ws))),
        ),
        Err(stop) => Err(stop),
    }
}

pub(crate) open spec fn tree_result(result: ParseResult<Sequence>) -> ParseResult<SequenceTree> {
    match result {
        Ok(parsed) => Ok(parsed.tree()),
        Err(stop) => Err(stop),
    }
}

pub(crate) open spec fn block_result(result: ParseResult<Block>) -> ParseResult<BlockTree> {
    match result {
        Ok(parsed) => Ok(parsed.tree()),
        Err(stop) => Err(stop),
    }
}

pub(crate) open spec fn node_result(result: ParseResult<Rst>) -> ParseResult<RstTree> {
    match result {
        Ok(parsed) => Ok(parsed.tree()),
        Err(stop) => Err(stop),
    }
}

pub(crate) open spec fn node_flag_result(result: ParseResult<(Rst, bool)>) -> ParseResult<
    (RstTree, bool),
> {
    match result {
        Ok(parsed) => Ok((parsed.0.tree(), parsed.1)),
        Err(stop) => Err(stop),
    }
}

pub(crate) open spec fn nodes_result(result: ParseResult<Vec<Rc<Rst>>>) -> ParseResult<
    Seq<RstTree>,
> {
    match result {
        Ok(parsed) => Ok(node_trees(parsed@)),
        Err(stop) => Err(stop),
    }
}

pub(crate) open spec fn key_result(result: ParseResult<Option<MapKeyExpr>>) -> ParseResult<
    Option<KeyTree>,
> {
    match result {
        Ok(Some(key)) => Ok(Some(key.tree())),
        Ok(None) => Ok(None),
        Err(stop) => Err(stop),
    }
}

pub(crate) open spec fn path_result(result: ParseResult<AccessPath>) -> ParseResult<PathTree> {
    match result {
        Ok(parsed) => Ok(parsed.tree()),
        Err(stop) => Err(stop),
    }
}

pub(crate) open spec fn params_result(result: ParseResult<Vec<Parameter>>) -> ParseResult<
    Seq<ParameterTree>,
> {
    match result {
        Ok(parsed) => Ok(parameter_trees(parsed@)),
        Err(stop) => Err(stop),
    }
}

pub(crate) open spec fn body_result(
    result: ParseResult<(Sequence, Vec<Identifier>)>,
) -> ParseResult<(SequenceTree, CaptureTree)> {
    match result {
        Ok(parsed) => Ok((parsed.0.tree(), capture_tree(parsed.1@))),
        Err(stop) => Err(stop),
    }
}

pub(crate) open spec fn ident_result(result: ParseResult<Identifier>) -> ParseResult<Seq<char>> {
    match result {
        Ok(parsed) => Ok(parsed@),
        Err(stop) => Err(stop),
    }
}

/// The arguments of a call.
pub(crate) struct ArgsParsed {
    pub args: Vec<Rc<Sequence>>,
    pub composed: Option<Rst>,
    pub finished: bool,
}

pub(crate) open spec fn opt_tree(node: Option<Rst>) -> Option<RstTree> {
    match node {
        Some(node) => Some(node.tree()),
        None => None,
    }
}

impl ArgsParsed {
    pub(crate) open spec fn read(&self) -> ArgsRead {
        ArgsRead {
            args: sequence_trees(self.args@),
            composed: opt_tree(self.composed),
            finished: self.finished,
        }
    }
}

pub(crate) open spec fn args_result(result: ParseResult<ArgsParsed>) -> ParseResult<ArgsRead> {
    match result {
        Ok(parsed) => Ok(parsed.read()),
        Err(stop) => Err(stop),
    }
}

/// A syntax error that reading stops on is reported.
pub open spec fn reported<T>(result: Result<T, ParseStop>, before: State, after: State) -> bool {
    result matches Err(ParseStop::SyntaxError) ==> before.reports.len() < after.reports.len()
}

/// How a token ends a sequence.
pub(crate) struct SequenceClosing {
    pub name: Option<&'static str>,
    pub end: SequenceEndType,
    pub prints: bool,
}

pub(crate) fn named_closing(name: &'static str, end: SequenceEndType, prints: bool) -> (c: Option<
    SequenceClosing,
>)
    ensures
        c matches Some(c) && c.name matches Some(n) && n@ == name@ && c.end == end && c.prints
            == prints,
{
    Some(SequenceClosing { name: Some(name), end, prints })
}

/// How `token` ends a sequence of the given mode, if it does.
pub(crate) fn find_closing(
    mode: SequenceParseMode,
    token: &RantToken,
) -> (found: Option<SequenceClosing>)
    ensures
        match (found, closing(mode, *token)) {
            (Some(f), Some(c)) => {
                &&& f.end == c.end
                &&& f.prints == c.prints
                &&& match (f.name, c.name) {
                    (Some(a), Some(b)) => a@ == b,
                    (None, None) => true,
                    _ => false,
                }
            },
            (None, None) => true,
            _ => false,
        },
{
    match (token, mode) {
        (RantToken::Compose, SequenceParseMode::FunctionArg) => named_closing(
            "argument",
            SequenceEndType::FunctionArgEndToCompose,
            false,
        ),
        (RantToken::Compose, SequenceParseMode::AnonFunctionExpr) => named_closing(
            "anonymous function expression",
            SequenceEndType::AnonFunctionExprToCompose,
            false,
        ),
        (RantToken::Colon, SequenceParseMode::BlockElementAny) => named_closing(
            "block element",
            SequenceEndType::BlockAssocDelim,
            false,
        ),
        (RantToken::Pipe, SequenceParseMode::BlockElementAny) => named_closing(
            "block element",
            SequenceEndType::BlockDelim,
            false,
        ),
        (RantToken::RightBrace, SequenceParseMode::BlockElementAny) => named_closing(
            "block element",
            SequenceEndType::BlockEnd,
            false,
        ),
        (RantToken::Pipe, SequenceParseMode::BlockElementRhs) => named_closing(
            "block element",
            SequenceEndType::BlockDelim,
            false,
        ),
        (RantToken::RightBrace, SequenceParseMode::BlockElementRhs) => named_closing(
            "block element",
            SequenceEndType::BlockEnd,
            false,
        ),
        (RantToken::RightBrace, SequenceParseMode::FunctionBody) => named_closing(
            "function body",
            SequenceEndType::FunctionBodyEnd,
            true,
        ),
        (RantToken::RightBrace, SequenceParseMode::DynamicKey) => named_closing(
            "dynamic key",
            SequenceEndType::DynamicKeyEnd,
            true,
        ),
        (RantToken::RightParen, SequenceParseMode::CollectionInit) => Some(
            SequenceClosing {
                name: None,
                end: SequenceEndType::CollectionInitEnd,
                prints: true,
            },
        ),
        (RantToken::RightBracket, SequenceParseMode::AnonFunctionExpr) => named_closing(
            "anonymous function expression",
            SequenceEndType::AnonFunctionExprNoArgs,
            true,
        ),
        (RantToken::RightBracket, SequenceParseMode::FunctionArg) => named_closing(
            "argument",
            SequenceEndType::FunctionArgEndBreak,
            true,
        ),
        (RantToken::RightAngle, SequenceParseMode::VariableAssignment) => named_closing(
            "setter value",
            SequenceEndType::VariableAccessEnd,
            true,
        ),
        (RantToken::RightAngle, SequenceParseMode::AccessorFallbackValue) => named_closing(
            "fallback value",
            SequenceEndType::AccessorFallbackValueToEnd,
            true,
        ),
        (RantToken::Colon, SequenceParseMode::AnonFunctionExpr) => named_closing(
            "anonymous function expression",
            SequenceEndType::AnonFunctionExprToArgs,
            true,
        ),
        (RantToken::Semi, SequenceParseMode::FunctionArg) => named_closing(
            "argument",
            SequenceEndType::FunctionArgEndNext,
            true,
        ),
        (RantToken::Semi, SequenceParseMode::CollectionInit) => named_closing(
            "collection item",
            SequenceEndType::CollectionInitDelim,
            true,
        ),
        (RantToken::Semi, SequenceParseMode::VariableAssignment) => named_closing(
            "variable assignment",
            SequenceEndType::VariableAssignDelim,
            true,
        ),
        (RantToken::Semi, SequenceParseMode::AccessorFallbackValue) => named_closing(
            "fallback value",
            SequenceEndType::AccessorFallbackValueToDelim,
            true,
        ),
        _ => None,
    }
}

pub(crate) fn token_bars_flags(token: &RantToken) -> (bars: bool)
    ensures
        bars == bars_flags(*token),
{
    match token {
        RantToken::Hint
        | RantToken::Sink
        | RantToken::Compose
        | RantToken::Pipe
        | RantToken::RightBrace
        | RantToken::RightParen
        | RantToken::RightBracket
        | RantToken::LeftAngle
        | RantToken::RightAngle
        | RantToken::Whitespace
        | RantToken::Colon
        | RantToken::Semi => true,
        _ => false,
    }
}

pub(crate) fn token_opens_item(token: &RantToken) -> (opens: bool)
    ensures
        opens == opens_item(*token),
{
    match token {
        RantToken::Star
        | RantToken::LeftBrace
        | RantToken::At
        | RantToken::LeftParen
        | RantToken::LeftBracket
        | RantToken::LeftAngle => true,
        _ => false,
    }
}

pub(crate) fn text_of(text: &str) -> (copy: String)
    ensures
        copy@ == text@,
{
    text.to_owned()
}

/// Whether a parameter of that name is among `params`.
pub(crate) fn is_param(params: &Vec<Parameter>, name: &String) -> (found: bool)
    ensures
        found == has_param(parameter_trees(params@), name@),
{
    let mut i: usize = 0;
    while i < params.len()
        invariant
            i <= params@.len(),
            forall|j: int|
                0 <= j < i ==> (#[trigger] parameter_trees(params@)[j]).name != name@,
        decreases params@.len() - i,
    {
        if params[i].name.name == *name {
            assert(parameter_trees(params@)[i as int].name == name@);
            return true;
        }
        i = i + 1;
    }
    false
}

/// Whether any parameter is variadic.
pub(crate) fn has_variadic(params: &Vec<Parameter>) -> (found: bool)
    ensures
        found == any_variadic(parameter_trees(params@)),
{
    let mut i: usize = 0;
    while i < params.len()
        invariant
            i <= params@.len(),
            forall|j: int|
                0 <= j < i ==> !(#[trigger] parameter_trees(
                    params@,
                )[j]).varity.spec_is_variadic(),
        decreases params@.len() - i,
    {
        if params[i].varity.is_variadic() {
            assert(parameter_trees(params@)[i as int].varity.spec_is_variadic());
            return true;
        }
        i = i + 1;
    }
    false
}

pub(crate) proof fn lemma_parameter_trees_push(params: Seq<Parameter>, param: Parameter)
    ensures
        parameter_trees(params.push(param)) == parameter_trees(params).push(param.tree()),
{
    assert(parameter_trees(params.push(param)) =~= parameter_trees(params).push(param.tree()));
}

/// The carets and the fragments that come next lie within the input.
pub(crate) proof fn lemma_runs(lexemes: Seq<Lexeme>, pos: nat)
    requires
        pos <= lexemes.len(),
    ensures
        pos + carets(lexemes, pos) <= lexemes.len(),
        pos <= after_fragments(lexemes, pos) <= lexemes.len(),
    decreases lexemes.len() - pos,
{
    if pos < lexemes.len() {
        lemma_runs(lexemes, pos + 1);
    }
}

impl<'source> RantParser<'source> {
    /// Adds a node to a sequence, after its position if positions are recorded.
    pub(crate) fn add_node(
        &self,
        d: SequenceDraft,
        span: &Range<usize>,
        node: Rc<Rst>,
    ) -> (added: SequenceDraft)
        requires
            self.wf(),
            span.start <= self.input().source.len(),
        ensures
            added.draft() == with_node(self.input(), d.draft(), *span, node.tree()),
    {
        let mut d = d;
        if self.debug_enabled() {
            let cursor = Rc::new(Rst::DebugCursor(self.location(span)));
            proof {
                lemma_node_trees_push(d.nodes@, cursor);
            }
            d.nodes.push(cursor);
        }
        proof {
            lemma_node_trees_push(d.nodes@, node);
        }
        d.nodes.push(node);
        d
    }

    /// Adds the whitespace that was held back.
    pub(crate) fn allow_ws(&self, d: SequenceDraft, span: &Range<usize>) -> (added: SequenceDraft)
        requires
            self.wf(),
            span.start <= self.input().source.len(),
        ensures
            added.draft() == with_ws(self.input(), d.draft(), *span),
    {
        let mut d = d;
        match d.ws.take() {
            Some(ws) => self.add_node(d, span, Rc::new(Rst::Whitespace(ws))),
            None => d,
        }
    }

    /// Makes a sequence ready for something that prints.
    pub(crate) fn allow_printing(
        &self,
        d: SequenceDraft,
        span: &Range<usize>,
    ) -> (added: SequenceDraft)
        requires
            self.wf(),
            span.start <= self.input().source.len(),
        ensures
            added.draft() == with_printing(self.input(), d.draft(), *span),
    {
        let mut d = self.allow_ws(d, span);
        d.printing = true;
        d
    }

    /// Adds a block, with the whitespace around it if it prints.
    pub(crate) fn add_block(
        &self,
        d: SequenceDraft,
        span: &Range<usize>,
        block_flag: PrintFlag,
        node: Rst,
    ) -> (added: SequenceDraft)
        requires
            self.wf(),
            span.start <= self.input().source.len(),
        ensures
            added.draft() == with_block(self.input(), d.draft(), *span, block_flag, node.tree()),
    {
        let prints = match d.flag {
            // If hinted, allow pending whitespace
            PrintFlag::Hint => true,
            // If sinked, hold pending whitespace
            PrintFlag::Sink => false,
            // If there is no flag, inherit the hint from inner blocks
            PrintFlag::Plain => block_flag == PrintFlag::Hint,
        };
        let d = if prints {
            self.allow_printing(d, span)
        } else {
            d
        };
        self.add_node(d, span, Rc::new(node))
    }

    /// Adds accessors, with the whitespace before those that print.
    pub(crate) fn add_accessors(
        &self,
        d: SequenceDraft,
        span: &Range<usize>,
        accessors: Vec<Rc<Rst>>,
    ) -> (added: SequenceDraft)
        requires
            self.wf(),
            span.start <= self.input().source.len(),
        ensures
            added.draft() == with_accessors(
                self.input(),
                d.draft(),
                *span,
                node_trees(accessors@),
            ),
    {
        let ghost d0 = d.draft();
        let mut d = d;
        let mut i: usize = 0;
        assert(accessors@.take(0) =~= Seq::empty());
        while i < accessors.len()
            invariant
                i <= accessors@.len(),
                self.wf(),
                span.start <= self.input().source.len(),
                d.draft() == with_accessors(
                    self.input(),
                    d0,
                    *span,
                    node_trees(accessors@.take(i as int)),
                ),
            decreases accessors@.len() - i,
        {
            let accessor = Rc::clone(&accessors[i]);
            proof {
                let done = accessors@.take(i as int);
                assert(accessors@.take(i + 1) =~= done.push(accessor));
                lemma_node_trees_push(done, accessor);
                assert(node_trees(done).push(accessor.tree()).drop_last() =~= node_trees(done));
            }
            if let Rst::VarGet(_, _) = &*accessor {
                d = self.allow_printing(d, span);
            }
            d = self.add_node(d, span, accessor);
            i = i + 1;
        }
        assert(accessors@.take(i as int) =~= accessors@);
        d
    }

    /// Reports a hint or sink before an item that takes none.
    pub(crate) fn check_flag_on(
        &mut self,
        flag: PrintFlag,
        flag_span: &Range<usize>,
        label: &'static str,
    )
        requires
            old(self).wf(),
            flag_span.start <= old(self).input().source.len(),
        ensures
            final(self).continues(old(self)),
            forall|d: Draft|
                d.flag == flag && d.flag_span == *flag_span ==> final(self).state()
                    == #[trigger] report_flag_on(
                    old(self).input(),
                    old(self).state(),
                    d,
                    label@,
                ),
    {
        match flag {
            PrintFlag::Hint => self.syntax_error(Problem::InvalidHintOn(label), flag_span),
            PrintFlag::Sink => self.syntax_error(Problem::InvalidSinkOn(label), flag_span),
            PrintFlag::Plain => {},
        }
    }

    /// Reports a hint or sink that has no item.
    pub(crate) fn check_flag(&mut self, flag: PrintFlag, flag_span: &Range<usize>)
        requires
            old(self).wf(),
            flag_span.start <= old(self).input().source.len(),
        ensures
            final(self).continues(old(self)),
            forall|d: Draft|
                d.flag == flag && d.flag_span == *flag_span ==> final(self).state()
                    == #[trigger] report_flag(old(self).input(), old(self).state(), d),
    {
        match flag {
            PrintFlag::Hint => self.syntax_error(Problem::InvalidHint, flag_span),
            PrintFlag::Sink => self.syntax_error(Problem::InvalidSink, flag_span),
            PrintFlag::Plain => {},
        }
    }

    /// Appends the fragments and escapes that come next.
    pub(crate) fn consume_fragments(&mut self, text: String) -> (joined: String)
        requires
            old(self).wf(),
        ensures
            final(self).continues(old(self)),
            joined@ == text@ + fragment_text(old(self).input().lexemes, old(self).state().pos),
            final(self).state() == (State {
                pos: after_fragments(old(self).input().lexemes, old(self).state().pos),
                ..old(self).state()
            }),
    {
        let ghost lexemes = self.input().lexemes;
        let ghost pos = self.state().pos;
        let mut joined = text;
        let mut more = true;
        while more
            invariant
                self.continues(old(self)),
                self.state() == (State { pos: self.state().pos, ..old(self).state() }),
                lexemes == self.input().lexemes,
                joined@ + fragment_text(lexemes, self.state().pos) =~= text@ + fragment_text(
                    lexemes,
                    pos,
                ),
                after_fragments(lexemes, self.state().pos) == after_fragments(lexemes, pos),
                !more ==> after_fragments(lexemes, self.state().pos) == self.state().pos,
                !more ==> fragment_text(lexemes, self.state().pos) =~= Seq::empty(),
            decreases
                    self.left() + if more {
                        1nat
                    } else {
                        0
                    },
        {
            let joins = match self.peek() {
                Some(lexeme) => match &lexeme.token {
                    RantToken::Fragment => {
                        joined.append(lexeme.text.as_str());
                        true
                    },
                    RantToken::Escape(c) => {
                        joined.push(*c);
                        true
                    },
                    _ => false,
                },
                None => false,
            };
            if joins {
                self.next();
            } else {
                more = false;
            }
        }
        joined
    }

    /// Parses an item that is a single value, from behind its first token on.
    pub(crate) fn parse_literal(&mut self, lexeme: &Lexeme) -> (node: Option<Rst>)
        requires
            old(self).wf(),
        ensures
            final(self).continues(old(self)),
            match literal(old(self).input(), old(self).state(), *lexeme) {
                Some((tree, state)) => {
                    &&& node matches Some(node) && node.tree() == tree
                    &&& final(self).state() == state
                },
                None => node is None && final(self).state() == old(self).state(),
            },
            follows(old(self).state(), final(self).state()),
    {
        proof {
            lemma_runs(self.input().lexemes, self.state().pos);
        }
        match &lexeme.token {
            RantToken::Bang
            | RantToken::Question
            | RantToken::Slash
            | RantToken::Plus
            | RantToken::Dollar
            | RantToken::Equals => Some(Rst::Fragment(lexeme.text.clone())),
            RantToken::Fragment => Some(
                Rst::Fragment(self.consume_fragments(lexeme.text.clone())),
            ),
            RantToken::Escape(c) => {
                let mut text = String::new();
                text.push(*c);
                assert(text@ =~= seq![*c]);
                Some(Rst::Fragment(self.consume_fragments(text)))
            },
            RantToken::Integer(n) => Some(Rst::Integer(*n)),
            RantToken::Float(n) => Some(Rst::Float(n.clone())),
            RantToken::True => Some(Rst::Boolean(true)),
            RantToken::False => Some(Rst::Boolean(false)),
            RantToken::EmptyValue => Some(Rst::EmptyVal),
            RantToken::StringLiteral(s) => Some(Rst::Fragment(s.clone())),
            _ => None,
        }
    }

    /// Handles a token that opens nothing and does not end the sequence.
    pub(crate) fn handle_stray(
        &mut self,
        mode: SequenceParseMode,
        d: SequenceDraft,
        lexeme: &Lexeme,
    ) -> (after: SequenceDraft)
        requires
            old(self).wf(),
            lexeme.span.start <= old(self).input().source.len(),
        ensures
            final(self).continues(old(self)),
            (after.draft(), final(self).state()) == stray(
                old(self).input(),
                old(self).state(),
                mode,
                d.draft(),
                *lexeme,
            ),
            follows(old(self).state(), final(self).state()),
            after.flag_span == d.flag_span,
    {
        let mut d = d;
        match &lexeme.token {
            RantToken::Pipe => {
                d.ws = None;
                let problem = match mode {
                    SequenceParseMode::DynamicKey => Problem::DynamicKeyBlockMultiElement,
                    SequenceParseMode::FunctionBody => Problem::FunctionBodyBlockMultiElement,
                    _ => Problem::UnexpectedToken(lexeme.text.clone()),
                };
                self.syntax_error(problem, &lexeme.span);
                d
            },
            RantToken::Compose | RantToken::RightBrace => {
                d.ws = None;
                self.syntax_error(Problem::UnexpectedToken(lexeme.text.clone()), &lexeme.span);
                d
            },
            RantToken::Colon => {
                let text = text_of(":");
                self.add_node(d, &lexeme.span, Rc::new(Rst::Fragment(text)))
            },
            RantToken::Semi => {
                let text = text_of(";");
                self.add_node(d, &lexeme.span, Rc::new(Rst::Fragment(text)))
            },
            RantToken::Whitespace => {
                // Don't set `printing` here; whitespace always appears with other printing tokens
                if d.printing {
                    d.ws = Some(lexeme.text.clone());
                }
                d
            },
            _ => {
                self.syntax_error(Problem::UnexpectedToken(lexeme.text.clone()), &lexeme.span);
                d
            },
        }
    }
}

} // verus!
