//! The parser: its state and the operations that reading is made of.

use fnv::FnvBuildHasher;
use line_col::LineColLookup;
use quickscope::ScopeSet;
use std::collections::HashSet;
use std::hash::RandomState;
use std::ops::Range;
use std::rc::Rc;
use vstd::prelude::*;
use vstd::string::StringSliceAdditionalSpecFns;
use crate::compiler::grammar::{
    at, capture, capture_path, covering, eat, enter_scope, leave_scope, left, location, param_names,
    report, report_unexpected, skip, solid, span_here, text_here, upcoming, Input, State,
};
use crate::compiler::lang::{
    parameter_trees, AccessPath, AccessPathKind, DebugInfo, Identifier, Parameter, ParameterTree,
    RantProgramInfo, Rst,
};
use crate::compiler::lexer::{copy_span, Lexeme};
use crate::compiler::message::{CompilerMessage, MessageView, Position, Problem, Severity};
use crate::compiler::reader::{RantTokenReader, TokenKind};
use crate::compiler::scopes::{
    define_in_parent_scope, define_in_scope, drain_names, insert_name, lookup_source, name_set,
    new_lookup, new_name_set, new_scopes, place_of, pop_scope, push_scope, scope_depth,
    scope_height_of, scope_layers,
};

verus! {

/// Makes a range that encompasses both input ranges.
pub fn super_range(a: &Range<usize>, b: &Range<usize>) -> (range: Range<usize>)
    ensures
        range == covering(*a, *b),
{
    let start: usize = if a.start <= b.start {
        a.start
    } else {
        b.start
    };
    let end: usize = if a.end >= b.end {
        a.end
    } else {
        b.end
    };
    start..end
}

/// A parser that turns Rant code into an RST (Rant Syntax Tree).
pub struct RantParser<'source> {
    /// The source code being parsed.
    source: &'source str,
    /// Whether there are errors.
    has_errors: bool,
    /// The tokens of the source.
    reader: RantTokenReader,
    /// The line table of the source.
    lookup: LineColLookup<'source>,
    /// What has been reported.
    reports: Vec<CompilerMessage>,
    /// Whether positions are recorded in the tree.
    debug_enabled: bool,
    /// Where the program comes from.
    info: Rc<RantProgramInfo>,
    /// The variables defined in each scope.
    var_stack: ScopeSet<String, RandomState>,
    /// For each function body being parsed, the number of scopes around it and what it captures.
    capture_stack: Vec<(usize, HashSet<String, FnvBuildHasher>)>,
}

pub open spec fn report_views(reports: Seq<CompilerMessage>) -> Seq<MessageView> {
    reports.map_values(|message: CompilerMessage| message@)
}

pub open spec fn capture_views(captures: Seq<(usize, HashSet<String, FnvBuildHasher>)>) -> Seq<
    (nat, Set<Seq<char>>),
> {
    captures.map_values(
        |frame: (usize, HashSet<String, FnvBuildHasher>)| (frame.0 as nat, name_set(frame.1)),
    )
}

/// The state that parsing starts in: nothing read or reported, and one scope.
pub open spec fn fresh_state() -> State {
    State {
        pos: 0,
        reports: Seq::empty(),
        scopes: seq![Set::empty()],
        captures: Seq::empty(),
    }
}

/// Reading went on from `a` to `b`: forward, out of every scope and function body that it went
/// into, without taking back a report, and reporting nothing but errors.
pub open spec fn follows(a: State, b: State) -> bool {
    &&& a.pos <= b.pos
    &&& a.scopes.len() == b.scopes.len()
    &&& a.captures.len() == b.captures.len()
    &&& a.reports.len() <= b.reports.len()
    &&& forall|i: int|
        0 <= i < a.reports.len() ==> #[trigger] b.reports[i] == a.reports[i]
    &&& forall|i: int|
        a.reports.len() <= i < b.reports.len() ==> (#[trigger] b.reports[i]).severity
            == Severity::Error
}

impl<'source> RantParser<'source> {
    /// What is parsed.
    pub closed spec fn input(&self) -> Input {
        Input {
            lexemes: self.reader.lexemes(),
            source: self.source.spec_bytes(),
            debug: self.debug_enabled,
            origin: self.info,
        }
    }

    /// How far parsing has come.
    pub closed spec fn state(&self) -> State {
        State {
            pos: self.reader.pos(),
            reports: report_views(self.reports@),
            scopes: scope_layers(self.var_stack),
            captures: capture_views(self.capture_stack@),
        }
    }

    /// The line table is that of the source, and there are errors exactly if any was reported.
    pub closed spec fn consistent(&self) -> bool {
        &&& lookup_source(self.lookup) == self.source.spec_bytes()
        &&& self.has_errors == (self.reports@.len() > 0)
    }

    /// The tokens lie within the source, no more have been read than there are, and there is a
    /// scope.
    pub open spec fn wf(&self) -> bool {
        &&& self.consistent()
        &&& self.input().wf()
        &&& self.state().pos <= self.input().lexemes.len()
        &&& self.state().scopes.len() > 0
    }

    /// `self` is `before` in another state.
    pub open spec fn continues(&self, before: &RantParser<'source>) -> bool {
        &&& self.wf()
        &&& self.input() == before.input()
    }

    /// How many tokens are left.
    pub open spec fn left(&self) -> nat {
        left(self.input(), self.state())
    }

    /// A parser for the tokens of `source`.
    pub fn new(
        source: &'source str,
        tokens: Vec<Lexeme>,
        debug_enabled: bool,
        info: &Rc<RantProgramInfo>,
    ) -> (parser: Self)
        requires
            forall|i: int|
                0 <= i < tokens@.len() ==> (#[trigger] tokens@[i]).span.start
                    <= source.spec_bytes().len(),
            tokens@.len() < usize::MAX,
        ensures
            parser.wf(),
            parser.input() == (Input {
                lexemes: tokens@,
                source: source.spec_bytes(),
                debug: debug_enabled,
                origin: *info,
            }),
            parser.state() == fresh_state(),
    {
        // The length of the source can be counted
        let _len: usize = source.as_bytes().len();
        let parser = RantParser {
            source,
            has_errors: false,
            reader: RantTokenReader::new(tokens),
            lookup: new_lookup(source),
            reports: Vec::new(),
            debug_enabled,
            info: Rc::clone(info),
            var_stack: new_scopes(),
            capture_stack: Vec::new(),
        };
        assert(parser.state() =~= fresh_state());
        parser
    }

    /// What has been reported.
    pub fn reports(&self) -> (reports: &Vec<CompilerMessage>)
        ensures
            report_views(reports@) == self.state().reports,
    {
        &self.reports
    }

    /// Whether an error has been reported.
    pub fn has_errors(&self) -> (errors: bool)
        requires
            self.wf(),
        ensures
            errors == (self.state().reports.len() > 0),
    {
        self.has_errors
    }

    pub(crate) fn origin(&self) -> (origin: &Rc<RantProgramInfo>)
        ensures
            *origin == self.input().origin,
    {
        &self.info
    }

    pub(crate) fn debug_enabled(&self) -> (debug: bool)
        ensures
            debug == self.input().debug,
    {
        self.debug_enabled
    }

    pub(crate) fn next(&mut self) -> (lexeme: Option<Lexeme>)
        requires
            old(self).wf(),
        ensures
            final(self).continues(old(self)),
            (lexeme, final(self).state()) == upcoming(old(self).input(), old(self).state()),
    {
        let lexeme = self.reader.next();
        assert(self.state() =~= upcoming(old(self).input(), old(self).state()).1);
        lexeme
    }

    pub(crate) fn next_solid(&mut self) -> (lexeme: Option<Lexeme>)
        requires
            old(self).wf(),
        ensures
            final(self).continues(old(self)),
            (lexeme, final(self).state()) == solid(old(self).input(), old(self).state()),
    {
        let lexeme = self.reader.next_solid();
        assert(self.state() =~= solid(old(self).input(), old(self).state()).1);
        lexeme
    }

    pub(crate) fn skip_ws(&mut self)
        requires
            old(self).wf(),
        ensures
            final(self).continues(old(self)),
            final(self).state() == skip(old(self).input(), old(self).state()),
    {
        self.reader.skip_ws();
        assert(self.state() =~= skip(old(self).input(), old(self).state()));
    }

    pub(crate) fn eat(&mut self, kind: TokenKind) -> (eaten: bool)
        requires
            old(self).wf(),
        ensures
            final(self).continues(old(self)),
            eaten == at(old(self).input(), old(self).state(), kind),
            final(self).state() == eat(old(self).input(), old(self).state(), kind),
    {
        let eaten = self.reader.eat(kind);
        assert(self.state() =~= eat(old(self).input(), old(self).state(), kind));
        eaten
    }

    pub(crate) fn peek(&self) -> (lexeme: Option<&Lexeme>)
        requires
            self.wf(),
        ensures
            match lexeme {
                Some(lexeme) => {
                    &&& self.state().pos < self.input().lexemes.len()
                    &&& *lexeme == self.input().lexemes[self.state().pos as int]
                },
                None => self.state().pos == self.input().lexemes.len(),
            },
    {
        self.reader.peek()
    }

    pub(crate) fn last_token_span(&self) -> (span: Range<usize>)
        requires
            self.wf(),
        ensures
            span == span_here(self.input(), self.state()),
            span.start <= self.input().source.len(),
    {
        self.reader.last_token_span()
    }

    pub(crate) fn last_token_pos(&self) -> (start: usize)
        requires
            self.wf(),
        ensures
            start == span_here(self.input(), self.state()).start,
            start <= self.input().source.len(),
    {
        self.reader.last_token_pos()
    }

    pub(crate) fn last_token_string(&self) -> (text: String)
        requires
            self.wf(),
        ensures
            text@ == text_here(self.input(), self.state()),
    {
        self.reader.last_token_string()
    }

    pub(crate) fn source_len(&self) -> (len: usize)
        ensures
            len == self.input().source.len(),
    {
        self.source.as_bytes().len()
    }

    pub(crate) fn location(&self, span: &Range<usize>) -> (info: DebugInfo)
        requires
            self.wf(),
            span.start <= self.input().source.len(),
        ensures
            info == location(self.input(), *span),
    {
        let (line, col) = place_of(&self.lookup, span.start);
        DebugInfo::Location { line, col }
    }

    /// Reports a syntax error, allowing parsing to continue but causing the final compilation to
    /// fail.
    pub(crate) fn syntax_error(&mut self, error_type: Problem, span: &Range<usize>)
        requires
            old(self).wf(),
            span.start <= old(self).input().source.len(),
        ensures
            final(self).continues(old(self)),
            final(self).state() == report(
                old(self).input(),
                old(self).state(),
                error_type@,
                *span,
            ),
    {
        let (line, col) = place_of(&self.lookup, span.start);
        self.has_errors = true;
        let position = Position::new(line, col, copy_span(span));
        let message = CompilerMessage::new(error_type, Severity::Error, Some(position));
        self.reports.push(message);
        assert(self.state() =~= report(old(self).input(), old(self).state(), error_type@, *span));
    }

    /// Emits an "unexpected token" error for the most recently read token.
    pub(crate) fn unexpected_last_token_error(&mut self)
        requires
            old(self).wf(),
        ensures
            final(self).continues(old(self)),
            final(self).state() == report_unexpected(old(self).input(), old(self).state()),
    {
        let text = self.last_token_string();
        let span = self.last_token_span();
        self.syntax_error(Problem::UnexpectedToken(text), &span);
    }

    pub(crate) fn push_scope(&mut self)
        requires
            old(self).wf(),
        ensures
            final(self).continues(old(self)),
            final(self).state() == enter_scope(old(self).state(), Set::empty()),
    {
        push_scope(&mut self.var_stack);
        assert(self.state() =~= enter_scope(old(self).state(), Set::empty()));
    }

    pub(crate) fn pop_scope(&mut self)
        requires
            old(self).wf(),
            old(self).state().scopes.len() > 1,
        ensures
            final(self).continues(old(self)),
            final(self).state() == leave_scope(old(self).state()),
    {
        pop_scope(&mut self.var_stack);
        assert(self.state() =~= leave_scope(old(self).state()));
    }

    /// Starts the body of a function with the given parameters.
    pub(crate) fn enter_body(&mut self, params: &Vec<Parameter>)
        requires
            old(self).wf(),
        ensures
            final(self).continues(old(self)),
            final(self).state() == enter_scope(
                (State {
                    captures: old(self).state().captures.push(
                        (old(self).state().scopes.len(), Set::empty()),
                    ),
                    ..old(self).state()
                }),
                param_names(parameter_trees(params@)),
            ),
    {
        // The number of scopes around the body is the height of the scope about to be pushed
        let capture_height = scope_depth(&self.var_stack);
        self.capture_stack.push((capture_height, new_name_set()));
        push_scope(&mut self.var_stack);
        let ghost layers = scope_layers(self.var_stack).drop_last();
        let ghost names = |count: int| param_names(parameter_trees(params@.take(count)));
        let ghost captures = self.state().captures;
        let mut i: usize = 0;
        proof {
            assert(names(0) =~= Set::empty());
            assert(scope_layers(self.var_stack) =~= layers.push(names(0)));
            assert(captures =~= old(self).state().captures.push(
                (old(self).state().scopes.len(), Set::empty()),
            ));
        }
        // Parameters are variables of the body, so it does not capture them
        while i < params.len()
            invariant
                i <= params@.len(),
                self.continues(old(self)),
                self.state().pos == old(self).state().pos,
                self.state().reports == old(self).state().reports,
                self.state().captures == captures,
                self.state().scopes == layers.push(names(i as int)),
                names == (|count: int| param_names(parameter_trees(params@.take(count)))),
            decreases params@.len() - i,
        {
            define_in_scope(&mut self.var_stack, params[i].name.name.clone());
            proof {
                let before = parameter_trees(params@.take(i as int));
                let after = parameter_trees(params@.take(i + 1));
                assert(after =~= before.push(params@[i as int].tree()));
                lemma_param_names_push(before, params@[i as int].tree());
                assert(self.state().scopes =~= layers.push(names(i + 1)));
            }
            i = i + 1;
        }
        proof {
            assert(params@.take(i as int) =~= params@);
            assert(layers =~= old(self).state().scopes);
            assert(self.state() =~= enter_scope(
                State { captures, ..old(self).state() },
                param_names(parameter_trees(params@)),
            ));
        }
    }

    /// Ends the body of a function and gives the variables that it captures.
    pub(crate) fn leave_body(&mut self) -> (captures: Vec<Identifier>)
        requires
            old(self).wf(),
            old(self).state().captures.len() > 0,
            old(self).state().scopes.len() > 1,
        ensures
            final(self).continues(old(self)),
            final(self).state() == leave_scope(
                (State {
                    captures: old(self).state().captures.drop_last(),
                    ..old(self).state()
                }),
            ),
            captures@.map_values(|id: Identifier| id@).to_set()
                == old(self).state().captures.last().1,
            captures@.len() == old(self).state().captures.last().1.len(),
    {
        self.pop_scope();
        match self.capture_stack.pop() {
            Some((_, set)) => {
                let names = drain_names(set);
                let mut captures: Vec<Identifier> = Vec::new();
                let mut i: usize = 0;
                while i < names.len()
                    invariant
                        i <= names@.len(),
                        captures@.len() == i,
                        forall|j: int| 0 <= j < i ==> (#[trigger] captures@[j])@ == names@[j]@,
                    decreases names@.len() - i,
                {
                    captures.push(Identifier::new(names[i].clone()));
                    i = i + 1;
                }
                proof {
                    let views = names@.map_values(|name: String| name@);
                    assert(captures@.map_values(|id: Identifier| id@) =~= views);
                    views.unique_seq_to_set();
                    assert(self.state() =~= leave_scope(
                        State {
                            captures: old(self).state().captures.drop_last(),
                            ..old(self).state()
                        },
                    ));
                }
                captures
            },
            None => Vec::new(),
        }
    }

    fn capture_path(&mut self, path: &AccessPath)
        requires
            old(self).wf(),
        ensures
            final(self).continues(old(self)),
            final(self).state() == capture_path(old(self).state(), path.tree()),
    {
        // Only local paths can capture variables
        if !path.kind().is_local() {
            return ;
        }
        // At least one capture frame must exist
        if self.capture_stack.len() == 0 {
            return ;
        }
        // Must be accessing a variable
        if let Some(id) = path.capture_var_name() {
            let height: usize = match scope_height_of(&self.var_stack, id.as_str()) {
                Some(height) => height,
                None => 0,
            };
            // The variable must not exist in the scopes of the innermost function body
            if let Some((capture_height, mut names)) = self.capture_stack.pop() {
                if height < capture_height {
                    insert_name(&mut names, id);
                }
                self.capture_stack.push((capture_height, names));
            }
        }
        assert(self.state() =~= capture_path(old(self).state(), path.tree()));
    }

    /// Records the variables that a node defines, and captures those that it uses.
    pub(crate) fn do_capture_pass(&mut self, capturing_rst: &Rst)
        requires
            old(self).wf(),
            capturing_rst matches Rst::VarDef(_, AccessPathKind::Descope(n), _) ==> n < usize::MAX,
        ensures
            final(self).continues(old(self)),
            final(self).state() == capture(old(self).state(), capturing_rst.tree()),
    {
        match capturing_rst {
            Rst::VarDef(id, access_kind, _) => match access_kind {
                AccessPathKind::Local => {
                    define_in_scope(&mut self.var_stack, id.name.clone());
                },
                AccessPathKind::Descope(n) => {
                    define_in_parent_scope(&mut self.var_stack, id.name.clone(), *n);
                },
                AccessPathKind::ExplicitGlobal => {},
            },
            Rst::VarGet(path, _) => self.capture_path(path),
            Rst::VarSet(path, _) => self.capture_path(path),
            Rst::FuncCall(call) => self.capture_path(&call.id),
            _ => {},
        }
        assert(self.state() =~= capture(old(self).state(), capturing_rst.tree()));
    }
}

proof fn lemma_param_names_push(
    params: Seq<ParameterTree>,
    param: ParameterTree,
)
    ensures
        param_names(params.push(param)) == param_names(params).insert(param.name),
{
    let name = |param: ParameterTree| param.name;
    let before = params.map_values(name);
    assert(params.push(param).map_values(name) =~= before.push(param.name));
    assert(before.push(param.name).to_set() =~= before.to_set().insert(param.name)) by {
        assert forall|x: Seq<char>| before.to_set().insert(param.name).contains(x) implies before.push(
            param.name,
        ).to_set().contains(x) by {
            if x == param.name {
                assert(before.push(param.name)[before.len() as int] == x);
            } else {
                let i = choose|i: int| 0 <= i < before.len() && before[i] == x;
                assert(before.push(param.name)[i] == x);
            }
        }
    }
}

} // verus!
