//! Parsing access paths.

use std::rc::Rc;
use vstd::prelude::*;
use crate::compiler::grammar::{
    carets, left, name_part, read_dynamic_key, read_ident, read_path, read_path_kind,
    read_path_rest, read_sequence, ParseStop, SequenceEndType, SequenceParseMode, State,
};
use crate::compiler::lang::{
    component_trees, is_valid_ident, lemma_component_trees_push, AccessPath, AccessPathComponent,
    AccessPathKind, Identifier,
};
use crate::compiler::lexer::{Lexeme, RantToken};
use crate::compiler::message::Problem;
use crate::compiler::parser::{follows, RantParser};
use crate::compiler::production::parts::{
    ident_result, lemma_runs, path_result, reported, ParseResult,
};
use crate::compiler::reader::{lemma_after_ws, TokenKind};

verus! {

broadcast use lemma_after_ws;

impl<'source> RantParser<'source> {
    /// Parses what says where an access path starts.
    pub(crate) fn parse_access_path_kind(&mut self) -> (kind: AccessPathKind)
        requires
            old(self).wf(),
        ensures
            final(self).continues(old(self)),
            (kind, final(self).state()) == read_path_kind(old(self).input(), old(self).state()),
            follows(old(self).state(), final(self).state()),
            kind matches AccessPathKind::Descope(n) ==> n < usize::MAX,
    {
        if self.eat(TokenKind::Slash) {
            // Accessor is explicit global
            return AccessPathKind::ExplicitGlobal;
        }
        let ghost st = self.state();
        let ghost lexemes = self.input().lexemes;
        proof {
            lemma_runs(lexemes, st.pos);
        }
        if self.eat(TokenKind::Caret) {
            // Accessor is for parent scope (descope operator)
            let mut descope_count: usize = 1;
            proof {
                lemma_runs(lexemes, self.state().pos);
            }
            while self.eat(TokenKind::Caret)
                invariant
                    old(self).wf(),
                    self.continues(old(self)),
                    lexemes == self.input().lexemes,
                    descope_count >= 1,
                    self.state() == (State { pos: (st.pos + descope_count) as nat, ..st }),
                    descope_count + carets(lexemes, self.state().pos) == carets(lexemes, st.pos),
                    st.pos + carets(lexemes, st.pos) <= lexemes.len(),
                ensures
                    carets(lexemes, self.state().pos) == 0,
                decreases self.left(),
            {
                descope_count = descope_count + 1;
            }
            AccessPathKind::Descope(descope_count)
        } else {
            AccessPathKind::Local
        }
    }

    /// Parses an identifier.
    pub(crate) fn parse_ident(&mut self) -> (result: ParseResult<Identifier>)
        requires
            old(self).wf(),
        ensures
            final(self).continues(old(self)),
            (ident_result(result), final(self).state()) == read_ident(
                old(self).input(),
                old(self).state(),
            ),
            follows(old(self).state(), final(self).state()),
            reported(result, old(self).state(), final(self).state()),
    {
        if let Some(lexeme) = self.next_solid() {
            if let RantToken::Fragment = &lexeme.token {
                if !is_valid_ident(lexeme.text.as_str()) {
                    self.syntax_error(
                        Problem::InvalidIdentifier(lexeme.text.clone()),
                        &lexeme.span,
                    );
                }
                Ok(Identifier::new(lexeme.text))
            } else {
                self.unexpected_last_token_error();
                Err(ParseStop::SyntaxError)
            }
        } else {
            let span = self.last_token_span();
            self.syntax_error(Problem::MissingIdentifier, &span);
            Err(ParseStop::SyntaxError)
        }
    }

    /// Adds a name to the parts of a path, or reports it if it is no identifier.
    pub(crate) fn parse_name_part(
        &mut self,
        parts: Vec<AccessPathComponent>,
        lexeme: Lexeme,
    ) -> (added: Vec<AccessPathComponent>)
        requires
            old(self).wf(),
            lexeme.span.start <= old(self).input().source.len(),
        ensures
            final(self).continues(old(self)),
            (component_trees(added@), final(self).state()) == name_part(
                old(self).input(),
                old(self).state(),
                component_trees(parts@),
                lexeme,
            ),
            follows(old(self).state(), final(self).state()),
    {
        let mut parts = parts;
        let is_name = matches!(lexeme.token, RantToken::Fragment) && is_valid_ident(
            lexeme.text.as_str(),
        );
        if is_name {
            let part = AccessPathComponent::Name(Identifier::new(lexeme.text));
            proof {
                lemma_component_trees_push(parts@, part);
            }
            parts.push(part);
        } else {
            self.syntax_error(Problem::InvalidIdentifier(lexeme.text), &lexeme.span);
        }
        parts
    }

    /// Parses an access path.
    pub(crate) fn parse_access_path(
        &mut self,
        allow_anonymous: bool,
    ) -> (result: ParseResult<AccessPath>)
        requires
            old(self).wf(),
        ensures
            final(self).continues(old(self)),
            (path_result(result), final(self).state()) == read_path(
                old(self).input(),
                old(self).state(),
                allow_anonymous,
            ),
            follows(old(self).state(), final(self).state()),
            reported(result, old(self).state(), final(self).state()),
        decreases old(self).left(), 4nat,
    {
        proof {
            reveal(read_path);
            reveal(read_sequence);
            reveal(read_dynamic_key);
            reveal(read_path_rest);
        }
        self.skip_ws();
        let mut idparts: Vec<AccessPathComponent> = Vec::new();
        let preceding_span = self.last_token_span();
        let mut access_kind = AccessPathKind::Local;
        if allow_anonymous && self.eat(TokenKind::Bang) {
            self.skip_ws();
            let (anon_expr, anon_end_type, _, _) = self.parse_sequence(
                SequenceParseMode::SingleItem,
            )?;
            match anon_end_type {
                SequenceEndType::SingleItemEnd => {
                    let part = AccessPathComponent::AnonymousValue(Rc::new(anon_expr));
                    proof {
                        lemma_component_trees_push(idparts@, part);
                        assert(component_trees(idparts@.push(part)) =~= seq![part.tree()]);
                    }
                    idparts.push(part);
                },
                _ => {
                    let span = self.last_token_span();
                    self.syntax_error(Problem::UnclosedVariableAccess, &span);
                    return Err(ParseStop::SyntaxError);
                },
            }
        } else {
            // Check for global/descope specifiers
            access_kind = self.parse_access_path_kind();
            // Parse the first part of the path
            match self.next_solid() {
                Some(lexeme) => match &lexeme.token {
                    // An expression can be used to provide the variable
                    RantToken::LeftBrace => {
                        let key = self.parse_dynamic_key(false)?;
                        let part = AccessPathComponent::DynamicKey(Rc::new(key));
                        proof {
                            lemma_component_trees_push(idparts@, part);
                            assert(component_trees(idparts@.push(part)) =~= seq![part.tree()]);
                        }
                        idparts.push(part);
                    },
                    RantToken::Integer(_) => {
                        self.syntax_error(Problem::LocalPathStartsWithIndex, &lexeme.span);
                    },
                    // Otherwise it may only be a variable name
                    _ => {
                        idparts = self.parse_name_part(idparts, lexeme);
                    },
                },
                None => {
                    self.syntax_error(Problem::MissingIdentifier, &preceding_span);
                    return Err(ParseStop::SyntaxError);
                },
            }
        }
        let ghost outcome = read_path(old(self).input(), old(self).state(), allow_anonymous);
        // Parse the rest of the path
        loop
            invariant
                self.continues(old(self)),
                follows(old(self).state(), self.state()),
                outcome == read_path(old(self).input(), old(self).state(), allow_anonymous),
                outcome == read_path_rest(
                    self.input(),
                    self.state(),
                    component_trees(idparts@),
                    access_kind,
                ),
            decreases self.left(),
        {
            proof {
                reveal(read_path_rest);
                reveal(read_dynamic_key);
            }
            // We expect a '/' between each component, so check for that first.
            // If it's anything else, terminate the path and return it.
            self.skip_ws();
            if !self.eat(TokenKind::Slash) {
                return Ok(AccessPath::new(idparts, access_kind));
            }
            // From here we expect to see either another key (fragment) or index (integer).
            match self.next_solid() {
                Some(lexeme) => match &lexeme.token {
                    // Index
                    RantToken::Integer(index) => {
                        let part = AccessPathComponent::Index(*index);
                        proof {
                            lemma_component_trees_push(idparts@, part);
                        }
                        idparts.push(part);
                    },
                    // Dynamic key
                    RantToken::LeftBrace => {
                        let key = self.parse_dynamic_key(false)?;
                        let part = AccessPathComponent::DynamicKey(Rc::new(key));
                        proof {
                            lemma_component_trees_push(idparts@, part);
                        }
                        idparts.push(part);
                    },
                    // Key
                    _ => {
                        idparts = self.parse_name_part(idparts, lexeme);
                    },
                },
                None => {
                    let span = self.last_token_span();
                    self.syntax_error(Problem::MissingIdentifier, &span);
                    return Err(ParseStop::SyntaxError);
                },
            }
        }
    }
}

} // verus!
