//! How programs are written.
//!
//! Each function here says, for one kind of tree, whether the tokens from a state on spell the tree
//! and, if they do, the state behind them. Whitespace may stand between tokens wherever it means
//! nothing.

use vstd::prelude::*;
use crate::compiler::grammar::{enter_scope, leave_scope, left, skip, step, unread, Input, State};
use crate::compiler::lang::{
    valid_ident, AccessPathKind, BlockTree, CaptureTree, ComponentTree, KeyTree, ParameterTree,
    PathTree, PrintFlag, RstTree, SequenceTree, Varity,
};
use crate::compiler::lexer::RantToken;
use crate::compiler::readings::{all_written, carets_at, comes_from_outside};

verus! {

/// A token that is nothing but itself.
pub enum Sign {
    Hint,
    Sink,
    Star,
    Bang,
    Question,
    Slash,
    Plus,
    Dollar,
    Equals,
    At,
    Caret,
    Colon,
    Semi,
    Pipe,
    Compose,
    ComposeValue,
    LeftBrace,
    RightBrace,
    LeftParen,
    RightParen,
    LeftBracket,
    RightBracket,
    LeftAngle,
    RightAngle,
}

/// Whether a token is the sign.
pub open spec fn is_sign(token: RantToken, sign: Sign) -> bool {
    match sign {
        Sign::Hint => token is Hint,
        Sign::Sink => token is Sink,
        Sign::Star => token is Star,
        Sign::Bang => token is Bang,
        Sign::Question => token is Question,
        Sign::Slash => token is Slash,
        Sign::Plus => token is Plus,
        Sign::Dollar => token is Dollar,
        Sign::Equals => token is Equals,
        Sign::At => token is At,
        Sign::Caret => token is Caret,
        Sign::Colon => token is Colon,
        Sign::Semi => token is Semi,
        Sign::Pipe => token is Pipe,
        Sign::Compose => token is Compose,
        Sign::ComposeValue => token is ComposeValue,
        Sign::LeftBrace => token is LeftBrace,
        Sign::RightBrace => token is RightBrace,
        Sign::LeftParen => token is LeftParen,
        Sign::RightParen => token is RightParen,
        Sign::LeftBracket => token is LeftBracket,
        Sign::RightBracket => token is RightBracket,
        Sign::LeftAngle => token is LeftAngle,
        Sign::RightAngle => token is RightAngle,
    }
}

/// Whether the next token is the sign.
pub open spec fn sees(inp: Input, st: State, sign: Sign) -> bool {
    unread(inp, st) && is_sign(inp.lexemes[st.pos as int].token, sign)
}

/// Whether the next token is a fragment that is the given name.
pub open spec fn sees_name(inp: Input, st: State, name: Seq<char>) -> bool {
    &&& unread(inp, st)
    &&& inp.lexemes[st.pos as int].token is Fragment
    &&& inp.lexemes[st.pos as int].text@ == name
    &&& valid_ident(name)
}

/// Whether the next token goes on with text.
pub open spec fn sees_text(inp: Input, st: State) -> bool {
    unread(inp, st) && (inp.lexemes[st.pos as int].token is Fragment
        || inp.lexemes[st.pos as int].token is Escape)
}

// Printing.

/// Whether a node counts as printing.
pub open spec fn prints(node: RstTree) -> bool {
    match node {
        RstTree::Fragment(_)
        | RstTree::Integer(_)
        | RstTree::Float(_)
        | RstTree::Boolean(_)
        | RstTree::VarGet(..) => true,
        RstTree::Block(block) => block.flag == PrintFlag::Hint,
        RstTree::BlockValue(block) => block.flag == PrintFlag::Hint,
        RstTree::FuncCall { flag, .. } => flag == PrintFlag::Hint,
        RstTree::AnonFuncCall { flag, .. } => flag == PrintFlag::Hint,
        _ => false,
    }
}

/// Whether a node drops the whitespace before it.
pub open spec fn drops_space(node: RstTree) -> bool {
    match node {
        RstTree::FuncDef { .. } => true,
        RstTree::Block(block) => block.flag == PrintFlag::Sink,
        RstTree::BlockValue(block) => block.flag == PrintFlag::Sink,
        RstTree::FuncCall { flag, .. } => flag == PrintFlag::Sink,
        RstTree::AnonFuncCall { flag, .. } => flag == PrintFlag::Sink,
        _ => false,
    }
}

/// Whether any of the first `count` nodes prints.
pub open spec fn any_prints(nodes: Seq<RstTree>, count: nat) -> bool {
    exists|i: int| 0 <= i < count && i < nodes.len() && prints(#[trigger] nodes[i])
}

/// Whether any of the sequences prints.
pub open spec fn any_sequence_prints(elements: Seq<SequenceTree>, count: nat) -> bool {
    exists|i: int|
        0 <= i < count && i < elements.len() && any_prints(
            (#[trigger] elements[i]).elements,
            elements[i].elements.len(),
        )
}

// Variables.

/// After a use of a path: its variable is captured if the function body has it from outside.
pub open spec fn using(st: State, path: PathTree) -> State {
    if path.kind is Local && path.parts.len() > 0 && path.parts[0] is Name && comes_from_outside(
        st,
        path.parts[0]->Name_0,
    ) {
        State {
            captures: st.captures.drop_last().push(
                (st.captures.last().0, st.captures.last().1.insert(path.parts[0]->Name_0)),
            ),
            ..st
        }
    } else {
        st
    }
}

/// After a definition: its name is in the scope that it is made in.
pub open spec fn defining(st: State, id: Seq<char>, kind: AccessPathKind) -> State {
    match kind {
        AccessPathKind::Local => State {
            scopes: st.scopes.drop_last().push(st.scopes.last().insert(id)),
            ..st
        },
        AccessPathKind::Descope(n) => {
            let layer = if n < st.scopes.len() {
                st.scopes.len() - 1 - n
            } else {
                0
            };
            State { scopes: st.scopes.update(layer, st.scopes[layer].insert(id)), ..st }
        },
        AccessPathKind::ExplicitGlobal => st,
    }
}

// Sequences.

/// The nodes from number `i` on, where `space` is the whitespace that was written last, if it
/// stands behind something that prints.
pub open spec fn spells_nodes(
    inp: Input,
    st: State,
    nodes: Seq<RstTree>,
    i: nat,
    space: Option<Seq<char>>,
) -> Option<State>
    decreases nodes, nodes.len() - i, left(inp, st),
{
    if unread(inp, st) && inp.lexemes[st.pos as int].token is Whitespace {
        spells_nodes(
            inp,
            step(st),
            nodes,
            i,
            if any_prints(nodes, i) {
                Some(inp.lexemes[st.pos as int].text@)
            } else {
                None
            },
        )
    } else if i >= nodes.len() {
        Some(st)
    } else if nodes[i as int] is Whitespace {
        // Whitespace is kept before what prints
        if space == Some(nodes[i as int]->Whitespace_0) && i + 1 < nodes.len() && prints(
            nodes[(i + 1) as int],
        ) {
            match spells_item(inp, st, nodes[(i + 1) as int]) {
                Some(st1) => spells_nodes(inp, st1, nodes, i + 2, None),
                None => None,
            }
        } else {
            None
        }
    } else if prints(nodes[i as int]) && space is Some {
        None
    } else {
        match spells_item(inp, st, nodes[i as int]) {
            Some(st1) => spells_nodes(
                inp,
                st1,
                nodes,
                i + 1,
                if prints(nodes[i as int]) || drops_space(nodes[i as int]) {
                    None
                } else {
                    space
                },
            ),
            None => None,
        }
    }
}

/// The nodes of a sequence, in a scope of its own, up to the token that ends it.
pub open spec fn spells_sequence(inp: Input, st: State, sequence: SequenceTree) -> Option<State>
    decreases sequence, 0nat, 0nat,
{
    if sequence.origin != inp.origin {
        None
    } else {
        match spells_nodes(inp, enter_scope(st, Set::empty()), sequence.elements, 0, None) {
            Some(st1) => Some(leave_scope(st1)),
            None => None,
        }
    }
}

/// A node with the hint or sink before it.
pub open spec fn spells_item(inp: Input, st: State, node: RstTree) -> Option<State>
    decreases node, 2nat, 0nat,
{
    if sees(inp, st, Sign::Hint) {
        spells_node(inp, step(st), node, PrintFlag::Hint)
    } else if sees(inp, st, Sign::Sink) {
        spells_node(inp, step(st), node, PrintFlag::Sink)
    } else {
        spells_node(inp, st, node, PrintFlag::Plain)
    }
}

/// The rest of a text, from character `from` on, in fragments and escapes.
pub open spec fn spells_letters(inp: Input, st: State, text: Seq<char>, from: nat) -> Option<State>
    decreases left(inp, st),
{
    if sees_text(inp, st) {
        let lexeme = inp.lexemes[st.pos as int];
        let piece = match lexeme.token {
            RantToken::Escape(c) => seq![c],
            _ => lexeme.text@,
        };
        let to = from + piece.len();
        if to <= text.len() && text.subrange(from as int, to as int) == piece {
            spells_letters(inp, step(st), text, to)
        } else {
            None
        }
    } else if from == text.len() {
        Some(st)
    } else {
        None
    }
}

/// A text: fragments and escapes, a string, or a sign that means nothing else where it stands.
pub open spec fn spells_text(inp: Input, st: State, text: Seq<char>) -> Option<State> {
    if unread(inp, st) {
        let lexeme = inp.lexemes[st.pos as int];
        match lexeme.token {
            RantToken::Fragment => spells_letters(inp, st, text, 0),
            RantToken::Escape(c) => spells_letters(inp, st, text, 0),
            RantToken::StringLiteral(s) if s@ == text => Some(step(st)),
            RantToken::Bang if lexeme.text@ == text => Some(step(st)),
            RantToken::Question if lexeme.text@ == text => Some(step(st)),
            RantToken::Slash if lexeme.text@ == text => Some(step(st)),
            RantToken::Plus if lexeme.text@ == text => Some(step(st)),
            RantToken::Dollar if lexeme.text@ == text => Some(step(st)),
            RantToken::Equals if lexeme.text@ == text => Some(step(st)),
            _ => None,
        }
    } else {
        None
    }
}

/// A node under the given hint or sink.
pub open spec fn spells_node(inp: Input, st: State, node: RstTree, flag: PrintFlag) -> Option<State>
    decreases node, 1nat, 0nat,
{
    if !unread(inp, st) {
        None
    } else {
        let token = inp.lexemes[st.pos as int].token;
        let plain = flag == PrintFlag::Plain;
        match node {
            RstTree::Fragment(text) if plain => spells_text(inp, st, text),
            RstTree::Integer(n) if plain && token == RantToken::Integer(n) => Some(step(st)),
            RstTree::Float(n) if plain && token is Float && token->Float_0@ == n => Some(step(st)),
            RstTree::Boolean(b) if plain && (b && token is True || !b && token is False) => Some(
                step(st),
            ),
            RstTree::EmptyVal if plain && token is EmptyValue => Some(step(st)),
            RstTree::Block(block) if token is LeftBrace => spells_block(inp, step(st), block, flag),
            RstTree::BlockValue(block) if token is Star && sees(
                inp,
                skip(inp, step(st)),
                Sign::LeftBrace,
            ) => spells_block(inp, step(skip(inp, step(st))), block, flag),
            RstTree::ListInit(elements) if plain && token is LeftParen => spells_list(
                inp,
                step(st),
                elements,
            ),
            RstTree::MapInit(pairs) if plain && token is At && sees(
                inp,
                skip(inp, step(st)),
                Sign::LeftParen,
            ) => spells_map(inp, step(skip(inp, step(st))), pairs, 0),
            RstTree::FuncDef { id, params, captures, body } if plain && token is LeftBracket
                && sees(inp, skip(inp, step(st)), Sign::Dollar) => match spells_path(
                inp,
                step(skip(inp, step(st))),
                id,
                false,
            ) {
                Some(st1) => match spells_function(
                    inp,
                    st1,
                    params,
                    captures,
                    body,
                    seq!['['] + id.text() + seq![']'],
                ) {
                    Some(st2) => Some(skip(inp, st2)),
                    None => None,
                },
                None => None,
            },
            RstTree::Closure { params, captures, expr } if plain && token is LeftBracket && sees(
                inp,
                skip(inp, step(st)),
                Sign::Question,
            ) => spells_function(
                inp,
                step(skip(inp, step(st))),
                params,
                captures,
                expr,
                "closure"@,
            ),
            _ if plain && token is LeftAngle => match spells_accessor(
                inp,
                skip(inp, step(st)),
                node,
            ) {
                Some((st1, more)) => if !more {
                    Some(st1)
                } else if sees(inp, skip(inp, st1), Sign::RightAngle) {
                    Some(step(skip(inp, st1)))
                } else {
                    None
                },
                None => None,
            },
            _ if token is LeftBracket
                && !sees(inp, skip(inp, step(st)), Sign::Dollar) && !sees(
                inp,
                skip(inp, step(st)),
                Sign::Question,
            ) => match spells_calls(inp, skip(inp, step(st)), node, flag) {
                Some((st1, true)) => Some(st1),
                _ => None,
            },
            _ => None,
        }
    }
}

// Blocks and collections.

/// A block from behind its opening brace on. A block counts as hinted if it prints and is no sink.
pub open spec fn spells_block(inp: Input, st: State, block: BlockTree, flag: PrintFlag) -> Option<
    State,
>
    decreases block, 0nat, 0nat,
{
    let printing = any_sequence_prints(block.elements, block.elements.len());
    if block.elements.len() == 0 {
        None
    } else if block.flag != if printing && flag != PrintFlag::Sink {
        PrintFlag::Hint
    } else {
        flag
    } {
        None
    } else {
        spells_block_elements(inp, st, block.elements, 0)
    }
}

/// The elements of a block from number `i` on, with the pipes between them and the closing brace.
pub open spec fn spells_block_elements(
    inp: Input,
    st: State,
    elements: Seq<SequenceTree>,
    i: nat,
) -> Option<State>
    decreases elements, elements.len() - i, 0nat,
{
    if i >= elements.len() || elements[i as int].name != Some("block element"@) {
        None
    } else {
        match spells_sequence(inp, st, elements[i as int]) {
            None => None,
            Some(st1) => if i + 1 < elements.len() {
                if sees(inp, st1, Sign::Pipe) {
                    spells_block_elements(inp, step(st1), elements, i + 1)
                } else {
                    None
                }
            } else if sees(inp, st1, Sign::RightBrace) {
                Some(step(st1))
            } else {
                None
            },
        }
    }
}

/// A list from behind its opening parenthesis on.
pub open spec fn spells_list(inp: Input, st: State, elements: Seq<SequenceTree>) -> Option<State>
    decreases elements, elements.len() + 1, 0nat,
{
    let st1 = skip(inp, st);
    if sees(inp, st1, Sign::RightParen) {
        if elements.len() == 0 {
            Some(step(st1))
        } else {
            None
        }
    } else {
        spells_list_elements(inp, st1, elements, 0)
    }
}

/// The elements of a list from number `i` on, with what separates them and the closing parenthesis.
pub open spec fn spells_list_elements(
    inp: Input,
    st: State,
    elements: Seq<SequenceTree>,
    i: nat,
) -> Option<State>
    decreases elements, elements.len() - i, 0nat,
{
    if i >= elements.len() {
        None
    } else {
        match spells_sequence(inp, skip(inp, st), elements[i as int]) {
            None => None,
            Some(st1) => if i + 1 < elements.len() {
                if sees(inp, st1, Sign::Semi) && elements[i as int].name == Some(
                    "collection item"@,
                ) {
                    spells_list_elements(inp, step(st1), elements, i + 1)
                } else {
                    None
                }
            } else if sees(inp, st1, Sign::RightParen) && elements[i as int].name is None {
                Some(step(st1))
            } else {
                None
            },
        }
    }
}

/// The pairs of a map from number `i` on, with what separates them and the closing parenthesis. A
/// separator may stand behind the last pair.
pub open spec fn spells_map(
    inp: Input,
    st: State,
    pairs: Seq<(KeyTree, SequenceTree)>,
    i: nat,
) -> Option<State>
    decreases pairs, pairs.len() - i, 0nat,
{
    if i >= pairs.len() {
        if sees(inp, skip(inp, st), Sign::RightParen) {
            Some(step(skip(inp, st)))
        } else {
            None
        }
    } else {
        match spells_key(inp, skip(inp, st), pairs[i as int].0) {
            None => None,
            Some(st1) => if !sees(inp, skip(inp, st1), Sign::Equals) {
                None
            } else {
                match spells_sequence(
                    inp,
                    skip(inp, step(skip(inp, st1))),
                    pairs[i as int].1,
                ) {
                    None => None,
                    Some(st2) => if sees(inp, st2, Sign::Semi) && pairs[i as int].1.name == Some(
                        "collection item"@,
                    ) {
                        spells_map(inp, step(st2), pairs, i + 1)
                    } else if sees(inp, st2, Sign::RightParen) && pairs[i as int].1.name is None
                        && i + 1 == pairs.len() {
                        Some(step(st2))
                    } else {
                        None
                    },
                }
            },
        }
    }
}

/// A key of a map: an identifier, a string or an expression in braces.
pub open spec fn spells_key(inp: Input, st: State, key: KeyTree) -> Option<State>
    decreases key, 0nat, 0nat,
{
    match key {
        KeyTree::Static(text) => if sees_name(inp, st, text) || unread(inp, st)
            && inp.lexemes[st.pos as int].token is StringLiteral
            && inp.lexemes[st.pos as int].token->StringLiteral_0@ == text {
            Some(step(st))
        } else {
            None
        },
        KeyTree::Dynamic(sequence) => if sees(inp, st, Sign::LeftBrace) {
            spells_dynamic_key(inp, step(st), sequence)
        } else {
            None
        },
    }
}

/// An expression in braces, from behind the opening brace on.
pub open spec fn spells_dynamic_key(inp: Input, st: State, sequence: SequenceTree) -> Option<State>
    decreases sequence, 1nat, 0nat,
{
    match spells_sequence(inp, st, sequence) {
        Some(st1) => if sees(inp, st1, Sign::RightBrace) && sequence.name == Some("dynamic key"@) {
            Some(step(st1))
        } else {
            None
        },
        None => None,
    }
}

// Access paths.

/// What says where a path or definition starts.
pub open spec fn spells_kind(inp: Input, st: State, kind: AccessPathKind) -> Option<State> {
    match kind {
        AccessPathKind::ExplicitGlobal => if sees(inp, st, Sign::Slash) {
            Some(step(st))
        } else {
            None
        },
        AccessPathKind::Descope(n) => if n > 0 && carets_at(inp.lexemes, st.pos, n as nat) {
            Some(State { pos: st.pos + n as nat, ..st })
        } else {
            None
        },
        AccessPathKind::Local => if sees(inp, st, Sign::Slash) || sees(inp, st, Sign::Caret) {
            None
        } else {
            Some(st)
        },
    }
}

/// A path, with the whitespace around it.
pub open spec fn spells_path(
    inp: Input,
    st: State,
    path: PathTree,
    allow_anonymous: bool,
) -> Option<State>
    decreases path, 0nat, 0nat,
{
    let st1 = skip(inp, st);
    if path.parts.len() == 0 {
        None
    } else if allow_anonymous && sees(inp, st1, Sign::Bang) {
        match path.parts[0] {
            ComponentTree::AnonymousValue(value) if path.kind is Local => match spells_single(
                inp,
                skip(inp, step(st1)),
                value,
            ) {
                Some(st2) => spells_parts(inp, st2, path.parts, 1),
                None => None,
            },
            _ => None,
        }
    } else {
        match spells_kind(inp, st1, path.kind) {
            None => None,
            Some(st2) => match path.parts[0] {
                ComponentTree::Name(name) if sees_name(inp, skip(inp, st2), name) => spells_parts(
                    inp,
                    step(skip(inp, st2)),
                    path.parts,
                    1,
                ),
                ComponentTree::DynamicKey(key) if sees(
                    inp,
                    skip(inp, st2),
                    Sign::LeftBrace,
                ) => match spells_dynamic_key(inp, step(skip(inp, st2)), key) {
                    Some(st3) => spells_parts(inp, st3, path.parts, 1),
                    None => None,
                },
                _ => None,
            },
        }
    }
}

/// A sequence of one item, in a scope of its own.
pub open spec fn spells_single(inp: Input, st: State, sequence: SequenceTree) -> Option<State>
    decreases sequence, 0nat, 0nat,
{
    if sequence.name is Some || sequence.origin != inp.origin || sequence.elements.len() != 1 {
        None
    } else {
        match spells_item(inp, enter_scope(st, Set::empty()), sequence.elements[0]) {
            Some(st1) => Some(leave_scope(st1)),
            None => None,
        }
    }
}

/// The components of a path from number `i` on, each with a slash before it, and the whitespace
/// behind them.
pub open spec fn spells_parts(inp: Input, st: State, parts: Seq<ComponentTree>, i: nat) -> Option<
    State,
>
    decreases parts, parts.len() - i, 0nat,
{
    let st1 = skip(inp, st);
    if i >= parts.len() {
        if sees(inp, st1, Sign::Slash) {
            None
        } else {
            Some(st1)
        }
    } else if !sees(inp, st1, Sign::Slash) {
        None
    } else {
        let st2 = skip(inp, step(st1));
        match parts[i as int] {
            ComponentTree::Name(name) if sees_name(inp, st2, name) => spells_parts(
                inp,
                step(st2),
                parts,
                i + 1,
            ),
            ComponentTree::Index(index) if unread(inp, st2) && inp.lexemes[st2.pos as int].token
                == RantToken::Integer(index) => spells_parts(inp, step(st2), parts, i + 1),
            ComponentTree::DynamicKey(key) if sees(
                inp,
                st2,
                Sign::LeftBrace,
            ) => match spells_dynamic_key(inp, step(st2), key) {
                Some(st3) => spells_parts(inp, st3, parts, i + 1),
                None => None,
            },
            _ => None,
        }
    }
}

// Accessors.

/// What ends an accessor: a closing angle bracket, or a semicolon, behind which there may be more.
pub open spec fn spells_end(inp: Input, st: State) -> Option<(State, bool)> {
    if sees(inp, st, Sign::RightAngle) {
        Some((step(st), false))
    } else if sees(inp, st, Sign::Semi) {
        Some((step(st), true))
    } else {
        None
    }
}

/// A value behind an equals sign, with what ends the accessor.
pub open spec fn spells_assigned(inp: Input, st: State, value: SequenceTree) -> Option<
    (State, bool),
>
    decreases value, 1nat, 0nat,
{
    if !sees(inp, skip(inp, st), Sign::Equals) {
        None
    } else {
        match spells_sequence(inp, skip(inp, step(skip(inp, st))), value) {
            None => None,
            Some(st1) => if value.name == Some(
                if sees(inp, st1, Sign::Semi) {
                    "variable assignment"@
                } else {
                    "setter value"@
                },
            ) {
                spells_end(inp, st1)
            } else {
                None
            },
        }
    }
}

/// A value behind a question mark, with what ends the accessor.
pub open spec fn spells_fallback(inp: Input, st: State, value: SequenceTree) -> Option<
    (State, bool),
>
    decreases value, 1nat, 0nat,
{
    if !sees(inp, skip(inp, st), Sign::Question) || value.name != Some("fallback value"@) {
        None
    } else {
        match spells_sequence(inp, skip(inp, step(skip(inp, st))), value) {
            None => None,
            Some(st1) => spells_end(inp, st1),
        }
    }
}

/// A definition, getter or setter, with what ends it.
pub open spec fn spells_accessor(inp: Input, st: State, node: RstTree) -> Option<(State, bool)>
    decreases node, 0nat, 0nat,
{
    match node {
        RstTree::VarDef(id, kind, value) => if !sees(inp, st, Sign::Dollar) {
            None
        } else {
            match spells_kind(inp, skip(inp, step(st)), kind) {
                None => None,
                Some(st1) => if !sees_name(inp, skip(inp, st1), id) {
                    None
                } else {
                    let st2 = step(skip(inp, st1));
                    let written = match value {
                        Some(value) => spells_assigned(inp, st2, value),
                        None => spells_end(inp, skip(inp, st2)),
                    };
                    match written {
                        Some((st3, more)) => Some((defining(st3, id, kind), more)),
                        None => None,
                    }
                },
            }
        },
        RstTree::VarGet(path, fallback) => if sees(inp, st, Sign::Dollar) {
            None
        } else {
            match spells_path(inp, st, path, true) {
                None => None,
                Some(st1) => {
                    let written = match fallback {
                        Some(value) => spells_fallback(inp, st1, value),
                        None => spells_end(inp, skip(inp, st1)),
                    };
                    match written {
                        Some((st2, more)) => Some((using(st2, path), more)),
                        None => None,
                    }
                },
            }
        },
        RstTree::VarSet(path, value) => if sees(inp, st, Sign::Dollar) || path.parts.len() == 1
            && path.parts[0] is AnonymousValue {
            None
        } else {
            match spells_path(inp, st, path, true) {
                None => None,
                Some(st1) => match spells_assigned(inp, st1, value) {
                    Some((st2, more)) => Some((using(st2, path), more)),
                    None => None,
                },
            }
        },
        _ => None,
    }
}

/// An accessor behind whitespace, with what ends it.
#[verifier::opaque]
pub open spec fn spells_next_accessor(inp: Input, st: State, node: RstTree) -> Option<
    (State, bool),
> {
    spells_accessor(inp, skip(inp, st), node)
}

/// Accessors from number `i` on, from behind the opening angle bracket on.
pub open spec fn spells_accessors(inp: Input, st: State, nodes: Seq<RstTree>, i: nat) -> Option<
    State,
>
    decreases nodes.len() - i,
{
    if i >= nodes.len() {
        None
    } else {
        match spells_next_accessor(inp, st, nodes[i as int]) {
            None => None,
            Some((st1, more)) => if i + 1 < nodes.len() {
                if more && !sees(inp, skip(inp, st1), Sign::RightAngle) {
                    spells_accessors(inp, st1, nodes, i + 1)
                } else {
                    None
                }
            } else if !more {
                Some(st1)
            } else if sees(inp, skip(inp, st1), Sign::RightAngle) {
                Some(step(skip(inp, st1)))
            } else {
                None
            },
        }
    }
}

// Functions.

/// Whether the parameters can stand in a signature: they are identifiers, no two of which are the
/// same, in an order that their varities allow.
pub open spec fn can_be_params(params: Seq<ParameterTree>) -> bool {
    &&& forall|i: int, j: int|
        0 <= i < j < params.len() ==> (#[trigger] params[i]).name != (#[trigger] params[j]).name
    &&& forall|i: int, j: int|
        0 <= i < j < params.len() ==> match ((#[trigger] params[i]).varity, (
        #[trigger] params[j]).varity) {
            (Varity::Required, _) => true,
            (Varity::Optional, Varity::Optional) => true,
            (Varity::Optional, Varity::VariadicStar) => true,
            _ => false,
        }
}

/// The parameters from number `i` on, with the bracket that closes the signature.
pub open spec fn spells_params(inp: Input, st: State, params: Seq<ParameterTree>, i: nat) -> Option<
    State,
>
    decreases params.len() - i,
{
    if i >= params.len() || !sees_name(inp, skip(inp, st), params[i as int].name) {
        None
    } else {
        let st1 = skip(inp, step(skip(inp, st)));
        let marked = match params[i as int].varity {
            Varity::Required => if sees(inp, st1, Sign::Question) || sees(inp, st1, Sign::Star)
                || sees(inp, st1, Sign::Plus) {
                None
            } else {
                Some(st1)
            },
            Varity::Optional => if sees(inp, st1, Sign::Question) {
                Some(step(st1))
            } else {
                None
            },
            Varity::VariadicStar => if sees(inp, st1, Sign::Star) {
                Some(step(st1))
            } else {
                None
            },
            Varity::VariadicPlus => if sees(inp, st1, Sign::Plus) {
                Some(step(st1))
            } else {
                None
            },
        };
        match marked {
            None => None,
            Some(st2) => if i + 1 < params.len() {
                if sees(inp, skip(inp, st2), Sign::Semi) {
                    spells_params(inp, step(skip(inp, st2)), params, i + 1)
                } else {
                    None
                }
            } else if sees(inp, skip(inp, st2), Sign::RightBracket) {
                Some(step(skip(inp, st2)))
            } else {
                None
            },
        }
    }
}

/// The parameters of a function, with what stands before and behind them.
pub open spec fn spells_signature(inp: Input, st: State, params: Seq<ParameterTree>) -> Option<
    State,
> {
    if params.len() == 0 {
        if sees(inp, skip(inp, st), Sign::RightBracket) {
            Some(step(skip(inp, st)))
        } else {
            None
        }
    } else if can_be_params(params) && sees(inp, skip(inp, st), Sign::Colon) {
        spells_params(inp, step(skip(inp, st)), params, 0)
    } else {
        None
    }
}

/// The names of parameters.
pub open spec fn names_of(params: Seq<ParameterTree>) -> Set<Seq<char>> {
    Set::new(
        |name: Seq<char>|
            exists|i: int| 0 <= i < params.len() && (#[trigger] params[i]).name == name,
    )
}

/// The parameters and the body of a function. Inside the body, the parameters are in scope; what
/// the body has from outside is captured.
pub open spec fn spells_function(
    inp: Input,
    st: State,
    params: Seq<ParameterTree>,
    captures: CaptureTree,
    body: SequenceTree,
    name: Seq<char>,
) -> Option<State>
    decreases body, 0nat, 0nat,
{
    match spells_signature(inp, st, params) {
        None => None,
        Some(st1) => {
            let st2 = skip(inp, st1);
            if !sees(inp, st2, Sign::LeftBrace) || body.origin != inp.origin || body.name != Some(
                name,
            ) {
                None
            } else {
                let inside = State {
                    pos: st2.pos + 1,
                    reports: st2.reports,
                    scopes: st2.scopes.push(names_of(params)),
                    captures: st2.captures.push((st2.scopes.len(), Set::empty())),
                };
                match spells_nodes(inp, inside, body.elements, 0, None) {
                    None => None,
                    Some(st3) => {
                        let names = st3.captures.last().1;
                        if sees(inp, st3, Sign::RightBrace) && captures == (CaptureTree {
                            names,
                            listed: names.len(),
                        }) {
                            Some(
                                State {
                                    pos: st3.pos + 1,
                                    reports: st3.reports,
                                    scopes: st3.scopes.drop_last(),
                                    captures: st3.captures.drop_last(),
                                },
                            )
                        } else {
                            None
                        }
                    },
                }
            }
        },
    }
}

// Calls.

/// The first argument that is a call before; the number of arguments if there is none.
pub open spec fn place_of_call(args: Seq<SequenceTree>) -> nat
    decreases args.len(),
{
    if args.len() == 0 || args[0].name is None {
        0
    } else {
        1 + place_of_call(args.drop_first())
    }
}

/// The call before, which stands in a composition as the given argument or callee.
pub open spec fn spells_before(inp: Input, st: State, arg: SequenceTree, flag: PrintFlag) -> Option<
    State,
>
    decreases arg, 0nat, 0nat,
{
    if arg.origin != inp.origin || arg.elements.len() != 1 || arg.name is Some {
        None
    } else {
        match spells_calls(inp, st, arg.elements[0], flag) {
            Some((st1, false)) => Some(st1),
            _ => None,
        }
    }
}

/// The call before, if one of the arguments is it.
pub open spec fn spells_before_args(
    inp: Input,
    st: State,
    args: Seq<SequenceTree>,
    flag: PrintFlag,
) -> Option<State>
    decreases args, args.len() + 2, 0nat,
{
    let place = place_of_call(args);
    if place >= args.len() {
        Some(st)
    } else {
        spells_before(inp, st, args[place as int], flag)
    }
}

/// A call and those before it in a composition, with what ends it: a closing bracket, or the sign
/// that composes another call with it.
pub open spec fn spells_calls(inp: Input, st: State, node: RstTree, flag: PrintFlag) -> Option<
    (State, bool),
>
    decreases node, 0nat, 0nat,
{
    match node {
        RstTree::FuncCall { id, args, flag: own } => if own != flag {
            None
        } else {
            match spells_before_args(inp, st, args, flag) {
                None => None,
                Some(st1) => if sees(inp, skip(inp, st1), Sign::Bang) {
                    None
                } else {
                    match spells_path(inp, skip(inp, st1), id, false) {
                        None => None,
                        Some(st2) => match spells_call_rest(
                            inp,
                            skip(inp, st2),
                            args,
                            place_of_call(args),
                        ) {
                            Some((st3, finished)) => Some((using(st3, id), finished)),
                            None => None,
                        },
                    }
                },
            }
        },
        RstTree::AnonFuncCall { expr, args, flag: own } => if own != flag {
            None
        } else if expr.name is None {
            // The call before is the callee
            match spells_before(inp, st, expr, flag) {
                None => None,
                Some(st1) => {
                    let st2 = skip(inp, st1);
                    let st3 = skip(inp, step(st2));
                    if sees(inp, st2, Sign::Bang) && sees(inp, st3, Sign::ComposeValue)
                        && all_written(args) {
                        spells_call_rest(inp, skip(inp, step(st3)), args, args.len())
                    } else {
                        None
                    }
                },
            }
        } else {
            match spells_before_args(inp, st, args, flag) {
                None => None,
                Some(st1) => {
                    let st2 = skip(inp, st1);
                    let st3 = skip(inp, step(st2));
                    if !sees(inp, st2, Sign::Bang) || sees(inp, st3, Sign::ComposeValue)
                        || expr.name != Some("anonymous function expression"@) {
                        None
                    } else {
                        match spells_sequence(inp, st3, expr) {
                            None => None,
                            Some(st4) => spells_call_rest(inp, st4, args, place_of_call(args)),
                        }
                    }
                },
            }
        },
        _ => None,
    }
}

/// What follows the function in a call: its arguments, of which the one at `place` is the call
/// before, and what ends it. The call before need not be written if it is the first argument.
pub open spec fn spells_call_rest(
    inp: Input,
    st: State,
    args: Seq<SequenceTree>,
    place: nat,
) -> Option<(State, bool)>
    decreases args, args.len() + 1, 0nat,
{
    let bare = args.len() == 0 || args.len() == 1 && place == 0;
    if bare && sees(inp, st, Sign::RightBracket) {
        Some((step(st), true))
    } else if bare && sees(inp, st, Sign::Compose) {
        Some((step(st), false))
    } else if !sees(inp, st, Sign::Colon) {
        None
    } else if place == 0 && args.len() > 0 && !sees(
        inp,
        skip(inp, step(st)),
        Sign::ComposeValue,
    ) {
        spells_args(inp, step(st), args, 1, args.len())
    } else {
        spells_args(inp, step(st), args, 0, place)
    }
}

/// The arguments from number `i` on, with what separates and ends them. The one at `place` is
/// written as the compose value.
pub open spec fn spells_args(
    inp: Input,
    st: State,
    args: Seq<SequenceTree>,
    i: nat,
    place: nat,
) -> Option<(State, bool)>
    decreases args, args.len() - i, 0nat,
{
    let st1 = skip(inp, st);
    if i >= args.len() {
        None
    } else {
        let written = if i == place {
            if sees(inp, st1, Sign::ComposeValue) {
                Some(skip(inp, step(st1)))
            } else {
                None
            }
        } else if sees(inp, st1, Sign::ComposeValue) || args[i as int].name != Some("argument"@) {
            None
        } else {
            spells_sequence(inp, st1, args[i as int])
        };
        match written {
            None => None,
            Some(st2) => if i + 1 < args.len() {
                if sees(inp, st2, Sign::Semi) {
                    spells_args(inp, step(st2), args, i + 1, place)
                } else {
                    None
                }
            } else if sees(inp, st2, Sign::RightBracket) {
                Some((step(st2), true))
            } else if sees(inp, st2, Sign::Compose) {
                Some((step(st2), false))
            } else {
                None
            },
        }
    }
}

} // verus!
