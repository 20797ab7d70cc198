//! The Rant standard library.

use std::rc::Rc;
use vstd::prelude::*;
use crate::engine::{EngineView, Rant};
use crate::value::{RantFunction, RantValue, ValueView};

verus! {

/// The names of the functions in the standard library.
pub open spec fn function_names() -> Seq<&'static str> {
    seq![
        // General functions
        "alt", "call", "either", "len", "type", "seed", "nop", "resolve", "fork", "unfork",
        // Assertion functions
        "assert", "assert-eq", "assert-neq",
        // Formatting functions
        "whitespace-fmt",
        // Block attribute / control flow functions
        "break", "continue", "if", "else-if", "else", "mksel", "rep", "return", "sel", "sep",
        // Attribute frame stack functions
        "push-attrs", "pop-attrs", "count-attrs", "reset-attrs",
        // Block state functions
        "step", "step-index", "step-count",
        // Boolean functions
        "and", "not", "or", "xor",
        // Comparison functions
        "eq", "neq", "gt", "lt", "ge", "le",
        // Verification functions
        "is-string", "is-integer", "is-float", "is-number", "is-bool", "is-empty", "is-nan",
        "is-between", "is-any", "is",
        // Math functions
        "add", "sub", "mul", "div", "mul-add", "mod", "neg", "recip", "is-odd", "is-even",
        "is-factor", "clamp",
        // Conversion functions
        "int", "float", "string",
        // Generator functions
        "alpha", "dig", "digh", "dignz", "maybe", "rand", "randf", "rand-list", "randf-list",
        "shred",
        // Prototype functions
        "proto", "set-proto",
        // Collection functions
        "assoc", "clear", "has", "keys", "index-of", "insert", "last-index-of", "remove", "sift",
        "sifted", "squish", "squished", "take", "translate",
        // List functions
        "pick", "filter", "join", "map", "sort", "sorted", "shuffle", "shuffled", "sum", "min",
        "max", "push", "pop", "oxford-join", "zip",
        // String functions
        "lower", "upper", "seg", "split", "lines", "indent",
        // Error functions
        "error",
    ]
}

/// The names of the functions in the standard library, in the order in which they are loaded.
pub fn stdlib_functions() -> (names: Vec<&'static str>)
    ensures
        names@ == function_names(),
{
    vec![
        // General functions
        "alt", "call", "either", "len", "type", "seed", "nop", "resolve", "fork", "unfork",
        // Assertion functions
        "assert", "assert-eq", "assert-neq",
        // Formatting functions
        "whitespace-fmt",
        // Block attribute / control flow functions
        "break", "continue", "if", "else-if", "else", "mksel", "rep", "return", "sel", "sep",
        // Attribute frame stack functions
        "push-attrs", "pop-attrs", "count-attrs", "reset-attrs",
        // Block state functions
        "step", "step-index", "step-count",
        // Boolean functions
        "and", "not", "or", "xor",
        // Comparison functions
        "eq", "neq", "gt", "lt", "ge", "le",
        // Verification functions
        "is-string", "is-integer", "is-float", "is-number", "is-bool", "is-empty", "is-nan",
        "is-between", "is-any", "is",
        // Math functions
        "add", "sub", "mul", "div", "mul-add", "mod", "neg", "recip", "is-odd", "is-even",
        "is-factor", "clamp",
        // Conversion functions
        "int", "float", "string",
        // Generator functions
        "alpha", "dig", "digh", "dignz", "maybe", "rand", "randf", "rand-list", "randf-list",
        "shred",
        // Prototype functions
        "proto", "set-proto",
        // Collection functions
        "assoc", "clear", "has", "keys", "index-of", "insert", "last-index-of", "remove", "sift",
        "sifted", "squish", "squished", "take", "translate",
        // List functions
        "pick", "filter", "join", "map", "sort", "sorted", "shuffle", "shuffled", "sum", "min",
        "max", "push", "pop", "oxford-join", "zip",
        // String functions
        "lower", "upper", "seg", "split", "lines", "indent",
        // Error functions
        "error",
    ]
}

/// Global variables with the first `count` functions loaded.
pub open spec fn with_functions(
    globals: Map<Seq<char>, ValueView>,
    funcs: Seq<Rc<RantFunction>>,
    count: int,
) -> Map<Seq<char>, ValueView>
    decreases count,
{
    if count <= 0 {
        globals
    } else {
        with_functions(globals, funcs, count - 1).insert(
            function_names()[count - 1]@,
            ValueView::Function(funcs[count - 1]),
        )
    }
}

/// Global variables with the standard library loaded.
pub open spec fn with_stdlib(
    globals: Map<Seq<char>, ValueView>,
    funcs: Seq<Rc<RantFunction>>,
    require: Option<Rc<RantFunction>>,
    version: Seq<char>,
) -> Map<Seq<char>, ValueView> {
    let loaded = with_functions(globals, funcs, function_names().len() as int);
    (match require {
        Some(func) => loaded.insert("require"@, ValueView::Function(func)),
        None => loaded,
    }).insert("RANT_VERSION"@, ValueView::Text(version))
}

/// Loads the standard library into an engine.
///
/// `funcs` are the functions under the names that [`stdlib_functions`] lists, and `require` is the
/// function that loads modules. It is loaded only if the engine allows that. `version` is the
/// version of the language that programs see.
pub fn load_stdlib(
    context: &mut Rant,
    funcs: &Vec<Rc<RantFunction>>,
    require: Rc<RantFunction>,
    version: &str,
)
    requires
        funcs@.len() == function_names().len(),
    ensures
        final(context)@ == (EngineView {
            globals: with_stdlib(
                old(context)@.globals,
                funcs@,
                if old(context)@.options.enable_require {
                    Some(require)
                } else {
                    None
                },
                version@,
            ),
            ..old(context)@
        }),
{
    let names = stdlib_functions();
    let mut i: usize = 0;
    while i < names.len()
        invariant
            i <= names@.len(),
            names@ == function_names(),
            funcs@.len() == names@.len(),
            context@ == (EngineView {
                globals: with_functions(old(context)@.globals, funcs@, i as int),
                ..old(context)@
            }),
        decreases names@.len() - i,
    {
        context.set_global(names[i], RantValue::Function(Rc::clone(&funcs[i])));
        i = i + 1;
    }
    // Load [require] function if requested
    if context.enables_require() {
        context.set_global("require", RantValue::Function(require));
    }
    // Miscellaneous
    context.set_global("RANT_VERSION", RantValue::Text(version.to_owned()));
}

} // verus!
