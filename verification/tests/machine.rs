use rant::compiler::lang::{Identifier, Parameter, PrintFlag, RantProgramInfo, Varity};
use rant::engine::{Rant, RantOptions};
use rant::rng::RantRng;
use rant::runtime::error::{
    convert_index_result, convert_index_set_result, convert_key_result, convert_key_set_result,
    IndexError, KeyError, RantError, RuntimeErrorType,
};
use rant::runtime::intent::Intent;
use rant::runtime::machine::MAX_STACK_SIZE;
use rant::runtime::program::{
    AnonFunctionCall, Block, ClosureExpr, FunctionCall, FunctionDef, MapKeyExpr, RantProgram,
    Sequence, VarAccessComponent, VarAccessPath, RST,
};
use rant::runtime::vm::{Progress, VM};
use rant::stdlib::{load_stdlib, stdlib_functions};
use rant::value::{RantFunction, RantFunctionInterface, RantValue};
use std::rc::Rc;

fn seq(elements: Vec<RST>) -> Rc<Sequence> {
    Rc::new(Sequence {
        name: None,
        origin: Rc::new(RantProgramInfo { name: None, path: None }),
        elements: elements.into_iter().map(Rc::new).collect(),
    })
}

fn frag(text: &str) -> RST {
    RST::Fragment(text.to_owned())
}

fn text(value: &str) -> Rc<Sequence> {
    seq(vec![frag(value)])
}

fn block(flag: PrintFlag, elements: Vec<Rc<Sequence>>) -> Rc<Block> {
    Rc::new(Block { flag, elements })
}

fn id(name: &str) -> Identifier {
    Identifier::new(name.to_owned())
}

fn name(part: &str) -> VarAccessComponent {
    VarAccessComponent::Name(id(part))
}

fn expr(value: RST) -> VarAccessComponent {
    VarAccessComponent::Expression(block(PrintFlag::Plain, vec![seq(vec![value])]))
}

fn path(parts: Vec<VarAccessComponent>) -> Rc<VarAccessPath> {
    Rc::new(VarAccessPath { parts })
}

fn def(vname: &str, value: RST) -> RST {
    RST::VarDef(id(vname), Some(seq(vec![value])))
}

fn get(vname: &str) -> RST {
    RST::VarGet(path(vec![name(vname)]))
}

fn call(func: &str, args: Vec<RST>) -> RST {
    RST::FuncCall(FunctionCall {
        id: path(vec![name(func)]),
        arguments: Rc::new(args.into_iter().map(|arg| seq(vec![arg])).collect()),
        flag: PrintFlag::Plain,
    })
}

fn params(list: Vec<(&str, Varity)>) -> Rc<Vec<Parameter>> {
    Rc::new(list.into_iter().map(|(name, varity)| Parameter { name: id(name), varity }).collect())
}

fn def_func(func: &str, list: Vec<(&str, Varity)>, body: Vec<RST>) -> RST {
    RST::FuncDef(FunctionDef {
        id: path(vec![name(func)]),
        body: block(PrintFlag::Plain, vec![seq(body)]),
        params: params(list),
        capture_vars: Rc::new(vec![]),
    })
}

/// A machine for a program, with a random number in hand.
fn machine(elements: Vec<RST>) -> VM {
    let mut rng = RantRng::new();
    for _ in 0..100_000 {
        rng.feed(0);
    }
    let engine = Rant::with_options(RantOptions { enable_require: false });
    VM::new(rng, engine, RantProgram { root: seq(elements) })
}

fn run(elements: Vec<RST>) -> String {
    match machine(elements).try_run() {
        Progress::Finished(output) => output,
        other => panic!("{:?}", other),
    }
}

fn fail(elements: Vec<RST>) -> (RuntimeErrorType, Option<String>) {
    match machine(elements).try_run() {
        Progress::Failed(RantError::RuntimeError { error_type, description }) => {
            (error_type, description)
        }
        other => panic!("{:?}", other),
    }
}

#[test]
fn text_prints_itself() {
    assert_eq!(run(vec![]), "");
    assert_eq!(run(vec![frag("a"), RST::Whitespace(" ".to_owned()), frag("b")]), "a b");
}

#[test]
fn values_print() {
    assert_eq!(
        run(vec![RST::Integer(-3), RST::Boolean(true), RST::EmptyVal, RST::Boolean(false)]),
        "-3truefalse"
    );
    assert_eq!(
        run(vec![RST::Float(rant::compiler::lexer::RantFloat {
            bits: 1.5f64.to_bits(),
            text: "1.5".to_owned()
        })]),
        "1.5"
    );
    assert_eq!(run(vec![RST::ListInit(Rc::new(vec![]))]), "[list]");
}

#[test]
fn run_and_step_agree() {
    let mut vm = machine(vec![frag("a")]);
    assert!(matches!(vm.run(), Progress::Finished(output) if output == "a"));
    assert!(vm.is_stack_empty());
    assert!(matches!(vm.step(), Progress::Finished(output) if output.is_empty()));
    assert!(matches!(vm.resume(), Progress::Finished(output) if output.is_empty()));
}

#[test]
fn random_numbers_pick_elements() {
    let elements = || vec![text("a"), text("b"), text("c")];
    for (draw, expected) in [(0, "a"), (4, "b"), (5, "c"), (u64::MAX, "a")] {
        let mut rng = RantRng::new();
        rng.feed(draw);
        rng.feed(0);
        let engine = Rant::with_options(RantOptions { enable_require: false });
        let root = seq(vec![RST::Block(block(PrintFlag::Plain, elements()))]);
        let mut vm = VM::new(rng, engine, RantProgram { root });
        assert!(matches!(vm.try_run(), Progress::Finished(output) if output == expected));
        assert!(!vm.rng().is_empty());
    }
}

/// A machine for a program, without random numbers.
fn bare_machine(elements: Vec<RST>) -> VM {
    let engine = Rant::with_options(RantOptions { enable_require: false });
    VM::new(RantRng::new(), engine, RantProgram { root: seq(elements) })
}

#[test]
fn machines_wait_for_random_numbers_to_pick_with() {
    // Text needs none
    assert!(matches!(bare_machine(vec![frag("a")]).try_run(), Progress::Finished(out) if out == "a"));
    assert!(matches!(
        bare_machine(vec![def("x", RST::Integer(1)), get("x")]).try_run(),
        Progress::Finished(out) if out == "1"
    ));
    // A block waits for one, and the text before it is not printed twice
    let mut vm = bare_machine(vec![
        frag("a"),
        RST::Block(block(PrintFlag::Plain, vec![text("b"), text("c")])),
        frag("d"),
    ]);
    assert!(matches!(vm.try_run(), Progress::NeedsDraw));
    assert!(matches!(vm.try_resume(), Progress::NeedsDraw));
    vm.feed(1);
    assert!(matches!(vm.try_resume(), Progress::Finished(out) if out == "acd"));
    assert!(vm.rng().is_empty());
}

#[test]
fn every_pick_waits_for_a_random_number() {
    let programs = || {
        vec![
            vec![def_func("f", vec![], vec![frag("r")]), call("f", vec![])],
            vec![def("r", frag("r")), RST::VarGet(path(vec![expr(frag("r"))]))],
            vec![
                def("x", frag("q")),
                RST::VarSet(path(vec![expr(frag("x"))]), text("r")),
                get("x"),
            ],
            vec![
                def(
                    "m",
                    RST::MapInit(Rc::new(vec![
                        (MapKeyExpr::Static("j".to_owned()), text("q")),
                        (MapKeyExpr::Dynamic(block(PrintFlag::Plain, vec![text("k")])), text("r")),
                    ])),
                ),
                RST::VarGet(path(vec![name("m"), name("k")])),
            ],
        ]
    };
    for program in programs() {
        let mut vm = bare_machine(program);
        assert!(matches!(vm.try_run(), Progress::NeedsDraw));
        vm.feed(9);
        assert!(matches!(vm.try_resume(), Progress::Finished(out) if out == "r"));
        assert!(vm.rng().is_empty());
    }
    // A call that fails waits for none
    let func = def_func("f", vec![("a", Varity::Required)], vec![frag("r")]);
    assert!(matches!(bare_machine(vec![func, call("f", vec![])]).try_run(), Progress::Failed(_)));
}

#[test]
fn sinked_blocks_are_silent() {
    assert_eq!(
        run(vec![frag("a"), RST::Block(block(PrintFlag::Sink, vec![text("b")])), frag("c")]),
        "ac"
    );
    assert_eq!(
        run(vec![frag("a"), RST::Block(block(PrintFlag::Hint, vec![text("b")])), frag("c")]),
        "abc"
    );
}

#[test]
fn variables() {
    assert_eq!(run(vec![def("x", RST::Integer(5)), get("x")]), "5");
    assert_eq!(run(vec![RST::VarDef(id("x"), None), get("x")]), "");
    assert_eq!(
        run(vec![
            def("x", RST::Integer(5)),
            RST::VarSet(path(vec![name("x")]), seq(vec![RST::Integer(6)])),
            get("x")
        ]),
        "6"
    );
    assert_eq!(
        fail(vec![get("x")]),
        (RuntimeErrorType::InvalidAccess, Some("variable 'x' not found".to_owned()))
    );
    assert_eq!(
        fail(vec![RST::VarSet(path(vec![name("x")]), text("a"))]),
        (RuntimeErrorType::InvalidAccess, Some("variable 'x' not found".to_owned()))
    );
}

#[test]
fn block_scopes_end_with_the_block() {
    let inner = seq(vec![def("x", RST::Integer(1)), get("x")]);
    assert_eq!(
        fail(vec![RST::Block(block(PrintFlag::Plain, vec![inner])), get("x")]).0,
        RuntimeErrorType::InvalidAccess
    );
}

#[test]
fn lists_and_indices() {
    let list = || {
        def("l", RST::ListInit(Rc::new(vec![text("a"), seq(vec![RST::Integer(2)]), text("c")])))
    };
    let at = |index| RST::VarGet(path(vec![name("l"), VarAccessComponent::Index(index)]));
    assert_eq!(run(vec![list(), at(0), at(1), at(-1)]), "a2c");
    assert_eq!(
        fail(vec![list(), at(3)]),
        (RuntimeErrorType::IndexError(IndexError::OutOfRange), None)
    );
    assert_eq!(
        fail(vec![list(), RST::VarGet(path(vec![name("l"), name("k")]))]),
        (RuntimeErrorType::KeyError(KeyError::CannotKeyType("list")), None)
    );
    assert_eq!(
        run(vec![
            list(),
            RST::VarSet(
                path(vec![name("l"), VarAccessComponent::Index(1)]),
                text("z")
            ),
            at(1)
        ]),
        "z"
    );
    assert_eq!(
        fail(vec![
            list(),
            RST::VarSet(path(vec![name("l"), VarAccessComponent::Index(9)]), text("z"))
        ]),
        (RuntimeErrorType::IndexError(IndexError::OutOfRange), None)
    );
}

#[test]
fn maps_and_keys() {
    let map = || {
        def(
            "m",
            RST::MapInit(Rc::new(vec![
                (MapKeyExpr::Static("a".to_owned()), seq(vec![RST::Integer(1)])),
                (
                    MapKeyExpr::Dynamic(block(PrintFlag::Plain, vec![text("b")])),
                    seq(vec![RST::Integer(2)]),
                ),
            ])),
        )
    };
    let at = |key| RST::VarGet(path(vec![name("m"), name(key)]));
    assert_eq!(run(vec![map(), at("a"), at("b")]), "12");
    assert_eq!(
        fail(vec![map(), at("c")]),
        (RuntimeErrorType::KeyError(KeyError::KeyNotFound("c".to_owned())), None)
    );
    assert_eq!(
        run(vec![map(), RST::VarSet(path(vec![name("m"), name("c")]), text("z")), at("c")]),
        "z"
    );
    assert_eq!(
        fail(vec![def("n", RST::Integer(1)), RST::VarSet(path(vec![name("n"), name("c")]), text("z"))]),
        (RuntimeErrorType::KeyError(KeyError::CannotKeyType("integer")), None)
    );
}

#[test]
fn dynamic_getters() {
    let list = def("l", RST::ListInit(Rc::new(vec![text("a"), text("b")])));
    assert_eq!(
        run(vec![list, RST::VarGet(path(vec![expr(frag("l")), expr(RST::Integer(1))]))]),
        "b"
    );
    let map = def(
        "m",
        RST::MapInit(Rc::new(vec![(MapKeyExpr::Static("k".to_owned()), text("v"))])),
    );
    assert_eq!(run(vec![map, RST::VarGet(path(vec![name("m"), expr(frag("k"))]))]), "v");
}

#[test]
fn dynamic_setters_write_the_value_under_the_key() {
    let map = || def("m", RST::MapInit(Rc::new(vec![])));
    let at = |key| RST::VarGet(path(vec![name("m"), name(key)]));
    assert_eq!(
        run(vec![map(), RST::VarSet(path(vec![name("m"), expr(frag("k"))]), text("v")), at("k")]),
        "v"
    );
    assert_eq!(
        fail(vec![map(), RST::VarSet(path(vec![name("m"), expr(frag("k"))]), text("v")), at("v")]),
        (RuntimeErrorType::KeyError(KeyError::KeyNotFound("v".to_owned())), None)
    );
    // An index among the keys, and a dynamic variable
    let list = def("l", RST::ListInit(Rc::new(vec![text("a"), text("b")])));
    assert_eq!(
        run(vec![
            list,
            RST::VarSet(path(vec![expr(frag("l")), expr(RST::Integer(1))]), text("z")),
            RST::VarGet(path(vec![name("l"), VarAccessComponent::Index(0)])),
            RST::VarGet(path(vec![name("l"), VarAccessComponent::Index(1)])),
        ]),
        "az"
    );
}

#[test]
fn getters_read_back_what_setters_wrote_under_the_same_keys() {
    let inner = || seq(vec![RST::MapInit(Rc::new(vec![]))]);
    let map = || {
        def(
            "m",
            RST::MapInit(Rc::new(vec![
                (MapKeyExpr::Static("a".to_owned()), inner()),
                (MapKeyExpr::Static("b".to_owned()), inner()),
            ])),
        )
    };
    let place = || path(vec![expr(frag("m")), expr(frag("a")), expr(frag("b"))]);
    let fixed = path(vec![name("m"), name("a"), name("b")]);
    assert_eq!(run(vec![map(), RST::VarSet(place(), text("v")), RST::VarGet(place())]), "v");
    assert_eq!(run(vec![map(), RST::VarSet(place(), text("v")), RST::VarGet(fixed)]), "v");
}

#[test]
fn functions_are_defined_under_dynamic_keys() {
    let map = def("m", RST::MapInit(Rc::new(vec![])));
    let func = RST::FuncDef(FunctionDef {
        id: path(vec![name("m"), expr(frag("k"))]),
        body: block(PrintFlag::Plain, vec![text("called")]),
        params: params(vec![]),
        capture_vars: Rc::new(vec![]),
    });
    let call = RST::FuncCall(FunctionCall {
        id: path(vec![name("m"), name("k")]),
        arguments: Rc::new(vec![]),
        flag: PrintFlag::Plain,
    });
    assert_eq!(run(vec![map, func, call]), "called");
}

#[test]
fn arguments_are_evaluated_in_order() {
    let pair = def_func(
        "pair",
        vec![("a", Varity::Required), ("b", Varity::Required)],
        vec![get("a"), frag("-"), get("b")],
    );
    let choice = || RST::Block(block(PrintFlag::Plain, vec![text("x"), text("y")]));
    let mut vm = bare_machine(vec![pair, call("pair", vec![choice(), choice()])]);
    // The first number is for the first argument, the second for the second
    for draw in [0, 1, 0] {
        vm.feed(draw);
    }
    assert!(matches!(vm.try_run(), Progress::Finished(out) if out == "x-y"));
}

#[test]
fn functions_are_called() {
    let greet = || def_func("greet", vec![("who", Varity::Required)], vec![frag("hi "), get("who")]);
    assert_eq!(run(vec![greet(), call("greet", vec![frag("you")])]), "hi you");
    assert_eq!(
        fail(vec![greet(), call("greet", vec![])]),
        (
            RuntimeErrorType::ArgumentMismatch,
            Some("arguments don't match; expected 1, found 0".to_owned())
        )
    );
    assert_eq!(
        fail(vec![greet(), call("greet", vec![frag("a"), frag("b")])]).0,
        RuntimeErrorType::ArgumentMismatch
    );
    assert_eq!(
        fail(vec![def("x", RST::Integer(1)), call("x", vec![])]),
        (
            RuntimeErrorType::CannotInvokeValue,
            Some("cannot invoke 'integer' value".to_owned())
        )
    );
}

#[test]
fn arguments_arrive_in_order() {
    let pair = def_func(
        "pair",
        vec![("a", Varity::Required), ("b", Varity::Optional)],
        vec![get("a"), frag("-"), get("b")],
    );
    assert_eq!(run(vec![pair, call("pair", vec![frag("x"), frag("y")])]), "x-y");
    let pair = def_func(
        "pair",
        vec![("a", Varity::Required), ("b", Varity::Optional)],
        vec![get("a"), frag("-"), get("b")],
    );
    assert_eq!(run(vec![pair, call("pair", vec![frag("x")])]), "x-");
}

#[test]
fn variadic_arguments_become_a_list() {
    let second = || {
        def_func(
            "second",
            vec![("first", Varity::Required), ("rest", Varity::VariadicStar)],
            vec![RST::VarGet(path(vec![name("rest"), VarAccessComponent::Index(0)]))],
        )
    };
    assert_eq!(run(vec![second(), call("second", vec![frag("a"), frag("b"), frag("c")])]), "b");
    assert_eq!(
        fail(vec![second(), call("second", vec![])]),
        (
            RuntimeErrorType::ArgumentMismatch,
            Some("arguments don't match; expected at least 1, found 0".to_owned())
        )
    );
    assert_eq!(
        fail(vec![second(), call("second", vec![frag("a")])]),
        (RuntimeErrorType::IndexError(IndexError::OutOfRange), None)
    );
}

#[test]
fn optional_before_variadic_makes_no_sense_without_arguments() {
    let func = def_func(
        "f",
        vec![("a", Varity::Optional), ("b", Varity::VariadicStar)],
        vec![],
    );
    assert!(matches!(machine(vec![func, call("f", vec![])]).try_run(), Progress::Stuck));
    let empty = RST::Block(block(PrintFlag::Plain, vec![]));
    assert!(matches!(machine(vec![empty]).try_run(), Progress::Stuck));
    let bad = RST::VarGet(path(vec![VarAccessComponent::Index(0)]));
    assert!(matches!(machine(vec![bad]).try_run(), Progress::Stuck));
}

#[test]
fn closures_are_values() {
    let closure = RST::Closure(ClosureExpr {
        capture_vars: Rc::new(vec![]),
        expr: block(PrintFlag::Plain, vec![seq(vec![frag("<"), get("x"), frag(">")])]),
        params: params(vec![("x", Varity::Required)]),
    });
    let anon = RST::AnonFuncCall(AnonFunctionCall {
        expr: seq(vec![closure]),
        args: Rc::new(vec![text("y")]),
        flag: PrintFlag::Plain,
    });
    assert_eq!(run(vec![anon]), "<y>");
}

#[test]
fn sinked_calls_are_silent() {
    let func = def_func("f", vec![], vec![frag("loud")]);
    let quiet = RST::FuncCall(FunctionCall {
        id: path(vec![name("f")]),
        arguments: Rc::new(vec![]),
        flag: PrintFlag::Sink,
    });
    assert_eq!(run(vec![func, frag("a"), quiet, frag("b")]), "ab");
}

#[test]
fn endless_recursion_overflows() {
    let func = def_func("f", vec![], vec![call("f", vec![])]);
    assert_eq!(
        fail(vec![func, call("f", vec![])]),
        (RuntimeErrorType::StackOverflow, Some("call stack has overflowed".to_owned()))
    );
    assert_eq!(MAX_STACK_SIZE, 20000);
}

#[test]
fn native_calls_go_to_the_host() {
    let mut rng = RantRng::new();
    rng.feed(0);
    let mut engine = Rant::with_options(RantOptions { enable_require: false });
    engine.set_global(
        "twice",
        RantValue::Function(Rc::new(RantFunction {
            body: RantFunctionInterface::Foreign(11),
            params: params(vec![("x", Varity::VariadicStar)]),
            min_arg_count: 0,
            vararg_start_index: 0,
        })),
    );
    let root = seq(vec![frag("<"), call("twice", vec![RST::Integer(4), frag("b")]), frag(">")]);
    let mut vm = VM::new(rng, engine, RantProgram { root });
    match vm.try_run() {
        Progress::NativeCall { func, args } => {
            assert!(func.is_native());
            assert!(matches!(func.body, RantFunctionInterface::Foreign(11)));
            // The host condenses variadic arguments itself
            assert_eq!(args.len(), 2);
            assert!(matches!(&args[0], RantValue::Integer(4)));
            vm.cur_frame_mut().write_value(RantValue::Integer(8));
        }
        other => panic!("{:?}", other),
    }
    assert!(!vm.is_stack_empty());
    assert!(matches!(vm.try_resume(), Progress::Finished(output) if output == "<8>"));
}

#[test]
fn host_calls_go_to_the_host() {
    let mut vm = machine(vec![frag("a")]);
    // One step in, the root frame is there to be given something to do
    let root = seq(vec![frag("a"), frag("b")]);
    let mut rng = RantRng::new();
    rng.feed(0);
    let engine = Rant::with_options(RantOptions { enable_require: false });
    let mut other = VM::new(rng, engine, RantProgram { root });
    assert!(matches!(vm.try_run(), Progress::Finished(_)));
    assert!(matches!(other.step(), Progress::Finished(_)));
    let mut late = machine(vec![call("g", vec![])]);
    assert!(matches!(late.try_run(), Progress::Failed(_)));
    late.cur_frame_mut().push_intent_front(Intent::RuntimeCall(6));
    assert_eq!(late.cur_frame().pc(), 0);
    assert!(matches!(late.try_resume(), Progress::HostCall(6)));
}

#[test]
fn engine_survives_the_machine() {
    let mut vm = machine(vec![def("x", RST::ListInit(Rc::new(vec![text("a")])))]);
    assert!(matches!(vm.try_run(), Progress::Finished(_)));
    let engine = vm.into_engine();
    let list = RantValue::List(rant::collections::RantListRef { id: 0 });
    assert_eq!(engine.get_by_index(&list, 0).unwrap().to_text(), "a");
}

#[test]
fn value_stack_underflow() {
    let mut vm = machine(vec![call("g", vec![])]);
    assert!(matches!(vm.try_run(), Progress::Failed(_)));
    vm.cur_frame_mut().push_intent_front(Intent::PrintLastOutput);
    match vm.try_resume() {
        Progress::Failed(RantError::RuntimeError { error_type, description }) => {
            assert_eq!(error_type, RuntimeErrorType::StackUnderflow);
            assert_eq!(description.as_deref(), Some("value stack has underflowed"));
        }
        other => panic!("{:?}", other),
    }
}

#[test]
fn conversions_of_results() {
    assert!(matches!(convert_index_result(Ok(RantValue::Integer(2))), Ok(RantValue::Integer(2))));
    assert!(matches!(convert_key_result(Ok(RantValue::Integer(2))), Ok(RantValue::Integer(2))));
    let index_error = RantError::RuntimeError {
        error_type: RuntimeErrorType::IndexError(IndexError::OutOfRange),
        description: None,
    };
    let key_error = RantError::RuntimeError {
        error_type: RuntimeErrorType::KeyError(KeyError::KeyNotFound("k".to_owned())),
        description: None,
    };
    assert_eq!(convert_index_result(Err(IndexError::OutOfRange)).unwrap_err(), index_error);
    assert_eq!(convert_index_set_result(Err(IndexError::OutOfRange)), Err(index_error));
    assert_eq!(
        convert_key_result(Err(KeyError::KeyNotFound("k".to_owned()))).unwrap_err(),
        key_error
    );
    assert_eq!(
        convert_key_set_result(Err(KeyError::KeyNotFound("k".to_owned()))),
        Err(key_error)
    );
    assert_eq!(convert_index_set_result(Ok(())), Ok(()));
    assert_eq!(convert_key_set_result(Ok(())), Ok(()));
}

#[test]
fn standard_library() {
    let native = |index: usize| {
        Rc::new(RantFunction {
            body: RantFunctionInterface::Foreign(index),
            params: Rc::new(vec![]),
            min_arg_count: 0,
            vararg_start_index: 0,
        })
    };
    let names = stdlib_functions();
    let mut sorted = names.clone();
    sorted.sort();
    sorted.dedup();
    assert_eq!(sorted.len(), names.len());
    assert_eq!(names.len(), 114);
    for enable_require in [false, true] {
        let mut rant = Rant::with_options(RantOptions { enable_require });
        rant.set_global("mine", RantValue::Integer(1));
        let funcs = (0..names.len()).map(native).collect();
        load_stdlib(&mut rant, &funcs, native(1000), "3.1.4");
        for (index, name) in names.iter().enumerate() {
            match rant.get_global(name) {
                Some(RantValue::Function(func)) => {
                    assert!(matches!(func.body, RantFunctionInterface::Foreign(n) if n == index))
                }
                _ => panic!("{}", name),
            }
        }
        assert_eq!(rant.has_global("require"), enable_require);
        assert_eq!(rant.get_global("RANT_VERSION").unwrap().to_text(), "3.1.4");
        assert_eq!(rant.get_global("mine").unwrap().to_text(), "1");
        assert!(rant.has_global("assert-eq"));
        assert!(!rant.has_global("_assert_eq"));
    }
}
