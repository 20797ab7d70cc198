use rant::compiler::lang::{AccessPathKind, DebugInfo, RantProgramInfo};
use rant::engine::{Rant, RantOptions};
use rant::runtime::error::RuntimeErrorType;
use rant::runtime::frame::{StackFrame, StackFrameFlavor};
use rant::runtime::intent::Intent;
use rant::runtime::program::{Sequence, RST};
use rant::runtime::stack::CallStack;
use rant::value::{RantFunction, RantFunctionInterface, RantValue, RantVar};
use std::rc::Rc;

const LOCAL: AccessPathKind = AccessPathKind::Local;
const GLOBAL: AccessPathKind = AccessPathKind::ExplicitGlobal;

fn sequence(name: Option<&str>, texts: &[&str]) -> Rc<Sequence> {
    Rc::new(Sequence {
        name: name.map(|name| name.to_owned()),
        origin: Rc::new(RantProgramInfo { name: Some("prog".to_owned()), path: None }),
        elements: texts.iter().map(|text| Rc::new(RST::Fragment((*text).to_owned()))).collect(),
    })
}

fn frame(name: &str) -> StackFrame {
    StackFrame::new(sequence(Some(name), &[]), true, None)
}

fn engine() -> Rant {
    Rant::with_options(RantOptions { enable_require: false })
}

fn func() -> RantValue {
    RantValue::Function(Rc::new(RantFunction {
        body: RantFunctionInterface::Foreign(3),
        params: Rc::new(vec![]),
        min_arg_count: 0,
        vararg_start_index: 0,
    }))
}

/// The text of a variable; nothing if there is none.
fn read(stack: &CallStack, rant: &Rant, id: &str, access: AccessPathKind) -> Option<String> {
    stack.get_var_value(rant, id, access, false).ok().map(|value| value.to_text())
}

fn text(value: &str) -> RantValue {
    RantValue::Text(value.to_owned())
}

#[test]
fn frames_come_off_in_reverse() {
    let mut stack = CallStack::default();
    assert!(stack.is_empty());
    assert!(stack.pop_frame().is_none());
    assert!(stack.top().is_none());
    assert!(stack.top_mut().is_none());
    stack.push_frame(frame("a"));
    stack.push_frame(frame("b"));
    assert_eq!(stack.len(), 2);
    assert_eq!(stack.top().unwrap().to_text(), "[prog:0:0] in b");
    stack.top_mut().unwrap().set_debug_info(&DebugInfo::Location { line: 3, col: 14 });
    assert_eq!(stack.pop_frame().unwrap().to_text(), "[prog:3:14] in b");
    assert_eq!(stack.pop_frame().unwrap().to_text(), "[prog:0:0] in a");
    assert!(stack.is_empty());
}

#[test]
fn locals_go_with_their_frame() {
    let mut rant = engine();
    let mut stack = CallStack::new();
    stack.push_frame(frame("a"));
    stack.def_var_value(&mut rant, "x", LOCAL, text("outer")).unwrap();
    stack.push_frame(frame("b"));
    assert_eq!(read(&stack, &rant, "x", LOCAL), Some("outer".to_owned()));
    stack.def_var_value(&mut rant, "x", LOCAL, text("inner")).unwrap();
    assert_eq!(read(&stack, &rant, "x", LOCAL), Some("inner".to_owned()));
    assert_eq!(read(&stack, &rant, "x", AccessPathKind::Descope(1)), Some("outer".to_owned()));
    assert_eq!(read(&stack, &rant, "x", AccessPathKind::Descope(2)), None);
    assert_eq!(read(&stack, &rant, "x", AccessPathKind::Descope(9)), None);
    stack.pop_frame();
    assert_eq!(read(&stack, &rant, "x", LOCAL), Some("outer".to_owned()));
    stack.pop_frame();
    assert_eq!(read(&stack, &rant, "x", LOCAL), None);
}

#[test]
fn assignments_find_the_nearest_variable() {
    let mut rant = engine();
    let mut stack = CallStack::new();
    stack.push_frame(frame("a"));
    stack.def_var(&mut rant, "x", LOCAL, RantVar::ByVal(text("1"))).unwrap();
    stack.push_frame(frame("b"));
    stack.set_var_value(&mut rant, "x", LOCAL, text("2")).unwrap();
    assert_eq!(read(&stack, &rant, "x", AccessPathKind::Descope(1)), Some("2".to_owned()));
    stack.set_var_value(&mut rant, "x", AccessPathKind::Descope(1), text("3")).unwrap();
    assert_eq!(read(&stack, &rant, "x", LOCAL), Some("3".to_owned()));
    rant.set_global("g", text("4"));
    stack.set_var_value(&mut rant, "g", LOCAL, text("5")).unwrap();
    assert_eq!(rant.get_global("g").unwrap().to_text(), "5");
    assert_eq!(read(&stack, &rant, "g", GLOBAL), Some("5".to_owned()));
    assert_eq!(read(&stack, &rant, "x", GLOBAL), None);
}

#[test]
fn missing_variables() {
    let mut rant = engine();
    let mut stack = CallStack::new();
    let error = stack.set_var_value(&mut rant, "nope", LOCAL, RantValue::Empty).unwrap_err();
    assert_eq!(error.error_type, RuntimeErrorType::InvalidAccess);
    assert_eq!(error.description, "variable 'nope' not found");
    assert_eq!(error.stack_trace, None);
    let error = stack.get_var_value(&rant, "nope", GLOBAL, true).unwrap_err();
    assert_eq!(error.description, "variable 'nope' not found");
    let error = stack.get_var_mut(&mut rant, "nope", LOCAL).unwrap_err();
    assert_eq!(error.description, "variable 'nope' not found");
}

#[test]
fn variables_can_be_changed_in_place() {
    let mut rant = engine();
    let mut stack = CallStack::new();
    stack.push_frame(frame("a"));
    stack.def_var_value(&mut rant, "x", LOCAL, text("1")).unwrap();
    stack.def_var_value(&mut rant, "g", GLOBAL, text("2")).unwrap();
    stack.push_frame(frame("b"));
    stack.get_var_mut(&mut rant, "x", LOCAL).unwrap().write(text("3"));
    stack.get_var_mut(&mut rant, "g", LOCAL).unwrap().write(text("4"));
    stack.get_var_mut(&mut rant, "x", AccessPathKind::Descope(1)).unwrap();
    assert_eq!(read(&stack, &rant, "x", LOCAL), Some("3".to_owned()));
    assert_eq!(rant.get_global("g").unwrap().to_text(), "4");
    stack.def_var(&mut rant, "g", GLOBAL, RantVar::ByVal(text("6"))).unwrap();
    assert_eq!(rant.get_global("g").unwrap().to_text(), "6");
}

#[test]
fn descoped_definitions() {
    let mut rant = engine();
    let mut stack = CallStack::new();
    for name in ["a", "b", "c"] {
        stack.push_frame(frame(name));
    }
    // New to every layer: it lands where it was defined
    stack.def_var_value(&mut rant, "x", AccessPathKind::Descope(1), text("1")).unwrap();
    assert_eq!(read(&stack, &rant, "x", AccessPathKind::Descope(1)), Some("1".to_owned()));
    assert_eq!(read(&stack, &rant, "x", AccessPathKind::Descope(2)), None);
    // There already: it is replaced
    stack.def_var_value(&mut rant, "x", AccessPathKind::Descope(1), text("2")).unwrap();
    assert_eq!(read(&stack, &rant, "x", LOCAL), Some("2".to_owned()));
    // Too far out: it lands in the bottom layer
    stack.def_var_value(&mut rant, "y", AccessPathKind::Descope(50), text("3")).unwrap();
    assert_eq!(read(&stack, &rant, "y", AccessPathKind::Descope(3)), Some("3".to_owned()));
}

#[test]
fn descoped_definition_above_another_trades_places() {
    let mut rant = engine();
    let mut stack = CallStack::new();
    stack.push_frame(frame("a"));
    stack.def_var_value(&mut rant, "x", LOCAL, text("low")).unwrap();
    stack.push_frame(frame("b"));
    stack.push_frame(frame("c"));
    stack.def_var_value(&mut rant, "x", AccessPathKind::Descope(1), text("new")).unwrap();
    assert_eq!(read(&stack, &rant, "x", AccessPathKind::Descope(1)), Some("low".to_owned()));
    assert_eq!(read(&stack, &rant, "x", AccessPathKind::Descope(2)), Some("new".to_owned()));
}

#[test]
fn functions_trickle_down() {
    let mut rant = engine();
    let mut stack = CallStack::new();
    stack.push_frame(frame("a"));
    stack.def_var_value(&mut rant, "f", LOCAL, func()).unwrap();
    stack.push_frame(frame("b"));
    stack.def_var_value(&mut rant, "f", LOCAL, text("no function")).unwrap();
    assert!(!stack.get_var_value(&rant, "f", LOCAL, false).unwrap().is_callable());
    assert!(stack.get_var_value(&rant, "f", LOCAL, true).unwrap().is_callable());
    assert!(stack.get_var_value(&rant, "f", AccessPathKind::Descope(1), true).unwrap().is_callable());
    // A global function is the last resort, and the topmost value if there is none
    stack.def_var_value(&mut rant, "g", LOCAL, text("top")).unwrap();
    assert_eq!(stack.get_var_value(&rant, "g", LOCAL, true).unwrap().to_text(), "top");
    rant.set_global("g", func());
    assert!(stack.get_var_value(&rant, "g", LOCAL, true).unwrap().is_callable());
    rant.set_global("h", text("only global"));
    assert_eq!(stack.get_var_value(&rant, "h", LOCAL, true).unwrap().to_text(), "only global");
}

#[test]
fn names_whose_variables_are_gone() {
    let mut rant = engine();
    let mut stack = CallStack::new();
    stack.push_frame(frame("a"));
    stack.def_var_value(&mut rant, "f", LOCAL, func()).unwrap();
    assert!(stack.try_get_var_value(&rant, "f", LOCAL, true).is_some());
    stack.pop_frame();
    assert!(stack.try_get_var_value(&rant, "f", LOCAL, true).is_none());
    assert!(stack.try_get_var_value(&rant, "f", AccessPathKind::Descope(0), true).is_none());
    assert!(stack.try_get_var_value(&rant, "f", LOCAL, false).unwrap().is_err());
    assert!(stack.try_get_var_value(&rant, "f", GLOBAL, true).unwrap().is_err());
}

#[test]
fn stack_traces_fold_equal_frames() {
    let mut stack = CallStack::new();
    assert_eq!(stack.gen_stack_trace(), "");
    stack.push_frame(frame("main"));
    assert_eq!(stack.gen_stack_trace(), "-> [prog:0:0] in main");
    for _ in 0..12 {
        stack.push_frame(frame("f"));
    }
    stack.push_frame(frame("g"));
    assert_eq!(
        stack.gen_stack_trace(),
        "-> [prog:0:0] in g\n-> [prog:0:0] in f (12 frames)\n-> [prog:0:0] in main"
    );
}

#[test]
fn tasting() {
    let mut stack = CallStack::new();
    assert_eq!(stack.taste_for(StackFrameFlavor::Original), None);
    assert_eq!(stack.taste_for_first(StackFrameFlavor::Original), None);
    stack.push_frame(frame("a").with_flavor(StackFrameFlavor::FunctionBody));
    stack.push_frame(frame("b").with_flavor(StackFrameFlavor::RepeaterElement));
    stack.push_frame(frame("c"));
    assert_eq!(stack.taste_for_first(StackFrameFlavor::Original), Some(0));
    assert_eq!(stack.taste_for_first(StackFrameFlavor::RepeaterElement), Some(1));
    assert_eq!(stack.taste_for_first(StackFrameFlavor::FunctionBody), Some(2));
    // Found nowhere, and hidden by something stronger
    assert_eq!(stack.taste_for_first(StackFrameFlavor::ArgumentExpression), None);
    assert_eq!(stack.taste_for_first(StackFrameFlavor::BlockElement), None);
    // Another flavor on top ends the search
    assert_eq!(stack.taste_for(StackFrameFlavor::Original), Some(0));
    assert_eq!(stack.taste_for(StackFrameFlavor::FunctionBody), None);
    assert!(StackFrameFlavor::FunctionBody.is_stronger_than(StackFrameFlavor::default()));
    assert!(!StackFrameFlavor::NativeCall.is_stronger_than(StackFrameFlavor::NativeCall));
}

#[test]
fn frames_run_through_their_sequence() {
    let mut frame = StackFrame::new(sequence(None, &["x", "y"]), true, None);
    assert_eq!(frame.pc(), 0);
    assert!(matches!(&*frame.seq_next().unwrap(), RST::Fragment(s) if s == "x"));
    assert_eq!(frame.pc(), 0);
    assert!(matches!(&*frame.seq_next().unwrap(), RST::Fragment(s) if s == "y"));
    assert_eq!(frame.pc(), 1);
    assert!(frame.seq_next().is_none());
    assert!(frame.seq_next().is_none());
    assert_eq!(frame.to_text(), "[prog:0:0] in ?");
}

#[test]
fn intents_are_a_queue_with_two_ends() {
    let mut frame = frame("a");
    assert!(frame.take_intent().is_none());
    frame.push_intent_back(Intent::RuntimeCall(1));
    frame.push_intent_back(Intent::RuntimeCall(2));
    frame.push_intent_front(Intent::RuntimeCall(3));
    let mut order = vec![];
    while let Some(Intent::RuntimeCall(n)) = frame.take_intent() {
        order.push(n);
    }
    assert_eq!(order, vec![3, 1, 2]);
}

#[test]
fn frame_output() {
    let mut frame = frame("a");
    assert!(frame.output().is_some());
    frame.write_value(RantValue::Empty);
    frame.write_value(RantValue::Integer(5));
    // A single value stays what it is
    assert!(matches!(frame.render_output_value(), Some(RantValue::Integer(5))));
    assert!(frame.render_output_value().is_none());
    frame.write_frag("ignored");
    assert!(frame.output().is_none());

    let mut frame = StackFrame::new(sequence(None, &[]), true, None);
    frame.write_frag("a");
    frame.write_ws(" ");
    frame.use_output_mut(|output| output.write_frag("b"));
    frame.write_value(RantValue::Integer(7));
    assert!(frame.use_output(|_output| ()).is_some());
    assert_eq!(frame.render_output_value().unwrap().to_text(), "a b7");

    let mut frame = StackFrame::new(sequence(None, &[]), true, None);
    assert!(matches!(frame.render_output_value(), Some(RantValue::Empty)));
    let mut frame = StackFrame::new(sequence(None, &[]), false, None);
    assert!(frame.render_output_value().is_none());
}

#[test]
fn frames_for_the_host() {
    let origin = Rc::new(RantProgramInfo {
        name: Some("name".to_owned()),
        path: Some("path".to_owned()),
    });
    let mut frame = StackFrame::new_empty(
        8,
        true,
        None,
        Rc::clone(&origin),
        (2, 5),
        StackFrameFlavor::NativeCall,
    );
    assert_eq!(frame.flavor(), StackFrameFlavor::NativeCall);
    assert_eq!(frame.origin_name(), "path");
    assert_eq!(frame.origin().name.as_deref(), Some("name"));
    assert_eq!(frame.debug_pos(), (2, 5));
    assert_eq!(frame.to_text(), "[path:2:5] in native call");
    assert!(frame.seq_next().is_none());
    assert!(matches!(frame.take_intent(), Some(Intent::RuntimeCall(8))));
    let nameless = Rc::new(RantProgramInfo { name: None, path: None });
    let frame =
        StackFrame::new_empty(0, false, None, nameless, (0, 0), StackFrameFlavor::Original);
    assert_eq!(frame.to_text(), "[program:0:0] in ?");
}
