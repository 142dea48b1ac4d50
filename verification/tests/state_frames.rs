use lua_rust::runtime::lifecycle::ThreadStatus;
use lua_rust::runtime::roots::{RuntimeRootKind, UnsafeTraceGapKind};
use lua_rust::runtime::snapshot::scan_window;
use lua_rust::state::frames::{CallInfo, Frames, LUA_MULTRET};
use lua_rust::state::stack::Stack;
use lua_rust::runtime::lifecycle::LuaStateShutdownReport;
use lua_rust::state::upvalues::{OpenUpvalue, UpvalueCheck};

#[derive(Clone, Copy, Debug, PartialEq)]
enum Value {
    Nil,
    Number(f64),
    Boolean(bool),
}

type State = Frames<Value, u32>;

#[test]
fn stack_test_push_pop() {
    let mut s = Stack::new(4, Value::Nil);
    s.push(Value::Number(42.0));
    s.push(Value::Boolean(true));
    assert_eq!(s.size(), 2);
    assert_eq!(s.pop(), Some(Value::Boolean(true)));
    assert_eq!(s.pop(), Some(Value::Number(42.0)));
    assert_eq!(s.pop(), None);
}

#[test]
fn test_top() {
    let mut s = Stack::new(4, Value::Nil);
    s.push(Value::Number(1.0));
    assert!(matches!(s.top_value(), Some(Value::Number(v)) if (*v - 1.0).abs() < f64::EPSILON));
}

#[test]
fn test_ensure_space() {
    let mut s = Stack::new(2, Value::Nil);
    s.ensure_space(100);
    assert!(s.capacity() >= 100);
}

#[test]
fn popped_slots_hold_nil_and_set_top_grows_with_nil() {
    let mut s = Stack::with_default(Value::Nil);
    assert!(s.is_empty());
    s.push(Value::Boolean(false));
    s.push(Value::Number(2.0));
    assert_eq!(s.pop(), Some(Value::Number(2.0)));
    assert_eq!(s.at(1), Some(&Value::Nil));
    s.set_top(4);
    assert_eq!(s.size(), 4);
    assert_eq!(s.at(3), Some(&Value::Nil));
    assert_eq!(s.at(4), None);
    s.clear();
    assert_eq!(s.size(), 0);
    assert_eq!(s.at(0), Some(&Value::Boolean(false)));
    s.check_space(6);
    assert_eq!(s.at(5), Some(&Value::Nil));
    assert_eq!(s.at(6), None);
}

#[test]
fn test_lua_state_new() {
    let ls: State = Frames::new(Value::Nil);
    assert_eq!(ls.get_status(), ThreadStatus::Normal);
    assert_eq!(ls.get_top(), 0);
    assert_eq!(ls.call_stack_size(), 1);
}

#[test]
fn lua_state_test_push_pop() {
    let mut ls: State = Frames::new(Value::Nil);
    ls.push_value(Value::Number(42.0));
    ls.push_value(Value::Boolean(true));
    assert_eq!(ls.get_top(), 2);
    assert_eq!(ls.pop(), Some(Value::Boolean(true)));
    assert_eq!(ls.pop(), Some(Value::Number(42.0)));
    assert_eq!(ls.pop(), None);
}

#[test]
fn test_call_info() {
    let mut ls: State = Frames::new(Value::Nil);
    let ci = ls.push_call_info();
    ci.func = 10;
    ci.base = 11;
    assert_eq!(ls.current_call_info().func, 10);
    ls.pop_call_info();
    assert_eq!(ls.current_call_info().func, 0);
}

#[test]
fn popped_and_unwound_frames_release_proto_and_varargs() {
    let mut ls: State = Frames::new(Value::Nil);
    let first = ls.push_call_info();
    first.proto = Some(7);
    first.varargs.push(Value::Number(1.0));
    ls.pop_call_info();
    assert!(ls.frame_slice()[1].proto.is_none());
    assert!(ls.frame_slice()[1].varargs.is_empty());

    let reused = ls.push_call_info();
    assert!(reused.proto.is_none());
    assert!(reused.varargs.is_empty());
    reused.proto = Some(7);
    reused.varargs.push(Value::Number(2.0));
    let second = ls.push_call_info();
    second.proto = Some(7);
    second.varargs.push(Value::Number(3.0));

    ls.unwind_call_info_to(0);
    assert_eq!(ls.current_index(), 0);
    assert!(ls.frame_slice()[1..].iter().all(|ci| ci.proto.is_none() && ci.varargs.is_empty()));
}

#[test]
fn api_indices_count_from_base_and_from_top() {
    let mut ls: State = Frames::new(Value::Nil);
    ls.push_value(Value::Number(1.0));
    ls.push_call_info();
    {
        let ci = ls.current_call_info_mut();
        ci.func = 0;
        ci.base = 1;
    }
    ls.push_value(Value::Number(2.0));
    ls.push_value(Value::Number(3.0));
    assert_eq!(ls.get_top(), 2);
    assert_eq!(ls.abs_index(1), Some(1));
    assert_eq!(ls.abs_index(2), Some(2));
    assert_eq!(ls.abs_index(3), None);
    assert_eq!(ls.abs_index(-1), Some(2));
    assert_eq!(ls.abs_index(-2), Some(1));
    assert_eq!(ls.abs_index(-3), None);
    assert_eq!(ls.abs_index(0), None);
    assert_eq!(ls.at(-1), Some(&Value::Number(3.0)));
    ls.set_top(-1);
    assert_eq!(ls.get_top(), 1);
    ls.set_top(3);
    assert_eq!(ls.get_top(), 3);
    assert_eq!(ls.at(3), Some(&Value::Nil));
}

#[test]
fn call_info_constructors_and_reset() {
    let mut ci: CallInfo<Value, u32> = CallInfo::with_frame(1, 2, 3);
    ci.nresults = LUA_MULTRET;
    ci.varargs.push(Value::Boolean(true));
    ci.reset();
    assert_eq!((ci.func, ci.base, ci.top, ci.nresults), (0, 0, 0, 0));
    assert!(ci.varargs.is_empty() && ci.savedpc.is_none());
    let fresh: CallInfo<Value, u32> = CallInfo::new();
    assert_eq!(fresh.tailcalls, 0);
}

#[test]
fn idle_state_scan_reports_no_gap_and_no_function_edge() {
    let ls: State = Frames::new(Value::Nil);
    let (gaps, edges) = scan_window(&ls, true);
    assert!(gaps.is_empty());
    assert_eq!(edges.stack_kind, RuntimeRootKind::MainStack);
    assert_eq!(edges.stack_values, 0);
    assert_eq!(edges.call_functions, 0);
}

#[test]
fn frame_function_beyond_the_stack_is_a_gap() {
    let mut ls: State = Frames::new(Value::Nil);
    ls.push_value(Value::Number(1.0));
    ls.push_call_info();
    {
        let ci = ls.current_call_info_mut();
        ci.func = 5;
        ci.base = 6;
        ci.proto = Some(3);
        ci.varargs.push(Value::Nil);
        ci.varargs.push(Value::Nil);
    }
    let (gaps, edges) = scan_window(&ls, false);
    assert_eq!(gaps, vec![UnsafeTraceGapKind::CallFunctionOutOfBounds { frame: 1, function_index: 5 }]);
    assert_eq!(edges.stack_kind, RuntimeRootKind::CoroutineStack);
    assert_eq!(edges.stack_values, 1);
    assert_eq!(edges.call_functions, 1);
    assert_eq!(edges.call_varargs, 2);
    assert_eq!(edges.active_protos, 1);
    assert_eq!(edges.open_upvalues, 0);
    ls.find_or_create_upvalue(0, 40);
    assert_eq!(scan_window(&ls, false).1.open_upvalues, 1);
}

#[test]
fn first_resume_places_arguments_above_the_function_slot() {
    let mut ls: State = Frames::new(Value::Nil);
    ls.push_value(Value::Boolean(true));
    ls.install_initial_resume_args(&vec![Value::Number(1.0), Value::Number(2.0)]);
    assert_eq!(ls.top(), 3);
    assert_eq!(
        ls.stack_values(),
        vec![Value::Boolean(true), Value::Number(1.0), Value::Number(2.0)]
    );
}

#[test]
fn later_resume_fills_the_wanted_results_with_nil() {
    let mut ls: State = Frames::new(Value::Nil);
    ls.push_value(Value::Boolean(false));
    ls.install_resume_args(Some(1), Some(3), &vec![Value::Number(7.0)]);
    assert_eq!(ls.top(), 4);
    assert_eq!(
        ls.stack_values(),
        vec![Value::Boolean(false), Value::Number(7.0), Value::Nil, Value::Nil]
    );
    ls.install_resume_args(None, None, &vec![Value::Boolean(true)]);
    assert_eq!(ls.top(), 5);
    assert_eq!(ls.at(-1), Some(&Value::Boolean(true)));
    ls.install_resume_args(Some(2), Some(0), &vec![Value::Boolean(true)]);
    assert_eq!(ls.top(), 2);
}

#[test]
fn varargs_are_the_arguments_beyond_the_fixed_parameters() {
    let mut ls: State = Frames::new(Value::Nil);
    for n in 0..4 {
        ls.push_value(Value::Number(n as f64));
    }
    assert_eq!(ls.collect_varargs(1, 3, 1), vec![Value::Number(2.0), Value::Number(3.0)]);
    assert_eq!(ls.collect_varargs(1, 1, 1), vec![]);
    assert_eq!(ls.collect_varargs(1, -1, 0), vec![]);
    assert_eq!(ls.collect_varargs(3, 3, 0), vec![Value::Number(3.0), Value::Nil, Value::Nil]);
}

#[test]
fn missing_fixed_parameters_become_nil() {
    let mut ls: State = Frames::new(Value::Nil);
    for n in 0..3 {
        ls.push_value(Value::Number(n as f64));
    }
    ls.fill_missing_fixed_params(0, 1, 5);
    assert_eq!(ls.stack().size(), 5);
    assert_eq!(ls.stack().at(0), Some(&Value::Number(0.0)));
    assert_eq!(ls.stack().at(1), Some(&Value::Nil));
    assert_eq!(ls.stack().at(4), Some(&Value::Nil));
    ls.fill_missing_fixed_params(0, 5, 5);
    assert_eq!(ls.stack().size(), 5);
}

#[test]
fn stack_slots_can_be_updated_in_place() {
    let mut s = Stack::new(4, Value::Nil);
    assert!(s.top_value_mut().is_none());
    s.push(Value::Number(1.0));
    s.push(Value::Number(2.0));
    *s.top_value_mut().expect("top exists") = Value::Boolean(true);
    assert_eq!(s.top_value(), Some(&Value::Boolean(true)));
    *s.at_mut(0).expect("slot 0 exists") = Value::Number(5.0);
    assert!(s.at_mut(2).is_none());
    *s.get_unchecked_mut(1) = Value::Number(6.0);
    assert_eq!(s.at(0), Some(&Value::Number(5.0)));
    assert_eq!(s.get_unchecked(1), &Value::Number(6.0));
    let live = s.as_mut_slice();
    assert_eq!(live.len(), 2);
    live[0] = Value::Nil;
    assert_eq!(s.at(0), Some(&Value::Nil));
}

#[test]
fn state_values_can_be_updated_through_api_indices() {
    let mut ls: State = Frames::new(Value::Nil);
    ls.push_nil();
    ls.push_value(Value::Number(3.0));
    assert_eq!(ls.get_top(), 2);
    assert_eq!(ls.at_abs(0), Some(&Value::Nil));
    *ls.at_mut(-1).expect("top value exists") = Value::Boolean(false);
    assert_eq!(ls.at(2), Some(&Value::Boolean(false)));
    assert!(ls.at_mut(3).is_none());
    assert!(ls.at_mut(0).is_none());
    assert_eq!(ls.at_abs(70), None);
    ls.set_status(ThreadStatus::Yield);
    assert_eq!(ls.get_status(), ThreadStatus::Yield);
    assert_eq!(ls.get_top(), 2);
}

fn find_or_create(ls: &mut State, stack_index: usize, next_key: &mut u64) -> u64 {
    let (key, created) = ls.find_or_create_upvalue(stack_index, *next_key + 1);
    if created {
        *next_key += 1;
    }
    key
}

#[test]
fn state_open_upvalues_are_unique_owned_and_sorted_by_descending_stack_index() {
    let mut ls: State = Frames::new(Value::Nil);
    ls.push_value(Value::Number(1.0));
    ls.push_value(Value::Number(2.0));
    ls.push_value(Value::Number(3.0));
    let mut keys = 0;
    let low = find_or_create(&mut ls, 0, &mut keys);
    let high = find_or_create(&mut ls, 2, &mut keys);
    let middle = find_or_create(&mut ls, 1, &mut keys);
    let duplicate_high = find_or_create(&mut ls, 2, &mut keys);
    assert_eq!(
        ls.open_upvalues().iter().map(|u| u.upvalue).collect::<Vec<_>>(),
        vec![high, middle, low]
    );
    assert_eq!(duplicate_high, high);
    assert_eq!(
        ls.open_upvalues().clone(),
        vec![
            OpenUpvalue { stack_index: 2, upvalue: high },
            OpenUpvalue { stack_index: 1, upvalue: middle },
            OpenUpvalue { stack_index: 0, upvalue: low },
        ]
    );
}

#[test]
fn closing_upvalues_takes_every_one_at_or_above_the_level_with_its_value() {
    let mut ls: State = Frames::new(Value::Nil);
    ls.push_value(Value::Number(1.0));
    ls.push_value(Value::Number(2.0));
    assert_eq!(ls.find_or_create_upvalue(0, 10), (10, true));
    assert_eq!(ls.find_or_create_upvalue(1, 11), (11, true));
    assert_eq!(ls.find_or_create_upvalue(5, 15), (15, true));
    assert_eq!(ls.find_or_create_upvalue(1, 99), (11, false));
    assert_eq!(ls.find_upvalue(5), Some(15));
    assert_eq!(ls.find_upvalue(4), None);
    let closed = ls.close_upvalues(1);
    assert_eq!(closed, vec![(15, Value::Nil), (11, Value::Number(2.0))]);
    assert_eq!(ls.open_upvalues().clone(), vec![OpenUpvalue { stack_index: 0, upvalue: 10 }]);
    assert_eq!(ls.close_upvalues(3), vec![]);
    assert_eq!(ls.close_upvalues(0), vec![(10, Value::Number(1.0))]);
    assert!(ls.open_upvalues().is_empty());
}

fn check(registered: bool, owner_matches: bool, is_open: bool) -> UpvalueCheck {
    UpvalueCheck { registered, owner_matches, is_open }
}

fn shutdown_report(closed: usize, rejected: usize, cycles: usize, mismatches: usize, missing: usize) -> LuaStateShutdownReport {
    LuaStateShutdownReport {
        closed_open_upvalues: closed,
        rejected_open_upvalue_edges: rejected,
        open_upvalue_cycles: cycles,
        open_upvalue_owner_mismatches: mismatches,
        open_upvalue_stack_values_missing: missing,
    }
}

#[test]
fn shutdown_closes_valid_upvalues_and_reports_the_rest() {
    let mut ls: State = Frames::new(Value::Nil);
    ls.push_value(Value::Number(1.0));
    ls.push_value(Value::Number(2.0));
    ls.find_or_create_upvalue(0, 10);
    ls.find_or_create_upvalue(1, 11);
    ls.find_or_create_upvalue(5, 15);
    let (report, closed) = ls.prepare_for_runtime_shutdown(&vec![
        check(true, true, true),
        check(true, true, true),
        check(true, false, true),
    ]);
    assert_eq!(report, shutdown_report(3, 0, 0, 1, 1));
    assert_eq!(closed, vec![(15, Value::Nil), (11, Value::Number(2.0)), (10, Value::Nil)]);
    assert!(ls.open_upvalues().is_empty());
}

#[test]
fn close_reports_invalid_open_upvalue_without_dereference() {
    let mut ls: State = Frames::new(Value::Nil);
    ls.push_value(Value::Number(1.0));
    ls.find_or_create_upvalue(0, 10);
    let (report, closed) = ls.prepare_for_runtime_shutdown(&vec![check(false, true, false)]);
    assert_eq!(report, shutdown_report(0, 1, 0, 0, 0));
    assert!(closed.is_empty());
    assert!(ls.open_upvalues().is_empty());

    let mut again: State = Frames::new(Value::Nil);
    again.push_value(Value::Number(1.0));
    again.push_value(Value::Number(2.0));
    again.find_or_create_upvalue(0, 7);
    again.find_or_create_upvalue(1, 7);
    let (report, closed) = again.prepare_for_runtime_shutdown(&vec![check(true, true, false), check(true, true, true)]);
    assert_eq!(report, shutdown_report(0, 0, 1, 0, 0));
    assert!(closed.is_empty());
}

#[test]
fn close_closes_main_and_coroutine_open_upvalues_before_heap_teardown() {
    let mut main: State = Frames::new(Value::Nil);
    main.push_value(Value::Number(1.0));
    main.find_or_create_upvalue(0, 1);
    let mut child: State = Frames::new(Value::Nil);
    child.push_value(Value::Number(2.0));
    child.find_or_create_upvalue(0, 2);

    let (mut report, main_closed) = main.prepare_for_runtime_shutdown(&vec![check(true, true, true)]);
    let (child_report, child_closed) = child.prepare_for_runtime_shutdown(&vec![check(true, true, true)]);
    report.merge(child_report);
    assert_eq!(report.closed_open_upvalues, 2);
    assert_eq!(report.rejected_open_upvalue_edges, 0);
    assert_eq!(report.open_upvalue_owner_mismatches, 0);
    assert_eq!(report.open_upvalue_stack_values_missing, 0);
    assert_eq!(main_closed, vec![(1, Value::Number(1.0))]);
    assert_eq!(child_closed, vec![(2, Value::Number(2.0))]);
}

#[test]
fn unwinding_frames_closes_the_upvalues_of_each_left_frame() {
    let mut ls: State = Frames::new(Value::Nil);
    for i in 0..6 {
        ls.push_value(Value::Number(i as f64));
    }
    ls.push_call_info().base = 1;
    ls.push_call_info().base = 3;
    assert_eq!(ls.find_or_create_upvalue(0, 20), (20, true));
    assert_eq!(ls.find_or_create_upvalue(2, 22), (22, true));
    assert_eq!(ls.find_or_create_upvalue(4, 24), (24, true));
    assert_eq!(ls.unwind_lua_frames_to(5), vec![]);
    assert_eq!(ls.call_stack_size(), 3);
    let closed = ls.unwind_lua_frames_to(0);
    assert_eq!(closed, vec![(24, Value::Number(4.0)), (22, Value::Number(2.0))]);
    assert_eq!(ls.call_stack_size(), 1);
    assert_eq!(ls.open_upvalues().clone(), vec![OpenUpvalue { stack_index: 0, upvalue: 20 }]);
}
