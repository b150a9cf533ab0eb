use diamond::backtrace::{unpack_backtrace_value, BacktraceValue, Unpacked};
use diamond::backtrace::{exc_debug_info, first_known_position, mrb_keep_backtrace, mrb_exc_backtrace};
use diamond::backtrace::{
    each_backtrace, mrb_unpack_backtrace, packed_backtrace, backtrace_location, BacktraceStop,
    CallFrame, DebugLookup,
};
use diamond::error::{
    exc_inspect, exc_to_s, mrb_make_exception, set_backtrace, ExceptionError, ExceptionPlan,
    ValueTag, exc_exception, mrb_exc_set, mrb_exc_raise, ExceptionCopy, ExcSetPlan, RaiseOutcome,
};

fn v(s: &[u8]) -> Vec<u8> {
    s.to_vec()
}

#[test]
fn inspect_with_a_position() {
    let c = v(b"RuntimeError");
    assert_eq!(
        exc_inspect(&c, &Some(v(b"boom")), &Some(v(b"a.rb")), Some(3)),
        v(b"a.rb:3: boom (RuntimeError)")
    );
    assert_eq!(exc_inspect(&c, &Some(v(b"")), &Some(v(b"a.rb")), Some(3)), v(b"a.rb:3: RuntimeError"));
    assert_eq!(exc_inspect(&c, &None, &Some(v(b"a.rb")), Some(-1)), v(b"a.rb:-1: RuntimeError"));
}

#[test]
fn inspect_without_a_position() {
    let c = v(b"RuntimeError");
    assert_eq!(exc_inspect(&c, &Some(v(b"boom")), &None, None), v(b"RuntimeError: boom"));
    assert_eq!(exc_inspect(&c, &Some(v(b"boom")), &Some(v(b"a.rb")), None), v(b"RuntimeError: boom"));
    assert_eq!(exc_inspect(&c, &Some(v(b"")), &None, Some(4)), v(b"RuntimeError"));
    assert_eq!(exc_inspect(&c, &None, &None, None), v(b"RuntimeError"));
}

#[test]
fn to_s_is_the_message_or_the_class() {
    assert_eq!(exc_to_s(&v(b"TypeError"), &Some(v(b"bad"))), v(b"bad"));
    assert_eq!(exc_to_s(&v(b"TypeError"), &None), v(b"TypeError"));
}

#[test]
fn backtraces_must_be_arrays_of_strings() {
    assert_eq!(set_backtrace(ValueTag::Array, &vec![ValueTag::String, ValueTag::String]), Ok(()));
    assert_eq!(set_backtrace(ValueTag::Array, &vec![]), Ok(()));
    assert_eq!(
        set_backtrace(ValueTag::Array, &vec![ValueTag::String, ValueTag::Other]),
        Err(ExceptionError::BacktraceNotStrings)
    );
    assert_eq!(set_backtrace(ValueTag::String, &vec![]), Err(ExceptionError::BacktraceNotStrings));
    assert_eq!(set_backtrace(ValueTag::Nil, &vec![]), Err(ExceptionError::BacktraceNotStrings));
}

#[test]
fn what_raise_does_with_its_arguments() {
    assert_eq!(mrb_make_exception(0, ValueTag::Other), ExceptionPlan::Nil);
    assert_eq!(mrb_make_exception(1, ValueTag::Nil), ExceptionPlan::NilMessage);
    assert_eq!(mrb_make_exception(1, ValueTag::String), ExceptionPlan::RuntimeError);
    assert_eq!(
        mrb_make_exception(1, ValueTag::Other),
        ExceptionPlan::CallException { nargs: 0, backtrace: false }
    );
    assert_eq!(
        mrb_make_exception(2, ValueTag::String),
        ExceptionPlan::CallException { nargs: 1, backtrace: false }
    );
    assert_eq!(
        mrb_make_exception(3, ValueTag::Other),
        ExceptionPlan::CallException { nargs: 1, backtrace: true }
    );
    assert_eq!(mrb_make_exception(4, ValueTag::Other), ExceptionPlan::WrongArgumentCount);
    assert_eq!(mrb_make_exception(-1, ValueTag::Other), ExceptionPlan::WrongArgumentCount);
}

fn frame(ruby: bool, err: Option<u32>, pc: Option<u32>, mid: u32) -> CallFrame {
    CallFrame { ruby, err, pc, mid }
}

#[test]
fn positions_reported_for_each_frame() {
    let frames = vec![
        frame(true, None, None, 1),
        frame(true, None, Some(10), 2),
        frame(false, None, Some(20), 3),
        frame(true, Some(5), Some(30), 4),
    ];
    assert_eq!(
        each_backtrace(&frames, 3, 99),
        vec![
            BacktraceStop { frame: 3, pc: 5 },
            BacktraceStop { frame: 1, pc: 19 },
            BacktraceStop { frame: 0, pc: 9 },
        ]
    );
    assert_eq!(each_backtrace(&frames, 0, 99), vec![BacktraceStop { frame: 0, pc: 99 }]);
}

#[test]
fn a_frame_without_a_saved_position_is_skipped() {
    let frames = vec![frame(true, None, None, 1), frame(true, None, None, 2)];
    assert_eq!(each_backtrace(&frames, 1, 7), vec![BacktraceStop { frame: 1, pc: 7 }]);
}

#[test]
fn an_index_outside_the_stack_starts_at_frame_ten() {
    let frames: Vec<CallFrame> = (0..12).map(|k| frame(k == 10, None, None, k)).collect();
    assert_eq!(each_backtrace(&frames, 50, 3), vec![BacktraceStop { frame: 10, pc: 3 }]);
}

#[test]
fn locations_kept_in_a_backtrace() {
    let frames = vec![frame(true, None, None, 1), frame(true, Some(2), None, 4)];
    let stops = vec![BacktraceStop { frame: 1, pc: 2 }, BacktraceStop { frame: 0, pc: 9 }];
    let lookups = vec![
        DebugLookup { line: 7, file: Some(v(b"a.rb")) },
        DebugLookup { line: -1, file: Some(v(b"b.rb")) },
    ];
    let locs = packed_backtrace(&frames, &stops, &lookups);
    assert_eq!(locs.len(), 1);
    assert_eq!((locs[0].lineno, locs[0].method_id), (7, 4));
    assert_eq!(locs[0].filename, Some(v(b"a.rb")));
    let lookups = vec![DebugLookup { line: 2, file: None }, DebugLookup { line: 3, file: None }];
    let locs = packed_backtrace(&frames, &stops, &lookups);
    assert_eq!(locs.len(), 2);
    assert_eq!(locs[1].filename, Some(v(b"(unknown)")));
    assert_eq!(locs[1].method_id, 1);
}

#[test]
fn printed_backtrace() {
    let locs = vec![
        backtrace_location { lineno: 7, method_id: 4, filename: Some(v(b"a.rb")) },
        backtrace_location { lineno: 9, method_id: 0, filename: Some(v(b"b.rb")) },
        backtrace_location { lineno: 1, method_id: 5, filename: None },
    ];
    let names = vec![v(b"foo"), v(b""), v(b"bar")];
    assert_eq!(mrb_unpack_backtrace(&locs, &names), vec![v(b"a.rb:7:in foo"), v(b"b.rb:9")]);
}

#[test]
fn positions_tried_for_where_an_exception_was_raised() {
    let frames = vec![
        frame(true, None, Some(3), 1),
        frame(false, None, Some(11), 2),
        frame(true, None, Some(21), 3),
    ];
    assert_eq!(
        exc_debug_info(&frames, 2, false),
        vec![BacktraceStop { frame: 2, pc: 20 }, BacktraceStop { frame: 0, pc: 10 }]
    );
    let frames = vec![frame(true, None, Some(3), 1), frame(true, Some(8), Some(11), 2)];
    assert_eq!(
        exc_debug_info(&frames, 1, false),
        vec![BacktraceStop { frame: 1, pc: 8 }, BacktraceStop { frame: 0, pc: 10 }]
    );
    let lookups = vec![
        DebugLookup { line: -1, file: Some(v(b"a.rb")) },
        DebugLookup { line: 4, file: None },
        DebugLookup { line: 5, file: Some(v(b"b.rb")) },
    ];
    assert_eq!(first_known_position(&lookups), Some(2));
    assert_eq!(first_known_position(&lookups[..2].iter().map(|l| DebugLookup { line: l.line, file: l.file.clone() }).collect()), None);
}

#[test]
fn an_exception_with_a_file_is_left_alone() {
    let frames = vec![frame(true, None, Some(3), 1)];
    assert!(exc_debug_info(&frames, 0, true).is_empty());
    assert!(exc_debug_info(&Vec::new(), 0, true).is_empty());
}

#[test]
fn backtrace_values_of_each_kind() {
    assert!(matches!(unpack_backtrace_value(&BacktraceValue::Nil), Unpacked::Lines(l) if l.is_empty()));
    assert!(matches!(unpack_backtrace_value(&BacktraceValue::Other), Unpacked::Lines(l) if l.is_empty()));
    assert!(matches!(unpack_backtrace_value(&BacktraceValue::Array), Unpacked::Itself));
    let locs = vec![backtrace_location { lineno: 3, method_id: 2, filename: Some(v(b"m.rb")) }];
    let packed = BacktraceValue::Packed(locs, vec![v(b"run")]);
    match unpack_backtrace_value(&packed) {
        Unpacked::Lines(l) => assert_eq!(l, vec![v(b"m.rb:3:in run")]),
        Unpacked::Itself => panic!("packed locations are unpacked"),
    }
}

#[test]
fn exception_with_and_without_a_message() {
    assert_eq!(exc_exception(0, false), ExceptionCopy::Receiver);
    assert_eq!(exc_exception(1, true), ExceptionCopy::Receiver);
    assert_eq!(exc_exception(1, false), ExceptionCopy::CloneWithMessage);
}

#[test]
fn storing_the_pending_exception() {
    assert_eq!(mrb_exc_set(true, 3, true, false, false), ExcSetPlan { clear: true, pop_arena: false, keep_backtrace: false });
    assert_eq!(mrb_exc_set(false, 3, true, false, false), ExcSetPlan { clear: false, pop_arena: true, keep_backtrace: true });
    assert_eq!(mrb_exc_set(false, 0, true, false, true), ExcSetPlan { clear: false, pop_arena: false, keep_backtrace: false });
    assert_eq!(mrb_exc_set(false, 2, false, true, false), ExcSetPlan { clear: false, pop_arena: false, keep_backtrace: false });
}

#[test]
fn raising_a_value() {
    assert_eq!(mrb_exc_raise(false, true), RaiseOutcome::NotAnException);
    assert_eq!(mrb_exc_raise(true, true), RaiseOutcome::Unwind);
    assert_eq!(mrb_exc_raise(true, false), RaiseOutcome::Abort);
}

#[test]
fn backtrace_is_recorded_once_and_unpacked_when_read() {
    assert!(mrb_keep_backtrace(false));
    assert!(!mrb_keep_backtrace(true));
    assert!(!mrb_exc_backtrace(ValueTag::Nil));
    assert!(!mrb_exc_backtrace(ValueTag::Array));
    assert!(mrb_exc_backtrace(ValueTag::Other));
}
