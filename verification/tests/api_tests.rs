use lua_arch::api::{
    component_doc_result, component_invoke_result, component_slot_result, component_type_result,
    convert_signal, filter_methods, find_architecture, finish_push_signal, free_memory,
    prepare_push_signal, set_architecture_decision, too_many_arguments_message,
    unicode_char_checked, unicode_sub_checked, ApiResult, SignalPushCheck,
};
use lua_arch::value::{GuestValue, HostValue};

fn expect_soft_failure(r: ApiResult, msg: &[u8]) {
    match r {
        ApiResult::Values(vs) => {
            assert_eq!(vs.len(), 2);
            assert!(matches!(vs[0], GuestValue::Nil));
            match &vs[1] {
                GuestValue::Str(m) => assert_eq!(m, &msg.to_vec()),
                _ => panic!("second value must be the message string"),
            }
        }
        ApiResult::Abort(_) => panic!("a soft failure must not raise a guest error"),
    }
}

#[test]
fn invoking_nonexistent_address_is_a_soft_failure() {
    let r = component_invoke_result(false, false, None, &Vec::new());
    expect_soft_failure(r, b"no such component");
}

#[test]
fn invoking_missing_method_is_a_soft_failure() {
    let r = component_invoke_result(true, false, None, &Vec::new());
    expect_soft_failure(r, b"no such method");
}

#[test]
fn host_invocation_error_aborts_the_guest_call() {
    let r = component_invoke_result(true, true, Some(b"device on fire".to_vec()), &Vec::new());
    match r {
        ApiResult::Abort(m) => assert_eq!(m, b"device on fire".to_vec()),
        _ => panic!("a host error must become a hard failure"),
    }
}

#[test]
fn successful_invocation_converts_all_results_in_order() {
    let results = vec![
        HostValue::Int(42),
        HostValue::Str(b"ok".to_vec()),
        HostValue::Bool(false),
    ];
    match component_invoke_result(true, true, None, &results) {
        ApiResult::Values(vs) => {
            assert_eq!(vs.len(), 3);
            assert!(matches!(vs[0], GuestValue::Int(42)));
            match &vs[1] {
                GuestValue::Str(b) => assert_eq!(b, &b"ok".to_vec()),
                _ => panic!("second result wrong"),
            }
            assert!(matches!(vs[2], GuestValue::Bool(false)));
        }
        _ => panic!("successful invocation must return values"),
    }
}

#[test]
fn doc_slot_and_type_share_the_soft_failure() {
    expect_soft_failure(component_doc_result(false, None), b"no such component");
    expect_soft_failure(component_slot_result(None), b"no such component");
    expect_soft_failure(component_type_result(None), b"no such component");
}

#[test]
fn doc_slot_and_type_results() {
    match component_doc_result(true, Some(b"beeps".to_vec())) {
        ApiResult::Values(vs) => {
            assert_eq!(vs.len(), 1);
            match &vs[0] {
                GuestValue::Str(d) => assert_eq!(d, &b"beeps".to_vec()),
                _ => panic!("doc must be a string"),
            }
        }
        _ => panic!("doc lookup must return values"),
    }
    match component_doc_result(true, None) {
        ApiResult::Values(vs) => {
            assert_eq!(vs.len(), 1);
            assert!(matches!(vs[0], GuestValue::Nil));
        }
        _ => panic!("undocumented method yields nil"),
    }
    match component_slot_result(Some(3)) {
        ApiResult::Values(vs) => assert!(matches!(vs[0], GuestValue::Int(3))),
        _ => panic!("slot lookup must return values"),
    }
    match component_type_result(Some(b"screen".to_vec())) {
        ApiResult::Values(vs) => match &vs[0] {
            GuestValue::Str(t) => assert_eq!(t, &b"screen".to_vec()),
            _ => panic!("type must be a string"),
        },
        _ => panic!("type lookup must return values"),
    }
}

#[test]
fn filter_methods_keeps_enabled_only() {
    let methods = vec![
        (b"start".to_vec(), true, true),
        (b"stop".to_vec(), false, false),
        (b"poke".to_vec(), false, true),
    ];
    let r = filter_methods(methods);
    assert_eq!(r.len(), 2);
    assert_eq!(r[0].0, b"start".to_vec());
    assert!(r[0].1);
    assert_eq!(r[1].0, b"poke".to_vec());
    assert!(!r[1].1);
}

#[test]
fn architecture_switch_matches_by_name() {
    let supported = vec![b"Plan9k".to_vec(), b"Lua".to_vec()];
    assert_eq!(find_architecture(&b"Lua".to_vec(), &supported), Some(1));
    assert_eq!(find_architecture(&b"Forth".to_vec(), &supported), None);
    assert!(matches!(
        set_architecture_decision(&b"Lua".to_vec(), &supported),
        Ok(1)
    ));
    match set_architecture_decision(&b"Forth".to_vec(), &supported) {
        Err(m) => assert_eq!(m, b"unsupported architecture: Forth".to_vec()),
        Ok(_) => panic!("an unsupported name must raise a guest error"),
    }
}

#[test]
fn pushing_more_arguments_than_the_maximum_is_rejected_before_converting() {
    let args = vec![
        GuestValue::Str(b"key_down".to_vec()),
        GuestValue::Int(1),
        GuestValue::Int(2),
        GuestValue::Int(3),
    ];
    match prepare_push_signal(&args, 3) {
        SignalPushCheck::TooMany => {}
        _ => panic!("a push past the maximum must be rejected"),
    }
    assert_eq!(too_many_arguments_message(), b"too many arguments".to_vec());
}

#[test]
fn push_with_bad_name_is_an_argument_error() {
    assert!(matches!(
        prepare_push_signal(&Vec::new(), 8),
        SignalPushCheck::BadName
    ));
    let args = vec![GuestValue::Bool(true)];
    assert!(matches!(
        prepare_push_signal(&args, 8),
        SignalPushCheck::BadName
    ));
    // numbers coerce to strings, so a numeric name passes
    let args = vec![GuestValue::Int(7)];
    assert!(matches!(
        prepare_push_signal(&args, 8),
        SignalPushCheck::Converted(_)
    ));
}

#[test]
fn accepted_push_converts_every_argument_in_order() {
    let args = vec![
        GuestValue::Str(b"key_down".to_vec()),
        GuestValue::Int(65),
        GuestValue::Function,
    ];
    match prepare_push_signal(&args, 8) {
        SignalPushCheck::Converted(vs) => {
            assert_eq!(vs.len(), 3);
            match &vs[0] {
                HostValue::Str(b) => assert_eq!(b, &b"key_down".to_vec()),
                _ => panic!("name must cross as a string"),
            }
            assert!(matches!(vs[1], HostValue::Int(65)));
            // unsupported guest types degrade to nil, not an error
            assert!(matches!(vs[2], HostValue::Nil));
        }
        _ => panic!("a push within the maximum must convert"),
    }
}

#[test]
fn host_push_rejection_aborts_with_its_message() {
    match finish_push_signal(Vec::new(), Some(b"signal queue full".to_vec())) {
        ApiResult::Abort(m) => assert_eq!(m, b"signal queue full".to_vec()),
        _ => panic!("a host rejection must abort the guest call"),
    }
    match finish_push_signal(Vec::new(), None) {
        ApiResult::Values(vs) => assert_eq!(vs.len(), 0),
        _ => panic!("an accepted push returns nothing"),
    }
}

#[test]
fn popped_signal_values_convert_in_order() {
    let values = vec![
        HostValue::CStr(b"key_down".to_vec()),
        HostValue::Int(65),
        HostValue::Bool(true),
    ];
    let vs = convert_signal(&values);
    assert_eq!(vs.len(), 3);
    match &vs[0] {
        GuestValue::Str(b) => assert_eq!(b, &b"key_down".to_vec()),
        _ => panic!("signal name must convert to a string"),
    }
    assert!(matches!(vs[1], GuestValue::Int(65)));
    assert!(matches!(vs[2], GuestValue::Bool(true)));
}

#[test]
fn free_memory_is_total_minus_usage() {
    assert_eq!(free_memory(2048, 300), 1748);
    assert_eq!(free_memory(100, 100), 0);
}

#[test]
fn guest_substring_respects_the_reservation_margin() {
    let s = b"hello".to_vec();
    match unicode_sub_checked(&s, 1, Some(5), 0, 1000) {
        ApiResult::Values(vs) => match &vs[0] {
            GuestValue::Str(b) => assert_eq!(b, &b"hello".to_vec()),
            _ => panic!("substring must be a string"),
        },
        _ => panic!("ample quota must not abort"),
    }
    // 2 * 5 + 64 = 74 bytes of margin do not fit a free space of 70
    match unicode_sub_checked(&s, 1, Some(5), 0, 70) {
        ApiResult::Abort(m) => assert_eq!(m, b"out of memory".to_vec()),
        _ => panic!("a substring past the margin must fail cleanly"),
    }
    // the empty-result short-circuits never need the margin
    match unicode_sub_checked(&s, 2, Some(0), 0, 0) {
        ApiResult::Values(vs) => match &vs[0] {
            GuestValue::Str(b) => assert_eq!(b.len(), 0),
            _ => panic!("empty substring must be a string"),
        },
        _ => panic!("the empty path must not abort"),
    }
}

#[test]
fn string_from_codepoints_validates_integers() {
    let args = vec![GuestValue::Int(104), GuestValue::Int(105)];
    assert_eq!(unicode_char_checked(&args).unwrap(), b"hi".to_vec());
    let bad = vec![
        GuestValue::Int(104),
        GuestValue::Str(b"x".to_vec()),
        GuestValue::Int(105),
    ];
    assert_eq!(unicode_char_checked(&bad), Err(1));
}

#[test]
fn string_from_codepoints_ends_at_nul_for_the_guest() {
    let args = vec![GuestValue::Int(104), GuestValue::Int(0), GuestValue::Int(105)];
    assert_eq!(unicode_char_checked(&args).unwrap(), b"h".to_vec());
}
