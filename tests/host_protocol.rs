use backend::{
    closing_events, mark_event, end_mark, entropy_outcome, event_message, phase_ended, phase_started, secure_pcs_config,
    start_mark, trace_variant, verify_reply, AllocError, BoundaryError, EntropyError, EventField,
    Guest, HookLatch, HostEvent, LogLevel, TraceVariant,
};

fn field(name: &str, value: &str) -> EventField {
    EventField { name: name.to_string(), value: value.to_string() }
}

#[test]
fn log_level_codes() {
    assert_eq!(LogLevel::Error.code(), 0);
    assert_eq!(LogLevel::Warn.code(), 1);
    assert_eq!(LogLevel::Info.code(), 2);
    assert_eq!(LogLevel::Debug.code(), 3);
    assert_eq!(LogLevel::Trace.code(), 4);
    assert_eq!(LogLevel::from_code(3), Some(LogLevel::Debug));
    assert_eq!(LogLevel::from_code(5), None);
    assert!(LogLevel::Error.is_more_severe_than(LogLevel::Warn));
    assert!(!LogLevel::Trace.is_more_severe_than(LogLevel::Debug));
    assert!(!LogLevel::Info.is_more_severe_than(LogLevel::Info));
}

#[test]
fn phase_marks_and_measure() {
    assert_eq!(start_mark("prove"), "prove-started");
    assert_eq!(end_mark("prove"), "prove-ended");
    match phase_started("execute") {
        HostEvent::Mark { name } => assert_eq!(name, "execute-started"),
        other => panic!("unexpected {:?}", other),
    }
    let closing = phase_ended("execute");
    assert_eq!(closing.len(), 2);
    match &closing[0] {
        HostEvent::Mark { name } => assert_eq!(name, "execute-ended"),
        other => panic!("unexpected {:?}", other),
    }
    match &closing[1] {
        HostEvent::Measure { name, start, end } => {
            assert_eq!(name, "execute");
            assert_eq!(start, "execute-started");
            assert_eq!(end, "execute-ended");
        }
        other => panic!("unexpected {:?}", other),
    }
}

#[test]
fn event_message_prefers_message_field() {
    let fields = vec![field("target", "prover"), field("message", "Running prove...")];
    assert_eq!(event_message(&fields), "Running prove...");
}

#[test]
fn event_message_takes_last_message_field() {
    let fields = vec![field("message", "first"), field("x", "1"), field("message", "second")];
    assert_eq!(event_message(&fields), "second");
}

#[test]
fn event_message_falls_back_to_all_fields() {
    let fields = vec![field("step", "3"), field("phase", "\"fri\"")];
    assert_eq!(event_message(&fields), "step=3 phase=\"fri\" ");
    assert_eq!(event_message(&vec![]), "");
}

#[test]
fn hook_installs_once() {
    let mut latch = HookLatch::new();
    assert!(!latch.installed());
    assert!(latch.should_install());
    for _ in 0..10 {
        assert!(!latch.should_install());
    }
    assert!(latch.installed());
}

#[test]
fn entropy_all_zero_is_refused() {
    assert_eq!(entropy_outcome(true, 32, &[0u8; 32]), Err(EntropyError::Degenerate));
}

#[test]
fn entropy_accepts_random_looking_bytes() {
    let mut buf = [0u8; 32];
    buf[31] = 0x5a;
    assert_eq!(entropy_outcome(true, 32, &buf), Ok(()));
    assert_eq!(entropy_outcome(true, 0, &[]), Ok(()));
}

#[test]
fn entropy_unwired_or_short() {
    assert_eq!(entropy_outcome(false, 32, &[7u8; 32]), Err(EntropyError::Unsupported));
    assert_eq!(entropy_outcome(true, 32, &[7u8; 16]), Err(EntropyError::ShortFill));
}

#[test]
fn pedersen_flag_selects_variant() {
    assert_eq!(trace_variant(0), TraceVariant::CanonicalWithoutPedersen);
    assert_eq!(trace_variant(1), TraceVariant::Canonical);
    assert_eq!(trace_variant(u64::MAX), TraceVariant::Canonical);
}

#[test]
fn security_parameters() {
    let c = secure_pcs_config();
    assert_eq!(c.pow_bits, 26);
    assert_eq!(c.fri.log_last_layer_degree_bound, 0);
    assert_eq!(c.fri.log_blowup_factor, 1);
    assert_eq!(c.fri.n_queries, 70);
}

#[test]
fn verify_reply_text() {
    assert_eq!(verify_reply(true), "{\"ok\":true}");
    assert_eq!(verify_reply(false), "{\"ok\":false}");
}

#[test]
fn guest_call_round_trip() {
    let mut guest = Guest::new(1024, 16);
    let program = "{\"program\":\"is_prime\"}";
    let exe = guest.malloc(program.len() as u64).unwrap();
    assert_eq!(guest.write(exe, program.as_bytes()), Ok(()));
    let args = guest.malloc(8).unwrap();
    assert_eq!(guest.write(args, &100u64.to_le_bytes()), Ok(()));

    let (text, words) = guest.execute_input(exe, program.len() as u64, args, 1).unwrap();
    assert_eq!(text, program);
    assert_eq!(words, vec![100]);

    let payload = b"{\"trace\":[1,2,3]}";
    let d = guest.deliver(42, payload).unwrap();
    assert_eq!(d.call_id, 42);
    assert_eq!(d.len, payload.len() as u64);
    assert_eq!(guest.read(d.addr, d.len), Ok(&payload[..]));
    assert_eq!(guest.free(d.addr, d.len), Ok(()));
    assert_eq!(guest.free(exe, program.len() as u64), Ok(()));
}

#[test]
fn guest_execute_input_errors() {
    let mut guest = Guest::new(64, 16);
    assert_eq!(guest.write(16, &[0xff, 0xfe]), Ok(()));
    assert_eq!(guest.execute_input(16, 2, 32, 1).err(), Some(BoundaryError::MalformedInput));
    assert_eq!(guest.execute_input(60, 8, 32, 1).err(), Some(BoundaryError::OutOfBounds));
    assert_eq!(guest.execute_input(16, 0, 60, 1).err(), Some(BoundaryError::OutOfBounds));
    assert_eq!(guest.execute_input(16, 0, 56, 1).map(|(t, w)| (t.to_string(), w)), Ok((String::new(), vec![0])));
}

#[test]
fn guest_delivers_verdict() {
    let mut guest = Guest::new(256, 16);
    let d = guest.deliver_verdict(7, true).unwrap();
    assert_eq!(d.call_id, 7);
    assert_eq!(guest.read_text(d.addr, d.len), Ok("{\"ok\":true}"));
    let e = guest.deliver_verdict(8, false).unwrap();
    assert_eq!(guest.read_text(e.addr, e.len), Ok("{\"ok\":false}"));
}

#[test]
fn guest_delivery_out_of_memory() {
    let mut guest = Guest::new(32, 16);
    assert_eq!(guest.deliver(1, &[9u8; 17]), Err(AllocError::OutOfMemory));
    let d = guest.deliver(2, &[]).unwrap();
    assert_eq!(d.addr, 8);
    assert_eq!(d.len, 0);
}

#[test]
fn explicit_mark_names() {
    match mark_event("prove-start") {
        HostEvent::Mark { name } => assert_eq!(name, "prove-start"),
        other => panic!("unexpected {:?}", other),
    }
    let closing = closing_events("verify", "verify-start", "verify-end");
    assert_eq!(closing.len(), 2);
    match &closing[0] {
        HostEvent::Mark { name } => assert_eq!(name, "verify-end"),
        other => panic!("unexpected {:?}", other),
    }
    match &closing[1] {
        HostEvent::Measure { name, start, end } => {
            assert_eq!(name, "verify");
            assert_eq!(start, "verify-start");
            assert_eq!(end, "verify-end");
        }
        other => panic!("unexpected {:?}", other),
    }
}

#[test]
fn verdict_buffer_is_freed_and_reused() {
    let mut guest = Guest::new(256, 16);
    let d = guest.deliver_verdict(1, false).unwrap();
    assert_eq!(d.addr, 16);
    assert_eq!(d.len, 12);
    assert_eq!(guest.free(d.addr, d.len), Ok(()));
    let e = guest.deliver_verdict(2, true).unwrap();
    assert_eq!(e.addr, 16);
    assert_eq!(guest.read_text(e.addr, e.len), Ok("{\"ok\":true}"));
}
