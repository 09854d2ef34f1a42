use stylus_replay::error::{DecodeError, FieldName};
use stylus_replay::reader::{FrameReader, ReplayError};
use stylus_replay::trace::{Hostio, HostioKind, TraceFrame};
use stylus_replay::value::TraceValue;

fn num(n: u64) -> TraceValue {
    TraceValue::Num { n }
}

fn text(s: &str) -> TraceValue {
    TraceValue::Str { s: s.to_string() }
}

fn arr(items: Vec<TraceValue>) -> TraceValue {
    TraceValue::Arr { items }
}

fn bytes(values: &[u64]) -> TraceValue {
    arr(values.iter().map(|&b| num(b)).collect())
}

fn obj(pairs: Vec<(&str, TraceValue)>) -> TraceValue {
    TraceValue::Obj {
        fields: pairs.into_iter().map(|(k, v)| (k.to_string(), v)).collect(),
    }
}

fn step(name: &str, args: &[u64], outs: &[u64], start_ink: u64, end_ink: u64) -> TraceValue {
    obj(vec![
        ("name", text(name)),
        ("args", bytes(args)),
        ("outs", bytes(outs)),
        ("startInk", num(start_ink)),
        ("endInk", num(end_ink)),
    ])
}

/// The callee address mapping `{"0": 0, ..., "19": 19}` with its pairs
/// listed in the given order.
fn addr_mapping(order: &[usize]) -> TraceValue {
    TraceValue::Obj {
        fields: order
            .iter()
            .map(|&k| (k.to_string(), num(k as u64)))
            .collect(),
    }
}

fn call_step(address_order: &[usize], outs: &[u64]) -> TraceValue {
    let mut args: Vec<u64> = Vec::new();
    args.extend(std::iter::repeat(0xaa).take(20)); // callee address bytes
    args.extend([0, 0, 0, 0, 0, 0, 1, 0]); // gas, big-endian 256
    args.extend(std::iter::repeat(7).take(32)); // attached value word
    args.extend([0xde, 0xad]); // call data
    obj(vec![
        ("name", text("call_contract")),
        ("args", bytes(&args)),
        ("outs", bytes(outs)),
        ("startInk", num(50)),
        ("endInk", num(40)),
        (
            "info",
            obj(vec![
                ("address", addr_mapping(address_order)),
                ("steps", arr(vec![])),
            ]),
        ),
    ])
}

fn reader_over(steps: Vec<Hostio>) -> FrameReader {
    FrameReader::new(TraceFrame {
        address: None,
        steps,
    })
}

fn plain_hostio(kind: HostioKind) -> Hostio {
    Hostio {
        kind,
        start_ink: 0,
        end_ink: 0,
    }
}

fn empty_frame() -> TraceFrame {
    TraceFrame {
        address: None,
        steps: vec![],
    }
}

#[test]
fn end_to_end_single_read_args() {
    let input = arr(vec![
        step("user_entrypoint", &[], &[], 200, 199),
        step("read_args", &[], &[1, 2, 3, 4], 100, 90),
        step("user_returned", &[], &[], 10, 9),
    ]);
    let frame = TraceFrame::parse_frame(None, &input).unwrap();
    assert!(frame.address.is_none());
    assert_eq!(frame.steps.len(), 1);
    let h = &frame.steps[0];
    assert_eq!(h.start_ink, 100);
    assert_eq!(h.end_ink, 90);
    match &h.kind {
        HostioKind::ReadArgs { args } => assert_eq!(args, &vec![1u8, 2, 3, 4]),
        other => panic!("wrong kind: {:?}", other),
    }
}

#[test]
fn decode_preserves_order_and_payloads() {
    let input = arr(vec![
        step("user_entrypoint", &[], &[], 9, 8),
        step("read_args", &[], &[5, 6], 100, 95),
        step("memory_grow", &[0, 3], &[], 90, 85),
        step("user_entrypoint", &[], &[], 7, 6),
        step("write_result", &[255, 0, 1], &[], 80, 75),
        step("user_returned", &[], &[], 5, 4),
    ]);
    let address = Some(vec![0x11u8; 20]);
    let frame = TraceFrame::parse_frame(address.clone(), &input).unwrap();
    assert_eq!(frame.address, address);
    assert_eq!(frame.steps.len(), 3);
    match &frame.steps[0].kind {
        HostioKind::ReadArgs { args } => assert_eq!(args, &vec![5u8, 6]),
        other => panic!("wrong kind: {:?}", other),
    }
    assert_eq!(frame.steps[0].start_ink, 100);
    assert_eq!(frame.steps[0].end_ink, 95);
    match &frame.steps[1].kind {
        HostioKind::MemoryGrow { pages } => assert_eq!(*pages, 3),
        other => panic!("wrong kind: {:?}", other),
    }
    match &frame.steps[2].kind {
        HostioKind::WriteResult { result } => assert_eq!(result, &vec![255u8, 0, 1]),
        other => panic!("wrong kind: {:?}", other),
    }
}

#[test]
fn callee_address_ignores_mapping_order() {
    let shuffled: Vec<usize> = vec![
        19, 3, 11, 0, 17, 5, 8, 1, 14, 2, 7, 16, 4, 13, 9, 18, 6, 12, 10, 15,
    ];
    let input = arr(vec![call_step(&shuffled, &[0, 0, 0, 2, 1])]);
    let frame = TraceFrame::parse_frame(None, &input).unwrap();
    match &frame.steps[0].kind {
        HostioKind::CallContract { frame: nested, .. } => {
            let expected: Vec<u8> = (0u8..20).collect();
            assert_eq!(nested.address, Some(expected));
            assert!(nested.steps.is_empty());
        }
        other => panic!("wrong kind: {:?}", other),
    }
}

#[test]
fn call_contract_fixed_layout() {
    let input = arr(vec![call_step(&(0..20).collect::<Vec<_>>(), &[0, 0, 1, 0, 1])]);
    let frame = TraceFrame::parse_frame(None, &input).unwrap();
    match &frame.steps[0].kind {
        HostioKind::CallContract {
            address,
            data,
            gas,
            value,
            outs_len,
            status,
            ..
        } => {
            assert_eq!(address, &vec![0xaau8; 20]);
            assert_eq!(*gas, 256);
            assert_eq!(value, &vec![7u8; 32]);
            assert_eq!(data, &vec![0xdeu8, 0xad]);
            assert_eq!(*outs_len, 256);
            assert_eq!(*status, 1);
        }
        other => panic!("wrong kind: {:?}", other),
    }
}

#[test]
fn call_outs_surfaced_unchanged_through_reader() {
    let input = arr(vec![
        step("memory_grow", &[0, 1], &[], 3, 2),
        call_step(&(0..20).collect::<Vec<_>>(), &[0, 0, 0, 9, 1]),
    ]);
    let frame = TraceFrame::parse_frame(None, &input).unwrap();
    let mut reader = FrameReader::new(frame);
    let h = reader.next_hostio("call_contract").unwrap();
    match h.kind {
        HostioKind::CallContract {
            outs_len, status, ..
        } => {
            assert_eq!(outs_len, 9);
            assert_eq!(status, 1);
        }
        other => panic!("wrong kind: {:?}", other),
    }
}

#[test]
fn pop_next_on_empty_queue_fails() {
    let mut reader = FrameReader::new(empty_frame());
    assert_eq!(
        reader.next_hostio("read_args"),
        Err(ReplayError::NoNextEvent)
    );
    // Still empty, still failing: never blocks, never invents an event.
    assert_eq!(
        reader.next_hostio("write_result"),
        Err(ReplayError::NoNextEvent)
    );
}

#[test]
fn pop_next_skips_tolerated_heads() {
    let mut reader = reader_over(vec![
        plain_hostio(HostioKind::MemoryGrow { pages: 1 }),
        plain_hostio(HostioKind::MemoryGrow { pages: 2 }),
        Hostio {
            kind: HostioKind::ReadArgs { args: vec![9] },
            start_ink: 44,
            end_ink: 33,
        },
    ]);
    let h = reader.next_hostio("read_args").unwrap();
    match h.kind {
        HostioKind::ReadArgs { args } => assert_eq!(args, vec![9u8]),
        other => panic!("wrong kind: {:?}", other),
    }
    assert_eq!(h.start_ink, 44);
    assert_eq!(h.end_ink, 33);
    assert_eq!(reader.next_hostio("read_args"), Err(ReplayError::NoNextEvent));
}

#[test]
fn pop_next_mismatch_on_untolerated_head() {
    let mut reader = reader_over(vec![plain_hostio(HostioKind::CallContract {
        address: vec![0; 20],
        data: vec![],
        gas: 0,
        value: vec![0; 32],
        outs_len: 0,
        status: 0,
        frame: empty_frame(),
    })]);
    match reader.next_hostio("write_result") {
        Err(ReplayError::Mismatch { expected, found }) => {
            assert_eq!(expected, "write_result");
            assert!(matches!(found.kind, HostioKind::CallContract { .. }));
        }
        other => panic!("expected a mismatch, got {:?}", other),
    }
}

#[test]
fn unknown_operation_is_fatal() {
    let input = arr(vec![step("frobnicate", &[], &[], 1, 0)]);
    assert_eq!(
        TraceFrame::parse_frame(None, &input),
        Err(DecodeError::UnsupportedHostio {
            name: "frobnicate".to_string()
        })
    );
}

#[test]
fn non_array_trace_rejected() {
    assert_eq!(
        TraceFrame::parse_frame(None, &num(7)),
        Err(DecodeError::NotAnArray)
    );
}

#[test]
fn non_object_step_rejected() {
    let input = arr(vec![num(7)]);
    assert_eq!(
        TraceFrame::parse_frame(None, &input),
        Err(DecodeError::NotAStep)
    );
}

#[test]
fn missing_field_named() {
    let input = arr(vec![obj(vec![
        ("name", text("read_args")),
        ("args", bytes(&[])),
        ("startInk", num(1)),
        ("endInk", num(0)),
    ])]);
    assert_eq!(
        TraceFrame::parse_frame(None, &input),
        Err(DecodeError::MissingField {
            field: FieldName::Outs
        })
    );
}

#[test]
fn mistyped_field_named() {
    let input = arr(vec![obj(vec![
        ("name", num(3)),
        ("args", bytes(&[])),
        ("outs", bytes(&[])),
        ("startInk", num(1)),
        ("endInk", num(0)),
    ])]);
    assert_eq!(
        TraceFrame::parse_frame(None, &input),
        Err(DecodeError::WrongFieldType {
            field: FieldName::Name
        })
    );
}

#[test]
fn out_of_range_byte_named() {
    let input = arr(vec![step("write_result", &[3, 999, 4], &[], 1, 0)]);
    assert_eq!(
        TraceFrame::parse_frame(None, &input),
        Err(DecodeError::NotAByte {
            field: FieldName::Args,
            index: 1,
            value: Some(999)
        })
    );
}

#[test]
fn msg_value_must_be_one_word() {
    let input = arr(vec![step("msg_value", &[], &[1, 2, 3], 1, 0)]);
    assert_eq!(
        TraceFrame::parse_frame(None, &input),
        Err(DecodeError::WrongLength {
            field: FieldName::Outs,
            expected: 32,
            actual: 3
        })
    );
}

#[test]
fn msg_value_word_decoded() {
    let word: Vec<u64> = (0..32).map(|i| i as u64).collect();
    let input = arr(vec![step("msg_value", &[], &word, 1, 0)]);
    let frame = TraceFrame::parse_frame(None, &input).unwrap();
    match &frame.steps[0].kind {
        HostioKind::MsgValue { value } => {
            assert_eq!(value, &(0u8..32).collect::<Vec<u8>>());
        }
        other => panic!("wrong kind: {:?}", other),
    }
}

#[test]
fn memory_grow_pages_big_endian() {
    let input = arr(vec![step("memory_grow", &[1, 2], &[], 1, 0)]);
    let frame = TraceFrame::parse_frame(None, &input).unwrap();
    match &frame.steps[0].kind {
        HostioKind::MemoryGrow { pages } => assert_eq!(*pages, 258),
        other => panic!("wrong kind: {:?}", other),
    }
}

#[test]
fn contract_address_decoded() {
    let addr: Vec<u64> = (100..120).collect();
    let input = arr(vec![step("contract_address", &[], &addr, 1, 0)]);
    let frame = TraceFrame::parse_frame(None, &input).unwrap();
    match &frame.steps[0].kind {
        HostioKind::ContractAddress { address } => {
            assert_eq!(address, &(100u8..120).collect::<Vec<u8>>());
        }
        other => panic!("wrong kind: {:?}", other),
    }
}

#[test]
fn bad_address_key_named() {
    let mut order: Vec<(String, TraceValue)> =
        (0..20).map(|k| (k.to_string(), num(k as u64))).collect();
    order[4] = ("banana".to_string(), num(4));
    let info = obj(vec![
        ("address", TraceValue::Obj { fields: order }),
        ("steps", arr(vec![])),
    ]);
    let mut fields = vec![
        ("name", text("call_contract")),
        ("args", bytes(&[0; 65])),
        ("outs", bytes(&[0, 0, 0, 0, 0])),
        ("startInk", num(1)),
        ("endInk", num(0)),
        ("info", info),
    ];
    let input = arr(vec![obj(fields.drain(..).collect())]);
    assert_eq!(
        TraceFrame::parse_frame(None, &input),
        Err(DecodeError::BadAddressKey { index: 4 })
    );
}

#[test]
fn short_call_args_rejected() {
    let input = arr(vec![step("call_contract", &[1, 2, 3], &[0, 0, 0, 0, 0], 1, 0)]);
    assert_eq!(
        TraceFrame::parse_frame(None, &input),
        Err(DecodeError::WrongLength {
            field: FieldName::Args,
            expected: 60,
            actual: 3
        })
    );
}

#[test]
fn nested_unknown_operation_propagates() {
    let info = obj(vec![
        ("address", addr_mapping(&(0..20).collect::<Vec<_>>())),
        ("steps", arr(vec![step("frobnicate", &[], &[], 1, 0)])),
    ]);
    let input = arr(vec![obj(vec![
        ("name", text("call_contract")),
        ("args", bytes(&[0; 60])),
        ("outs", bytes(&[0, 0, 0, 0, 0])),
        ("startInk", num(1)),
        ("endInk", num(0)),
        ("info", info),
    ])]);
    assert_eq!(
        TraceFrame::parse_frame(None, &input),
        Err(DecodeError::UnsupportedHostio {
            name: "frobnicate".to_string()
        })
    );
}

#[test]
fn hostio_names_round_trip() {
    assert_eq!(HostioKind::UserEntrypoint.name(), "user_entrypoint");
    assert_eq!(HostioKind::UserReturned.name(), "user_returned");
    assert_eq!(HostioKind::MemoryGrow { pages: 0 }.name(), "memory_grow");
    assert_eq!(HostioKind::ReadArgs { args: vec![] }.name(), "read_args");
}

#[test]
fn matching_tolerated_head_is_returned_not_skipped() {
    let mut reader = reader_over(vec![
        plain_hostio(HostioKind::MemoryGrow { pages: 77 }),
        plain_hostio(HostioKind::UserEntrypoint),
    ]);
    let h = reader.next_hostio("memory_grow").unwrap();
    match h.kind {
        HostioKind::MemoryGrow { pages } => assert_eq!(pages, 77),
        other => panic!("wrong kind: {:?}", other),
    }
}

#[test]
fn address_keys_accept_plus_and_leading_zeros() {
    // Unsigned decimal parsing of mapping keys tolerates an explicit sign
    // and leading zeros, exactly as integer parsing does.
    let mut fields: Vec<(String, TraceValue)> = vec![
        ("+0".to_string(), num(40)),
        ("01".to_string(), num(41)),
    ];
    for k in 2..20 {
        fields.push((k.to_string(), num(40 + k as u64)));
    }
    let info = obj(vec![
        ("address", TraceValue::Obj { fields }),
        ("steps", arr(vec![])),
    ]);
    let input = arr(vec![obj(vec![
        ("name", text("call_contract")),
        ("args", bytes(&[0; 60])),
        ("outs", bytes(&[0, 0, 0, 0, 0])),
        ("startInk", num(1)),
        ("endInk", num(0)),
        ("info", info),
    ])]);
    let frame = TraceFrame::parse_frame(None, &input).unwrap();
    match &frame.steps[0].kind {
        HostioKind::CallContract { frame: nested, .. } => {
            assert_eq!(nested.address, Some((40u8..60).collect::<Vec<u8>>()));
        }
        other => panic!("wrong kind: {:?}", other),
    }
}

#[test]
fn call_missing_info_named() {
    let input = arr(vec![step("call_contract", &[0; 60], &[0, 0, 0, 0, 0], 1, 0)]);
    assert_eq!(
        TraceFrame::parse_frame(None, &input),
        Err(DecodeError::MissingField {
            field: FieldName::Info
        })
    );
}

#[test]
fn call_outs_must_hold_len_and_status() {
    let input = arr(vec![obj(vec![
        ("name", text("call_contract")),
        ("args", bytes(&[0; 60])),
        ("outs", bytes(&[0, 0, 0, 0])),
        ("startInk", num(1)),
        ("endInk", num(0)),
    ])]);
    assert_eq!(
        TraceFrame::parse_frame(None, &input),
        Err(DecodeError::WrongLength {
            field: FieldName::Outs,
            expected: 5,
            actual: 4
        })
    );
}

#[test]
fn undersized_address_mapping_rejected() {
    let info = obj(vec![
        ("address", addr_mapping(&(0..10).collect::<Vec<_>>())),
        ("steps", arr(vec![])),
    ]);
    let input = arr(vec![obj(vec![
        ("name", text("call_contract")),
        ("args", bytes(&[0; 60])),
        ("outs", bytes(&[0, 0, 0, 0, 0])),
        ("startInk", num(1)),
        ("endInk", num(0)),
        ("info", info),
    ])]);
    assert_eq!(
        TraceFrame::parse_frame(None, &input),
        Err(DecodeError::WrongLength {
            field: FieldName::Address,
            expected: 20,
            actual: 10
        })
    );
}

#[test]
fn duplicate_address_key_rejected() {
    let mut fields: Vec<(String, TraceValue)> =
        (0..20).map(|k| (k.to_string(), num(k as u64))).collect();
    // "08" repeats key 8 under another spelling.
    fields[11] = ("08".to_string(), num(11));
    let info = obj(vec![
        ("address", TraceValue::Obj { fields }),
        ("steps", arr(vec![])),
    ]);
    let input = arr(vec![obj(vec![
        ("name", text("call_contract")),
        ("args", bytes(&[0; 60])),
        ("outs", bytes(&[0, 0, 0, 0, 0])),
        ("startInk", num(1)),
        ("endInk", num(0)),
        ("info", info),
    ])]);
    assert_eq!(
        TraceFrame::parse_frame(None, &input),
        Err(DecodeError::BadAddressKey { index: 11 })
    );
}

#[test]
fn markers_alone_decode_to_empty_frame() {
    let input = arr(vec![
        step("user_entrypoint", &[], &[], 2, 1),
        step("user_returned", &[], &[], 1, 0),
    ]);
    let frame = TraceFrame::parse_frame(None, &input).unwrap();
    assert!(frame.steps.is_empty());
}

#[test]
fn empty_trace_decodes_to_empty_frame() {
    let frame = TraceFrame::parse_frame(Some(vec![3; 20]), &arr(vec![])).unwrap();
    assert!(frame.steps.is_empty());
    assert_eq!(frame.address, Some(vec![3u8; 20]));
}
