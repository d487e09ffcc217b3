use solana_debugger::encode::{encode_capture, encode_forest, Payload, WireNode};
use solana_debugger::parse::{
    clean_program_output, consume_debug_node, parse_line_header, parse_line_vars_nodes,
    parse_program_output, DebugNode, DebugNodeType,
};
use solana_debugger::wire::OutputParseError;

fn s(x: &str) -> String {
    x.to_string()
}

fn lines(v: &[&str]) -> Vec<String> {
    v.iter().map(|x| x.to_string()).collect()
}

fn log(v: &[&str]) -> Vec<String> {
    v.iter().map(|x| format!("Program log: {}", x)).collect()
}

fn leaf(name: &str, ty: &str, payload: Payload) -> WireNode {
    WireNode {
        node_type: DebugNodeType::Primitive,
        name: s(name),
        full_type: s(ty),
        payload,
        children: vec![],
    }
}

fn round_trip_value(payload: Payload) -> String {
    let forest = vec![leaf("v", "t", payload)];
    let encoded = encode_forest(&forest);
    let decoded = parse_line_vars_nodes(&encoded).expect("decodes");
    assert_eq!(decoded.len(), 1);
    assert_eq!(decoded[0].name, "v");
    assert_eq!(decoded[0].full_type, "t");
    decoded[0].value.clone()
}

#[test]
fn round_trip_signed_extremes() {
    assert_eq!(round_trip_value(Payload::Int(i128::MIN)), "-170141183460469231731687303715884105728");
    assert_eq!(round_trip_value(Payload::Int(i128::MAX)), "170141183460469231731687303715884105727");
    assert_eq!(round_trip_value(Payload::Int(-1)), "-1");
    assert_eq!(round_trip_value(Payload::Int(0)), "0");
    assert_eq!(round_trip_value(Payload::Int(i8::MIN as i128)), "-128");
}

#[test]
fn round_trip_unsigned_extremes() {
    assert_eq!(round_trip_value(Payload::Uint(u128::MAX)), "340282366920938463463374607431768211455");
    assert_eq!(round_trip_value(Payload::Uint(0)), "0");
    assert_eq!(round_trip_value(Payload::Uint(u64::MAX as u128)), "18446744073709551615");
}

#[test]
fn round_trip_bool_and_text() {
    assert_eq!(round_trip_value(Payload::Bool(true)), "true");
    assert_eq!(round_trip_value(Payload::Bool(false)), "false");
    assert_eq!(round_trip_value(Payload::Str(s(""))), "\"\"");
    assert_eq!(round_trip_value(Payload::Str(s("hello world"))), "\"hello world\"");
    assert_eq!(round_trip_value(Payload::StrIdent(s("None"))), "None");
    assert_eq!(round_trip_value(Payload::ErrorStr(s("Failed to borrow"))), "Error: Failed to borrow");
    assert_eq!(round_trip_value(Payload::NoData), "");
    assert_eq!(round_trip_value(Payload::NotImplemented), "[not implemented]");
}

#[test]
fn round_trip_counts_and_key() {
    assert_eq!(round_trip_value(Payload::RcMeta(2, 1)), "strong_count=2, weak_count=1");
    assert_eq!(round_trip_value(Payload::ArrayLen(0)), "len=0");
    assert_eq!(round_trip_value(Payload::Pubkey(vec![0u8; 32])), "11111111111111111111111111111111");
}

#[test]
fn round_trip_nested_option_and_sequence() {
    // Some(vec![7u8, 8u8, 9u8]): sequence elements are numbered 0, 1, 2.
    let elems: Vec<WireNode> = (7u128..10).map(|v| leaf("-inc-index", "u8", Payload::Uint(v))).collect();
    let vector = WireNode {
        node_type: DebugNodeType::Complex,
        name: s("0"),
        full_type: s("alloc::vec::Vec<u8>"),
        payload: Payload::ArrayLen(3),
        children: elems,
    };
    let option = WireNode {
        node_type: DebugNodeType::Complex,
        name: s("opt"),
        full_type: s("core::option::Option<alloc::vec::Vec<u8>>"),
        payload: Payload::StrIdent(s("Some")),
        children: vec![vector],
    };
    let encoded = encode_forest(&vec![option]);
    let decoded = parse_line_vars_nodes(&encoded).unwrap();
    assert_eq!(decoded.len(), 1);
    let o = &decoded[0];
    assert_eq!(o.node_type, DebugNodeType::Complex);
    assert_eq!(o.value, "Some");
    assert_eq!(o.children.len(), 1);
    let v = &o.children[0];
    assert_eq!(v.name, "0");
    assert_eq!(v.value, "len=3");
    let names: Vec<&str> = v.children.iter().map(|c| c.name.as_str()).collect();
    assert_eq!(names, vec!["0", "1", "2"]);
    let values: Vec<&str> = v.children.iter().map(|c| c.value.as_str()).collect();
    assert_eq!(values, vec!["7", "8", "9"]);
}

#[test]
fn sequence_numbering_skips_named_children() {
    let children = vec![
        leaf("-inc-index", "u8", Payload::Uint(1)),
        leaf("named", "u8", Payload::Uint(2)),
        leaf("-inc-index", "u8", Payload::Uint(3)),
    ];
    let parent = WireNode {
        node_type: DebugNodeType::Complex,
        name: s("p"),
        full_type: s("P"),
        payload: Payload::NoData,
        children,
    };
    let decoded = parse_line_vars_nodes(&encode_forest(&vec![parent])).unwrap();
    let names: Vec<&str> = decoded[0].children.iter().map(|c| c.name.as_str()).collect();
    assert_eq!(names, vec!["0", "named", "1"]);
}

#[test]
fn forest_consumes_every_line() {
    let forest = vec![
        leaf("a", "u8", Payload::Uint(1)),
        leaf("b", "bool", Payload::Bool(true)),
    ];
    let encoded = encode_forest(&forest);
    let decoded = parse_line_vars_nodes(&encoded).unwrap();
    assert_eq!(decoded.len(), 2);
    // A node's lines start with START_NODE and end with END_NODE.
    assert_eq!(encoded[0], "START_NODE");
    assert_eq!(encoded[encoded.len() - 1], "END_NODE");
    // Leftover lines are refused.
    let mut extra = encoded.clone();
    extra.push(s("stray"));
    assert!(matches!(parse_line_vars_nodes(&extra), Err(OutputParseError::UnexpectedToken)));
    // A missing END_NODE is refused.
    let mut cut = encoded.clone();
    cut.pop();
    assert!(matches!(parse_line_vars_nodes(&cut), Err(OutputParseError::NotEnoughLines)));
}

#[test]
fn empty_forest_decodes_to_nothing() {
    let decoded = parse_line_vars_nodes(&vec![]).unwrap();
    assert!(decoded.is_empty());
}

#[test]
fn end_to_end_single_hit() {
    let output = vec![
        s("Program 11111111111111111111111111111111 invoke [1]"),
        s("Program log: -.!;LINE_START;12"),
        s("Program log: START_NODE"),
        s("Program log: primitive"),
        s("Program log: x"),
        s("Program log: u8"),
        s("Program log: uint"),
        s("Program data: BQAAAAAAAAAAAAAAAAAAAA=="),
        s("Program log: END_NODE"),
        s("Program log: -.!;LINE_END"),
        s("Program 11111111111111111111111111111111 success"),
    ];
    let captures = parse_program_output(output).unwrap();
    assert_eq!(captures.len(), 1);
    assert_eq!(captures[0].line_num, 12);
    assert_eq!(captures[0].nodes.len(), 1);
    let x: &DebugNode = &captures[0].nodes[0];
    assert_eq!(x.name, "x");
    assert!(x.full_type.ends_with("u8"));
    assert_eq!(x.node_type, DebugNodeType::Primitive);
    assert_eq!(x.value, "5");
}

#[test]
fn multiple_hits_in_a_loop() {
    let mut output = vec![];
    for (i, b64) in ["AAAAAAAAAAAAAAAAAAAAAA==", "AQAAAAAAAAAAAAAAAAAAAA==", "AgAAAAAAAAAAAAAAAAAAAA=="].iter().enumerate() {
        output.extend(log(&["-.!;LINE_START;7", "START_NODE", "primitive", "i", "usize", "uint"]));
        output.push(format!("Program data: {}", b64));
        output.extend(log(&["END_NODE", "-.!;LINE_END"]));
        output.push(format!("Program log: iteration {}", i));
    }
    let captures = parse_program_output(output).unwrap();
    assert_eq!(captures.len(), 3);
    for (i, c) in captures.iter().enumerate() {
        assert_eq!(c.line_num, 7);
        assert_eq!(c.nodes.len(), 1);
        assert_eq!(c.nodes[0].value, i.to_string());
    }
}

#[test]
fn line_never_reached_gives_no_capture() {
    let output = log(&["hello", "world"]);
    assert!(parse_program_output(output).unwrap().is_empty());
}

#[test]
fn clean_keeps_program_records_only() {
    let out = clean_program_output(vec![
        s("Program log: a"),
        s("Program data: b"),
        s("Program consumed 10 units"),
        s("Program log:c"),
        s("log: d"),
    ]);
    assert_eq!(out, lines(&["a", "b", "Program log:c"]));
}

#[test]
fn header_line_numbers() {
    assert_eq!(parse_line_header("-.!;LINE_START;33"), Ok(33));
    assert_eq!(parse_line_header("-.!;LINE_START;+4"), Err(OutputParseError::InvalidLineNumber));
    assert_eq!(parse_line_header("-.!;LINE_START;1;2"), Err(OutputParseError::InvalidLineNumber));
    assert_eq!(parse_line_header("-.!;LINE_STARTX;5"), Err(OutputParseError::InvalidLine));
    assert_eq!(parse_line_header("-.!;LINE_START;"), Err(OutputParseError::InvalidLineNumber));
    assert_eq!(parse_line_header("-.!;LINE_START"), Err(OutputParseError::InvalidLine));
    assert_eq!(parse_line_header("-.!;LINE_START;x"), Err(OutputParseError::InvalidLineNumber));
    assert_eq!(parse_line_header("-.!;LINE_START;99999999999999999999999"), Err(OutputParseError::InvalidLineNumber));
}

#[test]
fn capture_errors() {
    let bad_header = log(&["-.!;LINE_STARTX;1", "-.!;LINE_END"]);
    assert!(matches!(parse_program_output(bad_header), Err(OutputParseError::InvalidLine)));
    let bad_number = log(&["-.!;LINE_START;z", "-.!;LINE_END"]);
    assert!(matches!(parse_program_output(bad_number), Err(OutputParseError::InvalidLineNumber)));
    let no_end = log(&["-.!;LINE_START;3", "START_NODE"]);
    assert!(matches!(parse_program_output(no_end), Err(OutputParseError::LineEndNotFound)));
}

#[test]
fn node_errors() {
    let bad_token = lines(&["BEGIN"]);
    assert!(matches!(consume_debug_node(&bad_token, 0), Err(OutputParseError::UnexpectedToken)));
    let bad_kind = lines(&["START_NODE", "simple", "x", "u8", "uint", "AA==", "END_NODE"]);
    assert!(matches!(consume_debug_node(&bad_kind, 0), Err(OutputParseError::InvalidNodeType)));
    let short = lines(&["START_NODE", "primitive", "x"]);
    assert!(matches!(consume_debug_node(&short, 0), Err(OutputParseError::NotEnoughLines)));
    let wrong_width = lines(&["START_NODE", "primitive", "x", "u8", "uint", "BQAAAAAAAAAAAAAAAAAA", "END_NODE"]);
    assert!(matches!(consume_debug_node(&wrong_width, 0), Err(OutputParseError::DecodeError)));
    let not_base64 = lines(&["START_NODE", "primitive", "x", "u8", "uint", "***", "END_NODE"]);
    assert!(matches!(consume_debug_node(&not_base64, 0), Err(OutputParseError::DecodeError)));
    let unknown = lines(&["START_NODE", "primitive", "x", "f32", "float", "AA==", "END_NODE"]);
    assert!(matches!(consume_debug_node(&unknown, 0), Err(OutputParseError::UnknownPayloadKind)));
    let no_end = lines(&["START_NODE", "primitive", "x", "u8", "no_data", "START"]);
    assert!(matches!(consume_debug_node(&no_end, 0), Err(OutputParseError::UnexpectedToken)));
}

#[test]
fn decoded_payloads_from_wire_text() {
    let b = lines(&["START_NODE", "primitive", "flag", "bool", "bool", "AQ==", "END_NODE"]);
    let (node, next) = consume_debug_node(&b, 0).unwrap();
    assert_eq!(node.value, "true");
    assert_eq!(next, 7);
    let u = lines(&["START_NODE", "primitive", "n", "u128", "uint", "/////////////////////w==", "END_NODE"]);
    assert_eq!(consume_debug_node(&u, 0).unwrap().0.value, "340282366920938463463374607431768211455");
    let i = lines(&["START_NODE", "primitive", "n", "i128", "int", "/////////////////////w==", "END_NODE"]);
    assert_eq!(consume_debug_node(&i, 0).unwrap().0.value, "-1");
    let k = lines(&["START_NODE", "complex", "key", "Pubkey", "pubkey", "AAAAAAAAAAAAAAAAAAAAAAAAAAAAAAAAAAAAAAAAAAA=", "END_NODE"]);
    assert_eq!(consume_debug_node(&k, 0).unwrap().0.value, "11111111111111111111111111111111");
    let short_key = lines(&["START_NODE", "complex", "key", "Pubkey", "pubkey", "AQ==", "END_NODE"]);
    assert!(matches!(consume_debug_node(&short_key, 0), Err(OutputParseError::DecodeError)));
    let bool_wide = lines(&["START_NODE", "primitive", "flag", "bool", "bool", "AQEBAQEBAQEBAQEBAQEBAQ==", "END_NODE"]);
    assert!(matches!(consume_debug_node(&bool_wide, 0), Err(OutputParseError::DecodeError)));
}

#[test]
fn encoder_writes_base64_of_little_endian_bytes() {
    let encoded = encode_forest(&vec![leaf("x", "u8", Payload::Uint(5))]);
    assert_eq!(encoded, lines(&["START_NODE", "primitive", "x", "u8", "uint", "BQAAAAAAAAAAAAAAAAAAAA==", "END_NODE"]));
    let b = encode_forest(&vec![leaf("b", "bool", Payload::Bool(true))]);
    assert_eq!(b[5], "AQ==");
}

#[test]
fn encoded_captures_decode_back() {
    let mut output = vec![s("Program log: before")];
    for i in 0..3u128 {
        output.extend(encode_capture(12, &vec![leaf("x", "u8", Payload::Uint(5 + i))]));
    }
    assert_eq!(output[1], "Program log: -.!;LINE_START;12");
    assert_eq!(output[output.len() - 1], "Program log: -.!;LINE_END");
    let captures = parse_program_output(output).unwrap();
    assert_eq!(captures.len(), 3);
    for (i, c) in captures.iter().enumerate() {
        assert_eq!(c.line_num, 12);
        assert_eq!(c.nodes.len(), 1);
        assert_eq!(c.nodes[0].name, "x");
        assert_eq!(c.nodes[0].value, (5 + i).to_string());
    }
}

#[test]
fn capture_at_largest_line_number() {
    let records = encode_capture(usize::MAX, &vec![]);
    let captures = parse_program_output(records).unwrap();
    assert_eq!(captures.len(), 1);
    assert_eq!(captures[0].line_num, usize::MAX);
    assert!(captures[0].nodes.is_empty());
}
