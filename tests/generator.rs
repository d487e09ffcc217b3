use solana_debugger::generate::{get_serialize_impl_enum, get_serialize_impl_struct, Fields, Variant};

const CALL: &str = "crate::_solana_debugger_serialize::_SolanaDebuggerSerialize::_solana_debugger_serialize";

fn head(name: &str, kind: &str) -> Vec<String> {
    vec![
        format!("impl crate::_solana_debugger_serialize::_SolanaDebuggerSerialize for {} {{", name),
        "fn _solana_debugger_serialize(&self, name: &str) {".to_string(),
        "solana_program::log::sol_log(\"START_NODE\");".to_string(),
        "solana_program::log::sol_log(\"complex\");".to_string(),
        "solana_program::log::sol_log(name);".to_string(),
        "solana_program::log::sol_log(std::any::type_name_of_val(self));".to_string(),
        format!("solana_program::log::sol_log(\"{}\");", kind),
    ]
}

fn tail() -> Vec<String> {
    vec!["solana_program::log::sol_log(\"END_NODE\");".to_string(), "}".to_string(), "}".to_string()]
}

#[test]
fn struct_with_named_fields() {
    let lines = get_serialize_impl_struct("Point", &Fields::Named(vec!["x".to_string(), "y".to_string()]));
    let mut expected = head("Point", "no_data");
    expected.push(format!("{}(&self.x, \"x\");", CALL));
    expected.push(format!("{}(&self.y, \"y\");", CALL));
    expected.extend(tail());
    assert_eq!(lines, expected);
}

#[test]
fn tuple_and_unit_structs() {
    let lines = get_serialize_impl_struct("Pair", &Fields::Unnamed(2));
    let mut expected = head("Pair", "no_data");
    expected.push(format!("{}(&self.0, \"0\");", CALL));
    expected.push(format!("{}(&self.1, \"1\");", CALL));
    expected.extend(tail());
    assert_eq!(lines, expected);
    let unit = get_serialize_impl_struct("Marker", &Fields::Unit);
    let mut expected = head("Marker", "no_data");
    expected.extend(tail());
    assert_eq!(unit, expected);
}

#[test]
fn enum_with_each_kind_of_variant() {
    let variants = vec![
        Variant { name: "Move".to_string(), fields: Fields::Named(vec!["dx".to_string(), "dy".to_string()]) },
        Variant { name: "Write".to_string(), fields: Fields::Unnamed(2) },
        Variant { name: "Quit".to_string(), fields: Fields::Unit },
    ];
    let lines = get_serialize_impl_enum("Msg", &variants);
    let mut expected = head("Msg", "str_ident");
    expected.extend(vec![
        "let variant_str = match self {".to_string(),
        "Self::Move { .. } => \"Move\",".to_string(),
        "Self::Write(..) => \"Write\",".to_string(),
        "Self::Quit => \"Quit\",".to_string(),
        "};".to_string(),
        "solana_program::log::sol_log(variant_str);".to_string(),
        "match self {".to_string(),
        "Self::Move { dx, dy } => {".to_string(),
        format!("{}(&dx, \"dx\");", CALL),
        format!("{}(&dy, \"dy\");", CALL),
        "}".to_string(),
        "Self::Write(f0, f1) => {".to_string(),
        format!("{}(&*f0, \"0\");", CALL),
        format!("{}(&*f1, \"1\");", CALL),
        "}".to_string(),
        "Self::Quit => {}".to_string(),
        "}".to_string(),
    ]);
    expected.extend(tail());
    assert_eq!(lines, expected);
}

use solana_debugger::generate::{insert_serialize_impl, probe_lines, ItemDecl, ItemOut};
use solana_debugger::probe::Probe;

#[test]
fn probe_source_lines() {
    let p = Probe { line: 12, bindings: vec!["a".to_string(), "self".to_string()] };
    assert_eq!(
        probe_lines(&p),
        vec![
            "solana_program::log::sol_log(\"-.!;LINE_START;12\");".to_string(),
            format!("{}(&a, \"a\");", CALL),
            format!("{}(&self, \"self\");", CALL),
            "solana_program::log::sol_log(\"-.!;LINE_END\");".to_string(),
        ]
    );
    let empty = Probe { line: 0, bindings: vec![] };
    assert_eq!(probe_lines(&empty).len(), 2);
}

#[test]
fn serializers_follow_their_types() {
    let items = vec![
        ItemDecl::Other,
        ItemDecl::Struct { name: "S".to_string(), fields: Fields::Unit },
        ItemDecl::Enum { name: "E".to_string(), variants: vec![] },
        ItemDecl::Other,
    ];
    let out = insert_serialize_impl(&items);
    assert_eq!(out.len(), 6);
    assert!(matches!(out[0], ItemOut::Kept(0)));
    assert!(matches!(out[1], ItemOut::Kept(1)));
    match &out[2] {
        ItemOut::Generated(lines) => assert_eq!(lines[0], "impl crate::_solana_debugger_serialize::_SolanaDebuggerSerialize for S {"),
        _ => panic!("serializer expected"),
    }
    assert!(matches!(out[3], ItemOut::Kept(2)));
    assert!(matches!(out[4], ItemOut::Generated(_)));
    assert!(matches!(out[5], ItemOut::Kept(3)));
}
