use solana_debugger::builtin::get_fixed_serialization;
use solana_debugger::generate::{get_serialize_impl_enum, get_serialize_impl_struct, probe_lines, Fields, Variant};
use solana_debugger::probe::Probe;

const CALL: &str = "crate::_solana_debugger_serialize::_SolanaDebuggerSerialize::_solana_debugger_serialize";

fn impl_block<'a>(lines: &'a [String], ty: &str) -> &'a [String] {
    let head = format!("impl crate::_solana_debugger_serialize::_SolanaDebuggerSerialize for {} {{", ty);
    let start = lines.iter().position(|l| l.ends_with(&format!(" for {} {{", ty)) && (l == &head || l.starts_with("impl<"))).expect("impl present");
    let end = start + lines[start..].iter().position(|l| l.contains("\"END_NODE\"")).unwrap();
    &lines[start..end + 1]
}

#[test]
fn builtin_module_parses() {
    let text = get_fixed_serialization().join("\n");
    let file = syn::parse_file(&text).expect("module parses");
    // the capability, its fallback, and 27 builtin encoders
    assert_eq!(file.items.len(), 29);
}

#[test]
fn builtin_integers_write_wide_little_endian() {
    let lines = get_fixed_serialization();
    let b = impl_block(&lines, "u8");
    assert!(b.contains(&"solana_program::log::sol_log(\"primitive\");".to_string()));
    assert!(b.contains(&"solana_program::log::sol_log(\"uint\");".to_string()));
    assert!(b.contains(&"let bytes = (*self as u128).to_le_bytes();".to_string()));
    let i = impl_block(&lines, "i64");
    assert!(i.contains(&"solana_program::log::sol_log(\"int\");".to_string()));
    assert!(i.contains(&"let bytes = (*self as i128).to_le_bytes();".to_string()));
}

#[test]
fn builtin_option_and_sequences() {
    let lines = get_fixed_serialization();
    let o = impl_block(&lines, "Option<T>");
    assert!(o.contains(&"solana_program::log::sol_log(\"str_ident\");".to_string()));
    assert!(o.contains(&format!("{}(&*v, \"0\");", CALL)));
    let v = impl_block(&lines, "Vec<T>");
    assert!(v.contains(&"solana_program::log::sol_log(\"array_len\");".to_string()));
    assert!(v.contains(&format!("{}(&*el, \"-inc-index\");", CALL)));
    let rc = impl_block(&lines, "std::rc::Rc<T>");
    assert!(rc.contains(&"solana_program::log::sol_log(\"rc_meta\");".to_string()));
    assert!(rc.contains(&format!("{}(&**self, \"value\");", CALL)));
    let bx = impl_block(&lines, "Box<T>");
    assert!(bx.contains(&"solana_program::log::sol_log(\"no_data\");".to_string()));
    assert!(bx.contains(&format!("{}(&**self, \"value\");", CALL)));
}

#[test]
fn generated_code_parses() {
    let s = get_serialize_impl_struct("P", &Fields::Named(vec!["x".to_string()])).join("\n");
    syn::parse_str::<syn::Item>(&s).expect("struct serializer parses");
    let e = get_serialize_impl_enum(
        "E",
        &vec![
            Variant { name: "A".to_string(), fields: Fields::Unnamed(2) },
            Variant { name: "B".to_string(), fields: Fields::Named(vec!["f".to_string()]) },
            Variant { name: "C".to_string(), fields: Fields::Unit },
        ],
    )
    .join("\n");
    syn::parse_str::<syn::Item>(&e).expect("enum serializer parses");
    let p = probe_lines(&Probe { line: 3, bindings: vec!["a".to_string()] }).join("\n");
    syn::parse_str::<syn::Block>(&format!("{{\n{}\n}}", p)).expect("probe parses");
}
