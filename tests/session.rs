use solana_debugger::parse::{DebugNode, DebugNodeType};
use solana_debugger::session::{
    ast_spec_for, cache_dir_for, find_node, get_build_dir, get_cache_dir, get_config_path, get_processed_args, get_target_dir,
    is_hidden_path, is_main_module, shown_children, source_file_of, try_get_file_line_format, ConfigError,
    DebuggerConfig, LocationError,
};

#[test]
fn file_line_locations() {
    assert_eq!(try_get_file_line_format("lib.rs:33"), Ok(("lib.rs".to_string(), 33)));
    assert_eq!(try_get_file_line_format("a:b.rs:7"), Ok(("a:b.rs".to_string(), 7)));
    assert_eq!(try_get_file_line_format(":5"), Ok(("".to_string(), 5)));
    assert_eq!(try_get_file_line_format("lib.rs"), Err(LocationError::InvalidFormat));
    assert_eq!(try_get_file_line_format("lib.rs:x"), Err(LocationError::InvalidLineNumber));
    assert_eq!(try_get_file_line_format("lib.rs:"), Err(LocationError::InvalidLineNumber));
}

#[test]
fn bare_location_gets_var_subcommand() {
    let args = vec!["dbg".to_string(), "lib.rs:3".to_string()];
    assert_eq!(get_processed_args(args), vec!["dbg", "var", "lib.rs:3"]);
    let args = vec!["dbg".to_string(), "init".to_string(), "p".to_string()];
    assert_eq!(get_processed_args(args), vec!["dbg", "init", "p"]);
    assert_eq!(get_processed_args(vec!["dbg".to_string()]), vec!["dbg"]);
    assert_eq!(source_file_of("lib.rs"), "src/lib.rs");
}

#[test]
fn session_paths() {
    assert_eq!(get_build_dir("/home/u/.cache/solana_debugger"), "/home/u/.cache/solana_debugger/build");
    assert_eq!(get_target_dir("/c/"), "/c/target");
    assert_eq!(get_config_path("/c"), "/c/config.json");
    assert_eq!(cache_dir_for("/home/u"), "/home/u/.cache/solana_debugger");
    assert_eq!(cache_dir_for("/root/"), "/root/.cache/solana_debugger");
    if let Some(c) = get_cache_dir() {
        assert!(c.ends_with("/.cache/solana_debugger"));
    }
}

#[test]
fn config_validation() {
    let c = DebuggerConfig { program_path: "/p".to_string(), input_path: "/i".to_string() };
    assert_eq!(c.validate(true, true), Ok(()));
    assert_eq!(c.validate(false, true), Err(ConfigError::ProgramPathNotDir));
    assert_eq!(c.validate(false, false), Err(ConfigError::ProgramPathNotDir));
    assert_eq!(c.validate(true, false), Err(ConfigError::InputPathNotDir));
}

#[test]
fn per_file_instrumentation() {
    assert!(is_main_module("/tmp/build/src/lib.rs"));
    assert!(is_main_module("src/lib.rs"));
    assert!(!is_main_module("/tmp/build/xsrc/lib.rs"));
    assert!(!is_main_module("/tmp/build/src/main.rs"));
    let root = ast_spec_for("/b/src/lib.rs", true, 12);
    assert!(root.mod_fixed_serialization && root.feature_min_specialization && root.custom_type_serialization);
    assert_eq!(root.line_inst, Some(12));
    let other = ast_spec_for("/b/src/state.rs", false, 12);
    assert!(!other.mod_fixed_serialization && !other.feature_min_specialization);
    assert_eq!(other.line_inst, None);
    assert!(is_hidden_path(".git"));
    assert!(!is_hidden_path("src"));
    assert!(!is_hidden_path(""));
}

#[test]
fn shown_children_are_capped() {
    assert_eq!(shown_children(3), (3, false));
    assert_eq!(shown_children(15), (15, false));
    assert_eq!(shown_children(16), (15, true));
}

fn node(name: &str) -> DebugNode {
    DebugNode {
        node_type: DebugNodeType::Primitive,
        name: name.to_string(),
        full_type: "u8".to_string(),
        value: "1".to_string(),
        children: vec![],
    }
}

#[test]
fn selecting_variables_by_name() {
    let nodes = vec![node("a"), node("b"), node("a")];
    assert_eq!(find_node(&nodes, "a"), Some(0));
    assert_eq!(find_node(&nodes, "b"), Some(1));
    assert_eq!(find_node(&nodes, "c"), None);
}
