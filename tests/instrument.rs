use solana_debugger::probe::{
    get_bindings_from_fn_sig, get_bindings_from_pat, get_in_scope_bindings_from_stmt, inst_ast_general, Block, FnArg,
    Node, Pat, Probe, SourceFile, Stmt,
};

fn id(x: &str) -> Pat {
    Pat::Ident(x.to_string())
}

fn let_stmt(line: usize, name: &str) -> Stmt {
    Stmt::Local { line, pat: id(name), inner: vec![] }
}

fn other(line: usize) -> Stmt {
    Stmt::Other { line, inner: vec![] }
}

fn probes_in_block(b: &Block, out: &mut Vec<(usize, Vec<String>)>) {
    for s in &b.stmts {
        match s {
            Stmt::Probe(Probe { line, bindings }) => out.push((*line, bindings.clone())),
            Stmt::Local { inner, .. } | Stmt::Other { inner, .. } => probes_in_nodes(inner, out),
        }
    }
}

fn probes_in_nodes(nodes: &Vec<Node>, out: &mut Vec<(usize, Vec<String>)>) {
    for n in nodes {
        match n {
            Node::Block(b) => probes_in_block(b, out),
            Node::If { cond, then_branch, else_branch, .. } => {
                probes_in_nodes(cond, out);
                probes_in_block(then_branch, out);
                probes_in_nodes(else_branch, out);
            },
            Node::Arm { body, .. } => probes_in_nodes(body, out),
            Node::Fn { block, .. } => probes_in_block(block, out),
        }
    }
}

fn probes(file: &SourceFile) -> Vec<(usize, Vec<String>)> {
    let mut out = vec![];
    probes_in_nodes(&file.items, &mut out);
    out
}

fn names(v: &[&str]) -> Vec<String> {
    v.iter().map(|x| x.to_string()).collect()
}

#[test]
fn binding_order_params_then_let() {
    // fn f(a: u8, b: u8) { let c = 1; <line 3> }
    let f = Node::Fn {
        args: vec![FnArg::Typed(Pat::Typed(Box::new(id("a")))), FnArg::Typed(Pat::Typed(Box::new(id("b"))))],
        block: Block { stmts: vec![let_stmt(2, "c"), other(3)] },
    };
    let out = inst_ast_general(SourceFile { items: vec![f] }, 3);
    assert_eq!(probes(&out), vec![(3, names(&["a", "b", "c"]))]);
}

#[test]
fn probe_goes_before_the_statement_and_keeps_it() {
    let f = Node::Fn { args: vec![], block: Block { stmts: vec![let_stmt(2, "x"), other(3), other(4)] } };
    let out = inst_ast_general(SourceFile { items: vec![f] }, 3);
    match &out.items[0] {
        Node::Fn { block, .. } => {
            assert_eq!(block.stmts.len(), 4);
            assert!(matches!(block.stmts[0], Stmt::Local { line: 2, .. }));
            assert!(matches!(block.stmts[1], Stmt::Probe(_)));
            assert!(matches!(block.stmts[2], Stmt::Other { line: 3, .. }));
            assert!(matches!(block.stmts[3], Stmt::Other { line: 4, .. }));
        },
        _ => panic!("function expected"),
    }
}

#[test]
fn let_on_target_line_is_not_yet_in_scope() {
    let f = Node::Fn { args: vec![], block: Block { stmts: vec![let_stmt(5, "x"), let_stmt(6, "y")] } };
    let out = inst_ast_general(SourceFile { items: vec![f] }, 6);
    assert_eq!(probes(&out), vec![(6, names(&["x"]))]);
}

#[test]
fn branch_isolation() {
    // if cond { let x = 1; <line 4> } else { let y = 2; }
    let iff = Node::If {
        let_pat: None,
        cond: vec![],
        then_branch: Block { stmts: vec![let_stmt(3, "x"), other(4)] },
        else_branch: vec![Node::Block(Block { stmts: vec![let_stmt(6, "y")] })],
    };
    let f = Node::Fn {
        args: vec![FnArg::Typed(id("cond"))],
        block: Block { stmts: vec![Stmt::Other { line: 2, inner: vec![iff] }, other(8)] },
    };
    let out = inst_ast_general(SourceFile { items: vec![f] }, 4);
    let p = probes(&out);
    assert_eq!(p, vec![(4, names(&["cond", "x"]))]);
    assert!(!p[0].1.contains(&"y".to_string()));
}

#[test]
fn branch_bindings_do_not_leak_after_the_branch() {
    let iff = Node::If {
        let_pat: Some(Pat::TupleStruct(vec![id("v")])),
        cond: vec![],
        then_branch: Block { stmts: vec![let_stmt(3, "x")] },
        else_branch: vec![],
    };
    let f = Node::Fn {
        args: vec![],
        block: Block { stmts: vec![Stmt::Other { line: 2, inner: vec![iff] }, other(5)] },
    };
    let out = inst_ast_general(SourceFile { items: vec![f] }, 5);
    assert_eq!(probes(&out), vec![(5, names(&[]))]);
}

#[test]
fn if_let_binds_in_then_branch() {
    let iff = Node::If {
        let_pat: Some(Pat::TupleStruct(vec![id("v")])),
        cond: vec![],
        then_branch: Block { stmts: vec![other(3)] },
        else_branch: vec![Node::Block(Block { stmts: vec![other(5)] })],
    };
    let f = Node::Fn { args: vec![], block: Block { stmts: vec![Stmt::Other { line: 2, inner: vec![iff] }] } };
    let then_probe = inst_ast_general(SourceFile { items: vec![f] }, 3);
    assert_eq!(probes(&then_probe), vec![(3, names(&["v"]))]);
}

#[test]
fn match_arms_bind_their_patterns_but_not_bare_names() {
    let arms = vec![
        Node::Arm { pat: Pat::TupleStruct(vec![id("inner")]), body: vec![Node::Block(Block { stmts: vec![other(4)] })] },
        Node::Arm { pat: id("Empty"), body: vec![Node::Block(Block { stmts: vec![other(6)] })] },
    ];
    let f = Node::Fn {
        args: vec![FnArg::Receiver],
        block: Block { stmts: vec![Stmt::Other { line: 2, inner: arms }] },
    };
    let first = inst_ast_general(SourceFile { items: vec![f] }, 4);
    assert_eq!(probes(&first), vec![(4, names(&["self", "inner"]))]);
}

#[test]
fn bare_name_arm_binds_nothing() {
    let arms = vec![Node::Arm { pat: id("Empty"), body: vec![Node::Block(Block { stmts: vec![other(6)] })] }];
    let f = Node::Fn { args: vec![FnArg::Receiver], block: Block { stmts: vec![Stmt::Other { line: 2, inner: arms }] } };
    let out = inst_ast_general(SourceFile { items: vec![f] }, 6);
    assert_eq!(probes(&out), vec![(6, names(&["self"]))]);
}

#[test]
fn nested_function_starts_from_its_parameters() {
    let inner = Node::Fn { args: vec![FnArg::Typed(id("p"))], block: Block { stmts: vec![other(4)] } };
    let outer = Node::Fn {
        args: vec![FnArg::Typed(id("a"))],
        block: Block { stmts: vec![let_stmt(2, "b"), Stmt::Other { line: 3, inner: vec![inner] }] },
    };
    let out = inst_ast_general(SourceFile { items: vec![outer] }, 4);
    assert_eq!(probes(&out), vec![(4, names(&["p"]))]);
}

#[test]
fn line_not_in_file_gives_no_probe() {
    let f = Node::Fn { args: vec![], block: Block { stmts: vec![other(2)] } };
    let out = inst_ast_general(SourceFile { items: vec![f] }, 40);
    assert!(probes(&out).is_empty());
}

#[test]
fn pattern_bindings() {
    let p = Pat::Tuple(vec![
        id("a"),
        Pat::Struct(vec![id("b"), Pat::Other]),
        Pat::TupleStruct(vec![Pat::Typed(Box::new(id("c")))]),
        Pat::Other,
    ]);
    assert_eq!(get_bindings_from_pat(&p), names(&["a", "b", "c"]));
    assert_eq!(get_bindings_from_pat(&Pat::Other), names(&[]));
    let sig = vec![FnArg::Receiver, FnArg::Typed(Pat::Tuple(vec![id("x"), id("y")]))];
    assert_eq!(get_bindings_from_fn_sig(&sig), names(&["self", "x", "y"]));
    assert_eq!(get_in_scope_bindings_from_stmt(&let_stmt(1, "z")), names(&["z"]));
    assert_eq!(get_in_scope_bindings_from_stmt(&other(1)), names(&[]));
}

#[test]
fn rebinding_is_captured_once() {
    // fn f() { let x = 1; let x = x + 1; g(); }
    let f = Node::Fn { args: vec![], block: Block { stmts: vec![let_stmt(2, "x"), let_stmt(3, "x"), other(4)] } };
    let out = inst_ast_general(SourceFile { items: vec![f] }, 4);
    assert_eq!(probes(&out), vec![(4, names(&["x"]))]);
}

#[test]
fn shadowed_parameter_keeps_its_first_position() {
    let f = Node::Fn {
        args: vec![FnArg::Typed(id("a")), FnArg::Typed(id("b"))],
        block: Block { stmts: vec![let_stmt(2, "a"), let_stmt(3, "c"), other(4)] },
    };
    let out = inst_ast_general(SourceFile { items: vec![f] }, 4);
    assert_eq!(probes(&out), vec![(4, names(&["a", "b", "c"]))]);
}
