//! Scope tracking and probe placement over a program's syntax.
//!
//! The syntax is the part of a program's tree that decides which names are
//! bound where: statements with their starting line, `let` patterns, nested
//! blocks, conditionals, match arms and function items. Probes are inserted
//! before every statement that starts on the target line; each one lists the
//! names bound at that point, in the order in which they were bound.

use vstd::prelude::*;

verus! {

/// A binding pattern.
pub enum Pat {
    /// A bare name (`x`, `mut x`, `ref x`).
    Ident(String),
    /// A pattern with a type ascription (`x: u8`).
    Typed(Box<Pat>),
    /// A tuple pattern (`(a, b)`).
    Tuple(Vec<Pat>),
    /// A tuple-struct pattern (`Some(a)`).
    TupleStruct(Vec<Pat>),
    /// A struct pattern (`P { x, y: b }`), one sub-pattern per field.
    Struct(Vec<Pat>),
    /// Any other pattern (literal, wildcard, range, or-pattern, ...): binds nothing.
    Other,
}

/// A function parameter.
pub enum FnArg {
    /// The receiver (`self`, `&self`, `&mut self`).
    Receiver,
    /// A typed parameter.
    Typed(Pat),
}

/// An inserted capture: the target line and the names in scope there.
pub struct Probe {
    pub line: usize,
    pub bindings: Vec<String>,
}

/// A statement of a block.
pub enum Stmt {
    /// A `let` statement: its starting line, its pattern, and the constructs
    /// nested in its initializer.
    Local { line: usize, pat: Pat, inner: Vec<Node> },
    /// Any other statement with the constructs nested in it.
    Other { line: usize, inner: Vec<Node> },
    /// A capture inserted by the instrumentation.
    Probe(Probe),
}

/// A block: a sequence of statements.
pub struct Block {
    pub stmts: Vec<Stmt>,
}

/// A construct nested in a statement or an item list.
pub enum Node {
    /// A nested block (a plain, loop, closure or `unsafe` body).
    Block(Block),
    /// A conditional; `let_pat` is the pattern of an `if let`.
    If { let_pat: Option<Pat>, cond: Vec<Node>, then_branch: Block, else_branch: Vec<Node> },
    /// A match arm; the guard and the body are in `body`.
    Arm { pat: Pat, body: Vec<Node> },
    /// A function or method item.
    Fn { args: Vec<FnArg>, block: Block },
}

/// A source file: its items in order.
pub struct SourceFile {
    pub items: Vec<Node>,
}

/// An ordered list of bound names.
pub type Scope = Seq<Seq<char>>;

/// The model of a statement.
pub enum SStmt {
    Local { line: int, names: Scope, inner: Seq<SNode> },
    Other { line: int, inner: Seq<SNode> },
    Probe { line: int, bindings: Scope },
}

/// The model of a nested construct: the names each one binds.
pub enum SNode {
    Block(Seq<SStmt>),
    If { let_names: Scope, cond: Seq<SNode>, then_branch: Seq<SStmt>, else_branch: Seq<SNode> },
    Arm { names: Scope, arm_body: Seq<SNode> },
    Fn { params: Scope, fn_body: Seq<SStmt> },
}

// ---------------------------------------------------------------------------
// Names bound by patterns and signatures

/// The names that a pattern binds, left to right.
pub open spec fn pat_names(p: Pat) -> Scope
    decreases p,
{
    match p {
        Pat::Ident(s) => seq![s@],
        Pat::Typed(q) => pat_names(*q),
        Pat::Tuple(v) => pats_names(v@),
        Pat::TupleStruct(v) => pats_names(v@),
        Pat::Struct(v) => pats_names(v@),
        Pat::Other => seq![],
    }
}

/// The names that a list of patterns binds, left to right.
pub open spec fn pats_names(v: Seq<Pat>) -> Scope
    decreases v,
{
    if v.len() == 0 {
        seq![]
    } else {
        pats_names(v.drop_last()) + pat_names(v.last())
    }
}

/// The names that a signature binds: `self` for a receiver, then each
/// parameter's pattern.
pub open spec fn args_names(v: Seq<FnArg>) -> Scope
    decreases v.len(),
{
    if v.len() == 0 {
        seq![]
    } else {
        args_names(v.drop_last()) + match v.last() {
            FnArg::Receiver => seq!["self"@],
            FnArg::Typed(p) => pat_names(p),
        }
    }
}

/// The names a match arm binds: none where the pattern is a bare name (taken
/// for a unit variant), else those of its pattern.
pub open spec fn arm_names(p: Pat) -> Scope {
    match p {
        Pat::Ident(_) => seq![],
        _ => pat_names(p),
    }
}

/// The names an `if` binds in its `then` branch.
pub open spec fn if_names(p: Option<Pat>) -> Scope {
    match p {
        Some(q) => pat_names(q),
        None => seq![],
    }
}

// ---------------------------------------------------------------------------
// Views

pub open spec fn view_stmt(s: Stmt) -> SStmt
    decreases s,
{
    match s {
        Stmt::Local { line, pat, inner } => SStmt::Local {
            line: line as int,
            names: pat_names(pat),
            inner: view_nodes(inner@),
        },
        Stmt::Other { line, inner } => SStmt::Other { line: line as int, inner: view_nodes(inner@) },
        Stmt::Probe(p) => SStmt::Probe { line: p.line as int, bindings: p.bindings.deep_view() },
    }
}

pub open spec fn view_stmts(v: Seq<Stmt>) -> Seq<SStmt>
    decreases v,
{
    if v.len() == 0 {
        seq![]
    } else {
        view_stmts(v.drop_last()).push(view_stmt(v.last()))
    }
}

pub open spec fn view_node(n: Node) -> SNode
    decreases n,
{
    match n {
        Node::Block(b) => SNode::Block(view_stmts(b.stmts@)),
        Node::If { let_pat, cond, then_branch, else_branch } => SNode::If {
            let_names: if_names(let_pat),
            cond: view_nodes(cond@),
            then_branch: view_stmts(then_branch.stmts@),
            else_branch: view_nodes(else_branch@),
        },
        Node::Arm { pat, body } => SNode::Arm { names: arm_names(pat), arm_body: view_nodes(body@) },
        Node::Fn { args, block } => SNode::Fn { params: args_names(args@), fn_body: view_stmts(block.stmts@) },
    }
}

pub open spec fn view_nodes(v: Seq<Node>) -> Seq<SNode>
    decreases v,
{
    if v.len() == 0 {
        seq![]
    } else {
        view_nodes(v.drop_last()).push(view_node(v.last()))
    }
}

// ---------------------------------------------------------------------------
// What the instrumentation does, on the model

/// The starting line of a statement (a probe has none).
pub open spec fn stmt_line(s: SStmt) -> int {
    match s {
        SStmt::Local { line, .. } => line,
        SStmt::Other { line, .. } => line,
        SStmt::Probe { .. } => -1,
    }
}

/// A scope with names added in order: a name already in scope is not added
/// again, so a scope lists each name once, in order of first appearance.
pub open spec fn add_names(ctx: Scope, ns: Scope) -> Scope
    decreases ns.len(),
{
    if ns.len() == 0 {
        ctx
    } else {
        let c = add_names(ctx, ns.drop_last());
        if c.contains(ns.last()) { c } else { c.push(ns.last()) }
    }
}

/// The scope after a block's statements, starting from `ctx`: each
/// statement adds the names it binds.
pub open spec fn scope_after(ctx: Scope, ss: Seq<SStmt>) -> Scope
    decreases ss.len(),
{
    if ss.len() == 0 {
        ctx
    } else {
        add_names(scope_after(ctx, ss.drop_last()), stmt_names(ss.last()))
    }
}

/// The names that a statement binds for the statements after it.
pub open spec fn stmt_names(s: SStmt) -> Scope {
    match s {
        SStmt::Local { names, .. } => names,
        _ => seq![],
    }
}

/// The constructs, instrumented with `ctx` in scope.
pub open spec fn inst_nodes(ns: Seq<SNode>, ctx: Scope, line: int) -> Seq<SNode>
    decreases ns, 0nat,
{
    if ns.len() == 0 {
        seq![]
    } else {
        inst_nodes(ns.drop_last(), ctx, line).push(inst_node(ns.last(), ctx, line))
    }
}

/// One construct, instrumented with `ctx` in scope: each branch and each
/// nested block works on its own copy of the scope; a function starts from
/// its parameters alone.
pub open spec fn inst_node(n: SNode, ctx: Scope, line: int) -> SNode
    decreases n, 0nat,
{
    match n {
        SNode::Block(ss) => SNode::Block(inst_stmts(ss, ctx, line)),
        SNode::If { let_names, cond, then_branch, else_branch } => SNode::If {
            let_names,
            cond: inst_nodes(cond, ctx, line),
            then_branch: inst_stmts(then_branch, add_names(ctx, let_names), line),
            else_branch: inst_nodes(else_branch, ctx, line),
        },
        SNode::Arm { names, arm_body } => SNode::Arm { names, arm_body: inst_nodes(arm_body, add_names(ctx, names), line) },
        SNode::Fn { params, fn_body } => SNode::Fn { params, fn_body: inst_stmts(fn_body, add_names(seq![], params), line) },
    }
}

/// A block's statements, instrumented with `ctx` in scope at its start: the
/// names bound by a statement join the scope of the statements after it.
pub open spec fn inst_stmts(ss: Seq<SStmt>, ctx: Scope, line: int) -> Seq<SStmt>
    decreases ss, 0nat,
{
    if ss.len() == 0 {
        seq![]
    } else {
        inst_stmts(ss.drop_last(), ctx, line) + inst_stmt(
            ss.last(),
            scope_after(ctx, ss.drop_last()),
            line,
        )
    }
}

/// A statement with its nested constructs instrumented with `ctx` in scope.
pub open spec fn inst_body(s: SStmt, ctx: Scope, line: int) -> SStmt
    decreases s, 0nat,
{
    match s {
        SStmt::Local { line: l, names, inner } => SStmt::Local {
            line: l,
            names,
            inner: inst_nodes(inner, ctx, line),
        },
        SStmt::Other { line: l, inner } => SStmt::Other { line: l, inner: inst_nodes(inner, ctx, line) },
        SStmt::Probe { .. } => s,
    }
}

/// One statement with `ctx` in scope: a probe before it if it starts on the
/// target line, and its nested constructs instrumented.
pub open spec fn inst_stmt(s: SStmt, ctx: Scope, line: int) -> Seq<SStmt>
    decreases s, 1nat,
{
    if stmt_line(s) == line {
        seq![SStmt::Probe { line, bindings: ctx }, inst_body(s, ctx, line)]
    } else {
        seq![inst_body(s, ctx, line)]
    }
}

// ---------------------------------------------------------------------------
// Executable

/// Appends copies of the names in `src`.
fn extend_names(dst: &mut Vec<String>, src: &Vec<String>)
    ensures
        final(dst).deep_view() == old(dst).deep_view() + src.deep_view(),
{
    let ghost start = dst.deep_view();
    let mut i: usize = 0;
    while i < src.len()
        invariant
            i <= src.len(),
            dst.deep_view() == start + src.deep_view().subrange(0, i as int),
        decreases src.len() - i,
    {
        let ghost before = dst.deep_view();
        dst.push(src[i].clone());
        assert(dst.deep_view() =~= before.push(src[i as int]@));
        assert(src.deep_view().subrange(0, i + 1) =~= src.deep_view().subrange(0, i as int).push(src[i as int]@));
        i += 1;
    }
    assert(src.deep_view().subrange(0, src.len() as int) =~= src.deep_view());
}

/// The names that a pattern binds, left to right.
pub fn get_bindings_from_pat(p: &Pat) -> (r: Vec<String>)
    ensures
        r.deep_view() == pat_names(*p),
    decreases p,
{
    match p {
        Pat::Ident(s) => {
            let mut r: Vec<String> = Vec::new();
            r.push(s.clone());
            assert(r.deep_view() =~= pat_names(*p));
            r
        },
        Pat::Typed(q) => get_bindings_from_pat(q),
        Pat::Tuple(v) => get_bindings_from_pats(v),
        Pat::TupleStruct(v) => get_bindings_from_pats(v),
        Pat::Struct(v) => get_bindings_from_pats(v),
        Pat::Other => {
            let r: Vec<String> = Vec::new();
            assert(r.deep_view() =~= pat_names(*p));
            r
        },
    }
}

fn get_bindings_from_pats(v: &Vec<Pat>) -> (r: Vec<String>)
    ensures
        r.deep_view() == pats_names(v@),
    decreases v,
{
    let mut r: Vec<String> = Vec::new();
    let mut i: usize = 0;
    while i < v.len()
        invariant
            i <= v.len(),
            r.deep_view() == pats_names(v@.subrange(0, i as int)),
        decreases v.len() - i,
    {
        let x = get_bindings_from_pat(&v[i]);
        extend_names(&mut r, &x);
        assert(v@.subrange(0, i + 1).drop_last() =~= v@.subrange(0, i as int));
        i += 1;
    }
    assert(v@.subrange(0, v.len() as int) =~= v@);
    r
}

/// The names that a signature binds: `self` for a receiver, then each
/// parameter's pattern.
pub fn get_bindings_from_fn_sig(args: &Vec<FnArg>) -> (r: Vec<String>)
    ensures
        r.deep_view() == args_names(args@),
{
    let mut r: Vec<String> = Vec::new();
    let mut i: usize = 0;
    while i < args.len()
        invariant
            i <= args.len(),
            r.deep_view() == args_names(args@.subrange(0, i as int)),
        decreases args.len() - i,
    {
        assert(args@.subrange(0, i + 1).drop_last() =~= args@.subrange(0, i as int));
        match &args[i] {
            FnArg::Receiver => {
                let ghost before = r.deep_view();
                r.push(String::from_str("self"));
                proof { reveal_strlit("self"); }
                assert(r.deep_view() =~= before + seq!["self"@]);
            },
            FnArg::Typed(p) => {
                let x = get_bindings_from_pat(p);
                extend_names(&mut r, &x);
            },
        }
        i += 1;
    }
    assert(args@.subrange(0, args.len() as int) =~= args@);
    r
}

/// The names that a statement binds for the statements after it.
pub fn get_in_scope_bindings_from_stmt(s: &Stmt) -> (r: Vec<String>)
    ensures
        r.deep_view() == stmt_names(view_stmt(*s)),
{
    match s {
        Stmt::Local { pat, .. } => get_bindings_from_pat(pat),
        _ => {
            let r: Vec<String> = Vec::new();
            assert(r.deep_view() =~= stmt_names(view_stmt(*s)));
            r
        },
    }
}

/// Whether a name is in a list of names.
fn contains_name(v: &Vec<String>, s: &str) -> (r: bool)
    ensures
        r == v.deep_view().contains(s@),
{
    let mut i: usize = 0;
    while i < v.len()
        invariant
            i <= v@.len(),
            forall|j: int| 0 <= j < i ==> v.deep_view()[j] != s@,
        decreases v@.len() - i,
    {
        if crate::text::str_eq(v[i].as_str(), s) {
            assert(v.deep_view()[i as int] == s@);
            return true;
        }
        i += 1;
    }
    false
}

/// Adds the names of `src` that are not yet in scope, in order.
fn add_new_names(dst: &mut Vec<String>, src: &Vec<String>)
    ensures
        final(dst).deep_view() == add_names(old(dst).deep_view(), src.deep_view()),
{
    let ghost start = dst.deep_view();
    let mut i: usize = 0;
    assert(src.deep_view().subrange(0, 0) =~= Seq::<Seq<char>>::empty());
    while i < src.len()
        invariant
            i <= src.len(),
            dst.deep_view() == add_names(start, src.deep_view().subrange(0, i as int)),
        decreases src.len() - i,
    {
        let ghost sub1 = src.deep_view().subrange(0, i + 1);
        assert(sub1.drop_last() =~= src.deep_view().subrange(0, i as int));
        assert(sub1.last() == src[i as int]@);
        if !contains_name(dst, src[i].as_str()) {
            let ghost before = dst.deep_view();
            dst.push(src[i].clone());
            assert(dst.deep_view() =~= before.push(src[i as int]@));
        }
        i += 1;
    }
    assert(src.deep_view().subrange(0, src.len() as int) =~= src.deep_view());
}

/// A copy of a list of names.
fn copy_names(src: &Vec<String>) -> (r: Vec<String>)
    ensures
        r.deep_view() == src.deep_view(),
{
    let mut r: Vec<String> = Vec::new();
    extend_names(&mut r, src);
    assert(r.deep_view() =~= src.deep_view());
    r
}

/// The starting line of a statement; a probe has none.
fn line_of(s: &Stmt) -> (r: Option<usize>)
    ensures
        r matches Some(l) ==> stmt_line(view_stmt(*s)) == l,
        r is None ==> stmt_line(view_stmt(*s)) < 0,
{
    match s {
        Stmt::Local { line, .. } => Some(*line),
        Stmt::Other { line, .. } => Some(*line),
        Stmt::Probe(_) => None,
    }
}

/// The constructs, instrumented with `ctx` in scope.
fn fold_nodes(ns: Vec<Node>, ctx: &Vec<String>, line: usize) -> (r: Vec<Node>)
    ensures
        view_nodes(r@) == inst_nodes(view_nodes(ns@), ctx.deep_view(), line as int),
    decreases ns,
{
    let ghost orig = ns@;
    let ghost whole = ns;
    let ghost c = ctx.deep_view();
    let n = ns.len();
    let mut rest = ns;
    let mut out: Vec<Node> = Vec::new();
    let mut k: usize = 0;
    while k < n
        invariant
            k <= n,
            n == orig.len(),
            rest@ == orig.subrange(k as int, n as int),
            whole == ns,
            whole@ == orig,
            c == ctx.deep_view(),
            view_nodes(out@) == inst_nodes(view_nodes(orig.subrange(0, k as int)), c, line as int),
        decreases n - k,
    {
        let x = rest.remove(0);
        assert(x == orig[k as int]);
        proof {
            vstd::std_specs::vec::axiom_vec_index_decreases(whole, k as int);
        }
        let y = fold_node(x, ctx, line);
        let ghost prev = out@;
        out.push(y);
        proof {
            assert(out@.drop_last() =~= prev);
            let sub = orig.subrange(0, k as int);
            let sub1 = orig.subrange(0, k + 1);
            assert(sub1.drop_last() =~= sub);
            assert(view_nodes(sub1) == view_nodes(sub).push(view_node(orig[k as int])));
            assert(view_nodes(sub1).drop_last() =~= view_nodes(sub));
            assert(rest@ =~= orig.subrange(k + 1, n as int));
        }
        k += 1;
    }
    assert(orig.subrange(0, n as int) =~= orig);
    out
}

/// One construct, instrumented with `ctx` in scope.
fn fold_node(n: Node, ctx: &Vec<String>, line: usize) -> (r: Node)
    ensures
        view_node(r) == inst_node(view_node(n), ctx.deep_view(), line as int),
    decreases n,
{
    match n {
        Node::Block(b) => Node::Block(fold_block(b, ctx, line)),
        Node::If { .. } => fold_expr_if(n, ctx, line),
        Node::Arm { .. } => fold_arm(n, ctx, line),
        Node::Fn { .. } => fold_item_fn(n, ctx, line),
    }
}

/// A conditional: the condition and the `else` branch see `ctx`; the `then`
/// branch sees `ctx` and the names of an `if let` pattern.
fn fold_expr_if(n: Node, ctx: &Vec<String>, line: usize) -> (r: Node)
    requires
        n is If,
    ensures
        view_node(r) == inst_node(view_node(n), ctx.deep_view(), line as int),
    decreases n, 0nat,
{
    match n {
        Node::If { let_pat, cond, then_branch, else_branch } => {
            let mut then_ctx = copy_names(ctx);
            match &let_pat {
                Some(p) => {
                    let x = get_bindings_from_pat(p);
                    add_new_names(&mut then_ctx, &x);
                },
                None => {
                    assert(then_ctx.deep_view() =~= add_names(ctx.deep_view(), if_names(let_pat)));
                },
            }
            let cond = fold_nodes(cond, ctx, line);
            let then_branch = fold_block(then_branch, &then_ctx, line);
            let else_branch = fold_nodes(else_branch, ctx, line);
            Node::If { let_pat, cond, then_branch, else_branch }
        },
        _ => n,
    }
}

/// A match arm: its body sees `ctx` and the names its pattern binds.
fn fold_arm(n: Node, ctx: &Vec<String>, line: usize) -> (r: Node)
    requires
        n is Arm,
    ensures
        view_node(r) == inst_node(view_node(n), ctx.deep_view(), line as int),
    decreases n, 0nat,
{
    match n {
        Node::Arm { pat, body } => {
            let mut arm_ctx = copy_names(ctx);
            match &pat {
                Pat::Ident(_) => {
                    assert(arm_ctx.deep_view() =~= add_names(ctx.deep_view(), arm_names(pat)));
                },
                _ => {
                    let x = get_bindings_from_pat(&pat);
                    add_new_names(&mut arm_ctx, &x);
                },
            }
            let body = fold_nodes(body, &arm_ctx, line);
            Node::Arm { pat, body }
        },
        _ => n,
    }
}

/// A function item: its body sees its parameters and nothing from around it.
fn fold_item_fn(n: Node, ctx: &Vec<String>, line: usize) -> (r: Node)
    requires
        n is Fn,
    ensures
        view_node(r) == inst_node(view_node(n), ctx.deep_view(), line as int),
    decreases n, 0nat,
{
    match n {
        Node::Fn { args, block } => {
            let params = get_bindings_from_fn_sig(&args);
            let mut fn_ctx: Vec<String> = Vec::new();
            assert(fn_ctx.deep_view() =~= Seq::<Seq<char>>::empty());
            add_new_names(&mut fn_ctx, &params);
            let block = fold_block(block, &fn_ctx, line);
            Node::Fn { args, block }
        },
        _ => n,
    }
}

/// A statement's nested constructs, instrumented with `ctx` in scope.
fn fold_stmt(s: Stmt, ctx: &Vec<String>, line: usize) -> (r: Stmt)
    ensures
        view_stmt(r) == inst_body(view_stmt(s), ctx.deep_view(), line as int),
    decreases s,
{
    match s {
        Stmt::Local { line: l, pat, inner } => Stmt::Local { line: l, pat, inner: fold_nodes(inner, ctx, line) },
        Stmt::Other { line: l, inner } => Stmt::Other { line: l, inner: fold_nodes(inner, ctx, line) },
        Stmt::Probe(p) => Stmt::Probe(p),
    }
}

/// A block with `ctx` in scope at its start: a probe before each statement
/// that starts on the target line, listing the names in scope there.
fn fold_block(b: Block, ctx: &Vec<String>, line: usize) -> (r: Block)
    ensures
        view_stmts(r.stmts@) == inst_stmts(view_stmts(b.stmts@), ctx.deep_view(), line as int),
    decreases b,
{
    let ghost orig = b.stmts@;
    let ghost whole = b.stmts;
    let ghost c = ctx.deep_view();
    let n = b.stmts.len();
    let mut rest = b.stmts;
    let mut out: Vec<Stmt> = Vec::new();
    let mut scope = copy_names(ctx);
    let mut k: usize = 0;
    while k < n
        invariant
            k <= n,
            n == orig.len(),
            rest@ == orig.subrange(k as int, n as int),
            whole == b.stmts,
            whole@ == orig,
            c == ctx.deep_view(),
            scope.deep_view() == scope_after(c, view_stmts(orig.subrange(0, k as int))),
            view_stmts(out@) == inst_stmts(view_stmts(orig.subrange(0, k as int)), c, line as int),
        decreases n - k,
    {
        let x = rest.remove(0);
        assert(x == orig[k as int]);
        proof {
            vstd::std_specs::vec::axiom_vec_index_decreases(whole, k as int);
        }
        let ghost sub = orig.subrange(0, k as int);
        let ghost sub1 = orig.subrange(0, k + 1);
        proof {
            assert(sub1.drop_last() =~= sub);
            assert(view_stmts(sub1) == view_stmts(sub).push(view_stmt(x)));
            assert(view_stmts(sub1).drop_last() =~= view_stmts(sub));
        }
        let ghost prev = out@;
        let ghost sv = scope.deep_view();
        let at_line = match line_of(&x) {
            Some(l) => l == line,
            None => false,
        };
        if at_line {
            let p = Probe { line, bindings: copy_names(&scope) };
            out.push(Stmt::Probe(p));
        }
        let newly = get_in_scope_bindings_from_stmt(&x);
        let y = fold_stmt(x, &scope, line);
        let ghost mid = out@;
        out.push(y);
        proof {
            assert(out@.drop_last() =~= mid);
            if at_line {
                assert(mid.drop_last() =~= prev);
                assert(view_stmt(mid.last()) == SStmt::Probe { line: line as int, bindings: sv });
                assert(view_stmts(mid) == view_stmts(prev).push(view_stmt(mid.last())));
                assert(view_stmts(out@) == view_stmts(mid).push(view_stmt(y)));
                assert(stmt_line(view_stmt(orig[k as int])) == line);
                assert(view_stmts(out@) =~= view_stmts(prev) + inst_stmt(view_stmt(orig[k as int]), sv, line as int));
            } else {
                assert(mid =~= prev);
                assert(view_stmts(out@) =~= view_stmts(prev) + inst_stmt(view_stmt(orig[k as int]), sv, line as int));
            }
        }
        add_new_names(&mut scope, &newly);
        proof {
            assert(scope.deep_view() == scope_after(c, view_stmts(sub1)));
            assert(rest@ =~= orig.subrange(k + 1, n as int));
        }
        k += 1;
    }
    assert(orig.subrange(0, n as int) =~= orig);
    Block { stmts: out }
}

/// Inserts a probe before every statement of the file that starts on `line`.
/// Items start with nothing in scope; a function starts with its parameters.
pub fn inst_ast_general(file: SourceFile, line: usize) -> (r: SourceFile)
    ensures
        view_nodes(r.items@) == inst_nodes(view_nodes(file.items@), seq![], line as int),
{
    let ctx: Vec<String> = Vec::new();
    assert(ctx.deep_view() =~= Seq::<Seq<char>>::empty());
    SourceFile { items: fold_nodes(file.items, &ctx, line) }
}

// ---------------------------------------------------------------------------
// Laws

/// A name is in a scope after adding names exactly when it was in scope
/// before or is among the added names.
pub proof fn lemma_add_names_contains(ctx: Scope, ns: Scope, z: Seq<char>)
    ensures
        add_names(ctx, ns).contains(z) <==> (ctx.contains(z) || ns.contains(z)),
    decreases ns.len(),
{
    if ns.len() > 0 {
        lemma_add_names_contains(ctx, ns.drop_last(), z);
        let c = add_names(ctx, ns.drop_last());
        if ns.drop_last().contains(z) {
            let j = choose|j: int| 0 <= j < ns.drop_last().len() && ns.drop_last()[j] == z;
            assert(ns[j] == z);
        }
        if ns.contains(z) && !ns.drop_last().contains(z) {
            let j = choose|j: int| 0 <= j < ns.len() && ns[j] == z;
            if j < ns.len() - 1 {
                assert(ns.drop_last()[j] == z);
            }
            assert(z == ns.last());
        }
        if !c.contains(ns.last()) {
            assert(c.push(ns.last())[c.len() as int] == ns.last());
            if c.contains(z) {
                let j = choose|j: int| 0 <= j < c.len() && c[j] == z;
                assert(c.push(ns.last())[j] == z);
            }
            if c.push(ns.last()).contains(z) && z != ns.last() {
                let j = choose|j: int| 0 <= j < c.len() + 1 && c.push(ns.last())[j] == z;
                assert(c[j] == z);
            }
        }
    }
}

/// A scope built by adding names lists each name once.
pub proof fn lemma_add_names_distinct(ctx: Scope, ns: Scope)
    requires
        forall|i: int, j: int| 0 <= i < j < ctx.len() ==> ctx[i] != ctx[j],
    ensures
        forall|i: int, j: int| 0 <= i < j < add_names(ctx, ns).len() ==> add_names(ctx, ns)[i] != add_names(ctx, ns)[j],
    decreases ns.len(),
{
    if ns.len() > 0 {
        lemma_add_names_distinct(ctx, ns.drop_last());
        let c = add_names(ctx, ns.drop_last());
        if !c.contains(ns.last()) {
            let d = c.push(ns.last());
            assert forall|i: int, j: int| 0 <= i < j < d.len() implies d[i] != d[j] by {
                if j == c.len() {
                    assert(d[i] == c[i]);
                    assert(d[j] == ns.last());
                } else {
                    assert(d[i] == c[i] && d[j] == c[j]);
                }
            }
        }
    }
}

/// `fn f(a, b) { let c = ..; <target line> }`.
pub open spec fn fn_let_then_target(a: Seq<char>, b: Seq<char>, c: Seq<char>, let_line: int, line: int) -> SNode {
    SNode::Fn {
        params: seq![a, b],
        fn_body: seq![
            SStmt::Local { line: let_line, names: seq![c], inner: seq![] },
            SStmt::Other { line, inner: seq![] },
        ],
    }
}

/// Binding order: in a function with parameters `a, b` whose body binds `c`
/// by a `let` before the target line, the probe at the target line lists
/// exactly `a, b, c`, in that order.
pub proof fn lemma_binding_order(a: Seq<char>, b: Seq<char>, c: Seq<char>, let_line: int, line: int, ctx: Scope)
    requires
        let_line != line,
        a != b,
        a != c,
        b != c,
    ensures
        inst_node(fn_let_then_target(a, b, c, let_line, line), ctx, line)->fn_body
            == seq![
            SStmt::Local { line: let_line, names: seq![c], inner: seq![] },
            SStmt::Probe { line, bindings: seq![a, b, c] },
            SStmt::Other { line, inner: seq![] },
        ],
{
    let s1 = SStmt::Local { line: let_line, names: seq![c], inner: seq![] };
    let s2 = SStmt::Other { line, inner: seq![] };
    let body = seq![s1, s2];
    let e = Seq::<Seq<char>>::empty();
    assert(seq![a, b].drop_last() =~= seq![a]);
    assert(seq![a].drop_last() =~= e);
    assert(add_names(e, e) == e);
    assert(!e.contains(a));
    assert(add_names(e, seq![a]) =~= seq![a]);
    assert(!seq![a].contains(b));
    let ab = add_names(e, seq![a, b]);
    assert(ab =~= seq![a, b]);
    assert(!ab.contains(c)) by {
        if ab.contains(c) {
            let j = choose|j: int| 0 <= j < ab.len() && ab[j] == c;
            assert(j == 0 || j == 1);
        }
    }
    assert(body.drop_last() =~= seq![s1]);
    assert(seq![s1].drop_last() =~= Seq::<SStmt>::empty());
    assert(scope_after(ab, Seq::<SStmt>::empty()) == ab);
    assert(seq![c].drop_last() =~= e);
    assert(add_names(ab, e) == ab);
    assert(add_names(ab, seq![c]) =~= seq![a, b, c]);
    assert(scope_after(ab, seq![s1]) =~= seq![a, b, c]);
    assert(inst_nodes(seq![], ab, line) =~= Seq::<SNode>::empty());
    assert(inst_nodes(seq![], seq![a, b, c], line) =~= Seq::<SNode>::empty());
    assert(inst_stmts(Seq::<SStmt>::empty(), ab, line) =~= Seq::<SStmt>::empty());
    assert(inst_body(s1, ab, line) == s1);
    assert(inst_stmt(s1, ab, line) =~= seq![s1]);
    assert(inst_stmts(seq![s1], ab, line) =~= seq![s1]);
    assert(inst_body(s2, seq![a, b, c], line) == s2);
    assert(inst_stmt(s2, seq![a, b, c], line) =~= seq![SStmt::Probe { line, bindings: seq![a, b, c] }, s2]);
    assert(inst_stmts(body, ab, line) =~= seq![
        s1,
        SStmt::Probe { line, bindings: seq![a, b, c] },
        s2,
    ]);
}

/// A name bound again is not captured again: after `let x = ..; let x = ..;`
/// the probe lists `x` once.
pub proof fn lemma_rebinding_captured_once(x: Seq<char>, l1: int, l2: int, line: int)
    requires
        l1 != line,
        l2 != line,
    ensures
        inst_stmts(
            seq![
                SStmt::Local { line: l1, names: seq![x], inner: seq![] },
                SStmt::Local { line: l2, names: seq![x], inner: seq![] },
                SStmt::Other { line, inner: seq![] },
            ],
            seq![],
            line,
        )[2] == (SStmt::Probe { line, bindings: seq![x] }),
{
    let s1 = SStmt::Local { line: l1, names: seq![x], inner: seq![] };
    let s2 = SStmt::Local { line: l2, names: seq![x], inner: seq![] };
    let s3 = SStmt::Other { line, inner: seq![] };
    let ss = seq![s1, s2, s3];
    let e = Seq::<Seq<char>>::empty();
    assert(ss.drop_last() =~= seq![s1, s2]);
    assert(seq![s1, s2].drop_last() =~= seq![s1]);
    assert(seq![s1].drop_last() =~= Seq::<SStmt>::empty());
    assert(seq![x].drop_last() =~= e);
    assert(add_names(e, e) == e);
    assert(!e.contains(x));
    assert(add_names(e, seq![x]) =~= seq![x]);
    assert(seq![x].contains(x)) by { assert(seq![x][0] == x); }
    assert(add_names(seq![x], e) == seq![x]);
    assert(add_names(seq![x], seq![x]) =~= seq![x]);
    assert(scope_after(e, Seq::<SStmt>::empty()) == e);
    assert(stmt_names(s1) == seq![x]);
    assert(scope_after(e, seq![s1]) =~= seq![x]);
    assert(scope_after(e, seq![s1, s2]) =~= seq![x]);
    assert(inst_nodes(seq![], e, line) =~= Seq::<SNode>::empty());
    assert(inst_nodes(seq![], seq![x], line) =~= Seq::<SNode>::empty());
    assert(inst_stmts(Seq::<SStmt>::empty(), e, line) =~= Seq::<SStmt>::empty());
    assert(inst_body(s1, e, line) == s1);
    assert(inst_stmt(s1, e, line) =~= seq![s1]);
    assert(inst_stmts(seq![s1], e, line) =~= seq![s1]);
    assert(inst_body(s2, seq![x], line) == s2);
    assert(inst_stmt(s2, seq![x], line) =~= seq![s2]);
    assert(inst_stmts(seq![s1, s2], e, line) =~= seq![s1, s2]);
    assert(inst_body(s3, seq![x], line) == s3);
    assert(inst_stmt(s3, seq![x], line) =~= seq![SStmt::Probe { line, bindings: seq![x] }, s3]);
    assert(inst_stmts(ss, e, line) =~= seq![s1, s2, SStmt::Probe { line, bindings: seq![x] }, s3]);
}

/// `if .. { let x = ..; <target line> } else { let y = ..; }`.
pub open spec fn if_let_branches(x: Seq<char>, y: Seq<char>, x_line: int, y_line: int, line: int) -> SNode {
    SNode::If {
        let_names: seq![],
        cond: seq![],
        then_branch: seq![
            SStmt::Local { line: x_line, names: seq![x], inner: seq![] },
            SStmt::Other { line, inner: seq![] },
        ],
        else_branch: seq![SNode::Block(seq![SStmt::Local { line: y_line, names: seq![y], inner: seq![] }])],
    }
}

/// Branch isolation: in `if .. { let x = ..; <target line> } else { let y = ..; }`
/// the probe in the `then` branch lists the names in scope before the `if`
/// and `x`, never `y`; the `else` branch gets no probe.
pub proof fn lemma_branch_isolation(x: Seq<char>, y: Seq<char>, x_line: int, y_line: int, line: int, ctx: Scope)
    requires
        x_line != line,
        y_line != line,
        x != y,
        !ctx.contains(y),
    ensures
        inst_node(if_let_branches(x, y, x_line, y_line, line), ctx, line)->then_branch[1]
            == (SStmt::Probe { line, bindings: add_names(ctx, seq![x]) }),
        add_names(ctx, seq![x]).contains(x),
        !add_names(ctx, seq![x]).contains(y),
        inst_node(if_let_branches(x, y, x_line, y_line, line), ctx, line)->else_branch
            == if_let_branches(x, y, x_line, y_line, line)->else_branch,
{
    let sx = SStmt::Local { line: x_line, names: seq![x], inner: seq![] };
    let st = SStmt::Other { line, inner: seq![] };
    let sy = SStmt::Local { line: y_line, names: seq![y], inner: seq![] };
    let then_b = seq![sx, st];
    let else_b = seq![SNode::Block(seq![sy])];
    let e = Seq::<Seq<char>>::empty();
    let cx = add_names(ctx, seq![x]);
    assert(add_names(ctx, e) == ctx);
    assert(then_b.drop_last() =~= seq![sx]);
    assert(seq![sx].drop_last() =~= Seq::<SStmt>::empty());
    assert(seq![sy].drop_last() =~= Seq::<SStmt>::empty());
    assert(else_b.drop_last() =~= Seq::<SNode>::empty());
    assert(scope_after(ctx, Seq::<SStmt>::empty()) == ctx);
    assert(scope_after(ctx, seq![sx]) == cx);
    assert(inst_stmts(Seq::<SStmt>::empty(), ctx, line) =~= Seq::<SStmt>::empty());
    assert(inst_nodes(Seq::<SNode>::empty(), ctx, line) =~= Seq::<SNode>::empty());
    assert(inst_nodes(seq![], ctx, line) =~= Seq::<SNode>::empty());
    assert(inst_nodes(seq![], cx, line) =~= Seq::<SNode>::empty());
    assert(inst_body(sx, ctx, line) == sx);
    assert(inst_stmt(sx, ctx, line) =~= seq![sx]);
    assert(inst_stmts(seq![sx], ctx, line) =~= seq![sx]);
    assert(inst_body(st, cx, line) == st);
    assert(inst_stmt(st, cx, line) =~= seq![SStmt::Probe { line, bindings: cx }, st]);
    assert(inst_stmts(then_b, ctx, line) =~= seq![sx, SStmt::Probe { line, bindings: cx }, st]);
    assert(inst_body(sy, ctx, line) == sy);
    assert(inst_stmt(sy, ctx, line) =~= seq![sy]);
    assert(inst_stmts(seq![sy], ctx, line) =~= seq![sy]);
    assert(inst_node(SNode::Block(seq![sy]), ctx, line) == SNode::Block(seq![sy]));
    assert(inst_nodes(else_b, ctx, line) =~= else_b);
    lemma_add_names_contains(ctx, seq![x], x);
    lemma_add_names_contains(ctx, seq![x], y);
    assert(seq![x][0] == x);
    assert(!seq![x].contains(y));
}

// ---------------------------------------------------------------------------
// Branch isolation in general

/// Every name of a scope passes `ok`.
pub open spec fn all_in(s: Scope, ok: spec_fn(Seq<char>) -> bool) -> bool {
    forall|i: int| 0 <= i < s.len() ==> ok(#[trigger] s[i])
}

/// Every name that the statements (and what is nested in them) can bind,
/// or that a probe already among them lists, passes `ok`.
pub open spec fn stmts_bind_ok(ss: Seq<SStmt>, ok: spec_fn(Seq<char>) -> bool) -> bool
    decreases ss, 0nat,
{
    ss.len() > 0 ==> (stmts_bind_ok(ss.drop_last(), ok) && stmt_bind_ok(ss.last(), ok))
}

pub open spec fn stmt_bind_ok(s: SStmt, ok: spec_fn(Seq<char>) -> bool) -> bool
    decreases s, 0nat,
{
    match s {
        SStmt::Local { names, inner, .. } => all_in(names, ok) && nodes_bind_ok(inner, ok),
        SStmt::Other { inner, .. } => nodes_bind_ok(inner, ok),
        SStmt::Probe { bindings, .. } => all_in(bindings, ok),
    }
}

pub open spec fn nodes_bind_ok(ns: Seq<SNode>, ok: spec_fn(Seq<char>) -> bool) -> bool
    decreases ns, 0nat,
{
    ns.len() > 0 ==> (nodes_bind_ok(ns.drop_last(), ok) && node_bind_ok(ns.last(), ok))
}

pub open spec fn node_bind_ok(n: SNode, ok: spec_fn(Seq<char>) -> bool) -> bool
    decreases n, 0nat,
{
    match n {
        SNode::Block(ss) => stmts_bind_ok(ss, ok),
        SNode::If { let_names, cond, then_branch, else_branch } => all_in(let_names, ok)
            && nodes_bind_ok(cond, ok) && stmts_bind_ok(then_branch, ok) && nodes_bind_ok(else_branch, ok),
        SNode::Arm { names, arm_body } => all_in(names, ok) && nodes_bind_ok(arm_body, ok),
        SNode::Fn { params, fn_body } => all_in(params, ok) && stmts_bind_ok(fn_body, ok),
    }
}

/// Every probe among the statements (and what is nested in them) lists only
/// names that pass `ok`.
pub open spec fn stmts_probes_ok(ss: Seq<SStmt>, ok: spec_fn(Seq<char>) -> bool) -> bool
    decreases ss, 0nat,
{
    ss.len() > 0 ==> (stmts_probes_ok(ss.drop_last(), ok) && stmt_probes_ok(ss.last(), ok))
}

pub open spec fn stmt_probes_ok(s: SStmt, ok: spec_fn(Seq<char>) -> bool) -> bool
    decreases s, 0nat,
{
    match s {
        SStmt::Local { inner, .. } => nodes_probes_ok(inner, ok),
        SStmt::Other { inner, .. } => nodes_probes_ok(inner, ok),
        SStmt::Probe { bindings, .. } => all_in(bindings, ok),
    }
}

pub open spec fn nodes_probes_ok(ns: Seq<SNode>, ok: spec_fn(Seq<char>) -> bool) -> bool
    decreases ns, 0nat,
{
    ns.len() > 0 ==> (nodes_probes_ok(ns.drop_last(), ok) && node_probes_ok(ns.last(), ok))
}

pub open spec fn node_probes_ok(n: SNode, ok: spec_fn(Seq<char>) -> bool) -> bool
    decreases n, 0nat,
{
    match n {
        SNode::Block(ss) => stmts_probes_ok(ss, ok),
        SNode::If { cond, then_branch, else_branch, .. } => nodes_probes_ok(cond, ok)
            && stmts_probes_ok(then_branch, ok) && nodes_probes_ok(else_branch, ok),
        SNode::Arm { arm_body, .. } => nodes_probes_ok(arm_body, ok),
        SNode::Fn { fn_body, .. } => stmts_probes_ok(fn_body, ok),
    }
}

proof fn lemma_add_names_all_in(ctx: Scope, ns: Scope, ok: spec_fn(Seq<char>) -> bool)
    requires
        all_in(ctx, ok),
        all_in(ns, ok),
    ensures
        all_in(add_names(ctx, ns), ok),
{
    let r = add_names(ctx, ns);
    assert forall|i: int| 0 <= i < r.len() implies ok(#[trigger] r[i]) by {
        let z = r[i];
        assert(r.contains(z));
        lemma_add_names_contains(ctx, ns, z);
        if ctx.contains(z) {
            let j = choose|j: int| 0 <= j < ctx.len() && ctx[j] == z;
            assert(ok(ctx[j]));
        } else {
            let j = choose|j: int| 0 <= j < ns.len() && ns[j] == z;
            assert(ok(ns[j]));
        }
    }
}

proof fn lemma_scope_after_all_in(ctx: Scope, ss: Seq<SStmt>, ok: spec_fn(Seq<char>) -> bool)
    requires
        all_in(ctx, ok),
        stmts_bind_ok(ss, ok),
    ensures
        all_in(scope_after(ctx, ss), ok),
    decreases ss.len(),
{
    if ss.len() > 0 {
        lemma_scope_after_all_in(ctx, ss.drop_last(), ok);
        assert(stmt_bind_ok(ss.last(), ok));
        match ss.last() {
            SStmt::Local { names, inner, .. } => {
                assert(all_in(names, ok));
            },
            _ => {
                assert(stmt_names(ss.last()) =~= Seq::<Seq<char>>::empty());
            },
        }
        assert(all_in(stmt_names(ss.last()), ok));
        lemma_add_names_all_in(scope_after(ctx, ss.drop_last()), stmt_names(ss.last()), ok);
    }
}

proof fn lemma_stmts_probes_concat(a: Seq<SStmt>, b: Seq<SStmt>, ok: spec_fn(Seq<char>) -> bool)
    requires
        stmts_probes_ok(a, ok),
        stmts_probes_ok(b, ok),
    ensures
        stmts_probes_ok(a + b, ok),
    decreases b.len(),
{
    if b.len() == 0 {
        assert(a + b =~= a);
    } else {
        lemma_stmts_probes_concat(a, b.drop_last(), ok);
        assert((a + b).drop_last() =~= a + b.drop_last());
        assert((a + b).last() == b.last());
    }
}

proof fn lemma_inst_stmts_probes(ss: Seq<SStmt>, ctx: Scope, line: int, ok: spec_fn(Seq<char>) -> bool)
    requires
        all_in(ctx, ok),
        stmts_bind_ok(ss, ok),
    ensures
        stmts_probes_ok(inst_stmts(ss, ctx, line), ok),
    decreases ss, 0nat,
{
    if ss.len() > 0 {
        lemma_inst_stmts_probes(ss.drop_last(), ctx, line, ok);
        lemma_scope_after_all_in(ctx, ss.drop_last(), ok);
        lemma_inst_stmt_probes(ss.last(), scope_after(ctx, ss.drop_last()), line, ok);
        lemma_stmts_probes_concat(
            inst_stmts(ss.drop_last(), ctx, line),
            inst_stmt(ss.last(), scope_after(ctx, ss.drop_last()), line),
            ok,
        );
    } else {
        assert(inst_stmts(ss, ctx, line).len() == 0);
    }
}

proof fn lemma_inst_stmt_probes(s: SStmt, ctx: Scope, line: int, ok: spec_fn(Seq<char>) -> bool)
    requires
        all_in(ctx, ok),
        stmt_bind_ok(s, ok),
    ensures
        stmts_probes_ok(inst_stmt(s, ctx, line), ok),
    decreases s, 1nat,
{
    lemma_inst_body_probes(s, ctx, line, ok);
    let b = inst_body(s, ctx, line);
    let p = SStmt::Probe { line, bindings: ctx };
    assert(seq![b].drop_last() =~= Seq::<SStmt>::empty());
    assert(seq![p, b].drop_last() =~= seq![p]);
    assert(seq![p].drop_last() =~= Seq::<SStmt>::empty());
    assert(stmts_probes_ok(Seq::<SStmt>::empty(), ok));
    assert(stmt_probes_ok(p, ok));
    assert(stmts_probes_ok(seq![b], ok));
    assert(stmts_probes_ok(seq![p], ok));
    assert(stmts_probes_ok(seq![p, b], ok));
}

proof fn lemma_inst_body_probes(s: SStmt, ctx: Scope, line: int, ok: spec_fn(Seq<char>) -> bool)
    requires
        all_in(ctx, ok),
        stmt_bind_ok(s, ok),
    ensures
        stmt_probes_ok(inst_body(s, ctx, line), ok),
    decreases s, 0nat,
{
    match s {
        SStmt::Local { line: l, names, inner } => {
            assert(nodes_bind_ok(inner, ok));
            lemma_inst_nodes_probes(inner, ctx, line, ok);
            assert(inst_body(s, ctx, line) == SStmt::Local { line: l, names, inner: inst_nodes(inner, ctx, line) });
        },
        SStmt::Other { line: l, inner } => {
            lemma_inst_nodes_probes(inner, ctx, line, ok);
            assert(inst_body(s, ctx, line) == SStmt::Other { line: l, inner: inst_nodes(inner, ctx, line) });
        },
        SStmt::Probe { .. } => {},
    }
}

proof fn lemma_inst_nodes_probes(ns: Seq<SNode>, ctx: Scope, line: int, ok: spec_fn(Seq<char>) -> bool)
    requires
        all_in(ctx, ok),
        nodes_bind_ok(ns, ok),
    ensures
        nodes_probes_ok(inst_nodes(ns, ctx, line), ok),
    decreases ns, 0nat,
{
    if ns.len() > 0 {
        lemma_inst_nodes_probes(ns.drop_last(), ctx, line, ok);
        lemma_inst_node_probes(ns.last(), ctx, line, ok);
        let r = inst_nodes(ns, ctx, line);
        assert(r.drop_last() =~= inst_nodes(ns.drop_last(), ctx, line));
    } else {
        assert(inst_nodes(ns, ctx, line).len() == 0);
    }
}

proof fn lemma_inst_node_probes(n: SNode, ctx: Scope, line: int, ok: spec_fn(Seq<char>) -> bool)
    requires
        all_in(ctx, ok),
        node_bind_ok(n, ok),
    ensures
        node_probes_ok(inst_node(n, ctx, line), ok),
    decreases n, 0nat,
{
    match n {
        SNode::Block(ss) => lemma_inst_stmts_probes(ss, ctx, line, ok),
        SNode::If { let_names, cond, then_branch, else_branch } => {
            lemma_inst_nodes_probes(cond, ctx, line, ok);
            lemma_add_names_all_in(ctx, let_names, ok);
            lemma_inst_stmts_probes(then_branch, add_names(ctx, let_names), line, ok);
            lemma_inst_nodes_probes(else_branch, ctx, line, ok);
        },
        SNode::Arm { names, arm_body } => {
            lemma_add_names_all_in(ctx, names, ok);
            lemma_inst_nodes_probes(arm_body, add_names(ctx, names), line, ok);
        },
        SNode::Fn { params, fn_body } => {
            assert(all_in(Seq::<Seq<char>>::empty(), ok));
            lemma_add_names_all_in(seq![], params, ok);
            lemma_inst_stmts_probes(fn_body, add_names(seq![], params), line, ok);
        },
    }
}

/// Branch isolation, in general: whatever the branches of an `if` hold, a
/// name that is not in scope before the `if`, not bound by its `if let`
/// pattern and not bound anywhere in the `then` branch is listed by no probe
/// in the `then` branch, even where the `else` branch or the condition
/// binds it.
pub proof fn lemma_then_branch_isolated(
    let_names: Scope,
    cond: Seq<SNode>,
    then_branch: Seq<SStmt>,
    else_branch: Seq<SNode>,
    ctx: Scope,
    line: int,
    y: Seq<char>,
)
    requires
        !ctx.contains(y),
        !let_names.contains(y),
        stmts_bind_ok(then_branch, |z: Seq<char>| z != y),
    ensures
        stmts_probes_ok(
            inst_node(SNode::If { let_names, cond, then_branch, else_branch }, ctx, line)->then_branch,
            |z: Seq<char>| z != y,
        ),
{
    let ok = |z: Seq<char>| z != y;
    assert(all_in(ctx, ok)) by {
        assert forall|i: int| 0 <= i < ctx.len() implies ok(#[trigger] ctx[i]) by {
            if ctx[i] == y {
                assert(ctx.contains(y));
            }
        }
    }
    assert(all_in(let_names, ok)) by {
        assert forall|i: int| 0 <= i < let_names.len() implies ok(#[trigger] let_names[i]) by {
            if let_names[i] == y {
                assert(let_names.contains(y));
            }
        }
    }
    lemma_add_names_all_in(ctx, let_names, ok);
    lemma_inst_stmts_probes(then_branch, add_names(ctx, let_names), line, ok);
}

} // verus!
