//! Generating the serializer of a user-defined type, as lines of Rust source.
//!
//! A record-like type writes one node with no payload and one child per
//! field, under the field's name (or position). A variant-tagged type writes
//! the active variant's name as its payload, then one child per field of
//! that variant.

use vstd::prelude::*;
use crate::text::{decimal, push_decimal, push_str};
use crate::wire::{line_start_prefix, line_end};
use crate::probe::Probe;

verus! {

/// The fields of a struct or of an enum variant.
pub enum Fields {
    /// Named fields, in declaration order.
    Named(Vec<String>),
    /// This many positional fields.
    Unnamed(usize),
    Unit,
}

/// An enum variant.
pub struct Variant {
    pub name: String,
    pub fields: Fields,
}

pub open spec fn trait_path() -> Seq<char> {
    "crate::_solana_debugger_serialize::_SolanaDebuggerSerialize"@
}

pub open spec fn quoted(s: Seq<char>) -> Seq<char> {
    seq!['"'] + s + seq!['"']
}

/// `sol_log(arg);`
pub open spec fn log_line(arg: Seq<char>) -> Seq<char> {
    "solana_program::log::sol_log("@ + arg + ");"@
}

/// The serializer call for `&expr` under the slot name `slot`.
pub open spec fn call_line(expr: Seq<char>, slot: Seq<char>) -> Seq<char> {
    trait_path() + "::_solana_debugger_serialize(&"@ + expr + ", "@ + quoted(slot) + ");"@
}

/// The start of the impl of the serializer for type `name`.
pub open spec fn impl_head(name: Seq<char>) -> Seq<Seq<char>> {
    seq![
        "impl "@ + trait_path() + " for "@ + name + " {"@,
        "fn _solana_debugger_serialize(&self, name: &str) {"@,
    ]
}

/// The node's opening records, with payload kind `kind`.
pub open spec fn node_open(kind: Seq<char>) -> Seq<Seq<char>> {
    seq![
        log_line(quoted("START_NODE"@)),
        log_line(quoted("complex"@)),
        log_line("name"@),
        log_line("std::any::type_name_of_val(self)"@),
        log_line(quoted(kind)),
    ]
}

/// The node's closing record and the ends of the function and the impl.
pub open spec fn impl_tail() -> Seq<Seq<char>> {
    seq![log_line(quoted("END_NODE"@)), "}"@, "}"@]
}

/// The serializer calls for named fields of `self`.
pub open spec fn named_calls(fs: Seq<Seq<char>>) -> Seq<Seq<char>>
    decreases fs.len(),
{
    if fs.len() == 0 {
        seq![]
    } else {
        named_calls(fs.drop_last()).push(call_line("self."@ + fs.last(), fs.last()))
    }
}

/// The serializer calls for the first `n` positional fields of `self`.
pub open spec fn unnamed_calls(n: nat) -> Seq<Seq<char>>
    decreases n,
{
    if n == 0 {
        seq![]
    } else {
        unnamed_calls((n - 1) as nat).push(call_line("self."@ + decimal((n - 1) as nat), decimal((n - 1) as nat)))
    }
}

/// The names, separated by `, `.
pub open spec fn joined(v: Seq<Seq<char>>) -> Seq<char>
    decreases v.len(),
{
    if v.len() == 0 {
        seq![]
    } else if v.len() == 1 {
        v[0]
    } else {
        joined(v.drop_last()) + ", "@ + v.last()
    }
}

/// The binding names `f0`, `f1`, ... of the first `n` positional fields.
pub open spec fn positional_names(n: nat) -> Seq<Seq<char>>
    decreases n,
{
    if n == 0 {
        seq![]
    } else {
        positional_names((n - 1) as nat).push("f"@ + decimal((n - 1) as nat))
    }
}

/// The serializer calls for the first `n` positional fields bound as `f0`, ...
pub open spec fn bound_calls(n: nat) -> Seq<Seq<char>>
    decreases n,
{
    if n == 0 {
        seq![]
    } else {
        bound_calls((n - 1) as nat).push(call_line("*f"@ + decimal((n - 1) as nat), decimal((n - 1) as nat)))
    }
}

pub open spec fn fields_view(f: Fields) -> FieldsView {
    match f {
        Fields::Named(v) => FieldsView::Named(v.deep_view()),
        Fields::Unnamed(n) => FieldsView::Unnamed(n as nat),
        Fields::Unit => FieldsView::Unit,
    }
}

/// The model of a type's fields.
pub enum FieldsView {
    Named(Seq<Seq<char>>),
    Unnamed(nat),
    Unit,
}

/// The source lines of the serializer of struct `name`.
pub open spec fn struct_impl_lines(name: Seq<char>, f: FieldsView) -> Seq<Seq<char>> {
    impl_head(name) + node_open("no_data"@) + match f {
        FieldsView::Named(fs) => named_calls(fs),
        FieldsView::Unnamed(n) => unnamed_calls(n),
        FieldsView::Unit => seq![],
    } + impl_tail()
}

/// The arm that names variant `v`.
pub open spec fn variant_str_arm(v: Seq<char>, f: FieldsView) -> Seq<char> {
    match f {
        FieldsView::Named(_) => "Self::"@ + v + " { .. } => "@ + quoted(v) + ","@,
        FieldsView::Unnamed(_) => "Self::"@ + v + "(..) => "@ + quoted(v) + ","@,
        FieldsView::Unit => "Self::"@ + v + " => "@ + quoted(v) + ","@,
    }
}

/// The arm that serializes the fields of variant `v`.
pub open spec fn variant_content_arm(v: Seq<char>, f: FieldsView) -> Seq<Seq<char>> {
    match f {
        FieldsView::Named(fs) => seq!["Self::"@ + v + " { "@ + joined(fs) + " } => {"@]
            + named_field_calls(fs) + seq!["}"@],
        FieldsView::Unnamed(n) => seq!["Self::"@ + v + "("@ + joined(positional_names(n)) + ") => {"@]
            + bound_calls(n) + seq!["}"@],
        FieldsView::Unit => seq!["Self::"@ + v + " => {}"@],
    }
}

/// The serializer calls for named fields bound by a pattern.
pub open spec fn named_field_calls(fs: Seq<Seq<char>>) -> Seq<Seq<char>>
    decreases fs.len(),
{
    if fs.len() == 0 {
        seq![]
    } else {
        named_field_calls(fs.drop_last()).push(call_line(fs.last(), fs.last()))
    }
}

pub open spec fn str_arms(vs: Seq<Variant>) -> Seq<Seq<char>>
    decreases vs.len(),
{
    if vs.len() == 0 {
        seq![]
    } else {
        str_arms(vs.drop_last()).push(variant_str_arm(vs.last().name@, fields_view(vs.last().fields)))
    }
}

pub open spec fn content_arms(vs: Seq<Variant>) -> Seq<Seq<char>>
    decreases vs.len(),
{
    if vs.len() == 0 {
        seq![]
    } else {
        content_arms(vs.drop_last()) + variant_content_arm(vs.last().name@, fields_view(vs.last().fields))
    }
}

/// The source lines of the serializer of enum `name`.
pub open spec fn enum_impl_lines(name: Seq<char>, vs: Seq<Variant>) -> Seq<Seq<char>> {
    impl_head(name) + node_open("str_ident"@) + seq!["let variant_str = match self {"@] + str_arms(vs)
        + seq!["};"@, log_line("variant_str"@), "match self {"@] + content_arms(vs) + seq!["}"@]
        + impl_tail()
}

// ---------------------------------------------------------------------------
// Executable

pub(crate) fn push_line(out: &mut Vec<String>, s: String)
    ensures
        final(out).deep_view() == old(out).deep_view().push(s@),
{
    out.push(s);
    assert(out.deep_view() =~= old(out).deep_view().push(s@));
}

pub(crate) fn concat2(a: &str, b: &str) -> (r: String)
    ensures
        r@ == a@ + b@,
{
    let mut s = String::from_str(a);
    push_str(&mut s, b);
    s
}

pub(crate) fn quote_text(s: &str) -> (r: String)
    ensures
        r@ == quoted(s@),
{
    let mut r = String::from_str("\"");
    push_str(&mut r, s);
    push_str(&mut r, "\"");
    proof {
        reveal_strlit("\"");
    }
    assert(r@ =~= quoted(s@));
    r
}

pub(crate) fn log_text(arg: &str) -> (r: String)
    ensures
        r@ == log_line(arg@),
{
    let mut r = String::from_str("solana_program::log::sol_log(");
    push_str(&mut r, arg);
    push_str(&mut r, ");");
    r
}

pub(crate) fn call_text(expr: &str, slot: &str) -> (r: String)
    ensures
        r@ == call_line(expr@, slot@),
{
    let mut r = String::from_str("crate::_solana_debugger_serialize::_SolanaDebuggerSerialize");
    push_str(&mut r, "::_solana_debugger_serialize(&");
    push_str(&mut r, expr);
    push_str(&mut r, ", ");
    let q = quote_text(slot);
    push_str(&mut r, q.as_str());
    push_str(&mut r, ");");
    r
}

fn decimal_text(n: usize) -> (r: String)
    ensures
        r@ == decimal(n as nat),
{
    let mut r = String::new();
    push_decimal(&mut r, n as u128);
    assert(r@ =~= decimal(n as nat));
    r
}

fn push_head_open(out: &mut Vec<String>, name: &str, kind: &str)
    ensures
        final(out).deep_view() == old(out).deep_view() + impl_head(name@) + node_open(kind@),
{
    let mut h = String::from_str("impl ");
    push_str(&mut h, "crate::_solana_debugger_serialize::_SolanaDebuggerSerialize");
    push_str(&mut h, " for ");
    push_str(&mut h, name);
    push_str(&mut h, " {");
    push_line(out, h);
    push_line(out, String::from_str("fn _solana_debugger_serialize(&self, name: &str) {"));
    let q = quote_text("START_NODE");
    push_line(out, log_text(q.as_str()));
    let q = quote_text("complex");
    push_line(out, log_text(q.as_str()));
    push_line(out, log_text("name"));
    push_line(out, log_text("std::any::type_name_of_val(self)"));
    let q = quote_text(kind);
    push_line(out, log_text(q.as_str()));
    assert(out.deep_view() =~= old(out).deep_view() + impl_head(name@) + node_open(kind@));
}

fn push_tail(out: &mut Vec<String>)
    ensures
        final(out).deep_view() == old(out).deep_view() + impl_tail(),
{
    let q = quote_text("END_NODE");
    push_line(out, log_text(q.as_str()));
    push_line(out, String::from_str("}"));
    push_line(out, String::from_str("}"));
    assert(out.deep_view() =~= old(out).deep_view() + impl_tail());
}

/// Appends the serializer calls for named fields, as fields of `self` when
/// `on_self`, else as bound names.
fn push_named_calls(out: &mut Vec<String>, fs: &Vec<String>, on_self: bool)
    ensures
        on_self ==> final(out).deep_view() == old(out).deep_view() + named_calls(fs.deep_view()),
        !on_self ==> final(out).deep_view() == old(out).deep_view() + named_field_calls(fs.deep_view()),
{
    let ghost start = out.deep_view();
    let mut i: usize = 0;
    assert(fs.deep_view().subrange(0, 0) =~= Seq::<Seq<char>>::empty());
    assert(start + Seq::<Seq<char>>::empty() =~= start);
    while i < fs.len()
        invariant
            i <= fs@.len(),
            on_self ==> out.deep_view() == start + named_calls(fs.deep_view().subrange(0, i as int)),
            !on_self ==> out.deep_view() == start + named_field_calls(fs.deep_view().subrange(0, i as int)),
        decreases fs@.len() - i,
    {
        let ghost sub1 = fs.deep_view().subrange(0, i + 1);
        assert(sub1.drop_last() =~= fs.deep_view().subrange(0, i as int));
        assert(sub1.last() == fs[i as int]@);
        let line = if on_self {
            let e = concat2("self.", fs[i].as_str());
            call_text(e.as_str(), fs[i].as_str())
        } else {
            call_text(fs[i].as_str(), fs[i].as_str())
        };
        push_line(out, line);
        assert(out.deep_view() =~= start + (if on_self { named_calls(sub1) } else { named_field_calls(sub1) }));
        i += 1;
    }
    assert(fs.deep_view().subrange(0, fs@.len() as int) =~= fs.deep_view());
}

/// Appends the serializer calls for `n` positional fields, as fields of
/// `self` when `on_self`, else as the bound names `f0`, ...
fn push_positional_calls(out: &mut Vec<String>, n: usize, on_self: bool)
    ensures
        on_self ==> final(out).deep_view() == old(out).deep_view() + unnamed_calls(n as nat),
        !on_self ==> final(out).deep_view() == old(out).deep_view() + bound_calls(n as nat),
{
    let ghost start = out.deep_view();
    let mut i: usize = 0;
    assert(start + Seq::<Seq<char>>::empty() =~= start);
    while i < n
        invariant
            i <= n,
            on_self ==> out.deep_view() == start + unnamed_calls(i as nat),
            !on_self ==> out.deep_view() == start + bound_calls(i as nat),
        decreases n - i,
    {
        let d = decimal_text(i);
        let e = if on_self { concat2("self.", d.as_str()) } else { concat2("*f", d.as_str()) };
        push_line(out, call_text(e.as_str(), d.as_str()));
        assert(out.deep_view() =~= start + (if on_self { unnamed_calls((i + 1) as nat) } else { bound_calls((i + 1) as nat) }));
        i += 1;
    }
}

/// The names joined with `, `.
fn join_text(v: &Vec<String>) -> (r: String)
    ensures
        r@ == joined(v.deep_view()),
{
    let mut r = String::new();
    let mut i: usize = 0;
    assert(r@ =~= joined(v.deep_view().subrange(0, 0)));
    while i < v.len()
        invariant
            i <= v@.len(),
            r@ == joined(v.deep_view().subrange(0, i as int)),
        decreases v@.len() - i,
    {
        let ghost sub1 = v.deep_view().subrange(0, i + 1);
        assert(sub1.drop_last() =~= v.deep_view().subrange(0, i as int));
        assert(sub1.last() == v[i as int]@);
        if i > 0 {
            push_str(&mut r, ", ");
        } else {
            assert(sub1.len() == 1 && sub1[0] == v[0]@);
        }
        push_str(&mut r, v[i].as_str());
        assert(r@ =~= joined(sub1));
        i += 1;
    }
    assert(v.deep_view().subrange(0, v@.len() as int) =~= v.deep_view());
    r
}

/// The binding names `f0`, `f1`, ... of `n` positional fields.
fn positional_name_list(n: usize) -> (r: Vec<String>)
    ensures
        r.deep_view() == positional_names(n as nat),
{
    let mut r: Vec<String> = Vec::new();
    let mut i: usize = 0;
    assert(r.deep_view() =~= positional_names(0));
    while i < n
        invariant
            i <= n,
            r.deep_view() == positional_names(i as nat),
        decreases n - i,
    {
        let d = decimal_text(i);
        push_line(&mut r, concat2("f", d.as_str()));
        i += 1;
    }
    r
}

/// The source lines of the serializer of struct `name`: one child per field,
/// under the field's name, or its position for positional fields.
pub fn get_serialize_impl_struct(name: &str, fields: &Fields) -> (r: Vec<String>)
    ensures
        r.deep_view() == struct_impl_lines(name@, fields_view(*fields)),
{
    let mut out: Vec<String> = Vec::new();
    push_head_open(&mut out, name, "no_data");
    match fields {
        Fields::Named(fs) => push_named_calls(&mut out, fs, true),
        Fields::Unnamed(n) => push_positional_calls(&mut out, *n, true),
        Fields::Unit => {},
    }
    push_tail(&mut out);
    assert(out.deep_view() =~= struct_impl_lines(name@, fields_view(*fields)));
    out
}

/// The arm of the variant-name match for one variant.
fn get_variant_str_arm(v: &Variant) -> (r: String)
    ensures
        r@ == variant_str_arm(v.name@, fields_view(v.fields)),
{
    let mut r = String::from_str("Self::");
    push_str(&mut r, v.name.as_str());
    match &v.fields {
        Fields::Named(_) => push_str(&mut r, " { .. } => "),
        Fields::Unnamed(_) => push_str(&mut r, "(..) => "),
        Fields::Unit => push_str(&mut r, " => "),
    }
    let q = quote_text(v.name.as_str());
    push_str(&mut r, q.as_str());
    push_str(&mut r, ",");
    r
}

/// The arm of the field match for one variant.
fn push_variant_content_arm(out: &mut Vec<String>, v: &Variant)
    ensures
        final(out).deep_view() == old(out).deep_view() + variant_content_arm(v.name@, fields_view(v.fields)),
{
    let mut h = String::from_str("Self::");
    push_str(&mut h, v.name.as_str());
    match &v.fields {
        Fields::Named(fs) => {
            push_str(&mut h, " { ");
            let j = join_text(fs);
            push_str(&mut h, j.as_str());
            push_str(&mut h, " } => {");
            push_line(out, h);
            push_named_calls(out, fs, false);
            push_line(out, String::from_str("}"));
        },
        Fields::Unnamed(n) => {
            push_str(&mut h, "(");
            let names = positional_name_list(*n);
            let j = join_text(&names);
            push_str(&mut h, j.as_str());
            push_str(&mut h, ") => {");
            push_line(out, h);
            push_positional_calls(out, *n, false);
            push_line(out, String::from_str("}"));
        },
        Fields::Unit => {
            push_str(&mut h, " => {}");
            push_line(out, h);
        },
    }
    assert(out.deep_view() =~= old(out).deep_view() + variant_content_arm(v.name@, fields_view(v.fields)));
}

/// The source lines of the serializer of enum `name`: the active variant's
/// name as payload, then one child per field of that variant.
pub fn get_serialize_impl_enum(name: &str, variants: &Vec<Variant>) -> (r: Vec<String>)
    ensures
        r.deep_view() == enum_impl_lines(name@, variants@),
{
    let mut out: Vec<String> = Vec::new();
    push_head_open(&mut out, name, "str_ident");
    push_line(&mut out, String::from_str("let variant_str = match self {"));
    let ghost a = out.deep_view();
    let mut i: usize = 0;
    assert(a + str_arms(variants@.subrange(0, 0)) =~= a);
    while i < variants.len()
        invariant
            i <= variants@.len(),
            out.deep_view() == a + str_arms(variants@.subrange(0, i as int)),
        decreases variants@.len() - i,
    {
        let ghost sub1 = variants@.subrange(0, i + 1);
        assert(sub1.drop_last() =~= variants@.subrange(0, i as int));
        push_line(&mut out, get_variant_str_arm(&variants[i]));
        assert(out.deep_view() =~= a + str_arms(sub1));
        i += 1;
    }
    assert(variants@.subrange(0, variants@.len() as int) =~= variants@);
    push_line(&mut out, String::from_str("};"));
    push_line(&mut out, log_text("variant_str"));
    push_line(&mut out, String::from_str("match self {"));
    let ghost b = out.deep_view();
    let mut i: usize = 0;
    assert(b + content_arms(variants@.subrange(0, 0)) =~= b);
    while i < variants.len()
        invariant
            i <= variants@.len(),
            out.deep_view() == b + content_arms(variants@.subrange(0, i as int)),
        decreases variants@.len() - i,
    {
        let ghost sub1 = variants@.subrange(0, i + 1);
        assert(sub1.drop_last() =~= variants@.subrange(0, i as int));
        push_variant_content_arm(&mut out, &variants[i]);
        assert(out.deep_view() =~= b + content_arms(sub1));
        i += 1;
    }
    push_line(&mut out, String::from_str("}"));
    push_tail(&mut out);
    assert(out.deep_view() =~= enum_impl_lines(name@, variants@));
    out
}

// ---------------------------------------------------------------------------
// Probe statements

/// The source lines of a probe: the line-start marker with the line number,
/// one serializer call per name in scope (under its own name), and the
/// line-end marker.
pub open spec fn probe_text(line: nat, names: Seq<Seq<char>>) -> Seq<Seq<char>> {
    seq![log_line(quoted(line_start_prefix() + ";"@ + decimal(line)))] + named_field_calls(names)
        + seq![log_line(quoted(line_end()))]
}

/// The source lines of a probe.
pub fn probe_lines(p: &Probe) -> (r: Vec<String>)
    ensures
        r.deep_view() == probe_text(p.line as nat, p.bindings.deep_view()),
{
    let mut out: Vec<String> = Vec::new();
    let mut marker = String::from_str("-.!;LINE_START");
    push_str(&mut marker, ";");
    push_decimal(&mut marker, p.line as u128);
    let q = quote_text(marker.as_str());
    push_line(&mut out, log_text(q.as_str()));
    push_named_calls(&mut out, &p.bindings, false);
    let q = quote_text("-.!;LINE_END");
    push_line(&mut out, log_text(q.as_str()));
    assert(out.deep_view() =~= probe_text(p.line as nat, p.bindings.deep_view()));
    out
}

// ---------------------------------------------------------------------------
// Where generated serializers go

/// An item of a module, as far as serializers are concerned.
pub enum ItemDecl {
    Struct { name: String, fields: Fields },
    Enum { name: String, variants: Vec<Variant> },
    /// Any other item.
    Other,
}

/// An item of the rewritten module.
pub enum ItemOut {
    /// The module's item at this position, unchanged.
    Kept(usize),
    /// A generated serializer, as source lines.
    Generated(Vec<String>),
}

pub enum ItemOutView {
    Kept(nat),
    Generated(Seq<Seq<char>>),
}

pub open spec fn item_out_view(o: ItemOut) -> ItemOutView {
    match o {
        ItemOut::Kept(i) => ItemOutView::Kept(i as nat),
        ItemOut::Generated(v) => ItemOutView::Generated(v.deep_view()),
    }
}

pub open spec fn items_out_view(v: Seq<ItemOut>) -> Seq<ItemOutView>
    decreases v.len(),
{
    if v.len() == 0 {
        seq![]
    } else {
        items_out_view(v.drop_last()).push(item_out_view(v.last()))
    }
}

/// The serializer of an item, if it is a struct or an enum.
pub open spec fn impl_of(d: ItemDecl) -> Option<Seq<Seq<char>>> {
    match d {
        ItemDecl::Struct { name, fields } => Some(struct_impl_lines(name@, fields_view(fields))),
        ItemDecl::Enum { name, variants } => Some(enum_impl_lines(name@, variants@)),
        ItemDecl::Other => None,
    }
}

/// The module's items in order, each struct and enum followed right away by
/// its generated serializer.
pub open spec fn layout(items: Seq<ItemDecl>) -> Seq<ItemOutView>
    decreases items.len(),
{
    if items.len() == 0 {
        seq![]
    } else {
        layout(items.drop_last()) + seq![ItemOutView::Kept((items.len() - 1) as nat)] + match impl_of(items.last()) {
            Some(lines) => seq![ItemOutView::Generated(lines)],
            None => seq![],
        }
    }
}

/// A module's items with a generated serializer right after each struct and
/// enum.
pub fn insert_serialize_impl(items: &Vec<ItemDecl>) -> (r: Vec<ItemOut>)
    ensures
        items_out_view(r@) == layout(items@),
{
    let mut out: Vec<ItemOut> = Vec::new();
    let mut i: usize = 0;
    assert(items_out_view(out@) =~= layout(items@.subrange(0, 0)));
    while i < items.len()
        invariant
            i <= items@.len(),
            items_out_view(out@) == layout(items@.subrange(0, i as int)),
        decreases items@.len() - i,
    {
        let ghost sub1 = items@.subrange(0, i + 1);
        assert(sub1.drop_last() =~= items@.subrange(0, i as int));
        let ghost prev = out@;
        out.push(ItemOut::Kept(i));
        assert(out@.drop_last() =~= prev);
        let ghost mid = out@;
        assert(items_out_view(mid) == items_out_view(prev).push(ItemOutView::Kept(i as nat)));
        assert(sub1.last() == items@[i as int]);
        match &items[i] {
            ItemDecl::Struct { name, fields } => {
                let g = get_serialize_impl_struct(name.as_str(), fields);
                let ghost gv = g.deep_view();
                out.push(ItemOut::Generated(g));
                assert(out@.drop_last() =~= mid);
                assert(items_out_view(out@) == items_out_view(mid).push(ItemOutView::Generated(gv)));
            },
            ItemDecl::Enum { name, variants } => {
                let g = get_serialize_impl_enum(name.as_str(), variants);
                let ghost gv = g.deep_view();
                out.push(ItemOut::Generated(g));
                assert(out@.drop_last() =~= mid);
                assert(items_out_view(out@) == items_out_view(mid).push(ItemOutView::Generated(gv)));
            },
            ItemDecl::Other => {},
        }
        assert(items_out_view(out@) =~= layout(sub1));
        i += 1;
    }
    assert(items@.subrange(0, items@.len() as int) =~= items@);
    out
}

} // verus!
