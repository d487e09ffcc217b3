//! The builtin serializers, as lines of Rust source for the module that is
//! written into the instrumented program next to its crate root.
//!
//! The module holds the shared capability, a fallback that every type has
//! (a `not_implemented` node), and the encoders of the builtin shapes:
//! integers as 16 little-endian bytes (`int`/`uint`), booleans, strings,
//! `Option` and `Result` (variant name, then the content under slot `"0"`),
//! pairs, owning and borrowing wrappers (a child under slot `"value"`),
//! `Rc` (its two counts, then the child), `RefCell`, sequences (their length,
//! then each element under the placeholder slot `"-inc-index"`), account
//! infos and account keys.

use vstd::prelude::*;
use crate::generate::{
    trait_path, quoted, log_line, call_line, impl_tail, push_line, quote_text, log_text, call_text,
};
use crate::text::push_str;

verus! {

/// `sol_log_data(&[expr]);`
pub open spec fn data_line(expr: Seq<char>) -> Seq<char> {
    "solana_program::log::sol_log_data(&["@ + expr + "]);"@
}

/// The start of an impl of the capability for `ty`, with generics `g`.
pub open spec fn head(g: Seq<char>, ty: Seq<char>) -> Seq<Seq<char>> {
    seq!["impl"@ + g + " "@ + trait_path() + " for "@ + ty + " {"@, "fn _solana_debugger_serialize(&self, name: &str) {"@]
}

/// A node's first records: `START_NODE`, the kind tag, the slot name and the
/// full type name.
pub open spec fn start(tag: Seq<char>) -> Seq<Seq<char>> {
    seq![
        log_line(quoted("START_NODE"@)),
        log_line(quoted(tag)),
        log_line("name"@),
        log_line("std::any::type_name_of_val(self)"@),
    ]
}

/// The payload-kind record.
pub open spec fn kind_line(k: Seq<char>) -> Seq<Seq<char>> {
    seq![log_line(quoted(k))]
}

/// The capability and its fallback: a `not_implemented` node for any type
/// without an encoder of its own.
pub open spec fn prelude() -> Seq<Seq<char>> {
    seq![
        "pub trait _SolanaDebuggerSerialize {"@,
        "fn _solana_debugger_serialize(&self, name: &str);"@,
        "}"@,
        "impl<T: ?Sized> _SolanaDebuggerSerialize for T {"@,
        "default fn _solana_debugger_serialize(&self, name: &str) {"@,
    ] + start("complex"@) + kind_line("not_implemented"@) + impl_tail()
}

/// An integer of type `ty`: a primitive node of kind `kind`, whose payload
/// is the value widened to `wide` as 16 little-endian bytes.
pub open spec fn number_impl(ty: Seq<char>, kind: Seq<char>, wide: Seq<char>) -> Seq<Seq<char>> {
    head(""@, ty) + start("primitive"@) + kind_line(kind) + seq![
        "let bytes = (*self as "@ + wide + ").to_le_bytes();"@,
        data_line("bytes.as_slice()"@),
    ] + impl_tail()
}

/// A boolean: one byte, 1 for `true`.
pub open spec fn bool_impl() -> Seq<Seq<char>> {
    head(""@, "bool"@) + start("primitive"@) + kind_line("bool"@) + seq![data_line("&[*self as u8]"@)]
        + impl_tail()
}

/// A string type: its text as the payload line.
pub open spec fn text_impl(ty: Seq<char>, text: Seq<char>) -> Seq<Seq<char>> {
    head(""@, ty) + start("primitive"@) + kind_line("str"@) + seq![log_line(text)] + impl_tail()
}

/// `Option`: `None` or `Some` as payload, then the content under slot `"0"`.
pub open spec fn option_impl() -> Seq<Seq<char>> {
    head("<T>"@, "Option<T>"@) + start("complex"@) + kind_line("str_ident"@) + seq![
        "let variant_str = match self {"@,
        "None => \"None\","@,
        "Some(_) => \"Some\","@,
        "};"@,
        log_line("variant_str"@),
        "if let Some(v) = self {"@,
        call_line("*v"@, "0"@),
        "}"@,
    ] + impl_tail()
}

/// `Result`: `Ok` or `Err` as payload, then the content under slot `"0"`.
pub open spec fn result_impl() -> Seq<Seq<char>> {
    head("<T, E>"@, "Result<T, E>"@) + start("complex"@) + kind_line("str_ident"@) + seq![
        "let variant_str = match self {"@,
        "Ok(_) => \"Ok\","@,
        "Err(_) => \"Err\","@,
        "};"@,
        log_line("variant_str"@),
        "match self {"@,
        "Ok(v) => {"@,
        call_line("*v"@, "0"@),
        "}"@,
        "Err(v) => {"@,
        call_line("*v"@, "0"@),
        "}"@,
        "}"@,
    ] + impl_tail()
}

/// A pair: no payload, then its two parts under slots `"0"` and `"1"`.
pub open spec fn pair_impl() -> Seq<Seq<char>> {
    head("<T1, T2>"@, "(T1, T2)"@) + start("complex"@) + kind_line("no_data"@) + seq![
        call_line("self.0"@, "0"@),
        call_line("self.1"@, "1"@),
    ] + impl_tail()
}

/// An owning or borrowing wrapper: no payload, then what it wraps under
/// slot `"value"`.
pub open spec fn wrapper_impl(g: Seq<char>, ty: Seq<char>) -> Seq<Seq<char>> {
    head(g, ty) + start("complex"@) + kind_line("no_data"@) + seq![call_line("**self"@, "value"@)] + impl_tail()
}

/// `Rc`: its strong and weak counts as payload, then what it holds under
/// slot `"value"`.
pub open spec fn rc_impl() -> Seq<Seq<char>> {
    head("<T>"@, "std::rc::Rc<T>"@) + start("complex"@) + kind_line("rc_meta"@) + seq![
        "let strong_count = (std::rc::Rc::strong_count(self) as u128).to_le_bytes();"@,
        data_line("strong_count.as_slice()"@),
        "let weak_count = (std::rc::Rc::weak_count(self) as u128).to_le_bytes();"@,
        data_line("weak_count.as_slice()"@),
        call_line("**self"@, "value"@),
    ] + impl_tail()
}

/// `RefCell`: what it holds under slot `"value"`, or an error text if it is
/// mutably borrowed.
pub open spec fn refcell_impl() -> Seq<Seq<char>> {
    head("<T>"@, "std::cell::RefCell<T>"@) + start("complex"@) + seq!["if let Ok(v) = self.try_borrow() {"@]
        + kind_line("no_data"@) + seq![call_line("*v"@, "value"@), "} else {"@] + kind_line("error_str"@)
        + seq![log_line(quoted("Failed to borrow"@)), "}"@] + impl_tail()
}

/// A sequence: its length as payload, then each element under the
/// placeholder slot, which decoding turns into the element's position.
pub open spec fn seq_impl(g: Seq<char>, ty: Seq<char>) -> Seq<Seq<char>> {
    head(g, ty) + start("complex"@) + kind_line("array_len"@) + seq![
        "let len = (self.len() as u128).to_le_bytes();"@,
        data_line("len.as_slice()"@),
        "for el in self.iter() {"@,
        call_line("*el"@, "-inc-index"@),
        "}"@,
    ] + impl_tail()
}

/// An account info: its fields, each under its own name.
pub open spec fn account_info_impl() -> Seq<Seq<char>> {
    head("<'a>"@, "solana_program::account_info::AccountInfo<'a>"@) + start("complex"@) + kind_line("no_data"@)
        + seq![
        call_line("*self.key"@, "key"@),
        call_line("self.lamports"@, "lamports"@),
        call_line("self.data"@, "data"@),
        call_line("*self.owner"@, "owner"@),
        call_line("self.rent_epoch"@, "rent_epoch"@),
        call_line("self.is_signer"@, "is_signer"@),
        call_line("self.is_writable"@, "is_writable"@),
        call_line("self.executable"@, "executable"@),
    ] + impl_tail()
}

/// An account key: its 32 bytes as payload.
pub open spec fn pubkey_impl() -> Seq<Seq<char>> {
    head(""@, "solana_program::pubkey::Pubkey"@) + start("complex"@) + kind_line("pubkey"@)
        + seq![data_line("self.as_ref()"@)] + impl_tail()
}

/// The whole module.
pub open spec fn fixed_serialization_text() -> Seq<Seq<char>> {
    prelude()
        + number_impl("i8"@, "int"@, "i128"@) + number_impl("i16"@, "int"@, "i128"@)
        + number_impl("i32"@, "int"@, "i128"@) + number_impl("i64"@, "int"@, "i128"@)
        + number_impl("i128"@, "int"@, "i128"@)
        + number_impl("u8"@, "uint"@, "u128"@) + number_impl("u16"@, "uint"@, "u128"@)
        + number_impl("u32"@, "uint"@, "u128"@) + number_impl("u64"@, "uint"@, "u128"@)
        + number_impl("u128"@, "uint"@, "u128"@)
        + bool_impl() + text_impl("&str"@, "self"@) + text_impl("String"@, "self.as_str()"@)
        + option_impl() + result_impl() + pair_impl()
        + wrapper_impl("<T>"@, "Box<T>"@) + rc_impl() + refcell_impl()
        + seq_impl("<T>"@, "Vec<T>"@) + seq_impl("<T>"@, "&[T]"@) + seq_impl("<T>"@, "&mut [T]"@)
        + wrapper_impl("<T: Sized>"@, "&T"@) + wrapper_impl("<T>"@, "&mut T"@)
        + seq_impl("<T, const N: usize>"@, "[T; N]"@)
        + account_info_impl() + pubkey_impl()
}

// ---------------------------------------------------------------------------
// Executable

fn push_text(out: &mut Vec<String>, s: &str)
    ensures
        final(out).deep_view() == old(out).deep_view().push(s@),
{
    push_line(out, String::from_str(s));
}

fn push_log(out: &mut Vec<String>, arg: &str)
    ensures
        final(out).deep_view() == old(out).deep_view().push(log_line(arg@)),
{
    push_line(out, log_text(arg));
}

fn push_log_quoted(out: &mut Vec<String>, lit: &str)
    ensures
        final(out).deep_view() == old(out).deep_view().push(log_line(quoted(lit@))),
{
    let q = quote_text(lit);
    push_line(out, log_text(q.as_str()));
}

fn push_call(out: &mut Vec<String>, expr: &str, slot: &str)
    ensures
        final(out).deep_view() == old(out).deep_view().push(call_line(expr@, slot@)),
{
    push_line(out, call_text(expr, slot));
}

fn push_data(out: &mut Vec<String>, expr: &str)
    ensures
        final(out).deep_view() == old(out).deep_view().push(data_line(expr@)),
{
    let mut r = String::from_str("solana_program::log::sol_log_data(&[");
    push_str(&mut r, expr);
    push_str(&mut r, "]);");
    push_line(out, r);
}

fn push_head(out: &mut Vec<String>, g: &str, ty: &str)
    ensures
        final(out).deep_view() == old(out).deep_view() + head(g@, ty@),
{
    let mut h = String::from_str("impl");
    push_str(&mut h, g);
    push_str(&mut h, " ");
    push_str(&mut h, "crate::_solana_debugger_serialize::_SolanaDebuggerSerialize");
    push_str(&mut h, " for ");
    push_str(&mut h, ty);
    push_str(&mut h, " {");
    push_line(out, h);
    push_text(out, "fn _solana_debugger_serialize(&self, name: &str) {");
    assert(final(out).deep_view() =~= old(out).deep_view() + head(g@, ty@));
}

fn push_start(out: &mut Vec<String>, tag: &str, kind: Option<&str>)
    ensures
        kind matches Some(k) ==> final(out).deep_view() == old(out).deep_view() + start(tag@) + kind_line(k@),
        kind is None ==> final(out).deep_view() == old(out).deep_view() + start(tag@),
{
    push_log_quoted(out, "START_NODE");
    push_log_quoted(out, tag);
    push_log(out, "name");
    push_log(out, "std::any::type_name_of_val(self)");
    let ghost mid = out.deep_view();
    assert(mid =~= old(out).deep_view() + start(tag@));
    match kind {
        Some(k) => {
            push_log_quoted(out, k);
            assert(out.deep_view() =~= mid + kind_line(k@));
        },
        None => {},
    }
}

fn push_close(out: &mut Vec<String>)
    ensures
        final(out).deep_view() == old(out).deep_view() + impl_tail(),
{
    push_log_quoted(out, "END_NODE");
    push_text(out, "}");
    push_text(out, "}");
    assert(final(out).deep_view() =~= old(out).deep_view() + impl_tail());
}

fn push_prelude(out: &mut Vec<String>)
    ensures
        final(out).deep_view() == old(out).deep_view() + prelude(),
{
    push_text(out, "pub trait _SolanaDebuggerSerialize {");
    push_text(out, "fn _solana_debugger_serialize(&self, name: &str);");
    push_text(out, "}");
    push_text(out, "impl<T: ?Sized> _SolanaDebuggerSerialize for T {");
    push_text(out, "default fn _solana_debugger_serialize(&self, name: &str) {");
    push_start(out, "complex", Some("not_implemented"));
    push_close(out);
    assert(final(out).deep_view() =~= old(out).deep_view() + prelude());
}

fn push_number_impl(out: &mut Vec<String>, ty: &str, kind: &str, wide: &str)
    ensures
        final(out).deep_view() == old(out).deep_view() + number_impl(ty@, kind@, wide@),
{
    push_head(out, "", ty);
    push_start(out, "primitive", Some(kind));
    let mut b = String::from_str("let bytes = (*self as ");
    push_str(&mut b, wide);
    push_str(&mut b, ").to_le_bytes();");
    push_line(out, b);
    push_data(out, "bytes.as_slice()");
    push_close(out);
    assert(final(out).deep_view() =~= old(out).deep_view() + number_impl(ty@, kind@, wide@));
}

fn push_bool_impl(out: &mut Vec<String>)
    ensures
        final(out).deep_view() == old(out).deep_view() + bool_impl(),
{
    push_head(out, "", "bool");
    push_start(out, "primitive", Some("bool"));
    push_data(out, "&[*self as u8]");
    push_close(out);
    assert(final(out).deep_view() =~= old(out).deep_view() + bool_impl());
}

fn push_text_impl(out: &mut Vec<String>, ty: &str, text: &str)
    ensures
        final(out).deep_view() == old(out).deep_view() + text_impl(ty@, text@),
{
    push_head(out, "", ty);
    push_start(out, "primitive", Some("str"));
    push_log(out, text);
    push_close(out);
    assert(final(out).deep_view() =~= old(out).deep_view() + text_impl(ty@, text@));
}

fn push_option_impl(out: &mut Vec<String>)
    ensures
        final(out).deep_view() == old(out).deep_view() + option_impl(),
{
    push_head(out, "<T>", "Option<T>");
    push_start(out, "complex", Some("str_ident"));
    push_text(out, "let variant_str = match self {");
    push_text(out, "None => \"None\",");
    push_text(out, "Some(_) => \"Some\",");
    push_text(out, "};");
    push_log(out, "variant_str");
    push_text(out, "if let Some(v) = self {");
    push_call(out, "*v", "0");
    push_text(out, "}");
    push_close(out);
    assert(final(out).deep_view() =~= old(out).deep_view() + option_impl());
}

fn push_result_impl(out: &mut Vec<String>)
    ensures
        final(out).deep_view() == old(out).deep_view() + result_impl(),
{
    push_head(out, "<T, E>", "Result<T, E>");
    push_start(out, "complex", Some("str_ident"));
    push_text(out, "let variant_str = match self {");
    push_text(out, "Ok(_) => \"Ok\",");
    push_text(out, "Err(_) => \"Err\",");
    push_text(out, "};");
    push_log(out, "variant_str");
    push_text(out, "match self {");
    push_text(out, "Ok(v) => {");
    push_call(out, "*v", "0");
    push_text(out, "}");
    push_text(out, "Err(v) => {");
    push_call(out, "*v", "0");
    push_text(out, "}");
    push_text(out, "}");
    push_close(out);
    assert(final(out).deep_view() =~= old(out).deep_view() + result_impl());
}

fn push_pair_impl(out: &mut Vec<String>)
    ensures
        final(out).deep_view() == old(out).deep_view() + pair_impl(),
{
    push_head(out, "<T1, T2>", "(T1, T2)");
    push_start(out, "complex", Some("no_data"));
    push_call(out, "self.0", "0");
    push_call(out, "self.1", "1");
    push_close(out);
    assert(final(out).deep_view() =~= old(out).deep_view() + pair_impl());
}

fn push_wrapper_impl(out: &mut Vec<String>, g: &str, ty: &str)
    ensures
        final(out).deep_view() == old(out).deep_view() + wrapper_impl(g@, ty@),
{
    push_head(out, g, ty);
    push_start(out, "complex", Some("no_data"));
    push_call(out, "**self", "value");
    push_close(out);
    assert(final(out).deep_view() =~= old(out).deep_view() + wrapper_impl(g@, ty@));
}

fn push_rc_impl(out: &mut Vec<String>)
    ensures
        final(out).deep_view() == old(out).deep_view() + rc_impl(),
{
    push_head(out, "<T>", "std::rc::Rc<T>");
    push_start(out, "complex", Some("rc_meta"));
    push_text(out, "let strong_count = (std::rc::Rc::strong_count(self) as u128).to_le_bytes();");
    push_data(out, "strong_count.as_slice()");
    push_text(out, "let weak_count = (std::rc::Rc::weak_count(self) as u128).to_le_bytes();");
    push_data(out, "weak_count.as_slice()");
    push_call(out, "**self", "value");
    push_close(out);
    assert(final(out).deep_view() =~= old(out).deep_view() + rc_impl());
}

fn push_refcell_impl(out: &mut Vec<String>)
    ensures
        final(out).deep_view() == old(out).deep_view() + refcell_impl(),
{
    push_head(out, "<T>", "std::cell::RefCell<T>");
    push_start(out, "complex", None);
    push_text(out, "if let Ok(v) = self.try_borrow() {");
    push_log_quoted(out, "no_data");
    push_call(out, "*v", "value");
    push_text(out, "} else {");
    push_log_quoted(out, "error_str");
    push_log_quoted(out, "Failed to borrow");
    push_text(out, "}");
    push_close(out);
    assert(final(out).deep_view() =~= old(out).deep_view() + refcell_impl());
}

fn push_seq_impl(out: &mut Vec<String>, g: &str, ty: &str)
    ensures
        final(out).deep_view() == old(out).deep_view() + seq_impl(g@, ty@),
{
    push_head(out, g, ty);
    push_start(out, "complex", Some("array_len"));
    push_text(out, "let len = (self.len() as u128).to_le_bytes();");
    push_data(out, "len.as_slice()");
    push_text(out, "for el in self.iter() {");
    push_call(out, "*el", "-inc-index");
    push_text(out, "}");
    push_close(out);
    assert(final(out).deep_view() =~= old(out).deep_view() + seq_impl(g@, ty@));
}

fn push_account_info_impl(out: &mut Vec<String>)
    ensures
        final(out).deep_view() == old(out).deep_view() + account_info_impl(),
{
    push_head(out, "<'a>", "solana_program::account_info::AccountInfo<'a>");
    push_start(out, "complex", Some("no_data"));
    push_call(out, "*self.key", "key");
    push_call(out, "self.lamports", "lamports");
    push_call(out, "self.data", "data");
    push_call(out, "*self.owner", "owner");
    push_call(out, "self.rent_epoch", "rent_epoch");
    push_call(out, "self.is_signer", "is_signer");
    push_call(out, "self.is_writable", "is_writable");
    push_call(out, "self.executable", "executable");
    push_close(out);
    assert(final(out).deep_view() =~= old(out).deep_view() + account_info_impl());
}

fn push_pubkey_impl(out: &mut Vec<String>)
    ensures
        final(out).deep_view() == old(out).deep_view() + pubkey_impl(),
{
    push_head(out, "", "solana_program::pubkey::Pubkey");
    push_start(out, "complex", Some("pubkey"));
    push_data(out, "self.as_ref()");
    push_close(out);
    assert(final(out).deep_view() =~= old(out).deep_view() + pubkey_impl());
}

/// The source lines of the builtin serializer module.
pub fn get_fixed_serialization() -> (r: Vec<String>)
    ensures
        r.deep_view() == fixed_serialization_text(),
{
    let mut out: Vec<String> = Vec::new();
    assert(out.deep_view() =~= Seq::<Seq<char>>::empty());
    push_prelude(&mut out);
    assert(out.deep_view() =~= prelude());
    push_number_impl(&mut out, "i8", "int", "i128");
    push_number_impl(&mut out, "i16", "int", "i128");
    push_number_impl(&mut out, "i32", "int", "i128");
    push_number_impl(&mut out, "i64", "int", "i128");
    push_number_impl(&mut out, "i128", "int", "i128");
    push_number_impl(&mut out, "u8", "uint", "u128");
    push_number_impl(&mut out, "u16", "uint", "u128");
    push_number_impl(&mut out, "u32", "uint", "u128");
    push_number_impl(&mut out, "u64", "uint", "u128");
    push_number_impl(&mut out, "u128", "uint", "u128");
    push_bool_impl(&mut out);
    push_text_impl(&mut out, "&str", "self");
    push_text_impl(&mut out, "String", "self.as_str()");
    push_option_impl(&mut out);
    push_result_impl(&mut out);
    push_pair_impl(&mut out);
    push_wrapper_impl(&mut out, "<T>", "Box<T>");
    push_rc_impl(&mut out);
    push_refcell_impl(&mut out);
    push_seq_impl(&mut out, "<T>", "Vec<T>");
    push_seq_impl(&mut out, "<T>", "&[T]");
    push_seq_impl(&mut out, "<T>", "&mut [T]");
    push_wrapper_impl(&mut out, "<T: Sized>", "&T");
    push_wrapper_impl(&mut out, "<T>", "&mut T");
    push_seq_impl(&mut out, "<T, const N: usize>", "[T; N]");
    push_account_info_impl(&mut out);
    push_pubkey_impl(&mut out);
    out
}

} // verus!
