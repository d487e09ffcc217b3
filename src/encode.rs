//! Writing values in the wire format: what the serializers in an
//! instrumented program emit, one log record per line.

use vstd::prelude::*;
use crate::text::{
    decimal, signed_decimal, push_decimal, push_str, has_prefix, digits_value, all_digits, unsigned_digits,
    parsed_usize, digit_char, digit_value, is_digit,
};
use crate::wire::{
    start_node, end_node, complex_tag, primitive_tag, kind_not_implemented, kind_no_data, kind_int,
    kind_uint, kind_bool, kind_str, kind_str_ident, kind_error_str, kind_rc_meta, kind_array_len,
    kind_pubkey, b64_encoded, b64_decoded, base58_text, le_bytes, b64_encode, u128_le, lemma_le_bytes_len,
};
use crate::parse::{DebugNodeType, NodeView, numbered, node_kind, parse_node, parse_children, parse_forest,
    parse_captures, cleaned, cleaned_line, log_prefix, log_tag, data_tag, data_prefix,
    header_line_num, first_end, CaptureView};
use crate::wire::{payload_count, render_payload, wide_number, signed_of, lemma_le_bytes_value, lemma_pow256_16, lemma_tokens_distinct,
    line_start_prefix, line_end};

verus! {

/// A value's payload, by payload kind.
pub enum Payload {
    NotImplemented,
    NoData,
    Int(i128),
    Uint(u128),
    Bool(bool),
    Str(String),
    StrIdent(String),
    ErrorStr(String),
    /// Strong and weak reference counts.
    RcMeta(u128, u128),
    /// Number of elements.
    ArrayLen(u128),
    /// A 32-byte account key.
    Pubkey(Vec<u8>),
}

/// A value as a serializer writes it.
pub struct WireNode {
    pub node_type: DebugNodeType,
    pub name: String,
    pub full_type: String,
    pub payload: Payload,
    pub children: Vec<WireNode>,
}

/// The 128-bit two's-complement pattern of a signed number.
pub open spec fn twos(v: int) -> nat {
    if v < 0 { (v + 0x1_0000_0000_0000_0000_0000_0000_0000_0000) as nat } else { v as nat }
}

pub open spec fn kind_tag(t: DebugNodeType) -> Seq<char> {
    match t {
        DebugNodeType::Complex => complex_tag(),
        DebugNodeType::Primitive => primitive_tag(),
    }
}

pub open spec fn payload_kind(p: Payload) -> Seq<char> {
    match p {
        Payload::NotImplemented => kind_not_implemented(),
        Payload::NoData => kind_no_data(),
        Payload::Int(_) => kind_int(),
        Payload::Uint(_) => kind_uint(),
        Payload::Bool(_) => kind_bool(),
        Payload::Str(_) => kind_str(),
        Payload::StrIdent(_) => kind_str_ident(),
        Payload::ErrorStr(_) => kind_error_str(),
        Payload::RcMeta(_, _) => kind_rc_meta(),
        Payload::ArrayLen(_) => kind_array_len(),
        Payload::Pubkey(_) => kind_pubkey(),
    }
}

/// The bytes of a boolean payload.
pub open spec fn bool_bytes(b: bool) -> Seq<u8> {
    seq![if b { 1u8 } else { 0u8 }]
}

/// A number's payload line.
pub open spec fn wide_line(n: nat) -> Seq<char> {
    b64_encoded(le_bytes(n, 16))
}

/// The payload lines of a payload.
pub open spec fn payload_text(p: Payload) -> Seq<Seq<char>> {
    match p {
        Payload::NotImplemented => seq![],
        Payload::NoData => seq![],
        Payload::Int(v) => seq![wide_line(twos(v as int))],
        Payload::Uint(v) => seq![wide_line(v as nat)],
        Payload::Bool(b) => seq![b64_encoded(bool_bytes(b))],
        Payload::Str(s) => seq![s@],
        Payload::StrIdent(s) => seq![s@],
        Payload::ErrorStr(s) => seq![s@],
        Payload::RcMeta(s, w) => seq![wide_line(s as nat), wide_line(w as nat)],
        Payload::ArrayLen(n) => seq![wide_line(n as nat)],
        Payload::Pubkey(k) => seq![b64_encoded(k@)],
    }
}

/// The displayed value that a payload decodes to.
pub open spec fn payload_value(p: Payload) -> Seq<char> {
    match p {
        Payload::NotImplemented => "[not implemented]"@,
        Payload::NoData => seq![],
        Payload::Int(v) => signed_decimal(v as int),
        Payload::Uint(v) => decimal(v as nat),
        Payload::Bool(b) => if b { "true"@ } else { "false"@ },
        Payload::Str(s) => seq!['"'] + s@ + seq!['"'],
        Payload::StrIdent(s) => s@,
        Payload::ErrorStr(s) => "Error: "@ + s@,
        Payload::RcMeta(s, w) => "strong_count="@ + decimal(s as nat) + ", weak_count="@ + decimal(w as nat),
        Payload::ArrayLen(n) => "len="@ + decimal(n as nat),
        Payload::Pubkey(k) => base58_text(k@),
    }
}

/// The payload text decodes to the bytes it was written from (as base64
/// does), and an account key has 32 bytes.
pub open spec fn payload_decodes(p: Payload) -> bool {
    match p {
        Payload::Int(v) => b64_decoded(wide_line(twos(v as int))) == Some(le_bytes(twos(v as int), 16)),
        Payload::Uint(v) => b64_decoded(wide_line(v as nat)) == Some(le_bytes(v as nat, 16)),
        Payload::Bool(b) => b64_decoded(b64_encoded(bool_bytes(b))) == Some(bool_bytes(b)),
        Payload::RcMeta(s, w) => b64_decoded(wide_line(s as nat)) == Some(le_bytes(s as nat, 16))
            && b64_decoded(wide_line(w as nat)) == Some(le_bytes(w as nat, 16)),
        Payload::ArrayLen(n) => b64_decoded(wide_line(n as nat)) == Some(le_bytes(n as nat, 16)),
        Payload::Pubkey(k) => k@.len() == 32 && b64_decoded(b64_encoded(k@)) == Some(k@),
        _ => true,
    }
}

/// Every payload of the tree decodes to the bytes it was written from.
pub open spec fn well_encoded(n: WireNode) -> bool
    decreases n,
{
    payload_decodes(n.payload) && all_well_encoded(n.children@)
}

pub open spec fn all_well_encoded(v: Seq<WireNode>) -> bool
    decreases v,
{
    v.len() > 0 ==> (all_well_encoded(v.drop_last()) && well_encoded(v.last()))
}

/// The lines a node is written as, in preorder.
pub open spec fn wire_lines(n: WireNode) -> Seq<Seq<char>>
    decreases n,
{
    seq![start_node(), kind_tag(n.node_type), n.name@, n.full_type@, payload_kind(n.payload)]
        + payload_text(n.payload) + wire_lines_list(n.children@) + seq![end_node()]
}

/// The lines of several nodes, one after the other.
pub open spec fn wire_lines_list(v: Seq<WireNode>) -> Seq<Seq<char>>
    decreases v,
{
    if v.len() == 0 {
        seq![]
    } else {
        wire_lines_list(v.drop_last()) + wire_lines(v.last())
    }
}

/// What a node decodes to.
pub open spec fn decoded(n: WireNode) -> NodeView
    decreases n, 0nat,
{
    NodeView {
        node_type: n.node_type,
        name: n.name@,
        full_type: n.full_type@,
        value: payload_value(n.payload),
        children: decoded_children(n.children@, 0),
    }
}

/// What children decode to: sequence elements are numbered from `idx` on.
pub open spec fn decoded_children(v: Seq<WireNode>, idx: nat) -> Seq<NodeView>
    decreases v, 1nat,
{
    if v.len() == 0 {
        seq![]
    } else {
        seq![numbered(decoded(v[0]), idx).0]
            + decoded_children(v.subrange(1, v.len() as int), numbered(decoded(v[0]), idx).1)
    }
}

/// What a forest of roots decodes to (roots are not renamed).
pub open spec fn decoded_list(v: Seq<WireNode>) -> Seq<NodeView>
    decreases v.len(),
{
    if v.len() == 0 {
        seq![]
    } else {
        seq![decoded(v[0])] + decoded_list(v.subrange(1, v.len() as int))
    }
}

/// Every account key in the tree has 32 bytes.
pub open spec fn keys_sized(n: WireNode) -> bool
    decreases n,
{
    (n.payload matches Payload::Pubkey(k) ==> k@.len() == 32) && all_keys_sized(n.children@)
}

pub open spec fn all_keys_sized(v: Seq<WireNode>) -> bool
    decreases v,
{
    v.len() > 0 ==> (all_keys_sized(v.drop_last()) && keys_sized(v.last()))
}

// ---------------------------------------------------------------------------
// Executable

/// A number's payload line.
fn wide(n: u128) -> (r: String)
    ensures
        r@ == wide_line(n as nat),
        b64_decoded(r@) == Some(le_bytes(n as nat, 16)),
{
    let b = u128_le(n);
    proof { lemma_le_bytes_len(n as nat, 16); }
    b64_encode(&b)
}

/// The 128-bit two's-complement pattern of a signed number.
pub fn twos_u128(v: i128) -> (r: u128)
    ensures
        r == twos(v as int),
{
    if v < 0 {
        u128::MAX - ((-(v + 1)) as u128)
    } else {
        v as u128
    }
}

/// Appends the payload lines of a payload.
fn push_payload(p: &Payload, out: &mut Vec<String>)
    requires
        p matches Payload::Pubkey(k) ==> k@.len() == 32,
    ensures
        final(out).deep_view() == old(out).deep_view() + payload_text(*p),
        payload_decodes(*p),
{
    let ghost before = out.deep_view();
    match p {
        Payload::NotImplemented => {},
        Payload::NoData => {},
        Payload::Int(v) => {
            out.push(wide(twos_u128(*v)));
        },
        Payload::Uint(v) => {
            out.push(wide(*v));
        },
        Payload::Bool(b) => {
            let mut bytes: Vec<u8> = Vec::new();
            bytes.push(if *b { 1u8 } else { 0u8 });
            assert(bytes@ =~= bool_bytes(*b));
            out.push(b64_encode(&bytes));
        },
        Payload::Str(s) => {
            out.push(s.clone());
        },
        Payload::StrIdent(s) => {
            out.push(s.clone());
        },
        Payload::ErrorStr(s) => {
            out.push(s.clone());
        },
        Payload::RcMeta(st, wk) => {
            out.push(wide(*st));
            out.push(wide(*wk));
        },
        Payload::ArrayLen(n) => {
            out.push(wide(*n));
        },
        Payload::Pubkey(k) => {
            out.push(b64_encode(k));
        },
    }
    assert(out.deep_view() =~= before + payload_text(*p));
}

fn push_text(out: &mut Vec<String>, s: String)
    ensures
        final(out).deep_view() == old(out).deep_view().push(s@),
{
    out.push(s);
    assert(out.deep_view() =~= old(out).deep_view().push(s@));
}

/// Appends the lines of a node, in preorder; every payload line decodes back
/// to the bytes it was written from.
pub fn encode_node(n: &WireNode, out: &mut Vec<String>)
    requires
        keys_sized(*n),
    ensures
        final(out).deep_view() == old(out).deep_view() + wire_lines(*n),
        well_encoded(*n),
    decreases n,
{
    let ghost start = out.deep_view();
    push_text(out, String::from_str("START_NODE"));
    match n.node_type {
        DebugNodeType::Complex => push_text(out, String::from_str("complex")),
        DebugNodeType::Primitive => push_text(out, String::from_str("primitive")),
    }
    push_text(out, n.name.clone());
    push_text(out, n.full_type.clone());
    let kind = match &n.payload {
        Payload::NotImplemented => String::from_str("not_implemented"),
        Payload::NoData => String::from_str("no_data"),
        Payload::Int(_) => String::from_str("int"),
        Payload::Uint(_) => String::from_str("uint"),
        Payload::Bool(_) => String::from_str("bool"),
        Payload::Str(_) => String::from_str("str"),
        Payload::StrIdent(_) => String::from_str("str_ident"),
        Payload::ErrorStr(_) => String::from_str("error_str"),
        Payload::RcMeta(_, _) => String::from_str("rc_meta"),
        Payload::ArrayLen(_) => String::from_str("array_len"),
        Payload::Pubkey(_) => String::from_str("pubkey"),
    };
    push_text(out, kind);
    let ghost head = out.deep_view();
    assert(head =~= start + seq![start_node(), kind_tag(n.node_type), n.name@, n.full_type@, payload_kind(n.payload)]);
    push_payload(&n.payload, out);
    let ghost body = out.deep_view();
    let mut i: usize = 0;
    assert(n.children@.subrange(0, 0) =~= Seq::<WireNode>::empty());
    assert(body + wire_lines_list(Seq::<WireNode>::empty()) =~= body);
    while i < n.children.len()
        invariant
            i <= n.children@.len(),
            keys_sized(*n),
            out.deep_view() == body + wire_lines_list(n.children@.subrange(0, i as int)),
            all_well_encoded(n.children@.subrange(0, i as int)),
        decreases n.children@.len() - i,
    {
        let ghost sub = n.children@.subrange(0, i as int);
        let ghost sub1 = n.children@.subrange(0, i + 1);
        assert(sub1.drop_last() =~= sub);
        proof {
            vstd::std_specs::vec::axiom_vec_index_decreases(n.children, i as int);
            lemma_keys_sized_child(n.children@, i as int);
        }
        encode_node(&n.children[i], out);
        assert(out.deep_view() =~= body + wire_lines_list(sub1));
        i += 1;
    }
    assert(n.children@.subrange(0, n.children@.len() as int) =~= n.children@);
    push_text(out, String::from_str("END_NODE"));
    assert(out.deep_view() =~= start + wire_lines(*n));
}

proof fn lemma_keys_sized_child(v: Seq<WireNode>, i: int)
    requires
        all_keys_sized(v),
        0 <= i < v.len(),
    ensures
        keys_sized(v[i]),
    decreases v.len(),
{
    if i < v.len() - 1 {
        lemma_keys_sized_child(v.drop_last(), i);
    }
}

/// The lines of a forest of values, one after the other; every payload line
/// decodes back to the bytes it was written from.
pub fn encode_forest(roots: &Vec<WireNode>) -> (r: Vec<String>)
    requires
        all_keys_sized(roots@),
    ensures
        r.deep_view() == wire_lines_list(roots@),
        all_well_encoded(roots@),
{
    let mut out: Vec<String> = Vec::new();
    let mut i: usize = 0;
    assert(roots@.subrange(0, 0) =~= Seq::<WireNode>::empty());
    assert(out.deep_view() =~= Seq::<Seq<char>>::empty());
    while i < roots.len()
        invariant
            i <= roots@.len(),
            all_keys_sized(roots@),
            out.deep_view() == wire_lines_list(roots@.subrange(0, i as int)),
            all_well_encoded(roots@.subrange(0, i as int)),
        decreases roots@.len() - i,
    {
        let ghost sub1 = roots@.subrange(0, i + 1);
        assert(sub1.drop_last() =~= roots@.subrange(0, i as int));
        proof { lemma_keys_sized_child(roots@, i as int); }
        encode_node(&roots[i], &mut out);
        i += 1;
    }
    assert(roots@.subrange(0, roots@.len() as int) =~= roots@);
    out
}

/// The lines of one capture: the line-start marker with the line number,
/// the forest, and the line-end marker.
pub open spec fn capture_lines(line: nat, v: Seq<WireNode>) -> Seq<Seq<char>> {
    seq![line_start_prefix() + ";"@ + decimal(line)] + wire_lines_list(v) + seq![line_end()]
}

/// Lines as the program's log records.
pub open spec fn as_records(ls: Seq<Seq<char>>) -> Seq<Seq<char>>
    decreases ls.len(),
{
    if ls.len() == 0 {
        seq![]
    } else {
        as_records(ls.drop_last()).push(log_prefix() + ls.last())
    }
}

fn log_record(out: &mut Vec<String>, line: &str)
    ensures
        final(out).deep_view() == old(out).deep_view().push(log_prefix() + line@),
{
    let mut r = String::from_str("Program log: ");
    push_str(&mut r, line);
    out.push(r);
    assert(out.deep_view() =~= old(out).deep_view().push(log_prefix() + line@));
}

/// The log records of one capture of the target line: its marker lines
/// around the lines of the forest.
pub fn encode_capture(line: usize, roots: &Vec<WireNode>) -> (r: Vec<String>)
    requires
        all_keys_sized(roots@),
    ensures
        r.deep_view() == as_records(capture_lines(line as nat, roots@)),
        all_well_encoded(roots@),
{
    let lines = encode_forest(roots);
    let mut header = String::from_str("-.!;LINE_START");
    push_str(&mut header, ";");
    push_decimal(&mut header, line as u128);
    let mut out: Vec<String> = Vec::new();
    let ghost cl = capture_lines(line as nat, roots@);
    log_record(&mut out, header.as_str());
    assert(cl[0] == header@);
    assert(out.deep_view() =~= as_records(cl.subrange(0, 1))) by {
        assert(cl.subrange(0, 1).drop_last() =~= Seq::<Seq<char>>::empty());
        assert(as_records(Seq::<Seq<char>>::empty()) =~= Seq::<Seq<char>>::empty());
    }
    let mut i: usize = 0;
    while i < lines.len()
        invariant
            i <= lines@.len(),
            lines.deep_view() == wire_lines_list(roots@),
            cl == capture_lines(line as nat, roots@),
            out.deep_view() == as_records(cl.subrange(0, i + 1)),
        decreases lines@.len() - i,
    {
        log_record(&mut out, lines[i].as_str());
        assert(cl.subrange(0, i + 2).drop_last() =~= cl.subrange(0, i + 1));
        assert(cl[i + 1] == lines[i as int]@);
        i += 1;
    }
    log_record(&mut out, "-.!;LINE_END");
    assert(cl.subrange(0, cl.len() as int).drop_last() =~= cl.subrange(0, lines@.len() as int + 1));
    assert(cl.subrange(0, cl.len() as int) =~= cl);
    out
}

// ---------------------------------------------------------------------------
// Laws

proof fn lemma_all_well_encoded_index(v: Seq<WireNode>)
    ensures
        all_well_encoded(v) <==> forall|i: int| 0 <= i < v.len() ==> well_encoded(#[trigger] v[i]),
    decreases v.len(),
{
    if v.len() > 0 {
        lemma_all_well_encoded_index(v.drop_last());
        if forall|i: int| 0 <= i < v.len() ==> well_encoded(#[trigger] v[i]) {
            assert forall|i: int| 0 <= i < v.drop_last().len() implies well_encoded(#[trigger] v.drop_last()[i]) by {
                assert(v.drop_last()[i] == v[i]);
            }
        }
        if all_well_encoded(v) {
            assert forall|i: int| 0 <= i < v.len() implies well_encoded(#[trigger] v[i]) by {
                if i < v.len() - 1 {
                    assert(v.drop_last()[i] == v[i]);
                }
            }
        }
    }
}

proof fn lemma_lines_head(v: Seq<WireNode>)
    requires
        v.len() > 0,
    ensures
        wire_lines_list(v) == wire_lines(v[0]) + wire_lines_list(v.subrange(1, v.len() as int)),
    decreases v.len(),
{
    if v.len() == 1 {
        assert(v.drop_last() =~= Seq::<WireNode>::empty());
        assert(v.subrange(1, 1) =~= Seq::<WireNode>::empty());
        assert(wire_lines_list(Seq::<WireNode>::empty()) =~= Seq::<Seq<char>>::empty());
        assert(wire_lines_list(v) =~= wire_lines(v[0]));
        assert(wire_lines(v[0]) + Seq::<Seq<char>>::empty() =~= wire_lines(v[0]));
    } else {
        lemma_lines_head(v.drop_last());
        let tail = v.subrange(1, v.len() as int);
        assert(tail.drop_last() =~= v.drop_last().subrange(1, v.len() - 1));
        assert(tail.last() == v.last());
        assert(v.drop_last()[0] == v[0]);
        assert(wire_lines_list(v) =~= wire_lines(v[0]) + wire_lines_list(tail));
    }
}

/// A payload's lines decode to its displayed value.
proof fn lemma_payload(p: Payload, q: Seq<Seq<char>>)
    requires
        payload_decodes(p),
        payload_text(p).len() <= q.len(),
        q.subrange(0, payload_text(p).len() as int) == payload_text(p),
    ensures
        payload_count(payload_kind(p)) == Some(payload_text(p).len()),
        render_payload(payload_kind(p), q) == Ok::<Seq<char>, crate::wire::OutputParseError>(payload_value(p)),
{
    lemma_tokens_distinct();
    lemma_pow256_16();
    let t = payload_text(p);
    if t.len() > 0 {
        assert(q[0] == t[0]);
    }
    if t.len() > 1 {
        assert(q[1] == t[1]);
    }
    match p {
        Payload::Int(v) => {
            lemma_le_bytes_value(twos(v as int), 16);
            assert(wide_number(q[0]) == Some(twos(v as int)));
            assert(signed_of(twos(v as int)) == v as int);
        },
        Payload::Uint(v) => {
            lemma_le_bytes_value(v as nat, 16);
        },
        Payload::RcMeta(a, b) => {
            lemma_le_bytes_value(a as nat, 16);
            lemma_le_bytes_value(b as nat, 16);
        },
        Payload::ArrayLen(v) => {
            lemma_le_bytes_value(v as nat, 16);
        },
        _ => {},
    }
}

/// One node: wherever a node's lines stand, followed by any lines at all,
/// decoding at their start gives what the node displays as and stops right
/// after its `END_NODE`.
pub proof fn lemma_decode_node(n: WireNode, ls: Seq<Seq<char>>, pos: int)
    requires
        well_encoded(n),
        0 <= pos,
        pos + wire_lines(n).len() <= ls.len(),
        ls.subrange(pos, pos + wire_lines(n).len()) == wire_lines(n),
    ensures
        parse_node(ls, pos) == Ok::<(NodeView, int), crate::wire::OutputParseError>((decoded(n), pos + wire_lines(n).len())),
    decreases n, 0nat,
{
    lemma_tokens_distinct();
    let w = wire_lines(n);
    let t = payload_text(n.payload);
    let cl = wire_lines_list(n.children@);
    let k = t.len();
    assert(w.len() == 6 + k + cl.len());
    assert(ls[pos] == w[0]);
    assert(ls[pos + 1] == w[1]);
    assert(ls[pos + 2] == w[2]);
    assert(ls[pos + 3] == w[3]);
    assert(ls[pos + 4] == w[4]);
    assert(node_kind(kind_tag(n.node_type)) == Some(n.node_type));
    let q = ls.subrange(pos + 5, ls.len() as int);
    assert(q.subrange(0, k as int) =~= t) by {
        assert forall|i: int| 0 <= i < k implies q[i] == t[i] by {
            assert(q[i] == ls[pos + 5 + i]);
            assert(ls[pos + 5 + i] == w[5 + i]);
        }
    }
    lemma_payload(n.payload, q);
    let c0 = pos + 5 + k;
    assert(ls.subrange(c0, c0 + cl.len()) =~= cl) by {
        assert forall|i: int| 0 <= i < cl.len() implies ls[c0 + i] == cl[i] by {
            assert(ls[c0 + i] == w[5 + k + i]);
        }
    }
    assert(ls[c0 + cl.len()] == w[w.len() - 1]);
    lemma_decode_children(n.children@, ls, c0, 0);
}

proof fn lemma_decode_children(v: Seq<WireNode>, ls: Seq<Seq<char>>, pos: int, idx: nat)
    requires
        all_well_encoded(v),
        0 <= pos,
        pos + wire_lines_list(v).len() < ls.len(),
        ls.subrange(pos, pos + wire_lines_list(v).len()) == wire_lines_list(v),
        ls[pos + wire_lines_list(v).len()] == end_node(),
    ensures
        parse_children(ls, pos, idx) == Ok::<(Seq<NodeView>, int), crate::wire::OutputParseError>(
            (decoded_children(v, idx), pos + wire_lines_list(v).len()),
        ),
    decreases v, 1nat,
{
    lemma_tokens_distinct();
    if v.len() == 0 {
        assert(wire_lines_list(v).len() == 0);
    } else {
        lemma_lines_head(v);
        lemma_all_well_encoded_index(v);
        let tail = v.subrange(1, v.len() as int);
        lemma_all_well_encoded_index(tail);
        assert forall|i: int| 0 <= i < tail.len() implies well_encoded(#[trigger] tail[i]) by {
            assert(tail[i] == v[i + 1]);
        }
        let w0 = wire_lines(v[0]);
        let lt = wire_lines_list(tail);
        assert(ls.subrange(pos, pos + w0.len()) =~= w0) by {
            assert forall|i: int| 0 <= i < w0.len() implies ls[pos + i] == w0[i] by {
                assert(ls[pos + i] == wire_lines_list(v)[i]);
            }
        }
        assert(ls[pos] == w0[0]);
        lemma_decode_node(v[0], ls, pos);
        let e = pos + w0.len();
        assert(ls.subrange(e, e + lt.len()) =~= lt) by {
            assert forall|i: int| 0 <= i < lt.len() implies ls[e + i] == lt[i] by {
                assert(ls[e + i] == wire_lines_list(v)[w0.len() + i]);
            }
        }
        let nb = numbered(decoded(v[0]), idx);
        lemma_decode_children(tail, ls, e, nb.1);
        assert(seq![nb.0] + decoded_children(tail, nb.1) == decoded_children(v, idx));
    }
}

proof fn lemma_decode_forest(v: Seq<WireNode>, ls: Seq<Seq<char>>, pos: int)
    requires
        all_well_encoded(v),
        0 <= pos,
        pos + wire_lines_list(v).len() == ls.len(),
        ls.subrange(pos, ls.len() as int) == wire_lines_list(v),
    ensures
        parse_forest(ls, pos) == Ok::<Seq<NodeView>, crate::wire::OutputParseError>(decoded_list(v)),
    decreases v.len(),
{
    if v.len() > 0 {
        lemma_lines_head(v);
        lemma_all_well_encoded_index(v);
        let tail = v.subrange(1, v.len() as int);
        lemma_all_well_encoded_index(tail);
        assert forall|i: int| 0 <= i < tail.len() implies well_encoded(#[trigger] tail[i]) by {
            assert(tail[i] == v[i + 1]);
        }
        let w0 = wire_lines(v[0]);
        let lt = wire_lines_list(tail);
        assert(ls.subrange(pos, pos + w0.len()) =~= w0) by {
            assert forall|i: int| 0 <= i < w0.len() implies ls[pos + i] == w0[i] by {
                assert(ls[pos + i] == wire_lines_list(v)[i]);
            }
        }
        lemma_decode_node(v[0], ls, pos);
        let e = pos + w0.len();
        assert(ls.subrange(e, ls.len() as int) =~= lt) by {
            assert forall|i: int| 0 <= i < lt.len() implies ls[e + i] == lt[i] by {
                assert(ls[e + i] == wire_lines_list(v)[w0.len() + i]);
            }
        }
        lemma_decode_forest(tail, ls, e);
    } else {
        assert(wire_lines_list(v).len() == 0);
    }
}

/// Round trip and well-formedness: the lines written for a forest of values
/// decode, consuming every line, to exactly what those values display as.
/// (Every forest that [`encode_forest`] writes is `all_well_encoded`.)
pub proof fn lemma_round_trip(v: Seq<WireNode>)
    requires
        all_well_encoded(v),
    ensures
        parse_forest(wire_lines_list(v), 0) == Ok::<Seq<NodeView>, crate::wire::OutputParseError>(decoded_list(v)),
{
    let ls = wire_lines_list(v);
    assert(ls.subrange(0, ls.len() as int) =~= ls);
    lemma_decode_forest(v, ls, 0);
}

proof fn lemma_decimal_digits(n: nat)
    ensures
        decimal(n).len() > 0,
        all_digits(decimal(n)),
        digits_value(decimal(n)) == n,
    decreases n,
{
    let d = decimal(n);
    if n < 10 {
        assert(d.drop_last() =~= Seq::<char>::empty());
        assert(digit_value(digit_char(n)) == n);
        assert(is_digit(d[0]));
        assert(d.last() != ';');
        assert(digits_value(Seq::<char>::empty()) == 0);
        assert(digits_value(d) == n);
    } else {
        lemma_decimal_digits(n / 10);
        let p = decimal(n / 10);
        assert(d.drop_last() =~= p);
        assert(digit_value(digit_char(n % 10)) == n % 10);
        assert(is_digit(digit_char(n % 10)));
        assert(d.last() == digit_char(n % 10));
        assert(d.last() != ';');
        assert(n == (n / 10) * 10 + n % 10);
        assert(digits_value(d) == digits_value(p) * 10 + digit_value(d.last()));
        assert forall|i: int| 0 <= i < d.len() implies is_digit(#[trigger] d[i]) by {
            if i < p.len() {
                assert(d[i] == p[i]);
            }
        }
    }
}

proof fn lemma_header(line: nat)
    requires
        line <= usize::MAX,
    ensures
        header_line_num(line_start_prefix() + ";"@ + decimal(line)) == Ok::<nat, crate::wire::OutputParseError>(line),
        has_prefix(line_start_prefix() + ";"@ + decimal(line), line_start_prefix()),
{
    reveal_strlit("-.!;LINE_START");
    reveal_strlit(";");
    let p = line_start_prefix();
    let h = p + ";"@ + decimal(line);
    lemma_decimal_digits(line);
    assert(h.subrange(0, p.len() as int) =~= p);
    assert(h[p.len() as int] == ';');
    assert(h.subrange(p.len() as int + 1, h.len() as int) =~= decimal(line));
    assert(is_digit(decimal(line)[0]));
    assert(decimal(line)[0] != '+');
    assert(unsigned_digits(decimal(line)) == decimal(line));
    assert(parsed_usize(decimal(line)) == Some(line));
}

proof fn lemma_cleaned_records(ls: Seq<Seq<char>>)
    ensures
        cleaned(as_records(ls)) == ls,
    decreases ls.len(),
{
    reveal_strlit("Program log: ");
    reveal_strlit("Program log:");
    if ls.len() > 0 {
        lemma_cleaned_records(ls.drop_last());
        let r = log_prefix() + ls.last();
        assert(as_records(ls).drop_last() =~= as_records(ls.drop_last()));
        assert(r.subrange(0, log_tag().len() as int) =~= log_tag());
        assert(r.subrange(0, log_prefix().len() as int) =~= log_prefix());
        assert(r.subrange(log_prefix().len() as int, r.len() as int) =~= ls.last());
        assert(cleaned_line(r) == Some(ls.last()));
        assert(ls.drop_last().push(ls.last()) =~= ls);
    }
}

proof fn lemma_first_end(ls: Seq<Seq<char>>, from: int, e: int)
    requires
        0 <= from <= e < ls.len(),
        ls[e] == line_end(),
        forall|i: int| from <= i < e ==> ls[i] != line_end(),
    ensures
        first_end(ls, from) == Some(e),
    decreases e - from,
{
    if from < e {
        lemma_first_end(ls, from + 1, e);
    }
}

/// Round trip of a whole capture: the log records written for one
/// execution of the target line decode to one capture of that line holding
/// exactly what the captured values display as, as long as no line of the
/// forest reads as the line-end marker.
pub proof fn lemma_capture_round_trip(line: nat, v: Seq<WireNode>)
    requires
        all_well_encoded(v),
        line <= usize::MAX,
        !wire_lines_list(v).contains(line_end()),
    ensures
        parse_captures(cleaned(as_records(capture_lines(line, v))), 0)
            == Ok::<Seq<CaptureView>, crate::wire::OutputParseError>(seq![CaptureView { line_num: line, nodes: decoded_list(v) }]),
{
    let ls = capture_lines(line, v);
    let w = wire_lines_list(v);
    lemma_cleaned_records(ls);
    lemma_header(line);
    let e: int = w.len() as int + 1;
    assert forall|i: int| 1 <= i < e implies ls[i] != line_end() by {
        assert(ls[i] == w[i - 1]);
    }
    lemma_first_end(ls, 1, e);
    assert(ls.subrange(1, e) =~= w);
    lemma_round_trip(v);
    assert(parse_captures(ls, e + 1) == Ok::<Seq<CaptureView>, crate::wire::OutputParseError>(seq![]));
    assert(seq![CaptureView { line_num: line, nodes: decoded_list(v) }] + Seq::<CaptureView>::empty()
        =~= seq![CaptureView { line_num: line, nodes: decoded_list(v) }]);
}

proof fn lemma_first_end_shift(a: Seq<Seq<char>>, b: Seq<Seq<char>>, q: int)
    requires
        0 <= q,
    ensures
        first_end(b, q) matches Some(e) ==> first_end(a + b, a.len() + q) == Some(e + a.len()),
        first_end(b, q) is None ==> first_end(a + b, a.len() + q) is None,
    decreases b.len() - q,
{
    if q < b.len() {
        assert((a + b)[a.len() + q] == b[q]);
        lemma_first_end_shift(a, b, q + 1);
    }
}

/// Decoding the captures from a position on does not depend on the records
/// before it.
proof fn lemma_captures_shift(a: Seq<Seq<char>>, b: Seq<Seq<char>>, p: int)
    requires
        0 <= p,
    ensures
        parse_captures(a + b, a.len() + p) == parse_captures(b, p),
    decreases b.len() - p,
{
    let ab = a + b;
    let k = a.len() as int;
    if p < b.len() {
        assert(ab[k + p] == b[p]);
        if !has_prefix(b[p], line_start_prefix()) {
            lemma_captures_shift(a, b, p + 1);
        } else {
            lemma_first_end_shift(a, b, p + 1);
            match first_end(b, p + 1) {
                Some(e) => {
                    if e > p && e < b.len() {
                        assert(ab.subrange(k + p + 1, k + e) =~= b.subrange(p + 1, e));
                        lemma_captures_shift(a, b, e + 1);
                    }
                },
                None => {},
            }
        }
    }
}

/// Several captures, one after the other: (line number, forest) each.
pub open spec fn captures_lines(cs: Seq<(nat, Seq<WireNode>)>) -> Seq<Seq<char>>
    decreases cs.len(),
{
    if cs.len() == 0 {
        seq![]
    } else {
        capture_lines(cs[0].0, cs[0].1) + captures_lines(cs.subrange(1, cs.len() as int))
    }
}

/// What several captures decode to.
pub open spec fn captures_decoded(cs: Seq<(nat, Seq<WireNode>)>) -> Seq<CaptureView>
    decreases cs.len(),
{
    if cs.len() == 0 {
        seq![]
    } else {
        seq![CaptureView { line_num: cs[0].0, nodes: decoded_list(cs[0].1) }]
            + captures_decoded(cs.subrange(1, cs.len() as int))
    }
}

/// A capture can be written and read back: its forest's payloads decode, its
/// line number fits, and no line of the forest reads as the line-end marker.
pub open spec fn capture_ok(c: (nat, Seq<WireNode>)) -> bool {
    all_well_encoded(c.1) && c.0 <= usize::MAX && !wire_lines_list(c.1).contains(line_end())
}

proof fn lemma_captures_parse(cs: Seq<(nat, Seq<WireNode>)>)
    requires
        forall|i: int| 0 <= i < cs.len() ==> capture_ok(#[trigger] cs[i]),
    ensures
        parse_captures(captures_lines(cs), 0) == Ok::<Seq<CaptureView>, crate::wire::OutputParseError>(captures_decoded(cs)),
    decreases cs.len(),
{
    if cs.len() > 0 {
        let tail = cs.subrange(1, cs.len() as int);
        assert forall|i: int| 0 <= i < tail.len() implies capture_ok(#[trigger] tail[i]) by {
            assert(tail[i] == cs[i + 1]);
        }
        lemma_captures_parse(tail);
        assert(capture_ok(cs[0]));
        let line = cs[0].0;
        let v = cs[0].1;
        let first = capture_lines(line, v);
        let rest = captures_lines(tail);
        let ls = first + rest;
        let w = wire_lines_list(v);
        lemma_header(line);
        assert(ls[0] == first[0]);
        let e: int = w.len() as int + 1;
        assert forall|i: int| 1 <= i < e implies ls[i] != line_end() by {
            assert(ls[i] == w[i - 1]);
        }
        assert(ls[e] == line_end());
        lemma_first_end(ls, 1, e);
        assert(ls.subrange(1, e) =~= w);
        lemma_round_trip(v);
        lemma_captures_shift(first, rest, 0);
        assert(first.len() == e + 1);
    }
}

/// Multiple hits: the log records of several captures written one after the
/// other decode to one capture per hit, in order, each with its own line
/// number and exactly what its own values display as.
pub proof fn lemma_captures_round_trip(cs: Seq<(nat, Seq<WireNode>)>)
    requires
        forall|i: int| 0 <= i < cs.len() ==> capture_ok(#[trigger] cs[i]),
    ensures
        parse_captures(cleaned(as_records(captures_lines(cs))), 0)
            == Ok::<Seq<CaptureView>, crate::wire::OutputParseError>(captures_decoded(cs)),
{
    lemma_cleaned_records(captures_lines(cs));
    lemma_captures_parse(cs);
}

/// Root order: a decoded forest has one root per written root, in the same
/// order, each under its own slot name (roots are never renumbered).
pub proof fn lemma_roots_in_order(v: Seq<WireNode>)
    ensures
        decoded_list(v).len() == v.len(),
        forall|i: int| 0 <= i < v.len() ==> #[trigger] decoded_list(v)[i] == decoded(v[i]),
        forall|i: int| 0 <= i < v.len() ==> #[trigger] decoded_list(v)[i].name == v[i].name@,
    decreases v.len(),
{
    if v.len() > 0 {
        let tail = v.subrange(1, v.len() as int);
        lemma_roots_in_order(tail);
        assert forall|i: int| 0 <= i < v.len() implies #[trigger] decoded_list(v)[i] == decoded(v[i]) by {
            if i > 0 {
                assert(decoded_list(v)[i] == decoded_list(tail)[i - 1]);
                assert(tail[i - 1] == v[i]);
            }
        }
        assert forall|i: int| 0 <= i < v.len() implies #[trigger] decoded_list(v)[i].name == v[i].name@ by {
            assert(decoded_list(v)[i] == decoded(v[i]));
        }
    }
}

/// Lines that are no line-start marker.
pub open spec fn quiet(noise: Seq<Seq<char>>) -> bool {
    forall|i: int| 0 <= i < noise.len() ==> !has_prefix(#[trigger] noise[i], line_start_prefix())
}

proof fn lemma_skip_noise(noise: Seq<Seq<char>>, rest: Seq<Seq<char>>)
    requires
        quiet(noise),
    ensures
        parse_captures(noise + rest, 0) == parse_captures(rest, 0),
    decreases noise.len(),
{
    if noise.len() > 0 {
        let n1 = noise.subrange(1, noise.len() as int);
        assert forall|i: int| 0 <= i < n1.len() implies !has_prefix(#[trigger] n1[i], line_start_prefix()) by {
            assert(n1[i] == noise[i + 1]);
        }
        lemma_skip_noise(n1, rest);
        let head = seq![noise[0]];
        assert(noise + rest =~= head + (n1 + rest));
        assert(!has_prefix(noise[0], line_start_prefix()));
        assert((noise + rest)[0] == noise[0]);
        lemma_captures_shift(head, n1 + rest, 0);
    }
}

/// Captures with other records before each of them: (records before, line
/// number, forest) each.
pub open spec fn noisy_captures_lines(cs: Seq<(Seq<Seq<char>>, nat, Seq<WireNode>)>) -> Seq<Seq<char>>
    decreases cs.len(),
{
    if cs.len() == 0 {
        seq![]
    } else {
        cs[0].0 + capture_lines(cs[0].1, cs[0].2) + noisy_captures_lines(cs.subrange(1, cs.len() as int))
    }
}

pub open spec fn noisy_captures_decoded(cs: Seq<(Seq<Seq<char>>, nat, Seq<WireNode>)>) -> Seq<CaptureView>
    decreases cs.len(),
{
    if cs.len() == 0 {
        seq![]
    } else {
        seq![CaptureView { line_num: cs[0].1, nodes: decoded_list(cs[0].2) }]
            + noisy_captures_decoded(cs.subrange(1, cs.len() as int))
    }
}

pub open spec fn noisy_capture_ok(c: (Seq<Seq<char>>, nat, Seq<WireNode>)) -> bool {
    quiet(c.0) && capture_ok((c.1, c.2))
}

proof fn lemma_noisy_captures_parse(cs: Seq<(Seq<Seq<char>>, nat, Seq<WireNode>)>, tail: Seq<Seq<char>>)
    requires
        forall|i: int| 0 <= i < cs.len() ==> noisy_capture_ok(#[trigger] cs[i]),
        quiet(tail),
    ensures
        parse_captures(noisy_captures_lines(cs) + tail, 0)
            == Ok::<Seq<CaptureView>, crate::wire::OutputParseError>(noisy_captures_decoded(cs)),
    decreases cs.len(),
{
    if cs.len() == 0 {
        assert(noisy_captures_lines(cs) + tail =~= tail + Seq::<Seq<char>>::empty());
        lemma_skip_noise(tail, Seq::<Seq<char>>::empty());
    } else {
        let rest_cs = cs.subrange(1, cs.len() as int);
        assert forall|i: int| 0 <= i < rest_cs.len() implies noisy_capture_ok(#[trigger] rest_cs[i]) by {
            assert(rest_cs[i] == cs[i + 1]);
        }
        lemma_noisy_captures_parse(rest_cs, tail);
        assert(noisy_capture_ok(cs[0]));
        let noise = cs[0].0;
        let line = cs[0].1;
        let v = cs[0].2;
        let first = capture_lines(line, v);
        let rest = noisy_captures_lines(rest_cs) + tail;
        let ls = first + rest;
        assert(noisy_captures_lines(cs) + tail =~= noise + ls);
        lemma_skip_noise(noise, ls);
        let w = wire_lines_list(v);
        lemma_header(line);
        assert(ls[0] == first[0]);
        let e: int = w.len() as int + 1;
        assert forall|i: int| 1 <= i < e implies ls[i] != line_end() by {
            assert(ls[i] == w[i - 1]);
        }
        assert(ls[e] == line_end());
        lemma_first_end(ls, 1, e);
        assert(ls.subrange(1, e) =~= w);
        lemma_round_trip(v);
        lemma_captures_shift(first, rest, 0);
        assert(first.len() == e + 1);
    }
}

/// Multiple hits among other records: captures written one after the
/// other, with any records that are no line-start marker before, between
/// and after them, decode to one capture per hit, in order, each with its
/// own line number and exactly what its own values display as.
pub proof fn lemma_noisy_captures_round_trip(cs: Seq<(Seq<Seq<char>>, nat, Seq<WireNode>)>, tail: Seq<Seq<char>>)
    requires
        forall|i: int| 0 <= i < cs.len() ==> noisy_capture_ok(#[trigger] cs[i]),
        quiet(tail),
    ensures
        parse_captures(cleaned(as_records(noisy_captures_lines(cs) + tail)), 0)
            == Ok::<Seq<CaptureView>, crate::wire::OutputParseError>(noisy_captures_decoded(cs)),
{
    lemma_cleaned_records(noisy_captures_lines(cs) + tail);
    lemma_noisy_captures_parse(cs, tail);
}

} // verus!
