//! Decoding a program's log into the values captured at the target line.
//!
//! The log is first reduced to the records that the program wrote itself.
//! Each capture starts with a `-.!;LINE_START;<line>` record and ends with a
//! `-.!;LINE_END` record; the records between them are a forest of nodes in
//! the wire format of [`crate::wire`].

use vstd::prelude::*;
use crate::text::{decimal, has_prefix, parsed_digits, parse_digits, push_decimal, starts_with, str_eq, suffix};
use crate::wire::{
    OutputParseError, start_node, end_node, complex_tag, primitive_tag, inc_index, line_start_prefix,
    line_end, payload_count, render_payload, payload_lines, decode_payload,
};

verus! {

/// Whether a node has children of its own.
#[derive(Clone, Copy, Debug, PartialEq, Eq, Structural)]
pub enum DebugNodeType {
    Primitive,
    Complex,
}

/// A decoded value: its slot name, full type name, displayed value and
/// children in order.
#[derive(Debug)]
pub struct DebugNode {
    pub node_type: DebugNodeType,
    pub name: String,
    pub full_type: String,
    pub value: String,
    pub children: Vec<DebugNode>,
}

/// The values captured at one execution of the target line.
#[derive(Debug)]
pub struct LineVars {
    pub line_num: usize,
    pub nodes: Vec<DebugNode>,
}

/// The model of a decoded value.
pub struct NodeView {
    pub node_type: DebugNodeType,
    pub name: Seq<char>,
    pub full_type: Seq<char>,
    pub value: Seq<char>,
    pub children: Seq<NodeView>,
}

/// The model of one capture.
pub struct CaptureView {
    pub line_num: nat,
    pub nodes: Seq<NodeView>,
}

pub open spec fn node_view(n: DebugNode) -> NodeView
    decreases n,
{
    NodeView {
        node_type: n.node_type,
        name: n.name@,
        full_type: n.full_type@,
        value: n.value@,
        children: nodes_view(n.children@),
    }
}

pub open spec fn nodes_view(v: Seq<DebugNode>) -> Seq<NodeView>
    decreases v,
{
    if v.len() == 0 {
        seq![]
    } else {
        nodes_view(v.drop_last()).push(node_view(v.last()))
    }
}

pub open spec fn captures_view(v: Seq<LineVars>) -> Seq<CaptureView>
    decreases v.len(),
{
    if v.len() == 0 {
        seq![]
    } else {
        captures_view(v.drop_last()).push(
            CaptureView { line_num: v.last().line_num as nat, nodes: nodes_view(v.last().nodes@) },
        )
    }
}

// ---------------------------------------------------------------------------
// The decoder, on the model

/// The node kind a kind tag names.
pub open spec fn node_kind(s: Seq<char>) -> Option<DebugNodeType> {
    if s == complex_tag() {
        Some(DebugNodeType::Complex)
    } else if s == primitive_tag() {
        Some(DebugNodeType::Primitive)
    } else {
        None
    }
}

/// The node whose `START_NODE` is line `pos`, and the line after its
/// `END_NODE`.
pub open spec fn parse_node(ls: Seq<Seq<char>>, pos: int) -> Result<(NodeView, int), OutputParseError>
    decreases ls.len() - pos, 0nat,
{
    if pos < 0 || pos >= ls.len() {
        Err(OutputParseError::NotEnoughLines)
    } else if ls[pos] != start_node() {
        Err(OutputParseError::UnexpectedToken)
    } else if pos + 1 >= ls.len() {
        Err(OutputParseError::NotEnoughLines)
    } else if node_kind(ls[pos + 1]) is None {
        Err(OutputParseError::InvalidNodeType)
    } else if pos + 4 >= ls.len() {
        Err(OutputParseError::NotEnoughLines)
    } else {
        match payload_count(ls[pos + 4]) {
            None => Err(OutputParseError::UnknownPayloadKind),
            Some(k) => if pos + 5 + k > ls.len() {
                Err(OutputParseError::NotEnoughLines)
            } else {
                match render_payload(ls[pos + 4], ls.subrange(pos + 5, ls.len() as int)) {
                    Err(e) => Err(e),
                    Ok(value) => match parse_children(ls, pos + 5 + k, 0) {
                        Err(e) => Err(e),
                        Ok((children, q)) => if q < 0 || q >= ls.len() {
                            Err(OutputParseError::NotEnoughLines)
                        } else if ls[q] != end_node() {
                            Err(OutputParseError::UnexpectedToken)
                        } else {
                            Ok((
                                NodeView {
                                    node_type: node_kind(ls[pos + 1])->Some_0,
                                    name: ls[pos + 2],
                                    full_type: ls[pos + 3],
                                    value,
                                    children,
                                },
                                q + 1,
                            ))
                        },
                    },
                }
            },
        }
    }
}

/// A child renamed to its position if it carries the sequence-element slot
/// name, and the next position.
pub open spec fn numbered(c: NodeView, idx: nat) -> (NodeView, nat) {
    if c.name == inc_index() {
        (NodeView { name: decimal(idx), ..c }, idx + 1)
    } else {
        (c, idx)
    }
}

/// The children that start at line `pos` (as long as the next line is
/// `START_NODE`), and the line after them; `idx` is the position that the
/// next sequence element gets.
pub open spec fn parse_children(ls: Seq<Seq<char>>, pos: int, idx: nat) -> Result<(Seq<NodeView>, int), OutputParseError>
    decreases ls.len() - pos, 1nat,
{
    if pos < 0 || pos >= ls.len() {
        Err(OutputParseError::NotEnoughLines)
    } else if ls[pos] != start_node() {
        Ok((seq![], pos))
    } else {
        match parse_node(ls, pos) {
            Err(e) => Err(e),
            Ok((c, e)) => if e <= pos || e > ls.len() {
                Err(OutputParseError::NotEnoughLines)
            } else {
                prepend(seq![numbered(c, idx).0], parse_children(ls, e, numbered(c, idx).1))
            },
        }
    }
}

pub open spec fn prepend(
    acc: Seq<NodeView>,
    r: Result<(Seq<NodeView>, int), OutputParseError>,
) -> Result<(Seq<NodeView>, int), OutputParseError> {
    match r {
        Ok((cs, q)) => Ok((acc + cs, q)),
        Err(e) => Err(e),
    }
}

/// The forest of nodes from line `pos` to the end.
pub open spec fn parse_forest(ls: Seq<Seq<char>>, pos: int) -> Result<Seq<NodeView>, OutputParseError>
    decreases ls.len() - pos,
{
    if pos < 0 || pos >= ls.len() {
        Ok(seq![])
    } else {
        match parse_node(ls, pos) {
            Err(e) => Err(e),
            Ok((n, e)) => if e <= pos || e > ls.len() {
                Err(OutputParseError::NotEnoughLines)
            } else {
                match parse_forest(ls, e) {
                    Err(x) => Err(x),
                    Ok(rest) => Ok(seq![n] + rest),
                }
            },
        }
    }
}

/// The line number that a line-start marker carries: the marker is the
/// line-start prefix, `;`, and a decimal number written in digits alone.
pub open spec fn header_line_num(s: Seq<char>) -> Result<nat, OutputParseError> {
    let p = line_start_prefix();
    if !(has_prefix(s, p) && s.len() > p.len() && s[p.len() as int] == ';') {
        Err(OutputParseError::InvalidLine)
    } else {
        match parsed_digits(s.subrange(p.len() as int + 1, s.len() as int)) {
            Some(n) => Ok(n),
            None => Err(OutputParseError::InvalidLineNumber),
        }
    }
}

/// The first line-end marker at or after `from`.
pub open spec fn first_end(ls: Seq<Seq<char>>, from: int) -> Option<int>
    decreases ls.len() - from,
{
    if from < 0 || from >= ls.len() {
        None
    } else if ls[from] == line_end() {
        Some(from)
    } else {
        first_end(ls, from + 1)
    }
}

/// The captures from line `pos` on; lines outside a capture are skipped.
pub open spec fn parse_captures(ls: Seq<Seq<char>>, pos: int) -> Result<Seq<CaptureView>, OutputParseError>
    decreases ls.len() - pos,
{
    if pos < 0 || pos >= ls.len() {
        Ok(seq![])
    } else if !has_prefix(ls[pos], line_start_prefix()) {
        parse_captures(ls, pos + 1)
    } else {
        match header_line_num(ls[pos]) {
            Err(e) => Err(e),
            Ok(n) => match first_end(ls, pos + 1) {
                None => Err(OutputParseError::LineEndNotFound),
                Some(e) => if e <= pos || e >= ls.len() {
                    Err(OutputParseError::LineEndNotFound)
                } else {
                    match parse_forest(ls.subrange(pos + 1, e), 0) {
                        Err(x) => Err(x),
                        Ok(nodes) => match parse_captures(ls, e + 1) {
                            Err(x) => Err(x),
                            Ok(rest) => Ok(seq![CaptureView { line_num: n, nodes }] + rest),
                        },
                    }
                },
            },
        }
    }
}

pub open spec fn log_tag() -> Seq<char> { "Program log:"@ }
pub open spec fn data_tag() -> Seq<char> { "Program data:"@ }
pub open spec fn log_prefix() -> Seq<char> { "Program log: "@ }
pub open spec fn data_prefix() -> Seq<char> { "Program data: "@ }

/// A log record's text without its record prefix, if the program wrote it.
pub open spec fn cleaned_line(s: Seq<char>) -> Option<Seq<char>> {
    if !(has_prefix(s, log_tag()) || has_prefix(s, data_tag())) {
        None
    } else if has_prefix(s, log_prefix()) {
        Some(s.subrange(log_prefix().len() as int, s.len() as int))
    } else if has_prefix(s, data_prefix()) {
        Some(s.subrange(data_prefix().len() as int, s.len() as int))
    } else {
        Some(s)
    }
}

/// The records that the program wrote, without their prefixes, in order.
pub open spec fn cleaned(v: Seq<Seq<char>>) -> Seq<Seq<char>>
    decreases v.len(),
{
    if v.len() == 0 {
        seq![]
    } else {
        cleaned(v.drop_last()) + match cleaned_line(v.last()) {
            Some(x) => seq![x],
            None => seq![],
        }
    }
}

pub open spec fn node_result(r: Result<(DebugNode, usize), OutputParseError>) -> Result<(NodeView, int), OutputParseError> {
    match r {
        Ok((n, e)) => Ok((node_view(n), e as int)),
        Err(x) => Err(x),
    }
}

pub open spec fn forest_result(r: Result<Vec<DebugNode>, OutputParseError>) -> Result<Seq<NodeView>, OutputParseError> {
    match r {
        Ok(v) => Ok(nodes_view(v@)),
        Err(x) => Err(x),
    }
}

pub open spec fn captures_result(r: Result<Vec<LineVars>, OutputParseError>) -> Result<Seq<CaptureView>, OutputParseError> {
    match r {
        Ok(v) => Ok(captures_view(v@)),
        Err(x) => Err(x),
    }
}

// ---------------------------------------------------------------------------
// Executable

/// The node whose `START_NODE` is line `pos` of `lines`, and the line after
/// its `END_NODE`. Children named as sequence elements are renamed to their
/// position among such children.
pub fn consume_debug_node(lines: &Vec<String>, pos: usize) -> (r: Result<(DebugNode, usize), OutputParseError>)
    ensures
        node_result(r) == parse_node(lines.deep_view(), pos as int),
    decreases lines@.len() - pos, 0nat,
{
    let ghost ls = lines.deep_view();
    let len = lines.len();
    if pos >= len {
        return Err(OutputParseError::NotEnoughLines);
    }
    if !str_eq(lines[pos].as_str(), "START_NODE") {
        return Err(OutputParseError::UnexpectedToken);
    }
    if pos + 1 >= len {
        return Err(OutputParseError::NotEnoughLines);
    }
    let node_type = if str_eq(lines[pos + 1].as_str(), "complex") {
        DebugNodeType::Complex
    } else if str_eq(lines[pos + 1].as_str(), "primitive") {
        DebugNodeType::Primitive
    } else {
        return Err(OutputParseError::InvalidNodeType);
    };
    if len - pos <= 4 {
        return Err(OutputParseError::NotEnoughLines);
    }
    let k = match payload_lines(lines[pos + 4].as_str()) {
        None => {
            return Err(OutputParseError::UnknownPayloadKind);
        },
        Some(k) => k,
    };
    if k > len - (pos + 5) {
        return Err(OutputParseError::NotEnoughLines);
    }
    let value = match decode_payload(lines[pos + 4].as_str(), lines, pos + 5) {
        Err(e) => {
            return Err(e);
        },
        Ok(v) => v,
    };
    let name = lines[pos + 2].clone();
    let full_type = lines[pos + 3].clone();
    let start = pos + 5 + k;
    let mut children: Vec<DebugNode> = Vec::new();
    let mut p: usize = start;
    let mut idx: usize = 0;
    let ghost whole = parse_children(ls, start as int, 0);
    assert(whole == prepend(nodes_view(children@), parse_children(ls, p as int, idx as nat))) by {
        assert(nodes_view(children@) =~= Seq::<NodeView>::empty());
        match parse_children(ls, p as int, idx as nat) {
            Ok((cs, q)) => { assert(Seq::<NodeView>::empty() + cs =~= cs); },
            Err(_) => {},
        }
    }
    loop
        invariant
            ls == lines.deep_view(),
            len == lines@.len(),
            pos < start <= p <= len,
            pos + 4 < len,
            ls[pos as int] == start_node(),
            node_kind(ls[pos + 1]) == Some(node_type),
            payload_count(ls[pos + 4]) == Some(k as nat),
            start == pos + 5 + k,
            render_payload(ls[pos + 4], ls.subrange(pos + 5, len as int)) == Ok::<Seq<char>, OutputParseError>(value@),
            name@ == ls[pos + 2],
            full_type@ == ls[pos + 3],
            idx <= p,
            whole == parse_children(ls, start as int, 0),
            whole == prepend(nodes_view(children@), parse_children(ls, p as int, idx as nat)),
        ensures
            p < len,
            ls[p as int] != start_node(),
            whole == Ok::<(Seq<NodeView>, int), OutputParseError>((nodes_view(children@), p as int)),
        decreases len - p,
    {
        if p >= len {
            return Err(OutputParseError::NotEnoughLines);
        }
        if !str_eq(lines[p].as_str(), "START_NODE") {
            assert(nodes_view(children@) + Seq::<NodeView>::empty() =~= nodes_view(children@));
            break;
        }
        let (mut c, e) = match consume_debug_node(lines, p) {
            Err(x) => {
                return Err(x);
            },
            Ok(pair) => pair,
        };
        if e <= p || e > len {
            return Err(OutputParseError::NotEnoughLines);
        }
        let ghost cv = node_view(c);
        let ghost nb = numbered(cv, idx as nat);
        if str_eq(c.name.as_str(), "-inc-index") {
            let mut nm = String::new();
            push_decimal(&mut nm, idx as u128);
            assert(nm@ =~= decimal(idx as nat));
            c.name = nm;
            idx += 1;
        }
        assert(node_view(c) == nb.0);
        let ghost prev = children@;
        children.push(c);
        proof {
            assert(children@.drop_last() =~= prev);
            assert(nodes_view(children@) == nodes_view(prev).push(nb.0));
            match parse_children(ls, e as int, idx as nat) {
                Ok((cs, q)) => {
                    assert(nodes_view(prev) + (seq![nb.0] + cs) =~= nodes_view(children@) + cs);
                },
                Err(_) => {},
            }
        }
        p = e;
    }
    let q = p;
    if !str_eq(lines[q].as_str(), "END_NODE") {
        return Err(OutputParseError::UnexpectedToken);
    }
    let node = DebugNode { node_type, name, full_type, value, children };
    Ok((node, q + 1))
}

/// The forest of nodes that fills `input` exactly.
pub fn parse_line_vars_nodes(input: &Vec<String>) -> (r: Result<Vec<DebugNode>, OutputParseError>)
    ensures
        forest_result(r) == parse_forest(input.deep_view(), 0),
{
    let ghost ls = input.deep_view();
    let len = input.len();
    let mut result: Vec<DebugNode> = Vec::new();
    let mut p: usize = 0;
    let ghost whole = parse_forest(ls, 0);
    assert(nodes_view(result@) =~= Seq::<NodeView>::empty());
    assert(whole == match parse_forest(ls, p as int) {
        Ok(rest) => Ok::<Seq<NodeView>, OutputParseError>(nodes_view(result@) + rest),
        Err(x) => Err(x),
    }) by {
        match parse_forest(ls, 0) {
            Ok(rest) => { assert(Seq::<NodeView>::empty() + rest =~= rest); },
            Err(_) => {},
        }
    }
    while p < len
        invariant
            ls == input.deep_view(),
            len == input@.len(),
            p <= len,
            whole == parse_forest(ls, 0),
            whole == match parse_forest(ls, p as int) {
                Ok(rest) => Ok::<Seq<NodeView>, OutputParseError>(nodes_view(result@) + rest),
                Err(x) => Err(x),
            },
        decreases len - p,
    {
        let (n, e) = match consume_debug_node(input, p) {
            Err(x) => {
                return Err(x);
            },
            Ok(pair) => pair,
        };
        if e <= p || e > len {
            return Err(OutputParseError::NotEnoughLines);
        }
        let ghost prev = result@;
        result.push(n);
        proof {
            assert(result@.drop_last() =~= prev);
            match parse_forest(ls, e as int) {
                Ok(rest) => {
                    assert(nodes_view(prev) + (seq![node_view(n)] + rest) =~= nodes_view(result@) + rest);
                },
                Err(_) => {},
            }
        }
        p = e;
    }
    assert(nodes_view(result@) + Seq::<NodeView>::empty() =~= nodes_view(result@));
    Ok(result)
}

/// The line number that a line-start marker carries.
pub fn parse_line_header(s: &str) -> (r: Result<usize, OutputParseError>)
    ensures
        r matches Ok(n) ==> header_line_num(s@) == Ok::<nat, OutputParseError>(n as nat),
        r matches Err(e) ==> header_line_num(s@) == Err::<nat, OutputParseError>(e),
{
    proof { reveal_strlit("-.!;LINE_START"); }
    let n = s.unicode_len();
    if !(starts_with(s, "-.!;LINE_START") && n > 14 && s.get_char(14) == ';') {
        return Err(OutputParseError::InvalidLine);
    }
    let tail = suffix(s, 15);
    match parse_digits(tail.as_str()) {
        Some(v) => Ok(v),
        None => Err(OutputParseError::InvalidLineNumber),
    }
}

/// The records that the program wrote (those tagged `Program log:` or
/// `Program data:`), without their record prefixes, in order.
pub fn clean_program_output(output: Vec<String>) -> (r: Vec<String>)
    ensures
        r.deep_view() == cleaned(output.deep_view()),
{
    proof {
        reveal_strlit("Program log: ");
        reveal_strlit("Program data: ");
    }
    let ghost ov = output.deep_view();
    let mut result: Vec<String> = Vec::new();
    let mut i: usize = 0;
    assert(ov.subrange(0, 0) =~= Seq::<Seq<char>>::empty());
    while i < output.len()
        invariant
            ov == output.deep_view(),
            i <= output@.len(),
            result.deep_view() == cleaned(ov.subrange(0, i as int)),
            log_prefix().len() == 13,
            data_prefix().len() == 14,
        decreases output@.len() - i,
    {
        let line = output[i].as_str();
        let ghost sub = ov.subrange(0, i as int);
        let ghost sub1 = ov.subrange(0, i + 1);
        assert(sub1.drop_last() =~= sub);
        assert(sub1.last() == line@);
        let ghost before = result.deep_view();
        if starts_with(line, "Program log:") || starts_with(line, "Program data:") {
            let kept = if starts_with(line, "Program log: ") {
                suffix(line, 13)
            } else if starts_with(line, "Program data: ") {
                suffix(line, 14)
            } else {
                let t = String::from_str(line);
                assert(t@ =~= line@);
                t
            };
            assert(cleaned_line(line@) == Some(kept@));
            result.push(kept);
            assert(result.deep_view() =~= before + seq![kept@]);
        } else {
            assert(cleaned_line(line@) is None);
            assert(before + Seq::<Seq<char>>::empty() =~= before);
        }
        i += 1;
    }
    assert(ov.subrange(0, output@.len() as int) =~= ov);
    result
}

/// The captures in a program's log, in the order in which they were written.
/// A target line that was never reached gives no capture.
pub fn parse_program_output(output: Vec<String>) -> (r: Result<Vec<LineVars>, OutputParseError>)
    ensures
        captures_result(r) == parse_captures(cleaned(output.deep_view()), 0),
{
    let ghost ov = output.deep_view();
    let lines = clean_program_output(output);
    let ghost ls = lines.deep_view();
    let len = lines.len();
    let mut result: Vec<LineVars> = Vec::new();
    let mut p: usize = 0;
    let ghost whole = parse_captures(ls, 0);
    assert(captures_view(result@) =~= Seq::<CaptureView>::empty());
    assert(whole == match parse_captures(ls, p as int) {
        Ok(rest) => Ok::<Seq<CaptureView>, OutputParseError>(captures_view(result@) + rest),
        Err(x) => Err(x),
    }) by {
        match parse_captures(ls, 0) {
            Ok(rest) => { assert(Seq::<CaptureView>::empty() + rest =~= rest); },
            Err(_) => {},
        }
    }
    while p < len
        invariant
            ls == lines.deep_view(),
            len == lines@.len(),
            p <= len,
            ls == cleaned(ov),
            ov == output.deep_view(),
            whole == parse_captures(ls, 0),
            whole == match parse_captures(ls, p as int) {
                Ok(rest) => Ok::<Seq<CaptureView>, OutputParseError>(captures_view(result@) + rest),
                Err(x) => Err(x),
            },
        decreases len - p,
    {
        if !starts_with(lines[p].as_str(), "-.!;LINE_START") {
            p += 1;
            continue;
        }
        let line_num = match parse_line_header(lines[p].as_str()) {
            Err(e) => {
                return Err(e);
            },
            Ok(n) => n,
        };
        let mut j: usize = p + 1;
        while j < len && !str_eq(lines[j].as_str(), "-.!;LINE_END")
            invariant
                ls == lines.deep_view(),
                len == lines@.len(),
                p < j <= len,
                first_end(ls, p + 1) == first_end(ls, j as int),
            decreases len - j,
        {
            j += 1;
        }
        if j >= len {
            return Err(OutputParseError::LineEndNotFound);
        }
        assert(first_end(ls, p + 1) == Some(j as int));
        let mut block: Vec<String> = Vec::new();
        let mut t: usize = p + 1;
        while t < j
            invariant
                ls == lines.deep_view(),
                len == lines@.len(),
                p < t <= j < len,
                block.deep_view() == ls.subrange(p + 1, t as int),
            decreases j - t,
        {
            let ghost before = block.deep_view();
            block.push(lines[t].clone());
            assert(block.deep_view() =~= before.push(lines[t as int]@));
            assert(ls[t as int] == lines[t as int]@);
            assert(ls.subrange(p + 1, t + 1) =~= ls.subrange(p + 1, t as int).push(ls[t as int]));
            t += 1;
        }
        let nodes = match parse_line_vars_nodes(&block) {
            Err(e) => {
                return Err(e);
            },
            Ok(v) => v,
        };
        let ghost prev = result@;
        result.push(LineVars { line_num, nodes });
        proof {
            assert(result@.drop_last() =~= prev);
            match parse_captures(ls, j + 1) {
                Ok(rest) => {
                    assert(captures_view(prev) + (seq![CaptureView { line_num: line_num as nat, nodes: nodes_view(nodes@) }] + rest)
                        =~= captures_view(result@) + rest);
                },
                Err(_) => {},
            }
        }
        p = j + 1;
    }
    assert(captures_view(result@) + Seq::<CaptureView>::empty() =~= captures_view(result@));
    Ok(result)
}

} // verus!
