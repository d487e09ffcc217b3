//! The line-oriented wire protocol: its tokens, the payload kinds, and how a
//! payload's lines turn into a displayed value.
//!
//! A node is written in preorder as `START_NODE`, its kind tag (`complex` or
//! `primitive`), its slot name, its full type name, its payload kind, the
//! payload lines, its children, and `END_NODE`. Numbers travel as base64 of
//! 16 little-endian bytes; strings travel as raw text.

use vstd::prelude::*;
use crate::text::{decimal, signed_decimal, push_decimal, push_char, push_str, str_eq};

verus! {

/// Why a wire stream could not be decoded.
#[derive(Clone, Copy, Debug, PartialEq, Eq, Structural)]
pub enum OutputParseError {
    /// A line-start marker without exactly three `;`-separated parts.
    InvalidLine,
    /// A line-start marker whose line number is not a decimal number.
    InvalidLineNumber,
    /// A line-start marker with no line-end marker after it.
    LineEndNotFound,
    /// The stream ended inside a node.
    NotEnoughLines,
    /// A `START_NODE` or `END_NODE` token was expected and another line found.
    UnexpectedToken,
    /// A kind tag other than `complex` and `primitive`.
    InvalidNodeType,
    /// A payload line that is not base64 of the expected number of bytes.
    DecodeError,
    /// A payload kind that the protocol does not have.
    UnknownPayloadKind,
}

pub open spec fn start_node() -> Seq<char> { "START_NODE"@ }
pub open spec fn end_node() -> Seq<char> { "END_NODE"@ }
pub open spec fn complex_tag() -> Seq<char> { "complex"@ }
pub open spec fn primitive_tag() -> Seq<char> { "primitive"@ }
/// The slot name of a sequence element, replaced by its position when decoded.
pub open spec fn inc_index() -> Seq<char> { "-inc-index"@ }
/// The start of a capture's opening marker line.
pub open spec fn line_start_prefix() -> Seq<char> { "-.!;LINE_START"@ }
/// A capture's closing marker line.
pub open spec fn line_end() -> Seq<char> { "-.!;LINE_END"@ }

pub open spec fn kind_not_implemented() -> Seq<char> { "not_implemented"@ }
pub open spec fn kind_no_data() -> Seq<char> { "no_data"@ }
pub open spec fn kind_int() -> Seq<char> { "int"@ }
pub open spec fn kind_uint() -> Seq<char> { "uint"@ }
pub open spec fn kind_bool() -> Seq<char> { "bool"@ }
pub open spec fn kind_str() -> Seq<char> { "str"@ }
pub open spec fn kind_str_ident() -> Seq<char> { "str_ident"@ }
pub open spec fn kind_error_str() -> Seq<char> { "error_str"@ }
pub open spec fn kind_rc_meta() -> Seq<char> { "rc_meta"@ }
pub open spec fn kind_array_len() -> Seq<char> { "array_len"@ }
pub open spec fn kind_pubkey() -> Seq<char> { "pubkey"@ }

/// The protocol's tokens differ from each other: their lengths and first
/// characters tell them apart.
pub proof fn lemma_tokens_distinct()
    ensures
        start_node().len() == 10,
        end_node().len() == 8,
        complex_tag().len() == 7,
        primitive_tag().len() == 9,
        kind_not_implemented().len() == 15,
        kind_no_data().len() == 7 && kind_no_data()[0] == 'n',
        kind_rc_meta().len() == 7 && kind_rc_meta()[0] == 'r',
        kind_int().len() == 3 && kind_int()[0] == 'i',
        kind_str().len() == 3 && kind_str()[0] == 's',
        kind_uint().len() == 4 && kind_uint()[0] == 'u',
        kind_bool().len() == 4 && kind_bool()[0] == 'b',
        kind_pubkey().len() == 6,
        kind_str_ident().len() == 9 && kind_str_ident()[0] == 's',
        kind_error_str().len() == 9 && kind_error_str()[0] == 'e',
        kind_array_len().len() == 9 && kind_array_len()[0] == 'a',
{
    reveal_strlit("START_NODE");
    reveal_strlit("END_NODE");
    reveal_strlit("complex");
    reveal_strlit("primitive");
    reveal_strlit("not_implemented");
    reveal_strlit("no_data");
    reveal_strlit("rc_meta");
    reveal_strlit("int");
    reveal_strlit("str");
    reveal_strlit("uint");
    reveal_strlit("bool");
    reveal_strlit("pubkey");
    reveal_strlit("str_ident");
    reveal_strlit("error_str");
    reveal_strlit("array_len");
}

// ---------------------------------------------------------------------------
// Outside: base64 and the account-key text

/// What base64 decoding (standard alphabet, padded) gives for a text, if the
/// text is valid.
pub uninterp spec fn b64_decoded(s: Seq<char>) -> Option<Seq<u8>>;

/// The base64 text (standard alphabet, padded) of some bytes.
pub uninterp spec fn b64_encoded(b: Seq<u8>) -> Seq<char>;

/// The base58 text of a 32-byte account key.
pub uninterp spec fn base58_text(b: Seq<u8>) -> Seq<char>;

/// Relies on base64's `STANDARD` engine `decode`: the bytes a valid text
/// stands for, and an error for any other text.
#[verifier::external_body]
pub(crate) fn b64_decode(s: &str) -> (r: Option<Vec<u8>>)
    ensures
        r matches Some(v) ==> b64_decoded(s@) == Some(v@),
        r is None ==> b64_decoded(s@) is None,
{
    base64::Engine::decode(&base64::engine::general_purpose::STANDARD, s).ok()
}

/// Relies on base64's `STANDARD` engine `encode`: the padded text of the
/// bytes, which the same engine's `decode` turns back into those bytes.
#[verifier::external_body]
pub(crate) fn b64_encode(b: &Vec<u8>) -> (r: String)
    requires
        b@.len() < usize::MAX / 2,
    ensures
        r@ == b64_encoded(b@),
        b64_decoded(r@) == Some(b@),
{
    base64::Engine::encode(&base64::engine::general_purpose::STANDARD, b)
}

/// Relies on solana-sdk's `Pubkey::from([u8; 32])` and its `Display`, which
/// writes the key's 32 bytes in base58.
#[verifier::external_body]
pub(crate) fn pubkey_text(b: &Vec<u8>) -> (r: String)
    requires
        b@.len() == 32,
    ensures
        r@ == base58_text(b@),
{
    let arr: [u8; 32] = b.as_slice().try_into().unwrap();
    solana_sdk::pubkey::Pubkey::from(arr).to_string()
}

// ---------------------------------------------------------------------------
// Little-endian numbers

/// `256` to the power `n`.
pub open spec fn pow256(n: nat) -> nat
    decreases n,
{
    if n == 0 { 1 } else { 256 * pow256((n - 1) as nat) }
}

/// The number that little-endian bytes stand for.
pub open spec fn le_value(b: Seq<u8>) -> nat
    decreases b.len(),
{
    if b.len() == 0 { 0 } else { b[0] as nat + 256 * le_value(b.subrange(1, b.len() as int)) }
}

/// The `k` little-endian bytes of `n` (taken modulo `256^k`).
pub open spec fn le_bytes(n: nat, k: nat) -> Seq<u8>
    decreases k,
{
    if k == 0 { seq![] } else { seq![(n % 256) as u8] + le_bytes(n / 256, (k - 1) as nat) }
}

/// The signed number that a 128-bit two's-complement pattern stands for.
pub open spec fn signed_of(u: nat) -> int {
    if u >= 0x8000_0000_0000_0000_0000_0000_0000_0000 {
        u - 0x1_0000_0000_0000_0000_0000_0000_0000_0000
    } else {
        u as int
    }
}

pub proof fn lemma_pow256_16()
    ensures
        pow256(16) == 0x1_0000_0000_0000_0000_0000_0000_0000_0000,
{
    reveal_with_fuel(pow256, 17);
}

pub proof fn lemma_le_value_bound(b: Seq<u8>)
    ensures
        le_value(b) < pow256(b.len()),
    decreases b.len(),
{
    if b.len() > 0 {
        lemma_le_value_bound(b.subrange(1, b.len() as int));
        let r = le_value(b.subrange(1, b.len() as int));
        let p = pow256((b.len() - 1) as nat);
        assert(b[0] as nat + 256 * r < 256 * p) by (nonlinear_arith)
            requires b[0] < 256, r < p;
    }
}

pub proof fn lemma_le_bytes_len(n: nat, k: nat)
    ensures
        le_bytes(n, k).len() == k,
    decreases k,
{
    if k > 0 {
        lemma_le_bytes_len(n / 256, (k - 1) as nat);
    }
}

/// Little-endian bytes read back give the number they were written from.
pub proof fn lemma_le_bytes_value(n: nat, k: nat)
    requires
        n < pow256(k),
    ensures
        le_bytes(n, k).len() == k,
        le_value(le_bytes(n, k)) == n,
    decreases k,
{
    if k > 0 {
        let p = pow256((k - 1) as nat);
        assert(n / 256 < p) by (nonlinear_arith)
            requires n < 256 * p;
        lemma_le_bytes_value(n / 256, (k - 1) as nat);
        let b = le_bytes(n, k);
        assert(b.subrange(1, b.len() as int) =~= le_bytes(n / 256, (k - 1) as nat));
        assert(n == n % 256 + 256 * (n / 256)) by (nonlinear_arith);
    }
}

/// The number held in 16 little-endian bytes.
pub fn le_u128(b: &Vec<u8>) -> (r: u128)
    requires
        b@.len() == 16,
    ensures
        r == le_value(b@),
{
    let mut i: usize = 16;
    let mut v: u128 = 0;
    proof {
        lemma_pow256_16();
        assert(b@.subrange(16, 16) =~= Seq::<u8>::empty());
    }
    while i > 0
        invariant
            b@.len() == 16,
            i <= 16,
            v == le_value(b@.subrange(i as int, 16)),
            pow256(16) == 0x1_0000_0000_0000_0000_0000_0000_0000_0000,
        decreases i,
    {
        let ghost tail = b@.subrange(i as int, 16);
        let ghost whole = b@.subrange(i - 1, 16);
        proof {
            assert(whole.subrange(1, whole.len() as int) =~= tail);
            lemma_le_value_bound(whole);
            lemma_pow_mono((whole.len()) as nat, 16);
        }
        v = b[i - 1] as u128 + 256 * v;
        i -= 1;
    }
    assert(b@.subrange(0, 16) =~= b@);
    v
}

pub proof fn lemma_pow_mono(a: nat, b: nat)
    requires
        a <= b,
    ensures
        pow256(a) <= pow256(b),
    decreases b,
{
    if a < b {
        lemma_pow_mono(a, (b - 1) as nat);
    }
}

/// The 16 little-endian bytes of a number.
pub fn u128_le(n: u128) -> (r: Vec<u8>)
    ensures
        r@ == le_bytes(n as nat, 16),
{
    let mut r: Vec<u8> = Vec::new();
    let mut x: u128 = n;
    let mut k: usize = 0;
    while k < 16
        invariant
            k <= 16,
            le_bytes(n as nat, 16) == r@ + le_bytes(x as nat, (16 - k) as nat),
        decreases 16 - k,
    {
        let ghost before = r@;
        r.push((x % 256) as u8);
        proof {
            assert(le_bytes(x as nat, (16 - k) as nat)
                == seq![(x % 256) as u8] + le_bytes((x / 256) as nat, (16 - k - 1) as nat));
            assert(before + le_bytes(x as nat, (16 - k) as nat)
                =~= r@ + le_bytes((x / 256) as nat, (16 - k - 1) as nat));
        }
        x = x / 256;
        k += 1;
    }
    assert(r@ + le_bytes(x as nat, 0) =~= r@);
    r
}

// ---------------------------------------------------------------------------
// Payloads

/// How many payload lines a payload kind has; `None` for an unknown kind.
pub open spec fn payload_count(k: Seq<char>) -> Option<nat> {
    if k == kind_not_implemented() || k == kind_no_data() {
        Some(0)
    } else if k == kind_int() || k == kind_uint() || k == kind_bool() || k == kind_str()
        || k == kind_str_ident() || k == kind_error_str() || k == kind_array_len()
        || k == kind_pubkey() {
        Some(1)
    } else if k == kind_rc_meta() {
        Some(2)
    } else {
        None
    }
}

/// The number that a payload line holds: base64 of exactly 16 bytes.
pub open spec fn wide_number(s: Seq<char>) -> Option<nat> {
    match b64_decoded(s) {
        Some(b) => if b.len() == 16 { Some(le_value(b)) } else { None },
        None => None,
    }
}

/// The displayed value of a payload of kind `k` with lines `p`.
pub open spec fn render_payload(k: Seq<char>, p: Seq<Seq<char>>) -> Result<Seq<char>, OutputParseError> {
    if k == kind_not_implemented() {
        Ok("[not implemented]"@)
    } else if k == kind_no_data() {
        Ok(seq![])
    } else if k == kind_int() {
        match wide_number(p[0]) {
            Some(u) => Ok(signed_decimal(signed_of(u))),
            None => Err(OutputParseError::DecodeError),
        }
    } else if k == kind_uint() {
        match wide_number(p[0]) {
            Some(u) => Ok(decimal(u)),
            None => Err(OutputParseError::DecodeError),
        }
    } else if k == kind_bool() {
        match b64_decoded(p[0]) {
            Some(b) => if b.len() == 1 {
                if b[0] == 1 { Ok("true"@) } else { Ok("false"@) }
            } else {
                Err(OutputParseError::DecodeError)
            },
            None => Err(OutputParseError::DecodeError),
        }
    } else if k == kind_str() {
        Ok(seq!['"'] + p[0] + seq!['"'])
    } else if k == kind_str_ident() {
        Ok(p[0])
    } else if k == kind_error_str() {
        Ok("Error: "@ + p[0])
    } else if k == kind_rc_meta() {
        match (wide_number(p[0]), wide_number(p[1])) {
            (Some(s), Some(w)) => Ok("strong_count="@ + decimal(s) + ", weak_count="@ + decimal(w)),
            _ => Err(OutputParseError::DecodeError),
        }
    } else if k == kind_array_len() {
        match wide_number(p[0]) {
            Some(u) => Ok("len="@ + decimal(u)),
            None => Err(OutputParseError::DecodeError),
        }
    } else if k == kind_pubkey() {
        match b64_decoded(p[0]) {
            Some(b) => if b.len() == 32 { Ok(base58_text(b)) } else { Err(OutputParseError::DecodeError) },
            None => Err(OutputParseError::DecodeError),
        }
    } else {
        Err(OutputParseError::UnknownPayloadKind)
    }
}

/// How many payload lines a payload kind has.
pub fn payload_lines(k: &str) -> (r: Option<usize>)
    ensures
        r matches Some(n) ==> payload_count(k@) == Some(n as nat),
        r is None ==> payload_count(k@) is None,
{
    if str_eq(k, "not_implemented") || str_eq(k, "no_data") {
        Some(0)
    } else if str_eq(k, "int") || str_eq(k, "uint") || str_eq(k, "bool") || str_eq(k, "str")
        || str_eq(k, "str_ident") || str_eq(k, "error_str") || str_eq(k, "array_len")
        || str_eq(k, "pubkey") {
        Some(1)
    } else if str_eq(k, "rc_meta") {
        Some(2)
    } else {
        None
    }
}

/// The number a payload line holds, if it is base64 of 16 bytes.
fn read_wide(s: &str) -> (r: Option<u128>)
    ensures
        r matches Some(u) ==> wide_number(s@) == Some(u as nat),
        r is None ==> wide_number(s@) is None,
{
    match b64_decode(s) {
        Some(b) => {
            if b.len() == 16 {
                Some(le_u128(&b))
            } else {
                None
            }
        },
        None => None,
    }
}

/// Appends the signed decimal notation of a 128-bit two's-complement pattern.
fn push_signed(s: &mut String, u: u128)
    ensures
        final(s)@ == old(s)@ + signed_decimal(signed_of(u as nat)),
{
    proof { lemma_pow256_16(); }
    if u >= 0x8000_0000_0000_0000_0000_0000_0000_0000 {
        push_char(s, '-');
        let m: u128 = (u128::MAX - u) + 1;
        push_decimal(s, m);
        assert(final(s)@ =~= old(s)@ + signed_decimal(signed_of(u as nat)));
    } else {
        push_decimal(s, u);
    }
}

/// The displayed value of the payload of kind `k` whose lines start at `at`.
pub fn decode_payload(k: &str, lines: &Vec<String>, at: usize) -> (r: Result<String, OutputParseError>)
    requires
        payload_count(k@) matches Some(n) && at + n <= lines@.len(),
    ensures
        r matches Ok(v) ==> render_payload(k@, lines.deep_view().subrange(at as int, lines@.len() as int)) == Ok::<Seq<char>, OutputParseError>(v@),
        r matches Err(e) ==> render_payload(k@, lines.deep_view().subrange(at as int, lines@.len() as int)) == Err::<Seq<char>, OutputParseError>(e),
{
    let ghost p = lines.deep_view().subrange(at as int, lines@.len() as int);
    proof {
        reveal_strlit("rc_meta");
        reveal_strlit("not_implemented");
        reveal_strlit("no_data");
        reveal_strlit("int");
        reveal_strlit("uint");
        reveal_strlit("bool");
        reveal_strlit("str");
        reveal_strlit("str_ident");
        reveal_strlit("error_str");
        reveal_strlit("array_len");
        reveal_strlit("pubkey");
    }
    if str_eq(k, "not_implemented") {
        Ok(String::from_str("[not implemented]"))
    } else if str_eq(k, "no_data") {
        let s = String::new();
        assert(s@ =~= Seq::<char>::empty());
        Ok(s)
    } else if str_eq(k, "int") {
        assert(p[0] == lines[at as int]@);
        match read_wide(lines[at].as_str()) {
            Some(u) => {
                let mut s = String::new();
                push_signed(&mut s, u);
                assert(s@ =~= signed_decimal(signed_of(u as nat)));
                Ok(s)
            },
            None => Err(OutputParseError::DecodeError),
        }
    } else if str_eq(k, "uint") {
        assert(p[0] == lines[at as int]@);
        match read_wide(lines[at].as_str()) {
            Some(u) => Ok(crate::text::u128_text(u)),
            None => Err(OutputParseError::DecodeError),
        }
    } else if str_eq(k, "bool") {
        assert(p[0] == lines[at as int]@);
        match b64_decode(lines[at].as_str()) {
            Some(b) => {
                if b.len() == 1 {
                    if b[0] == 1 {
                        Ok(String::from_str("true"))
                    } else {
                        Ok(String::from_str("false"))
                    }
                } else {
                    Err(OutputParseError::DecodeError)
                }
            },
            None => Err(OutputParseError::DecodeError),
        }
    } else if str_eq(k, "str") {
        assert(p[0] == lines[at as int]@);
        let mut s = String::new();
        push_char(&mut s, '"');
        push_str(&mut s, lines[at].as_str());
        push_char(&mut s, '"');
        assert(s@ =~= seq!['"'] + p[0] + seq!['"']);
        Ok(s)
    } else if str_eq(k, "str_ident") {
        assert(p[0] == lines[at as int]@);
        Ok(lines[at].clone())
    } else if str_eq(k, "error_str") {
        assert(p[0] == lines[at as int]@);
        let mut s = String::from_str("Error: ");
        push_str(&mut s, lines[at].as_str());
        Ok(s)
    } else if str_eq(k, "rc_meta") {
        assert(k@ =~= kind_rc_meta());
        assert(kind_rc_meta()[0] != kind_no_data()[0]);
        assert(kind_rc_meta().len() != kind_not_implemented().len());
        assert(kind_rc_meta().len() != kind_int().len());
        assert(kind_rc_meta().len() != kind_uint().len());
        assert(kind_rc_meta().len() != kind_bool().len());
        assert(kind_rc_meta().len() != kind_str().len());
        assert(kind_rc_meta().len() != kind_str_ident().len());
        assert(kind_rc_meta().len() != kind_error_str().len());
        assert(kind_rc_meta().len() != kind_array_len().len());
        assert(kind_rc_meta().len() != kind_pubkey().len());
        assert(payload_count(k@) == Some(2nat));
        assert(at + 1 < lines.len());
        assert(p[0] == lines[at as int]@);
        assert(p[1] == lines[at + 1]@);
        let strong = read_wide(lines[at].as_str());
        let weak = read_wide(lines[at + 1].as_str());
        match (strong, weak) {
            (Some(su), Some(wu)) => {
                let mut s = String::from_str("strong_count=");
                push_decimal(&mut s, su);
                push_str(&mut s, ", weak_count=");
                push_decimal(&mut s, wu);
                Ok(s)
            },
            _ => Err(OutputParseError::DecodeError),
        }
    } else if str_eq(k, "array_len") {
        assert(p[0] == lines[at as int]@);
        match read_wide(lines[at].as_str()) {
            Some(u) => {
                let mut s = String::from_str("len=");
                push_decimal(&mut s, u);
                Ok(s)
            },
            None => Err(OutputParseError::DecodeError),
        }
    } else if str_eq(k, "pubkey") {
        assert(p[0] == lines[at as int]@);
        match b64_decode(lines[at].as_str()) {
            Some(b) => {
                if b.len() == 32 {
                    Ok(pubkey_text(&b))
                } else {
                    Err(OutputParseError::DecodeError)
                }
            },
            None => Err(OutputParseError::DecodeError),
        }
    } else {
        Err(OutputParseError::UnknownPayloadKind)
    }
}

} // verus!
