//! Request identifiers for structured logs.
//!
//! (Installing the JSON log subscriber is the program's business.)

use uuid::Uuid;
use vstd::prelude::*;

verus! {

/// The lower-case hexadecimal digit for `n < 16`.
pub open spec fn hex_digit(n: u8) -> char {
    if n < 10 {
        (('0' as nat) + n) as char
    } else {
        (('a' as nat) + (n - 10)) as char
    }
}

/// Two lower-case hexadecimal digits per byte, high half first.
pub open spec fn lower_hex(bytes: Seq<u8>) -> Seq<char>
    decreases bytes.len(),
{
    if bytes.len() == 0 {
        Seq::empty()
    } else {
        seq![hex_digit(bytes[0] >> 4), hex_digit(bytes[0] & 0x0f)] + lower_hex(bytes.drop_first())
    }
}

/// The hyphenated form of a UUID's sixteen bytes: groups of 4, 2, 2, 2 and 6
/// bytes in lower-case hexadecimal, joined by `-`.
pub open spec fn hyphenated(b: Seq<u8>) -> Seq<char> {
    lower_hex(b.subrange(0, 4)) + seq!['-'] + lower_hex(b.subrange(4, 6)) + seq!['-']
        + lower_hex(b.subrange(6, 8)) + seq!['-'] + lower_hex(b.subrange(8, 10)) + seq!['-']
        + lower_hex(b.subrange(10, 16))
}

/// Sixteen bytes of a random (version 4, RFC 9562 variant) UUID: version
/// nibble 4, variant bits `10`.
pub open spec fn is_v4_uuid(b: Seq<u8>) -> bool {
    &&& b.len() == 16
    &&& b[6] >> 4 == 4
    &&& b[8] >> 6 == 2
}

/// A request ID: the hyphenated form of a random UUID.
pub open spec fn is_request_id(s: Seq<char>) -> bool {
    exists|b: Seq<u8>| is_v4_uuid(b) && s == #[trigger] hyphenated(b)
}

proof fn lemma_lower_hex_len(bytes: Seq<u8>)
    ensures
        lower_hex(bytes).len() == 2 * bytes.len(),
    decreases bytes.len(),
{
    if bytes.len() > 0 {
        lemma_lower_hex_len(bytes.drop_first());
    }
}

/// A request ID is 36 characters long, has hyphens at positions 8, 13, 18
/// and 23, the version digit `4` at position 14, and one of `8`, `9`, `a`,
/// `b` (the variant) at position 19.
pub proof fn lemma_request_id_shape(s: Seq<char>)
    requires
        is_request_id(s),
    ensures
        s.len() == 36,
        s[8] == '-' && s[13] == '-' && s[18] == '-' && s[23] == '-',
        s[14] == '4',
        s[19] == '8' || s[19] == '9' || s[19] == 'a' || s[19] == 'b',
{
    let b = choose|b: Seq<u8>| is_v4_uuid(b) && s == #[trigger] hyphenated(b);
    let g0 = lower_hex(b.subrange(0, 4));
    let g1 = lower_hex(b.subrange(4, 6));
    let g2 = lower_hex(b.subrange(6, 8));
    let g3 = lower_hex(b.subrange(8, 10));
    let g4 = lower_hex(b.subrange(10, 16));
    lemma_lower_hex_len(b.subrange(0, 4));
    lemma_lower_hex_len(b.subrange(4, 6));
    lemma_lower_hex_len(b.subrange(6, 8));
    lemma_lower_hex_len(b.subrange(8, 10));
    lemma_lower_hex_len(b.subrange(10, 16));
    assert(s =~= g0 + seq!['-'] + g1 + seq!['-'] + g2 + seq!['-'] + g3 + seq!['-'] + g4);
    let v = b[6];
    let w = b[8];
    assert(b.subrange(6, 8)[0] == v);
    assert(b.subrange(8, 10)[0] == w);
    assert(g2[0] == hex_digit(v >> 4));
    assert(g3[0] == hex_digit(w >> 4));
    assert(w >> 6 == 2 ==> 8 <= w >> 4 <= 11) by (bit_vector);
    assert(s[14] == g2[0]);
    assert(s[19] == g3[0]);
}

/// Calls `Uuid::new_v4` and takes its bytes. The bytes are random but for
/// the version nibble and the variant bits, which `new_v4` sets.
#[verifier::external_body]
fn random_uuid_bytes() -> (r: [u8; 16])
    ensures
        is_v4_uuid(r@),
{
    Uuid::new_v4().into_bytes()
}

/// Renders a UUID with `ToString`, whose `Display` impl writes the
/// hyphenated lower-case form.
#[verifier::external_body]
fn uuid_to_string(bytes: [u8; 16]) -> (r: String)
    ensures
        r@ == hyphenated(bytes@),
{
    Uuid::from_bytes(bytes).to_string()
}

/// A new random request ID (a version 4 UUID).
pub fn new_request_id() -> (r: String)
    ensures
        is_request_id(r@),
{
    let bytes = random_uuid_bytes();
    uuid_to_string(bytes)
}

} // verus!
