use vstd::prelude::*;
use vstd::string::*;
use vstd::utf8::encode_utf8;

verus! {

/// The lowercase hex digit of a nibble.
pub open spec fn hex_digit(n: u8) -> char {
    seq!['0', '1', '2', '3', '4', '5', '6', '7', '8', '9', 'a', 'b', 'c', 'd', 'e', 'f'][n as int]
}

/// Two lowercase hex digits per byte, most significant nibble first.
pub open spec fn lower_hex(b: Seq<u8>) -> Seq<char>
    decreases b.len(),
{
    if b.len() == 0 {
        Seq::empty()
    } else {
        lower_hex(b.drop_last()) + seq![hex_digit(b.last() / 16), hex_digit(b.last() % 16)]
    }
}

/// The component id of a contract address: `0x` followed by its lowercase hex.
pub open spec fn hex_id(address: Seq<u8>) -> Seq<char> {
    seq!['0', 'x'] + lower_hex(address)
}

/// The signed big-endian byte encoding of an arbitrary-precision integer.
pub uninterp spec fn signed_be(v: int) -> Seq<u8>;

/// The 20 bytes of an address written in hex, or `None` where the text is no address.
pub uninterp spec fn parsed_address(s: Seq<char>) -> Option<Seq<u8>>;

/// The 4-byte big-endian encoding of a boolean flag.
pub open spec fn flag_bytes(b: bool) -> Seq<u8> {
    seq![0u8, 0u8, 0u8, if b { 1u8 } else { 0u8 }]
}

/// Relies on substreams::Hex::encode: two lowercase hex digits per byte, in order.
#[verifier::external_body]
fn encode_lower_hex(b: &Vec<u8>) -> (r: String)
    ensures
        r@ == lower_hex(b@),
{
    substreams::Hex::encode(b)
}

/// Relies on substreams::scalar::BigInt (`From<i64>`, `to_signed_bytes_be`): the
/// signed big-endian bytes of the value.
#[verifier::external_body]
fn int_signed_bytes_be(v: i64) -> (r: Vec<u8>)
    ensures
        r@ == signed_be(v as int),
{
    substreams::scalar::BigInt::from(v).to_signed_bytes_be()
}

/// Relies on `FromStr` of ethabi's `Address` (fixed-hash `H160`): an optional `0x`
/// prefix, then hex for exactly 20 bytes; the result depends on the text alone.
#[verifier::external_body]
fn parse_hex_address(s: &str) -> (r: Option<Vec<u8>>)
    ensures
        r is Some <==> parsed_address(s@) is Some,
        r is Some ==> r->Some_0@ == parsed_address(s@)->Some_0,
        r is Some ==> r->Some_0@.len() == 20,
{
    match <ethabi::ethereum_types::Address as std::str::FromStr>::from_str(s) {
        Ok(a) => Some(a.as_bytes().to_vec()),
        Err(_) => None,
    }
}

/// The component id of a contract address.
pub fn address_to_hex(address: &Vec<u8>) -> (r: String)
    ensures
        r@ == hex_id(address@),
{
    proof {
        reveal_strlit("0x");
    }
    let mut r = <String as StringExecFns>::from_str("0x");
    let digits = encode_lower_hex(address);
    r.append(digits.as_str());
    r
}

/// The signed big-endian bytes of an integer value.
pub fn int_to_bytes(v: i64) -> (r: Vec<u8>)
    ensures
        r@ == signed_be(v as int),
{
    int_signed_bytes_be(v)
}

/// Parses a factory address parameter.
pub fn parse_address(s: &str) -> (r: Option<Vec<u8>>)
    ensures
        r is Some <==> parsed_address(s@) is Some,
        r is Some ==> r->Some_0@ == parsed_address(s@)->Some_0 && r->Some_0@.len() == 20,
{
    parse_hex_address(s)
}

/// The 4-byte big-endian encoding of a flag (1 for true, 0 for false).
pub fn flag_to_bytes(b: bool) -> (r: Vec<u8>)
    ensures
        r@ == flag_bytes(b),
{
    let r = if b { vec![0u8, 0u8, 0u8, 1u8] } else { vec![0u8, 0u8, 0u8, 0u8] };
    assert(r@ =~= flag_bytes(b));
    r
}

/// The bytes of a component id, as carried in balance records.
pub fn id_bytes(id: &String) -> (r: Vec<u8>)
    ensures
        r@ == encode_utf8(id@),
{
    vstd::slice::slice_to_vec(id.as_str().as_bytes())
}

} // verus!
