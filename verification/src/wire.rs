//! The wire format of the device protocol: decimal rendering of
//! integers, base64 encoding of chunk payloads, the JSON envelope
//! `{"index":<byte offset>,"data":"<base64>"}` posted for each chunk,
//! and the query path of the print trigger.

use vstd::prelude::*;

verus! {

/// The decimal digits (ASCII bytes) of `n`, most significant first,
/// with no leading zeros (a single `0` for zero).
pub open spec fn dec_digits(n: nat) -> Seq<u8>
    decreases n,
{
    if n < 10 {
        seq![(48 + n) as u8]
    } else {
        dec_digits(n / 10).push((48 + n % 10) as u8)
    }
}

/// Renders an integer as its decimal ASCII digits.
pub fn u64_to_dec(n: u64) -> (r: Vec<u8>)
    ensures
        r@ == dec_digits(n as nat),
    decreases n,
{
    if n < 10 {
        let mut v: Vec<u8> = Vec::new();
        v.push(48 + (n as u8));
        proof {
            assert(v@ =~= dec_digits(n as nat));
        }
        v
    } else {
        let mut v = u64_to_dec(n / 10);
        v.push(48 + ((n % 10) as u8));
        v
    }
}

/// What the base64 crate's `STANDARD` engine returns for a byte
/// sequence (the padded standard-alphabet encoding), as bytes.
pub uninterp spec fn base64_of(bytes: Seq<u8>) -> Seq<u8>;

/// Relies on base64's `Engine::encode` with the `general_purpose::STANDARD`
/// engine: the encoding is a pure function of the input bytes alone, and
/// with padding its length is exactly `4 * ceil(n / 3)` (the crate's
/// documented `encoded_len`). The length bound in `requires` keeps out
/// the inputs on which `encode` panics computing that length.
#[verifier::external_body]
pub(crate) fn base64_encode(bytes: &Vec<u8>) -> (r: Vec<u8>)
    requires
        4 * ((bytes@.len() + 2) / 3) <= usize::MAX,
    ensures
        r@ == base64_of(bytes@),
        r@.len() == 4 * ((bytes@.len() + 2) / 3),
{
    base64::Engine::encode(&base64::engine::general_purpose::STANDARD, bytes).into_bytes()
}

/// The bytes of `{"index":`.
pub open spec fn envelope_prefix() -> Seq<u8> {
    seq![123u8, 34u8, 105u8, 110u8, 100u8, 101u8, 120u8, 34u8, 58u8]
}

/// The bytes of `,"data":"`.
pub open spec fn envelope_mid() -> Seq<u8> {
    seq![44u8, 34u8, 100u8, 97u8, 116u8, 97u8, 34u8, 58u8, 34u8]
}

/// The bytes of `"}`.
pub open spec fn envelope_suffix() -> Seq<u8> {
    seq![34u8, 125u8]
}

/// The JSON envelope posted for one chunk: the object
/// `{"index":<index>,"data":"<data>"}` with the index in decimal and the
/// data already base64-encoded (base64 text needs no JSON escaping).
pub open spec fn upload_body_spec(index: nat, data: Seq<u8>) -> Seq<u8> {
    envelope_prefix() + dec_digits(index) + envelope_mid() + data + envelope_suffix()
}

/// Builds the JSON envelope for one chunk from its byte offset and its
/// base64-encoded payload.
pub fn upload_body(index: u64, b64: &Vec<u8>) -> (r: Vec<u8>)
    ensures
        r@ == upload_body_spec(index as nat, b64@),
{
    let mut r: Vec<u8> = Vec::new();
    r.push(123u8);
    r.push(34u8);
    r.push(105u8);
    r.push(110u8);
    r.push(100u8);
    r.push(101u8);
    r.push(120u8);
    r.push(34u8);
    r.push(58u8);
    proof {
        assert(r@ =~= envelope_prefix());
    }
    let mut digits = u64_to_dec(index);
    r.append(&mut digits);
    let ghost head = envelope_prefix() + dec_digits(index as nat);
    proof {
        assert(r@ == head);
    }
    r.push(44u8);
    r.push(34u8);
    r.push(100u8);
    r.push(97u8);
    r.push(116u8);
    r.push(97u8);
    r.push(34u8);
    r.push(58u8);
    r.push(34u8);
    let ghost head2 = head + envelope_mid();
    proof {
        assert(r@ =~= head2);
    }
    let m: usize = b64.len();
    let mut j: usize = 0;
    while j < m
        invariant
            j <= m,
            m == b64@.len(),
            r@ == head2 + b64@.take(j as int),
        decreases m - j,
    {
        r.push(b64[j]);
        proof {
            assert(head2 + b64@.take(j as int + 1)
                =~= (head2 + b64@.take(j as int)).push(b64@[j as int]));
        }
        j = j + 1;
    }
    proof {
        assert(b64@.take(m as int) =~= b64@);
    }
    r.push(34u8);
    r.push(125u8);
    proof {
        assert(r@ =~= upload_body_spec(index as nat, b64@));
    }
    r
}

/// The bytes of `/print?length=`.
pub open spec fn print_query_prefix() -> Seq<u8> {
    seq![47u8, 112u8, 114u8, 105u8, 110u8, 116u8, 63u8, 108u8, 101u8, 110u8, 103u8, 116u8, 104u8, 61u8]
}

/// The path-and-query of the print trigger request: `/print?length=<n>`
/// with the used print width in decimal.
pub open spec fn print_query_spec(length: nat) -> Seq<u8> {
    print_query_prefix() + dec_digits(length)
}

/// Builds the path and query string of the print trigger request for a
/// used print width.
pub fn print_query(length: u32) -> (r: Vec<u8>)
    ensures
        r@ == print_query_spec(length as nat),
{
    let mut r: Vec<u8> = Vec::new();
    r.push(47u8);
    r.push(112u8);
    r.push(114u8);
    r.push(105u8);
    r.push(110u8);
    r.push(116u8);
    r.push(63u8);
    r.push(108u8);
    r.push(101u8);
    r.push(110u8);
    r.push(103u8);
    r.push(116u8);
    r.push(104u8);
    r.push(61u8);
    proof {
        assert(r@ =~= print_query_prefix());
    }
    let mut digits = u64_to_dec(length as u64);
    r.append(&mut digits);
    r
}

} // verus!
