//! The byte encoding of triangles, transactions and blocks, and its
//! inverse.
//!
//! Integers and fixed-point numbers are little-endian; a string or a byte
//! vector is its length in eight bytes and then its bytes; an optional
//! value is a tag of one byte, zero or one, and then the value where the
//! tag is one; a list is its length in eight bytes and then its items; a
//! transaction starts with a tag of four bytes for its kind.
//!
//! Every reader takes a value from the front of a byte string and hands
//! back the rest. What a writer wrote, the reader reads back, whatever
//! follows it.

use crate::bytes::append_bytes;
use crate::bytes::append_u32_le;
use crate::bytes::append_u64_le;
use crate::coord::Coord;
use crate::digest::Sha256Hash;
use crate::geometry::hash_option_view;
use crate::geometry::Point;
use crate::geometry::Triangle;
use crate::geometry::TriangleView;
use crate::block::blocks_header_view;
use crate::network::nodes_view;
use crate::network::MessageView;
use crate::network::NetworkMessage;
use crate::network::Node;
use crate::network::NodeView;
use crate::block::transactions_view;
use crate::block::Block;
use crate::block::BlockHeader;
use crate::block::BlockView;
use crate::block::HeaderView;
use crate::transaction::encoded_triangle_len;
use crate::transaction::encoded_triangles_len;
use crate::transaction::CoinbaseTx;
use crate::transaction::CoinbaseTxView;
use crate::transaction::SubdivisionTx;
use crate::transaction::SubdivisionTxView;
use crate::transaction::Transaction;
use crate::transaction::TransactionView;
use crate::transaction::TransferTx;
use crate::transaction::TransferTxView;
use vstd::bytes::lemma_auto_spec_u32_to_from_le_bytes;
use vstd::bytes::lemma_auto_spec_u64_to_from_le_bytes;
use vstd::bytes::spec_u32_from_le_bytes;
use vstd::bytes::spec_u32_to_le_bytes;
use vstd::bytes::spec_u64_from_le_bytes;
use vstd::bytes::spec_u64_to_le_bytes;
use vstd::bytes::u32_from_le_bytes;
use vstd::bytes::u64_from_le_bytes;
use vstd::prelude::*;
use vstd::slice::slice_subrange;
use vstd::utf8::decode_utf8;
use vstd::utf8::encode_utf8;
use vstd::utf8::encode_utf8_decode_utf8;
use vstd::utf8::encode_utf8_valid_utf8;
use vstd::utf8::valid_utf8;

verus! {

// ----------------------------------------------------------------------------
// Integers
// ----------------------------------------------------------------------------
/// An integer of eight bytes from the front of `s`.
#[verifier::opaque]
pub open spec fn parse_u64(s: Seq<u8>) -> Option<(u64, Seq<u8>)> {
    if s.len() >= 8 {
        Some((spec_u64_from_le_bytes(s.subrange(0, 8)), s.skip(8)))
    } else {
        None
    }
}

/// An integer of four bytes from the front of `s`.
#[verifier::opaque]
pub open spec fn parse_u32(s: Seq<u8>) -> Option<(u32, Seq<u8>)> {
    if s.len() >= 4 {
        Some((spec_u32_from_le_bytes(s.subrange(0, 4)), s.skip(4)))
    } else {
        None
    }
}

/// The bytes of a fixed-point number: its stored integer.
#[verifier::opaque]
pub open spec fn enc_coord(c: Coord) -> Seq<u8> {
    spec_u64_to_le_bytes(c.bits as u64)
}

/// A fixed-point number from the front of `s`.
#[verifier::opaque]
pub open spec fn parse_coord(s: Seq<u8>) -> Option<(Coord, Seq<u8>)> {
    match parse_u64(s) {
        Some((bits, rest)) => Some((Coord { bits: bits as i64 }, rest)),
        None => None,
    }
}

/// An integer of eight bytes that was written is read back as it was, whatever
/// follows.
proof fn lemma_u64_round_trip(x: u64, rest: Seq<u8>)
    ensures
        parse_u64(spec_u64_to_le_bytes(x) + rest) == Some((x, rest)),
        spec_u64_to_le_bytes(x).len() == 8,
{
    reveal(parse_u64);
    lemma_auto_spec_u64_to_from_le_bytes();
    let s = spec_u64_to_le_bytes(x) + rest;
    assert(s.subrange(0, 8) =~= spec_u64_to_le_bytes(x));
    assert(s.skip(8) =~= rest);
}

/// An integer of four bytes that was written is read back as it was, whatever
/// follows.
proof fn lemma_u32_round_trip(x: u32, rest: Seq<u8>)
    ensures
        parse_u32(spec_u32_to_le_bytes(x) + rest) == Some((x, rest)),
        spec_u32_to_le_bytes(x).len() == 4,
{
    reveal(parse_u32);
    lemma_auto_spec_u32_to_from_le_bytes();
    let s = spec_u32_to_le_bytes(x) + rest;
    assert(s.subrange(0, 4) =~= spec_u32_to_le_bytes(x));
    assert(s.skip(4) =~= rest);
}

/// A fixed-point number that was written is read back as it was, whatever
/// follows.
proof fn lemma_coord_round_trip(c: Coord, rest: Seq<u8>)
    ensures
        parse_coord(enc_coord(c) + rest) == Some((c, rest)),
        enc_coord(c).len() == 8,
{
    reveal(parse_coord);
    reveal(enc_coord);
    lemma_u64_round_trip(c.bits as u64, rest);
    let bits = c.bits;
    assert((bits as u64) as i64 == bits) by (bit_vector);
}

/// Reads an integer of eight bytes at `pos`.
pub fn read_u64(bytes: &[u8], pos: usize) -> (r: Option<(u64, usize)>)
    requires
        pos <= bytes@.len(),
    ensures
        match parse_u64(bytes@.skip(pos as int)) {
            Some((value, rest)) => r matches Some((x, next)) && x == value && next <= bytes@.len()
                && rest == bytes@.skip(next as int),
            None => r is None,
        },
{
    reveal(parse_u64);
    if bytes.len() - pos < 8 {
        return None;
    }
    let part = slice_subrange(bytes, pos, pos + 8);
    proof {
        assert(bytes@.skip(pos as int).subrange(0, 8) =~= bytes@.subrange(pos as int, pos + 8));
        assert(bytes@.skip(pos as int).skip(8) =~= bytes@.skip(pos + 8));
    }
    Some((u64_from_le_bytes(part), pos + 8))
}

/// Reads an integer of four bytes at `pos`.
pub fn read_u32(bytes: &[u8], pos: usize) -> (r: Option<(u32, usize)>)
    requires
        pos <= bytes@.len(),
    ensures
        match parse_u32(bytes@.skip(pos as int)) {
            Some((value, rest)) => r matches Some((x, next)) && x == value && next <= bytes@.len()
                && rest == bytes@.skip(next as int),
            None => r is None,
        },
{
    reveal(parse_u32);
    if bytes.len() - pos < 4 {
        return None;
    }
    let part = slice_subrange(bytes, pos, pos + 4);
    proof {
        assert(bytes@.skip(pos as int).subrange(0, 4) =~= bytes@.subrange(pos as int, pos + 4));
        assert(bytes@.skip(pos as int).skip(4) =~= bytes@.skip(pos + 4));
    }
    Some((u32_from_le_bytes(part), pos + 4))
}

/// Reads a fixed-point number at `pos`.
pub fn read_coord(bytes: &[u8], pos: usize) -> (r: Option<(Coord, usize)>)
    requires
        pos <= bytes@.len(),
    ensures
        match parse_coord(bytes@.skip(pos as int)) {
            Some((value, rest)) => r matches Some((x, next)) && x == value && next <= bytes@.len()
                && rest == bytes@.skip(next as int),
            None => r is None,
        },
{
    reveal(parse_coord);
    match read_u64(bytes, pos) {
        Some((bits, next)) => Some((Coord { bits: bits as i64 }, next)),
        None => None,
    }
}

// ----------------------------------------------------------------------------
// Hashes, byte strings and strings
// ----------------------------------------------------------------------------
/// A hash of 32 bytes from the front of `s`.
#[verifier::opaque]
pub open spec fn parse_hash(s: Seq<u8>) -> Option<(Seq<u8>, Seq<u8>)> {
    if s.len() >= 32 {
        Some((s.subrange(0, 32), s.skip(32)))
    } else {
        None
    }
}

/// The bytes of a byte string: its length, then its bytes.
#[verifier::opaque]
pub open spec fn enc_bytes(b: Seq<u8>) -> Seq<u8> {
    spec_u64_to_le_bytes(b.len() as u64) + b
}

/// A byte string from the front of `s`.
#[verifier::opaque]
pub open spec fn parse_bytes(s: Seq<u8>) -> Option<(Seq<u8>, Seq<u8>)> {
    match parse_u64(s) {
        Some((len, rest)) => if rest.len() >= len {
            Some((rest.subrange(0, len as int), rest.skip(len as int)))
        } else {
            None
        },
        None => None,
    }
}

/// The bytes of a string: its UTF-8 bytes as a byte string.
#[verifier::opaque]
pub open spec fn enc_string(s: Seq<char>) -> Seq<u8> {
    enc_bytes(encode_utf8(s))
}

/// A string from the front of `s`: a byte string that is valid UTF-8.
#[verifier::opaque]
pub open spec fn parse_string(s: Seq<u8>) -> Option<(Seq<char>, Seq<u8>)> {
    match parse_bytes(s) {
        Some((bytes, rest)) => if valid_utf8(bytes) {
            Some((decode_utf8(bytes), rest))
        } else {
            None
        },
        None => None,
    }
}

/// A hash that was written is read back as it was, whatever
/// follows.
proof fn lemma_hash_round_trip(h: Seq<u8>, rest: Seq<u8>)
    requires
        h.len() == 32,
    ensures
        parse_hash(h + rest) == Some((h, rest)),
{
    reveal(parse_hash);
    assert((h + rest).subrange(0, 32) =~= h);
    assert((h + rest).skip(32) =~= rest);
}

/// A byte string that was written is read back as it was, whatever
/// follows.
proof fn lemma_bytes_round_trip(b: Seq<u8>, rest: Seq<u8>)
    requires
        b.len() <= u64::MAX,
    ensures
        parse_bytes(enc_bytes(b) + rest) == Some((b, rest)),
        enc_bytes(b).len() == 8 + b.len(),
{
    reveal(parse_bytes);
    reveal(enc_bytes);
    lemma_u64_round_trip(b.len() as u64, b + rest);
    assert(enc_bytes(b) + rest =~= spec_u64_to_le_bytes(b.len() as u64) + (b + rest));
    assert((b + rest).subrange(0, b.len() as int) =~= b);
    assert((b + rest).skip(b.len() as int) =~= rest);
}

/// A string that was written is read back as it was, whatever
/// follows.
proof fn lemma_string_round_trip(s: Seq<char>, rest: Seq<u8>)
    requires
        encode_utf8(s).len() <= u64::MAX,
    ensures
        parse_string(enc_string(s) + rest) == Some((s, rest)),
        enc_string(s).len() == 8 + encode_utf8(s).len(),
{
    reveal(parse_string);
    reveal(enc_string);
    lemma_bytes_round_trip(encode_utf8(s), rest);
    encode_utf8_valid_utf8(s);
    encode_utf8_decode_utf8(s);
}

/// Reads a hash at `pos`.
pub fn read_hash(bytes: &[u8], pos: usize) -> (r: Option<(Sha256Hash, usize)>)
    requires
        pos <= bytes@.len(),
    ensures
        match parse_hash(bytes@.skip(pos as int)) {
            Some((value, rest)) => r matches Some((x, next)) && x@ == value && next <= bytes@.len()
                && rest == bytes@.skip(next as int),
            None => r is None,
        },
{
    reveal(parse_hash);
    if bytes.len() - pos < 32 {
        return None;
    }
    assert(bytes@.len() <= usize::MAX);
    let mut hash = [0u8; 32];
    let mut i: usize = 0;
    while i < 32
        invariant
            i <= 32,
            pos + 32 <= bytes@.len(),
            bytes@.len() <= usize::MAX,
            forall|j: int| 0 <= j < i ==> hash@[j] == bytes@[pos + j],
        decreases 32 - i,
    {
        hash[i] = bytes[pos + i];
        i += 1;
    }
    proof {
        assert(hash@ =~= bytes@.skip(pos as int).subrange(0, 32));
        assert(bytes@.skip(pos as int).skip(32) =~= bytes@.skip(pos + 32));
    }
    Some((hash, pos + 32))
}

/// Reads a byte string at `pos`.
pub fn read_bytes(bytes: &[u8], pos: usize) -> (r: Option<(Vec<u8>, usize)>)
    requires
        pos <= bytes@.len(),
    ensures
        match parse_bytes(bytes@.skip(pos as int)) {
            Some((value, rest)) => r matches Some((x, next)) && x@ == value && next <= bytes@.len()
                && rest == bytes@.skip(next as int),
            None => r is None,
        },
{
    reveal(parse_bytes);
    let (len, start) = match read_u64(bytes, pos) {
        Some(found) => found,
        None => { return None; },
    };
    if len > (bytes.len() - start) as u64 {
        return None;
    }
    let end: usize = start + len as usize;
    let part = slice_subrange(bytes, start, end);
    let mut out: Vec<u8> = Vec::new();
    append_bytes(&mut out, part);
    proof {
        let rest = bytes@.skip(start as int);
        assert(out@ =~= rest.subrange(0, len as int));
        assert(rest.skip(len as int) =~= bytes@.skip(end as int));
    }
    Some((out, end))
}

/// Turns bytes into a string with `String::from_utf8`, which succeeds on
/// valid UTF-8, and on nothing else, with the characters that the bytes
/// spell.
#[verifier::external_body]
pub(crate) fn string_from_utf8(bytes: Vec<u8>) -> (r: Option<String>)
    ensures
        match r {
            Some(s) => valid_utf8(bytes@) && s@ == decode_utf8(bytes@),
            None => !valid_utf8(bytes@),
        },
{
    String::from_utf8(bytes).ok()
}

/// Reads a string at `pos`.
pub fn read_string(bytes: &[u8], pos: usize) -> (r: Option<(String, usize)>)
    requires
        pos <= bytes@.len(),
    ensures
        match parse_string(bytes@.skip(pos as int)) {
            Some((value, rest)) => r matches Some((x, next)) && x@ == value && next <= bytes@.len()
                && rest == bytes@.skip(next as int),
            None => r is None,
        },
{
    reveal(parse_string);
    let (raw, next) = match read_bytes(bytes, pos) {
        Some(found) => found,
        None => { return None; },
    };
    match string_from_utf8(raw) {
        Some(s) => Some((s, next)),
        None => None,
    }
}

/// Writes a byte string: its length, then its bytes.
pub fn write_bytes(buf: &mut Vec<u8>, b: &[u8])
    ensures
        final(buf)@ == old(buf)@ + enc_bytes(b@),
{
    reveal(enc_bytes);
    append_u64_le(buf, b.len() as u64);
    append_bytes(buf, b);
    assert(buf@ =~= old(buf)@ + enc_bytes(b@));
}

/// Writes a string.
pub fn write_string(buf: &mut Vec<u8>, s: &String)
    ensures
        final(buf)@ == old(buf)@ + enc_string(s@),
{
    reveal(enc_string);
    write_bytes(buf, s.as_str().as_bytes());
}

// ----------------------------------------------------------------------------
// Optional values
// ----------------------------------------------------------------------------
/// The tag of an optional value from the front of `s`: zero for none, one
/// for some.
#[verifier::opaque]
pub open spec fn parse_tag(s: Seq<u8>) -> Option<(bool, Seq<u8>)> {
    if s.len() >= 1 && s[0] <= 1 {
        Some((s[0] == 1, s.skip(1)))
    } else {
        None
    }
}

/// The tag of an optional value.
#[verifier::opaque]
pub open spec fn enc_tag(some: bool) -> Seq<u8> {
    if some {
        seq![1u8]
    } else {
        seq![0u8]
    }
}

/// The tag of an optional value that was written is read back as it was, whatever
/// follows.
proof fn lemma_tag_round_trip(some: bool, rest: Seq<u8>)
    ensures
        parse_tag(enc_tag(some) + rest) == Some((some, rest)),
        enc_tag(some).len() == 1,
{
    reveal(parse_tag);
    reveal(enc_tag);
    assert((enc_tag(some) + rest).skip(1) =~= rest);
}

/// Reads the tag of an optional value at `pos`.
pub fn read_tag(bytes: &[u8], pos: usize) -> (r: Option<(bool, usize)>)
    requires
        pos <= bytes@.len(),
    ensures
        match parse_tag(bytes@.skip(pos as int)) {
            Some((value, rest)) => r matches Some((x, next)) && x == value && next <= bytes@.len()
                && rest == bytes@.skip(next as int),
            None => r is None,
        },
{
    reveal(parse_tag);
    if pos >= bytes.len() {
        return None;
    }
    let tag = bytes[pos];
    proof {
        assert(bytes@.skip(pos as int)[0] == bytes@[pos as int]);
        assert(bytes@.skip(pos as int).skip(1) =~= bytes@.skip(pos + 1));
    }
    if tag > 1 {
        return None;
    }
    Some((tag == 1, pos + 1))
}

/// Writes the tag of an optional value.
pub fn write_tag(buf: &mut Vec<u8>, some: bool)
    ensures
        final(buf)@ == old(buf)@ + enc_tag(some),
{
    reveal(enc_tag);
    buf.push(if some {
        1
    } else {
        0
    });
    assert(buf@ =~= old(buf)@ + enc_tag(some));
}

/// The bytes of an optional hash.
#[verifier::opaque]
pub open spec fn enc_opt_hash(h: Option<Seq<u8>>) -> Seq<u8> {
    match h {
        Some(bytes) => enc_tag(true) + bytes,
        None => enc_tag(false),
    }
}

/// An optional hash from the front of `s`.
#[verifier::opaque]
pub open spec fn parse_opt_hash(s: Seq<u8>) -> Option<(Option<Seq<u8>>, Seq<u8>)> {
    match parse_tag(s) {
        Some((true, rest)) => match parse_hash(rest) {
            Some((h, after)) => Some((Some(h), after)),
            None => None,
        },
        Some((false, rest)) => Some((None, rest)),
        None => None,
    }
}

/// The bytes of an optional fixed-point number.
#[verifier::opaque]
pub open spec fn enc_opt_coord(c: Option<Coord>) -> Seq<u8> {
    match c {
        Some(value) => enc_tag(true) + enc_coord(value),
        None => enc_tag(false),
    }
}

/// An optional fixed-point number from the front of `s`.
#[verifier::opaque]
pub open spec fn parse_opt_coord(s: Seq<u8>) -> Option<(Option<Coord>, Seq<u8>)> {
    match parse_tag(s) {
        Some((true, rest)) => match parse_coord(rest) {
            Some((c, after)) => Some((Some(c), after)),
            None => None,
        },
        Some((false, rest)) => Some((None, rest)),
        None => None,
    }
}

/// The bytes of an optional byte string.
#[verifier::opaque]
pub open spec fn enc_opt_bytes(b: Option<Seq<u8>>) -> Seq<u8> {
    match b {
        Some(bytes) => enc_tag(true) + enc_bytes(bytes),
        None => enc_tag(false),
    }
}

/// An optional byte string from the front of `s`.
#[verifier::opaque]
pub open spec fn parse_opt_bytes(s: Seq<u8>) -> Option<(Option<Seq<u8>>, Seq<u8>)> {
    match parse_tag(s) {
        Some((true, rest)) => match parse_bytes(rest) {
            Some((b, after)) => Some((Some(b), after)),
            None => None,
        },
        Some((false, rest)) => Some((None, rest)),
        None => None,
    }
}

/// The bytes of an optional string.
#[verifier::opaque]
pub open spec fn enc_opt_string(s: Option<Seq<char>>) -> Seq<u8> {
    match s {
        Some(text) => enc_tag(true) + enc_string(text),
        None => enc_tag(false),
    }
}

/// An optional string from the front of `s`.
#[verifier::opaque]
pub open spec fn parse_opt_string(s: Seq<u8>) -> Option<(Option<Seq<char>>, Seq<u8>)> {
    match parse_tag(s) {
        Some((true, rest)) => match parse_string(rest) {
            Some((text, after)) => Some((Some(text), after)),
            None => None,
        },
        Some((false, rest)) => Some((None, rest)),
        None => None,
    }
}

/// An optional hash that was written is read back as it was, whatever
/// follows.
proof fn lemma_opt_hash_round_trip(h: Option<Seq<u8>>, rest: Seq<u8>)
    requires
        h matches Some(bytes) ==> bytes.len() == 32,
    ensures
        parse_opt_hash(enc_opt_hash(h) + rest) == Some((h, rest)),
{
    reveal(parse_opt_hash);
    reveal(enc_opt_hash);
    match h {
        Some(bytes) => {
            lemma_tag_round_trip(true, bytes + rest);
            lemma_hash_round_trip(bytes, rest);
            assert(enc_opt_hash(h) + rest =~= enc_tag(true) + (bytes + rest));
        },
        None => {
            lemma_tag_round_trip(false, rest);
        },
    }
}

/// An optional fixed-point number that was written is read back as it was, whatever
/// follows.
proof fn lemma_opt_coord_round_trip(c: Option<Coord>, rest: Seq<u8>)
    ensures
        parse_opt_coord(enc_opt_coord(c) + rest) == Some((c, rest)),
{
    reveal(parse_opt_coord);
    reveal(enc_opt_coord);
    match c {
        Some(value) => {
            lemma_tag_round_trip(true, enc_coord(value) + rest);
            lemma_coord_round_trip(value, rest);
            assert(enc_opt_coord(c) + rest =~= enc_tag(true) + (enc_coord(value) + rest));
        },
        None => {
            lemma_tag_round_trip(false, rest);
        },
    }
}

/// An optional byte string that was written is read back as it was, whatever
/// follows.
proof fn lemma_opt_bytes_round_trip(b: Option<Seq<u8>>, rest: Seq<u8>)
    requires
        b matches Some(bytes) ==> bytes.len() <= u64::MAX,
    ensures
        parse_opt_bytes(enc_opt_bytes(b) + rest) == Some((b, rest)),
{
    reveal(parse_opt_bytes);
    reveal(enc_opt_bytes);
    match b {
        Some(bytes) => {
            lemma_tag_round_trip(true, enc_bytes(bytes) + rest);
            lemma_bytes_round_trip(bytes, rest);
            assert(enc_opt_bytes(b) + rest =~= enc_tag(true) + (enc_bytes(bytes) + rest));
        },
        None => {
            lemma_tag_round_trip(false, rest);
        },
    }
}

/// An optional string that was written is read back as it was, whatever
/// follows.
proof fn lemma_opt_string_round_trip(s: Option<Seq<char>>, rest: Seq<u8>)
    requires
        s matches Some(text) ==> encode_utf8(text).len() <= u64::MAX,
    ensures
        parse_opt_string(enc_opt_string(s) + rest) == Some((s, rest)),
{
    reveal(parse_opt_string);
    reveal(enc_opt_string);
    match s {
        Some(text) => {
            lemma_tag_round_trip(true, enc_string(text) + rest);
            lemma_string_round_trip(text, rest);
            assert(enc_opt_string(s) + rest =~= enc_tag(true) + (enc_string(text) + rest));
        },
        None => {
            lemma_tag_round_trip(false, rest);
        },
    }
}

/// Reads an optional hash at `pos`.
pub fn read_opt_hash(bytes: &[u8], pos: usize) -> (r: Option<(Option<Sha256Hash>, usize)>)
    requires
        pos <= bytes@.len(),
    ensures
        match parse_opt_hash(bytes@.skip(pos as int)) {
            Some((value, rest)) => r matches Some((x, next)) && hash_option_view(x) == value
                && next <= bytes@.len() && rest == bytes@.skip(next as int),
            None => r is None,
        },
{
    reveal(parse_opt_hash);
    match read_tag(bytes, pos) {
        Some((true, next)) => match read_hash(bytes, next) {
            Some((h, after)) => Some((Some(h), after)),
            None => None,
        },
        Some((false, next)) => Some((None, next)),
        None => None,
    }
}

/// Reads an optional fixed-point number at `pos`.
pub fn read_opt_coord(bytes: &[u8], pos: usize) -> (r: Option<(Option<Coord>, usize)>)
    requires
        pos <= bytes@.len(),
    ensures
        match parse_opt_coord(bytes@.skip(pos as int)) {
            Some((value, rest)) => r matches Some((x, next)) && x == value && next <= bytes@.len()
                && rest == bytes@.skip(next as int),
            None => r is None,
        },
{
    reveal(parse_opt_coord);
    match read_tag(bytes, pos) {
        Some((true, next)) => match read_coord(bytes, next) {
            Some((c, after)) => Some((Some(c), after)),
            None => None,
        },
        Some((false, next)) => Some((None, next)),
        None => None,
    }
}

/// The bytes of an optional byte vector.
pub open spec fn opt_bytes_view(o: Option<Vec<u8>>) -> Option<Seq<u8>> {
    match o {
        Some(v) => Some(v@),
        None => None,
    }
}

/// The characters of an optional string.
pub open spec fn opt_string_view(o: Option<String>) -> Option<Seq<char>> {
    match o {
        Some(s) => Some(s@),
        None => None,
    }
}

/// Reads an optional byte string at `pos`.
pub fn read_opt_bytes(bytes: &[u8], pos: usize) -> (r: Option<(Option<Vec<u8>>, usize)>)
    requires
        pos <= bytes@.len(),
    ensures
        match parse_opt_bytes(bytes@.skip(pos as int)) {
            Some((value, rest)) => r matches Some((x, next)) && opt_bytes_view(x) == value && next
                <= bytes@.len() && rest == bytes@.skip(next as int),
            None => r is None,
        },
{
    reveal(parse_opt_bytes);
    match read_tag(bytes, pos) {
        Some((true, next)) => match read_bytes(bytes, next) {
            Some((b, after)) => Some((Some(b), after)),
            None => None,
        },
        Some((false, next)) => Some((None, next)),
        None => None,
    }
}

/// Reads an optional string at `pos`.
pub fn read_opt_string(bytes: &[u8], pos: usize) -> (r: Option<(Option<String>, usize)>)
    requires
        pos <= bytes@.len(),
    ensures
        match parse_opt_string(bytes@.skip(pos as int)) {
            Some((value, rest)) => r matches Some((x, next)) && opt_string_view(x) == value && next
                <= bytes@.len() && rest == bytes@.skip(next as int),
            None => r is None,
        },
{
    reveal(parse_opt_string);
    match read_tag(bytes, pos) {
        Some((true, next)) => match read_string(bytes, next) {
            Some((s, after)) => Some((Some(s), after)),
            None => None,
        },
        Some((false, next)) => Some((None, next)),
        None => None,
    }
}

/// Writes an optional hash.
pub fn write_opt_hash(buf: &mut Vec<u8>, h: &Option<Sha256Hash>)
    ensures
        final(buf)@ == old(buf)@ + enc_opt_hash(hash_option_view(*h)),
{
    reveal(enc_opt_hash);
    match h {
        Some(bytes) => {
            write_tag(buf, true);
            append_bytes(buf, bytes.as_slice());
            assert(buf@ =~= old(buf)@ + enc_opt_hash(hash_option_view(*h)));
        },
        None => {
            write_tag(buf, false);
        },
    }
}

/// Writes an optional fixed-point number.
pub fn write_opt_coord(buf: &mut Vec<u8>, c: Option<Coord>)
    ensures
        final(buf)@ == old(buf)@ + enc_opt_coord(c),
{
    reveal(enc_opt_coord);
    reveal(enc_coord);
    match c {
        Some(value) => {
            write_tag(buf, true);
            append_u64_le(buf, value.bits as u64);
            assert(buf@ =~= old(buf)@ + enc_opt_coord(c));
        },
        None => {
            write_tag(buf, false);
        },
    }
}

/// Writes an optional byte string.
pub fn write_opt_bytes(buf: &mut Vec<u8>, b: &Option<Vec<u8>>)
    ensures
        final(buf)@ == old(buf)@ + enc_opt_bytes(opt_bytes_view(*b)),
{
    reveal(enc_opt_bytes);
    match b {
        Some(bytes) => {
            write_tag(buf, true);
            write_bytes(buf, bytes.as_slice());
            assert(buf@ =~= old(buf)@ + enc_opt_bytes(opt_bytes_view(*b)));
        },
        None => {
            write_tag(buf, false);
        },
    }
}

/// Writes an optional string.
pub fn write_opt_string(buf: &mut Vec<u8>, s: &Option<String>)
    ensures
        final(buf)@ == old(buf)@ + enc_opt_string(opt_string_view(*s)),
{
    reveal(enc_opt_string);
    match s {
        Some(text) => {
            write_tag(buf, true);
            write_string(buf, text);
            assert(buf@ =~= old(buf)@ + enc_opt_string(opt_string_view(*s)));
        },
        None => {
            write_tag(buf, false);
        },
    }
}

// ----------------------------------------------------------------------------
// Points and triangles
// ----------------------------------------------------------------------------
/// The bytes of a point: `x`, then `y`.
#[verifier::opaque]
pub open spec fn enc_point(p: Point) -> Seq<u8> {
    enc_coord(p.x) + enc_coord(p.y)
}

/// A point from the front of `s`.
#[verifier::opaque]
pub open spec fn parse_point(s: Seq<u8>) -> Option<(Point, Seq<u8>)> {
    match parse_coord(s) {
        Some((x, rest)) => match parse_coord(rest) {
            Some((y, after)) => Some((Point { x, y }, after)),
            None => None,
        },
        None => None,
    }
}

/// A point that was written is read back as it was, whatever
/// follows.
proof fn lemma_point_round_trip(p: Point, rest: Seq<u8>)
    ensures
        parse_point(enc_point(p) + rest) == Some((p, rest)),
        enc_point(p).len() == 16,
{
    reveal(parse_point);
    reveal(enc_point);
    lemma_coord_round_trip(p.x, enc_coord(p.y) + rest);
    lemma_coord_round_trip(p.y, rest);
    assert(enc_point(p) + rest =~= enc_coord(p.x) + (enc_coord(p.y) + rest));
}

/// Reads a point at `pos`.
pub fn read_point(bytes: &[u8], pos: usize) -> (r: Option<(Point, usize)>)
    requires
        pos <= bytes@.len(),
    ensures
        match parse_point(bytes@.skip(pos as int)) {
            Some((value, rest)) => r matches Some((x, next)) && x == value && next <= bytes@.len()
                && rest == bytes@.skip(next as int),
            None => r is None,
        },
{
    reveal(parse_point);
    let (x, next) = match read_coord(bytes, pos) {
        Some(found) => found,
        None => { return None; },
    };
    match read_coord(bytes, next) {
        Some((y, after)) => Some((Point { x, y }, after)),
        None => None,
    }
}

/// Writes a point.
pub fn write_point(buf: &mut Vec<u8>, p: Point)
    ensures
        final(buf)@ == old(buf)@ + enc_point(p),
{
    reveal(enc_point);
    reveal(enc_coord);
    append_u64_le(buf, p.x.bits as u64);
    append_u64_le(buf, p.y.bits as u64);
    assert(buf@ =~= old(buf)@ + enc_point(p));
}

/// The bytes of a triangle: its three vertices, the optional hash of its
/// parent, its owner and its optional value.
#[verifier::opaque]
pub open spec fn enc_triangle(t: TriangleView) -> Seq<u8> {
    enc_point(t.a) + enc_point(t.b) + enc_point(t.c) + enc_opt_hash(t.parent_hash) + enc_string(
        t.owner,
    ) + enc_opt_coord(t.value)
}

/// A triangle from the front of `s`.
#[verifier::opaque]
pub open spec fn parse_triangle(s: Seq<u8>) -> Option<(TriangleView, Seq<u8>)> {
    match parse_point(s) {
        None => None,
        Some((a, s1)) => match parse_point(s1) {
            None => None,
            Some((b, s2)) => match parse_point(s2) {
                None => None,
                Some((c, s3)) => match parse_opt_hash(s3) {
                    None => None,
                    Some((parent_hash, s4)) => match parse_string(s4) {
                        None => None,
                        Some((owner, s5)) => match parse_opt_coord(s5) {
                            None => None,
                            Some((value, s6)) => Some(
                                (TriangleView { a, b, c, parent_hash, owner, value }, s6),
                            ),
                        },
                    },
                },
            },
        },
    }
}

/// Whether a triangle can be written: its parent hash, if it has one, has
/// 32 bytes, and the length of its owner fits into eight bytes.
pub open spec fn triangle_encodable(t: TriangleView) -> bool {
    &&& t.parent_hash matches Some(h) ==> h.len() == 32
    &&& encode_utf8(t.owner).len() <= u64::MAX
}

/// A triangle that was written is read back as it was.
pub proof fn lemma_triangle_round_trip(t: TriangleView, rest: Seq<u8>)
    requires
        triangle_encodable(t),
    ensures
        parse_triangle(enc_triangle(t) + rest) == Some((t, rest)),
{
    reveal(enc_triangle);
    reveal(parse_triangle);
    let r5 = enc_opt_coord(t.value) + rest;
    let r4 = enc_string(t.owner) + r5;
    let r3 = enc_opt_hash(t.parent_hash) + r4;
    let r2 = enc_point(t.c) + r3;
    let r1 = enc_point(t.b) + r2;
    assert(enc_triangle(t) + rest =~= enc_point(t.a) + r1);
    lemma_point_round_trip(t.a, r1);
    lemma_point_round_trip(t.b, r2);
    lemma_point_round_trip(t.c, r3);
    lemma_opt_hash_round_trip(t.parent_hash, r4);
    lemma_string_round_trip(t.owner, r5);
    lemma_opt_coord_round_trip(t.value, rest);
}

/// Reads a triangle at `pos`.
pub fn read_triangle(bytes: &[u8], pos: usize) -> (r: Option<(Triangle, usize)>)
    requires
        pos <= bytes@.len(),
    ensures
        match parse_triangle(bytes@.skip(pos as int)) {
            Some((value, rest)) => r matches Some((x, next)) && x@ == value && next <= bytes@.len()
                && rest == bytes@.skip(next as int),
            None => r is None,
        },
{
    reveal(parse_triangle);
    let (a, at1) = match read_point(bytes, pos) {
        Some(found) => found,
        None => { return None; },
    };
    let (b, at2) = match read_point(bytes, at1) {
        Some(found) => found,
        None => { return None; },
    };
    let (c, at3) = match read_point(bytes, at2) {
        Some(found) => found,
        None => { return None; },
    };
    let (parent_hash, at4) = match read_opt_hash(bytes, at3) {
        Some(found) => found,
        None => { return None; },
    };
    let (owner, at5) = match read_string(bytes, at4) {
        Some(found) => found,
        None => { return None; },
    };
    let (value, at6) = match read_opt_coord(bytes, at5) {
        Some(found) => found,
        None => { return None; },
    };
    Some((Triangle { a, b, c, parent_hash, owner, value }, at6))
}

/// Writes a triangle.
pub fn write_triangle(buf: &mut Vec<u8>, t: &Triangle)
    ensures
        final(buf)@ == old(buf)@ + enc_triangle(t@),
        triangle_encodable(t@),
{
    reveal(enc_triangle);
    // The length of the owner is a `usize`, so it fits into eight bytes.
    let _ = t.owner.as_str().as_bytes().len();
    write_point(buf, t.a);
    write_point(buf, t.b);
    write_point(buf, t.c);
    write_opt_hash(buf, &t.parent_hash);
    write_string(buf, &t.owner);
    write_opt_coord(buf, t.value);
    assert(buf@ =~= old(buf)@ + enc_triangle(t@));
}

/// The bytes of some triangles, one after the other.
pub open spec fn enc_triangle_items(ts: Seq<TriangleView>) -> Seq<u8>
    decreases ts.len(),
{
    if ts.len() == 0 {
        Seq::empty()
    } else {
        enc_triangle(ts[0]) + enc_triangle_items(ts.drop_first())
    }
}

/// The bytes of a list of triangles: their number, then the triangles.
pub open spec fn enc_triangles(ts: Seq<TriangleView>) -> Seq<u8> {
    spec_u64_to_le_bytes(ts.len() as u64) + enc_triangle_items(ts)
}

/// `count` triangles from the front of `s`.
pub open spec fn parse_triangle_items(count: nat, s: Seq<u8>) -> Option<
    (Seq<TriangleView>, Seq<u8>),
>
    decreases count,
{
    if count == 0 {
        Some((Seq::empty(), s))
    } else {
        match parse_triangle(s) {
            None => None,
            Some((t, rest)) => match parse_triangle_items((count - 1) as nat, rest) {
                None => None,
                Some((others, after)) => Some((seq![t] + others, after)),
            },
        }
    }
}

/// A list of triangles from the front of `s`.
pub open spec fn parse_triangles(s: Seq<u8>) -> Option<(Seq<TriangleView>, Seq<u8>)> {
    match parse_u64(s) {
        Some((count, rest)) => parse_triangle_items(count as nat, rest),
        None => None,
    }
}

/// Whether every one of the triangles can be written, and their number
/// fits into eight bytes.
pub open spec fn triangles_encodable(ts: Seq<TriangleView>) -> bool {
    &&& ts.len() <= u64::MAX
    &&& forall|i: int| 0 <= i < ts.len() ==> triangle_encodable(#[trigger] ts[i])
}

/// Triangles, one after the other, that were written are read back as they were, whatever
/// follows.
proof fn lemma_triangle_items_round_trip(ts: Seq<TriangleView>, rest: Seq<u8>)
    requires
        forall|i: int| 0 <= i < ts.len() ==> triangle_encodable(#[trigger] ts[i]),
    ensures
        parse_triangle_items(ts.len(), enc_triangle_items(ts) + rest) == Some((ts, rest)),
    decreases ts.len(),
{
    if ts.len() > 0 {
        let tail = ts.drop_first();
        assert forall|i: int| 0 <= i < tail.len() implies triangle_encodable(#[trigger] tail[i]) by {
            assert(tail[i] == ts[i + 1]);
        }
        lemma_triangle_items_round_trip(tail, rest);
        lemma_triangle_round_trip(ts[0], enc_triangle_items(tail) + rest);
        assert(enc_triangle_items(ts) + rest =~= enc_triangle(ts[0]) + (enc_triangle_items(tail)
            + rest));
        assert(seq![ts[0]] + tail =~= ts);
    } else {
        assert(enc_triangle_items(ts) + rest =~= rest);
        assert(ts =~= Seq::<TriangleView>::empty());
    }
}

/// A list of triangles that was written is read back as it was.
pub proof fn lemma_triangles_round_trip(ts: Seq<TriangleView>, rest: Seq<u8>)
    requires
        triangles_encodable(ts),
    ensures
        parse_triangles(enc_triangles(ts) + rest) == Some((ts, rest)),
{
    lemma_u64_round_trip(ts.len() as u64, enc_triangle_items(ts) + rest);
    lemma_triangle_items_round_trip(ts, rest);
    assert(enc_triangles(ts) + rest =~= spec_u64_to_le_bytes(ts.len() as u64) + (
    enc_triangle_items(ts) + rest));
}

/// The triangles of a vector, as plain values.
pub open spec fn triangle_views(v: Seq<Triangle>) -> Seq<TriangleView> {
    v.map_values(|t: Triangle| t@)
}

/// The bytes of the first triangles and of those after them are the bytes
/// of all of them.
proof fn lemma_triangle_items_push(ts: Seq<TriangleView>, t: TriangleView)
    ensures
        enc_triangle_items(ts.push(t)) == enc_triangle_items(ts) + enc_triangle(t),
    decreases ts.len(),
{
    if ts.len() == 0 {
        let one = ts.push(t);
        assert(one.drop_first() =~= Seq::<TriangleView>::empty());
        assert(one[0] == t);
        assert(enc_triangle_items(one.drop_first()) =~= Seq::<u8>::empty());
        assert(enc_triangle_items(one) =~= enc_triangle(t));
        assert(enc_triangle_items(ts) + enc_triangle(t) =~= enc_triangle(t));
    } else {
        lemma_triangle_items_push(ts.drop_first(), t);
        assert(ts.push(t).drop_first() =~= ts.drop_first().push(t));
        assert(enc_triangle_items(ts.push(t)) =~= enc_triangle_items(ts) + enc_triangle(t));
    }
}

/// Writes a list of triangles.
pub fn write_triangles(buf: &mut Vec<u8>, ts: &Vec<Triangle>)
    ensures
        final(buf)@ == old(buf)@ + enc_triangles(triangle_views(ts@)),
        triangles_encodable(triangle_views(ts@)),
{
    let ghost all = triangle_views(ts@);
    append_u64_le(buf, ts.len() as u64);
    let ghost head = buf@;
    let mut i: usize = 0;
    assert(all.take(0) =~= Seq::<TriangleView>::empty());
    while i < ts.len()
        invariant
            i <= ts.len(),
            all == triangle_views(ts@),
            buf@ == head + enc_triangle_items(all.take(i as int)),
            forall|j: int| 0 <= j < i ==> triangle_encodable(#[trigger] all[j]),
        decreases ts.len() - i,
    {
        let ghost before = buf@;
        write_triangle(buf, &ts[i]);
        proof {
            lemma_triangle_items_push(all.take(i as int), all[i as int]);
            assert(all.take(i + 1) =~= all.take(i as int).push(all[i as int]));
            assert(buf@ =~= head + enc_triangle_items(all.take(i + 1)));
        }
        i += 1;
    }
    proof {
        assert(all.take(i as int) =~= all);
        assert(buf@ =~= old(buf)@ + enc_triangles(all));
    }
}

/// Reads a list of triangles at `pos`.
pub fn read_triangles(bytes: &[u8], pos: usize) -> (r: Option<(Vec<Triangle>, usize)>)
    requires
        pos <= bytes@.len(),
    ensures
        match parse_triangles(bytes@.skip(pos as int)) {
            Some((value, rest)) => r matches Some((x, next)) && triangle_views(x@) == value && next
                <= bytes@.len() && rest == bytes@.skip(next as int),
            None => r is None,
        },
{
    let (count, start) = match read_u64(bytes, pos) {
        Some(found) => found,
        None => { return None; },
    };
    let mut out: Vec<Triangle> = Vec::new();
    let mut at = start;
    let mut left = count;
    proof {
        assert(triangle_views(out@) =~= Seq::<TriangleView>::empty());
    }
    while left > 0
        invariant
            at <= bytes@.len(),
            left <= count,
            parse_u64(bytes@.skip(pos as int)) == Some((count, bytes@.skip(start as int))),
            match parse_triangle_items(left as nat, bytes@.skip(at as int)) {
                Some((others, rest)) => parse_triangle_items(
                    count as nat,
                    bytes@.skip(start as int),
                ) == Some((triangle_views(out@) + others, rest)),
                None => parse_triangle_items(count as nat, bytes@.skip(start as int)) is None,
            },
        decreases left,
    {
        let ghost before = triangle_views(out@);
        match read_triangle(bytes, at) {
            Some((t, next)) => {
                proof {
                    match parse_triangle_items((left - 1) as nat, bytes@.skip(next as int)) {
                        Some((others, rest)) => {
                            assert(before + (seq![t@] + others) =~= before.push(t@) + others);
                        },
                        None => {},
                    }
                }
                out.push(t);
                assert(triangle_views(out@) =~= before.push(t@));
                at = next;
                left -= 1;
            },
            None => { return None; },
        }
    }
    proof {
        assert(triangle_views(out@) + Seq::<TriangleView>::empty() =~= triangle_views(out@));
    }
    Some((out, at))
}

// ----------------------------------------------------------------------------
// Transactions
// ----------------------------------------------------------------------------
/// The bytes of what a transfer says: input, new owner, sender, amount,
/// fee and nonce.
#[verifier::opaque]
pub open spec fn enc_transfer_body(tx: TransferTxView) -> Seq<u8> {
    tx.input_hash + enc_string(tx.new_owner) + enc_string(tx.sender) + enc_coord(tx.amount)
        + enc_coord(tx.fee_area) + spec_u64_to_le_bytes(tx.nonce)
}

/// The bytes of what comes with a transfer: signature, public key and
/// memo.
#[verifier::opaque]
pub open spec fn enc_transfer_extras(tx: TransferTxView) -> Seq<u8> {
    enc_opt_bytes(tx.signature) + enc_opt_bytes(tx.public_key) + enc_opt_string(tx.memo)
}

/// The bytes of the fields of a transfer.
pub open spec fn enc_transfer(tx: TransferTxView) -> Seq<u8> {
    enc_transfer_body(tx) + enc_transfer_extras(tx)
}

/// What a transfer says, from the front of `s`; signature, public key and
/// memo are left empty.
#[verifier::opaque]
pub open spec fn parse_transfer_body(s: Seq<u8>) -> Option<(TransferTxView, Seq<u8>)> {
    match parse_hash(s) {
        None => None,
        Some((input_hash, s1)) => match parse_string(s1) {
            None => None,
            Some((new_owner, s2)) => match parse_string(s2) {
                None => None,
                Some((sender, s3)) => match parse_coord(s3) {
                    None => None,
                    Some((amount, s4)) => match parse_coord(s4) {
                        None => None,
                        Some((fee_area, s5)) => match parse_u64(s5) {
                            None => None,
                            Some((nonce, s6)) => Some(
                                (
                                    TransferTxView {
                                        input_hash,
                                        new_owner,
                                        sender,
                                        amount,
                                        fee_area,
                                        nonce,
                                        signature: None,
                                        public_key: None,
                                        memo: None,
                                    },
                                    s6,
                                ),
                            ),
                        },
                    },
                },
            },
        },
    }
}

/// Signature, public key and memo from the front of `s`, put into the
/// transfer `body`.
#[verifier::opaque]
pub open spec fn parse_transfer_extras(body: TransferTxView, s: Seq<u8>) -> Option<
    (TransferTxView, Seq<u8>),
> {
    match parse_opt_bytes(s) {
        None => None,
        Some((signature, s1)) => match parse_opt_bytes(s1) {
            None => None,
            Some((public_key, s2)) => match parse_opt_string(s2) {
                None => None,
                Some((memo, s3)) => Some(
                    (TransferTxView { signature, public_key, memo, ..body }, s3),
                ),
            },
        },
    }
}

/// The fields of a transfer from the front of `s`.
pub open spec fn parse_transfer(s: Seq<u8>) -> Option<(TransferTxView, Seq<u8>)> {
    match parse_transfer_body(s) {
        Some((body, rest)) => parse_transfer_extras(body, rest),
        None => None,
    }
}

/// Whether a transfer can be written: its input hash has 32 bytes and
/// every length fits into eight bytes.
pub open spec fn transfer_encodable(tx: TransferTxView) -> bool {
    &&& tx.input_hash.len() == 32
    &&& encode_utf8(tx.new_owner).len() <= u64::MAX
    &&& encode_utf8(tx.sender).len() <= u64::MAX
    &&& tx.signature matches Some(b) ==> b.len() <= u64::MAX
    &&& tx.public_key matches Some(b) ==> b.len() <= u64::MAX
    &&& tx.memo matches Some(m) ==> encode_utf8(m).len() <= u64::MAX
}

/// The transfer without signature, public key and memo.
pub open spec fn bare_transfer(tx: TransferTxView) -> TransferTxView {
    TransferTxView { signature: None, public_key: None, memo: None, ..tx }
}

proof fn lemma_transfer_body_round_trip(tx: TransferTxView, rest: Seq<u8>)
    requires
        transfer_encodable(tx),
    ensures
        parse_transfer_body(enc_transfer_body(tx) + rest) == Some((bare_transfer(tx), rest)),
{
    reveal(enc_transfer_body);
    reveal(parse_transfer_body);
    let r5 = spec_u64_to_le_bytes(tx.nonce) + rest;
    let r4 = enc_coord(tx.fee_area) + r5;
    let r3 = enc_coord(tx.amount) + r4;
    let r2 = enc_string(tx.sender) + r3;
    let r1 = enc_string(tx.new_owner) + r2;
    assert(enc_transfer_body(tx) + rest =~= tx.input_hash + r1);
    lemma_hash_round_trip(tx.input_hash, r1);
    lemma_string_round_trip(tx.new_owner, r2);
    lemma_string_round_trip(tx.sender, r3);
    lemma_coord_round_trip(tx.amount, r4);
    lemma_coord_round_trip(tx.fee_area, r5);
    lemma_u64_round_trip(tx.nonce, rest);
}

proof fn lemma_transfer_extras_round_trip(tx: TransferTxView, rest: Seq<u8>)
    requires
        transfer_encodable(tx),
    ensures
        parse_transfer_extras(bare_transfer(tx), enc_transfer_extras(tx) + rest) == Some(
            (tx, rest),
        ),
{
    reveal(enc_transfer_extras);
    reveal(parse_transfer_extras);
    let r2 = enc_opt_string(tx.memo) + rest;
    let r1 = enc_opt_bytes(tx.public_key) + r2;
    assert(enc_transfer_extras(tx) + rest =~= enc_opt_bytes(tx.signature) + r1);
    lemma_opt_bytes_round_trip(tx.signature, r1);
    lemma_opt_bytes_round_trip(tx.public_key, r2);
    lemma_opt_string_round_trip(tx.memo, rest);
}

/// The fields of a transfer that were written are read back as they were, whatever
/// follows.
proof fn lemma_transfer_round_trip(tx: TransferTxView, rest: Seq<u8>)
    requires
        transfer_encodable(tx),
    ensures
        parse_transfer(enc_transfer(tx) + rest) == Some((tx, rest)),
{
    lemma_transfer_body_round_trip(tx, enc_transfer_extras(tx) + rest);
    lemma_transfer_extras_round_trip(tx, rest);
    assert(enc_transfer(tx) + rest =~= enc_transfer_body(tx) + (enc_transfer_extras(tx) + rest));
}

fn write_transfer(buf: &mut Vec<u8>, tx: &TransferTx)
    ensures
        final(buf)@ == old(buf)@ + enc_transfer(tx@),
        transfer_encodable(tx@),
{
    reveal(enc_coord);
    reveal(enc_transfer_body);
    reveal(enc_transfer_extras);
    let _ = tx.new_owner.as_str().as_bytes().len();
    let _ = tx.sender.as_str().as_bytes().len();
    match &tx.signature {
        Some(b) => { let _ = b.len(); },
        None => {},
    }
    match &tx.public_key {
        Some(b) => { let _ = b.len(); },
        None => {},
    }
    match &tx.memo {
        Some(m) => { let _ = m.as_str().as_bytes().len(); },
        None => {},
    }
    append_bytes(buf, tx.input_hash.as_slice());
    write_string(buf, &tx.new_owner);
    write_string(buf, &tx.sender);
    append_u64_le(buf, tx.amount.bits as u64);
    append_u64_le(buf, tx.fee_area.bits as u64);
    append_u64_le(buf, tx.nonce);
    write_opt_bytes(buf, &tx.signature);
    write_opt_bytes(buf, &tx.public_key);
    write_opt_string(buf, &tx.memo);
    assert(buf@ =~= old(buf)@ + enc_transfer(tx@));
}

fn read_transfer(bytes: &[u8], pos: usize) -> (r: Option<(TransferTx, usize)>)
    requires
        pos <= bytes@.len(),
    ensures
        match parse_transfer(bytes@.skip(pos as int)) {
            Some((value, rest)) => r matches Some((x, next)) && x@ == value && next <= bytes@.len()
                && rest == bytes@.skip(next as int),
            None => r is None,
        },
{
    reveal(parse_transfer_body);
    reveal(parse_transfer_extras);
    let (input_hash, at1) = match read_hash(bytes, pos) {
        Some(found) => found,
        None => { return None; },
    };
    let (new_owner, at2) = match read_string(bytes, at1) {
        Some(found) => found,
        None => { return None; },
    };
    let (sender, at3) = match read_string(bytes, at2) {
        Some(found) => found,
        None => { return None; },
    };
    let (amount, at4) = match read_coord(bytes, at3) {
        Some(found) => found,
        None => { return None; },
    };
    let (fee_area, at5) = match read_coord(bytes, at4) {
        Some(found) => found,
        None => { return None; },
    };
    let (nonce, at6) = match read_u64(bytes, at5) {
        Some(found) => found,
        None => { return None; },
    };
    let (signature, at7) = match read_opt_bytes(bytes, at6) {
        Some(found) => found,
        None => { return None; },
    };
    let (public_key, at8) = match read_opt_bytes(bytes, at7) {
        Some(found) => found,
        None => { return None; },
    };
    let (memo, at9) = match read_opt_string(bytes, at8) {
        Some(found) => found,
        None => { return None; },
    };
    Some(
        (
            TransferTx {
                input_hash,
                new_owner,
                sender,
                amount,
                fee_area,
                nonce,
                signature,
                public_key,
                memo,
            },
            at9,
        ),
    )
}

/// The bytes of the fields of a subdivision.
#[verifier::opaque]
pub open spec fn enc_subdivision(tx: SubdivisionTxView) -> Seq<u8> {
    tx.parent_hash + enc_triangles(tx.children) + enc_string(tx.owner_address) + enc_coord(
        tx.fee_area,
    ) + spec_u64_to_le_bytes(tx.nonce) + enc_opt_bytes(tx.signature) + enc_opt_bytes(tx.public_key)
}

/// The fields of a subdivision from the front of `s`.
#[verifier::opaque]
pub open spec fn parse_subdivision(s: Seq<u8>) -> Option<(SubdivisionTxView, Seq<u8>)> {
    match parse_hash(s) {
        None => None,
        Some((parent_hash, s1)) => match parse_triangles(s1) {
            None => None,
            Some((children, s2)) => match parse_string(s2) {
                None => None,
                Some((owner_address, s3)) => match parse_coord(s3) {
                    None => None,
                    Some((fee_area, s4)) => match parse_u64(s4) {
                        None => None,
                        Some((nonce, s5)) => match parse_opt_bytes(s5) {
                            None => None,
                            Some((signature, s6)) => match parse_opt_bytes(s6) {
                                None => None,
                                Some((public_key, s7)) => Some(
                                    (
                                        SubdivisionTxView {
                                            parent_hash,
                                            children,
                                            owner_address,
                                            fee_area,
                                            nonce,
                                            signature,
                                            public_key,
                                        },
                                        s7,
                                    ),
                                ),
                            },
                        },
                    },
                },
            },
        },
    }
}

/// Whether a subdivision can be written.
pub open spec fn subdivision_encodable(tx: SubdivisionTxView) -> bool {
    &&& tx.parent_hash.len() == 32
    &&& triangles_encodable(tx.children)
    &&& encode_utf8(tx.owner_address).len() <= u64::MAX
    &&& tx.signature matches Some(b) ==> b.len() <= u64::MAX
    &&& tx.public_key matches Some(b) ==> b.len() <= u64::MAX
}

/// The fields of a subdivision that were written are read back as they were, whatever
/// follows.
proof fn lemma_subdivision_round_trip(tx: SubdivisionTxView, rest: Seq<u8>)
    requires
        subdivision_encodable(tx),
    ensures
        parse_subdivision(enc_subdivision(tx) + rest) == Some((tx, rest)),
{
    reveal(enc_subdivision);
    reveal(parse_subdivision);
    let r6 = enc_opt_bytes(tx.public_key) + rest;
    let r5 = enc_opt_bytes(tx.signature) + r6;
    let r4 = spec_u64_to_le_bytes(tx.nonce) + r5;
    let r3 = enc_coord(tx.fee_area) + r4;
    let r2 = enc_string(tx.owner_address) + r3;
    let r1 = enc_triangles(tx.children) + r2;
    assert(enc_subdivision(tx) + rest =~= tx.parent_hash + r1);
    lemma_hash_round_trip(tx.parent_hash, r1);
    lemma_triangles_round_trip(tx.children, r2);
    lemma_string_round_trip(tx.owner_address, r3);
    lemma_coord_round_trip(tx.fee_area, r4);
    lemma_u64_round_trip(tx.nonce, r5);
    lemma_opt_bytes_round_trip(tx.signature, r6);
    lemma_opt_bytes_round_trip(tx.public_key, rest);
}

fn write_subdivision(buf: &mut Vec<u8>, tx: &SubdivisionTx)
    ensures
        final(buf)@ == old(buf)@ + enc_subdivision(tx@),
        subdivision_encodable(tx@),
{
    reveal(enc_coord);
    reveal(enc_subdivision);
    let _ = tx.owner_address.as_str().as_bytes().len();
    match &tx.signature {
        Some(b) => { let _ = b.len(); },
        None => {},
    }
    match &tx.public_key {
        Some(b) => { let _ = b.len(); },
        None => {},
    }
    append_bytes(buf, tx.parent_hash.as_slice());
    write_triangles(buf, &tx.children);
    write_string(buf, &tx.owner_address);
    append_u64_le(buf, tx.fee_area.bits as u64);
    append_u64_le(buf, tx.nonce);
    write_opt_bytes(buf, &tx.signature);
    write_opt_bytes(buf, &tx.public_key);
    assert(buf@ =~= old(buf)@ + enc_subdivision(tx@));
}

fn read_subdivision(bytes: &[u8], pos: usize) -> (r: Option<(SubdivisionTx, usize)>)
    requires
        pos <= bytes@.len(),
    ensures
        match parse_subdivision(bytes@.skip(pos as int)) {
            Some((value, rest)) => r matches Some((x, next)) && x@ == value && next <= bytes@.len()
                && rest == bytes@.skip(next as int),
            None => r is None,
        },
{
    reveal(parse_subdivision);
    let (parent_hash, at1) = match read_hash(bytes, pos) {
        Some(found) => found,
        None => { return None; },
    };
    let (children, at2) = match read_triangles(bytes, at1) {
        Some(found) => found,
        None => { return None; },
    };
    let (owner_address, at3) = match read_string(bytes, at2) {
        Some(found) => found,
        None => { return None; },
    };
    let (fee_area, at4) = match read_coord(bytes, at3) {
        Some(found) => found,
        None => { return None; },
    };
    let (nonce, at5) = match read_u64(bytes, at4) {
        Some(found) => found,
        None => { return None; },
    };
    let (signature, at6) = match read_opt_bytes(bytes, at5) {
        Some(found) => found,
        None => { return None; },
    };
    let (public_key, at7) = match read_opt_bytes(bytes, at6) {
        Some(found) => found,
        None => { return None; },
    };
    Some(
        (
            SubdivisionTx {
                parent_hash,
                children,
                owner_address,
                fee_area,
                nonce,
                signature,
                public_key,
            },
            at7,
        ),
    )
}

/// The bytes of the fields of a coinbase.
pub open spec fn enc_coinbase(tx: CoinbaseTxView) -> Seq<u8> {
    enc_coord(tx.reward_area) + enc_string(tx.beneficiary_address)
}

/// The fields of a coinbase from the front of `s`.
pub open spec fn parse_coinbase(s: Seq<u8>) -> Option<(CoinbaseTxView, Seq<u8>)> {
    match parse_coord(s) {
        None => None,
        Some((reward_area, s1)) => match parse_string(s1) {
            None => None,
            Some((beneficiary_address, s2)) => Some(
                (CoinbaseTxView { reward_area, beneficiary_address }, s2),
            ),
        },
    }
}

/// The fields of a coinbase that were written are read back as they were, whatever
/// follows.
proof fn lemma_coinbase_round_trip(tx: CoinbaseTxView, rest: Seq<u8>)
    requires
        encode_utf8(tx.beneficiary_address).len() <= u64::MAX,
    ensures
        parse_coinbase(enc_coinbase(tx) + rest) == Some((tx, rest)),
{
    let r1 = enc_string(tx.beneficiary_address) + rest;
    assert(enc_coinbase(tx) + rest =~= enc_coord(tx.reward_area) + r1);
    lemma_coord_round_trip(tx.reward_area, r1);
    lemma_string_round_trip(tx.beneficiary_address, rest);
}

/// The tag of the kind of a transaction.
pub open spec fn kind_tag(tx: TransactionView) -> u32 {
    match tx {
        TransactionView::Transfer(_) => 0,
        TransactionView::Subdivision(_) => 1,
        TransactionView::Coinbase(_) => 2,
    }
}

/// The bytes of a transaction: the tag of its kind, then its fields.
pub open spec fn enc_transaction(tx: TransactionView) -> Seq<u8> {
    spec_u32_to_le_bytes(kind_tag(tx)) + match tx {
        TransactionView::Transfer(t) => enc_transfer(t),
        TransactionView::Subdivision(t) => enc_subdivision(t),
        TransactionView::Coinbase(t) => enc_coinbase(t),
    }
}

/// A transaction from the front of `s`.
pub open spec fn parse_transaction(s: Seq<u8>) -> Option<(TransactionView, Seq<u8>)> {
    match parse_u32(s) {
        None => None,
        Some((tag, rest)) => if tag == 0 {
            match parse_transfer(rest) {
                Some((t, after)) => Some((TransactionView::Transfer(t), after)),
                None => None,
            }
        } else if tag == 1 {
            match parse_subdivision(rest) {
                Some((t, after)) => Some((TransactionView::Subdivision(t), after)),
                None => None,
            }
        } else if tag == 2 {
            match parse_coinbase(rest) {
                Some((t, after)) => Some((TransactionView::Coinbase(t), after)),
                None => None,
            }
        } else {
            None
        },
    }
}

/// Whether a transaction can be written: every hash in it has 32 bytes
/// and every length fits into eight bytes. Every transaction that exists
/// in memory can.
pub open spec fn transaction_encodable(tx: TransactionView) -> bool {
    match tx {
        TransactionView::Transfer(t) => transfer_encodable(t),
        TransactionView::Subdivision(t) => subdivision_encodable(t),
        TransactionView::Coinbase(t) => encode_utf8(t.beneficiary_address).len() <= u64::MAX,
    }
}

/// A transaction that was written is read back as it was.
pub proof fn lemma_transaction_parse_round_trip(tx: TransactionView, rest: Seq<u8>)
    requires
        transaction_encodable(tx),
    ensures
        parse_transaction(enc_transaction(tx) + rest) == Some((tx, rest)),
{
    match tx {
        TransactionView::Transfer(t) => {
            lemma_u32_round_trip(0, enc_transfer(t) + rest);
            lemma_transfer_round_trip(t, rest);
            assert(enc_transaction(tx) + rest =~= spec_u32_to_le_bytes(0) + (enc_transfer(t)
                + rest));
        },
        TransactionView::Subdivision(t) => {
            lemma_u32_round_trip(1, enc_subdivision(t) + rest);
            lemma_subdivision_round_trip(t, rest);
            assert(enc_transaction(tx) + rest =~= spec_u32_to_le_bytes(1) + (enc_subdivision(t)
                + rest));
        },
        TransactionView::Coinbase(t) => {
            lemma_u32_round_trip(2, enc_coinbase(t) + rest);
            lemma_coinbase_round_trip(t, rest);
            assert(enc_transaction(tx) + rest =~= spec_u32_to_le_bytes(2) + (enc_coinbase(t)
                + rest));
        },
    }
}

/// Writes a transaction.
pub fn write_transaction(buf: &mut Vec<u8>, tx: &Transaction)
    ensures
        final(buf)@ == old(buf)@ + enc_transaction(tx@),
        transaction_encodable(tx@),
{
    reveal(enc_coord);
    match tx {
        Transaction::Transfer(t) => {
            append_u32_le(buf, 0);
            write_transfer(buf, t);
        },
        Transaction::Subdivision(t) => {
            append_u32_le(buf, 1);
            write_subdivision(buf, t);
        },
        Transaction::Coinbase(t) => {
            let _ = t.beneficiary_address.as_str().as_bytes().len();
            append_u32_le(buf, 2);
            append_u64_le(buf, t.reward_area.bits as u64);
            write_string(buf, &t.beneficiary_address);
        },
    }
    assert(buf@ =~= old(buf)@ + enc_transaction(tx@));
}

/// Reads a transaction at `pos`.
pub fn read_transaction(bytes: &[u8], pos: usize) -> (r: Option<(Transaction, usize)>)
    requires
        pos <= bytes@.len(),
    ensures
        match parse_transaction(bytes@.skip(pos as int)) {
            Some((value, rest)) => r matches Some((x, next)) && x@ == value && next <= bytes@.len()
                && rest == bytes@.skip(next as int),
            None => r is None,
        },
{
    let (tag, start) = match read_u32(bytes, pos) {
        Some(found) => found,
        None => { return None; },
    };
    if tag == 0 {
        match read_transfer(bytes, start) {
            Some((t, next)) => Some((Transaction::Transfer(t), next)),
            None => None,
        }
    } else if tag == 1 {
        match read_subdivision(bytes, start) {
            Some((t, next)) => Some((Transaction::Subdivision(t), next)),
            None => None,
        }
    } else if tag == 2 {
        let (reward_area, at1) = match read_coord(bytes, start) {
            Some(found) => found,
            None => { return None; },
        };
        match read_string(bytes, at1) {
            Some((beneficiary_address, next)) => Some(
                (Transaction::Coinbase(CoinbaseTx { reward_area, beneficiary_address }), next),
            ),
            None => None,
        }
    } else {
        None
    }
}

/// The transaction that the whole of `bytes` spells, if it spells one.
pub open spec fn decode_transaction(bytes: Seq<u8>) -> Option<TransactionView> {
    match parse_transaction(bytes) {
        Some((tx, rest)) => if rest.len() == 0 {
            Some(tx)
        } else {
            None
        },
        None => None,
    }
}

/// The triangle that the whole of `bytes` spells, if it spells one.
pub open spec fn decode_triangle(bytes: Seq<u8>) -> Option<TriangleView> {
    match parse_triangle(bytes) {
        Some((t, rest)) => if rest.len() == 0 {
            Some(t)
        } else {
            None
        },
        None => None,
    }
}

/// Round trip: decoding the bytes of a transaction gives the transaction
/// back, so that encoding it once more gives the same bytes.
pub proof fn lemma_transaction_round_trip(tx: TransactionView)
    requires
        transaction_encodable(tx),
    ensures
        decode_transaction(enc_transaction(tx)) == Some(tx),
{
    lemma_transaction_parse_round_trip(tx, Seq::empty());
    assert(enc_transaction(tx) + Seq::<u8>::empty() =~= enc_transaction(tx));
}

/// Round trip: decoding the bytes of a triangle gives the triangle back,
/// so that encoding it once more gives the same bytes.
pub proof fn lemma_triangle_decode_round_trip(t: TriangleView)
    requires
        triangle_encodable(t),
    ensures
        decode_triangle(enc_triangle(t)) == Some(t),
{
    lemma_triangle_round_trip(t, Seq::empty());
    assert(enc_triangle(t) + Seq::<u8>::empty() =~= enc_triangle(t));
}

impl Triangle {
    /// The bytes of the triangle.
    pub fn encode(&self) -> (bytes: Vec<u8>)
        ensures
            bytes@ == enc_triangle(self@),
            triangle_encodable(self@),
            decode_triangle(bytes@) == Some(self@),
    {
        let mut bytes: Vec<u8> = Vec::new();
        write_triangle(&mut bytes, self);
        proof {
            assert(bytes@ =~= enc_triangle(self@));
            lemma_triangle_decode_round_trip(self@);
        }
        bytes
    }

    /// The triangle that the whole of `bytes` spells, if it spells one.
    pub fn decode(bytes: &[u8]) -> (r: Option<Triangle>)
        ensures
            match decode_triangle(bytes@) {
                Some(value) => r matches Some(t) && t@ == value,
                None => r is None,
            },
    {
        assert(bytes@.skip(0) =~= bytes@);
        match read_triangle(bytes, 0) {
            Some((t, next)) => if next == bytes.len() {
                Some(t)
            } else {
                None
            },
            None => None,
        }
    }
}

impl Transaction {
    /// The bytes of the transaction.
    pub fn encode(&self) -> (bytes: Vec<u8>)
        ensures
            bytes@ == enc_transaction(self@),
            transaction_encodable(self@),
            decode_transaction(bytes@) == Some(self@),
            bytes@.len() == self@.encoded_len(),
    {
        let mut bytes: Vec<u8> = Vec::new();
        write_transaction(&mut bytes, self);
        proof {
            assert(bytes@ =~= enc_transaction(self@));
            lemma_transaction_round_trip(self@);
            lemma_transaction_len(self@);
        }
        bytes
    }

    /// The transaction that the whole of `bytes` spells, if it spells
    /// one.
    pub fn decode(bytes: &[u8]) -> (r: Option<Transaction>)
        ensures
            match decode_transaction(bytes@) {
                Some(value) => r matches Some(tx) && tx@ == value,
                None => r is None,
            },
    {
        assert(bytes@.skip(0) =~= bytes@);
        match read_transaction(bytes, 0) {
            Some((tx, next)) => if next == bytes.len() {
                Some(tx)
            } else {
                None
            },
            None => None,
        }
    }
}

// ----------------------------------------------------------------------------
// Sizes
// ----------------------------------------------------------------------------
/// The bytes of a triangle are as many as its encoded size says.
pub proof fn lemma_triangle_len(t: TriangleView)
    requires
        triangle_encodable(t),
    ensures
        enc_triangle(t).len() == encoded_triangle_len(t),
{
    reveal(enc_point);
    reveal(enc_coord);
    reveal(enc_opt_hash);
    reveal(enc_string);
    reveal(enc_bytes);
    reveal(enc_opt_coord);
    reveal(enc_tag);
    reveal(enc_triangle);
    lemma_auto_spec_u64_to_from_le_bytes();
}

/// The bytes of some triangles are as many as their encoded sizes say.
pub proof fn lemma_triangle_items_len(ts: Seq<TriangleView>)
    requires
        forall|i: int| 0 <= i < ts.len() ==> triangle_encodable(#[trigger] ts[i]),
    ensures
        enc_triangle_items(ts).len() == encoded_triangles_len(ts),
    decreases ts.len(),
{
    if ts.len() > 0 {
        let front = ts.drop_last();
        assert forall|i: int| 0 <= i < front.len() implies triangle_encodable(
            #[trigger] front[i],
        ) by {
            assert(front[i] == ts[i]);
        }
        lemma_triangle_items_len(front);
        lemma_triangle_items_push(front, ts.last());
        assert(front.push(ts.last()) =~= ts);
        assert(triangle_encodable(ts[ts.len() - 1]));
        lemma_triangle_len(ts.last());
    }
}

/// The size limit speaks of the bytes that are written: the bytes of a
/// transaction are as many as its encoded size says.
pub proof fn lemma_transaction_len(tx: TransactionView)
    requires
        transaction_encodable(tx),
    ensures
        enc_transaction(tx).len() == tx.encoded_len(),
{
    reveal(enc_coord);
    reveal(enc_string);
    reveal(enc_bytes);
    reveal(enc_opt_bytes);
    reveal(enc_opt_string);
    reveal(enc_tag);
    lemma_auto_spec_u64_to_from_le_bytes();
    lemma_auto_spec_u32_to_from_le_bytes();
    match tx {
        TransactionView::Transfer(t) => {
            reveal(enc_transfer_body);
            reveal(enc_transfer_extras);
        },
        TransactionView::Subdivision(t) => {
            reveal(enc_subdivision);
            lemma_triangle_items_len(t.children);
        },
        TransactionView::Coinbase(t) => {},
    }
}

// ----------------------------------------------------------------------------
// Blocks
// ----------------------------------------------------------------------------
/// The bytes of a header: height, timestamp, previous hash, Merkle root,
/// difficulty and nonce.
#[verifier::opaque]
pub open spec fn enc_header(h: HeaderView) -> Seq<u8> {
    spec_u64_to_le_bytes(h.height) + spec_u64_to_le_bytes(h.timestamp) + h.previous_hash
        + h.merkle_root + spec_u32_to_le_bytes(h.difficulty) + spec_u64_to_le_bytes(h.nonce)
}

/// A header from the front of `s`.
#[verifier::opaque]
pub open spec fn parse_header(s: Seq<u8>) -> Option<(HeaderView, Seq<u8>)> {
    match parse_u64(s) {
        None => None,
        Some((height, s1)) => match parse_u64(s1) {
            None => None,
            Some((timestamp, s2)) => match parse_hash(s2) {
                None => None,
                Some((previous_hash, s3)) => match parse_hash(s3) {
                    None => None,
                    Some((merkle_root, s4)) => match parse_u32(s4) {
                        None => None,
                        Some((difficulty, s5)) => match parse_u64(s5) {
                            None => None,
                            Some((nonce, s6)) => Some(
                                (
                                    HeaderView {
                                        height,
                                        timestamp,
                                        previous_hash,
                                        merkle_root,
                                        difficulty,
                                        nonce,
                                    },
                                    s6,
                                ),
                            ),
                        },
                    },
                },
            },
        },
    }
}

/// Whether a header can be written: both its hashes have 32 bytes.
pub open spec fn header_encodable(h: HeaderView) -> bool {
    h.previous_hash.len() == 32 && h.merkle_root.len() == 32
}

/// A header that was written is read back as it was, whatever
/// follows.
proof fn lemma_header_round_trip(h: HeaderView, rest: Seq<u8>)
    requires
        header_encodable(h),
    ensures
        parse_header(enc_header(h) + rest) == Some((h, rest)),
{
    reveal(enc_header);
    reveal(parse_header);
    let r5 = spec_u64_to_le_bytes(h.nonce) + rest;
    let r4 = spec_u32_to_le_bytes(h.difficulty) + r5;
    let r3 = h.merkle_root + r4;
    let r2 = h.previous_hash + r3;
    let r1 = spec_u64_to_le_bytes(h.timestamp) + r2;
    assert(enc_header(h) + rest =~= spec_u64_to_le_bytes(h.height) + r1);
    lemma_u64_round_trip(h.height, r1);
    lemma_u64_round_trip(h.timestamp, r2);
    lemma_hash_round_trip(h.previous_hash, r3);
    lemma_hash_round_trip(h.merkle_root, r4);
    lemma_u32_round_trip(h.difficulty, r5);
    lemma_u64_round_trip(h.nonce, rest);
}

/// Writes a header.
pub fn write_header(buf: &mut Vec<u8>, h: &BlockHeader)
    ensures
        final(buf)@ == old(buf)@ + enc_header(h@),
        header_encodable(h@),
{
    reveal(enc_header);
    append_u64_le(buf, h.height);
    append_u64_le(buf, h.timestamp);
    append_bytes(buf, h.previous_hash.as_slice());
    append_bytes(buf, h.merkle_root.as_slice());
    append_u32_le(buf, h.difficulty);
    append_u64_le(buf, h.nonce);
    assert(buf@ =~= old(buf)@ + enc_header(h@));
}

/// Reads a header at `pos`.
pub fn read_header(bytes: &[u8], pos: usize) -> (r: Option<(BlockHeader, usize)>)
    requires
        pos <= bytes@.len(),
    ensures
        match parse_header(bytes@.skip(pos as int)) {
            Some((value, rest)) => r matches Some((x, next)) && x@ == value && next <= bytes@.len()
                && rest == bytes@.skip(next as int),
            None => r is None,
        },
{
    reveal(parse_header);
    let (height, at1) = match read_u64(bytes, pos) {
        Some(found) => found,
        None => { return None; },
    };
    let (timestamp, at2) = match read_u64(bytes, at1) {
        Some(found) => found,
        None => { return None; },
    };
    let (previous_hash, at3) = match read_hash(bytes, at2) {
        Some(found) => found,
        None => { return None; },
    };
    let (merkle_root, at4) = match read_hash(bytes, at3) {
        Some(found) => found,
        None => { return None; },
    };
    let (difficulty, at5) = match read_u32(bytes, at4) {
        Some(found) => found,
        None => { return None; },
    };
    let (nonce, at6) = match read_u64(bytes, at5) {
        Some(found) => found,
        None => { return None; },
    };
    Some((BlockHeader { height, timestamp, previous_hash, merkle_root, difficulty, nonce }, at6))
}

/// The bytes of some transactions, one after the other.
pub open spec fn enc_transaction_items(txs: Seq<TransactionView>) -> Seq<u8>
    decreases txs.len(),
{
    if txs.len() == 0 {
        Seq::empty()
    } else {
        enc_transaction(txs[0]) + enc_transaction_items(txs.drop_first())
    }
}

/// `count` transactions from the front of `s`.
pub open spec fn parse_transaction_items(count: nat, s: Seq<u8>) -> Option<
    (Seq<TransactionView>, Seq<u8>),
>
    decreases count,
{
    if count == 0 {
        Some((Seq::empty(), s))
    } else {
        match parse_transaction(s) {
            None => None,
            Some((tx, rest)) => match parse_transaction_items((count - 1) as nat, rest) {
                None => None,
                Some((others, after)) => Some((seq![tx] + others, after)),
            },
        }
    }
}

/// The bytes of a block: its header, the number of its transactions, and
/// the transactions.
pub open spec fn enc_block(b: BlockView) -> Seq<u8> {
    enc_header(b.header) + spec_u64_to_le_bytes(b.transactions.len() as u64)
        + enc_transaction_items(b.transactions)
}

/// A block from the front of `s`.
pub open spec fn parse_block(s: Seq<u8>) -> Option<(BlockView, Seq<u8>)> {
    match parse_header(s) {
        None => None,
        Some((header, s1)) => match parse_u64(s1) {
            None => None,
            Some((count, s2)) => match parse_transaction_items(count as nat, s2) {
                None => None,
                Some((transactions, s3)) => Some((BlockView { header, transactions }, s3)),
            },
        },
    }
}

/// The block that the whole of `bytes` spells, if it spells one.
pub open spec fn decode_block(bytes: Seq<u8>) -> Option<BlockView> {
    match parse_block(bytes) {
        Some((b, rest)) => if rest.len() == 0 {
            Some(b)
        } else {
            None
        },
        None => None,
    }
}

/// Whether a block can be written.
pub open spec fn block_encodable(b: BlockView) -> bool {
    &&& header_encodable(b.header)
    &&& b.transactions.len() <= u64::MAX
    &&& forall|i: int|
        0 <= i < b.transactions.len() ==> transaction_encodable(#[trigger] b.transactions[i])
}

/// Transactions, one after the other, that were written are read back as they were, whatever
/// follows.
proof fn lemma_transaction_items_round_trip(txs: Seq<TransactionView>, rest: Seq<u8>)
    requires
        forall|i: int| 0 <= i < txs.len() ==> transaction_encodable(#[trigger] txs[i]),
    ensures
        parse_transaction_items(txs.len(), enc_transaction_items(txs) + rest) == Some((txs, rest)),
    decreases txs.len(),
{
    if txs.len() > 0 {
        let tail = txs.drop_first();
        assert forall|i: int| 0 <= i < tail.len() implies transaction_encodable(
            #[trigger] tail[i],
        ) by {
            assert(tail[i] == txs[i + 1]);
        }
        lemma_transaction_items_round_trip(tail, rest);
        lemma_transaction_parse_round_trip(txs[0], enc_transaction_items(tail) + rest);
        assert(enc_transaction_items(txs) + rest =~= enc_transaction(txs[0]) + (
        enc_transaction_items(tail) + rest));
        assert(seq![txs[0]] + tail =~= txs);
    } else {
        assert(enc_transaction_items(txs) + rest =~= rest);
        assert(txs =~= Seq::<TransactionView>::empty());
    }
}

/// Round trip: decoding the bytes of a block gives the block back, so
/// that encoding it once more gives the same bytes.
pub proof fn lemma_block_round_trip(b: BlockView)
    requires
        block_encodable(b),
    ensures
        decode_block(enc_block(b)) == Some(b),
{
    let items = enc_transaction_items(b.transactions);
    let r1 = spec_u64_to_le_bytes(b.transactions.len() as u64) + items;
    lemma_header_round_trip(b.header, r1);
    lemma_u64_round_trip(b.transactions.len() as u64, items);
    lemma_transaction_items_round_trip(b.transactions, Seq::empty());
    assert(items + Seq::<u8>::empty() =~= items);
    assert(enc_block(b) =~= enc_header(b.header) + r1);
}

proof fn lemma_transaction_items_push(txs: Seq<TransactionView>, tx: TransactionView)
    ensures
        enc_transaction_items(txs.push(tx)) == enc_transaction_items(txs) + enc_transaction(tx),
    decreases txs.len(),
{
    if txs.len() == 0 {
        let one = txs.push(tx);
        assert(one.drop_first() =~= Seq::<TransactionView>::empty());
        assert(one[0] == tx);
        assert(enc_transaction_items(one.drop_first()) =~= Seq::<u8>::empty());
        assert(enc_transaction_items(one) =~= enc_transaction(tx));
        assert(enc_transaction_items(txs) + enc_transaction(tx) =~= enc_transaction(tx));
    } else {
        lemma_transaction_items_push(txs.drop_first(), tx);
        assert(txs.push(tx).drop_first() =~= txs.drop_first().push(tx));
        assert(enc_transaction_items(txs.push(tx)) =~= enc_transaction_items(txs)
            + enc_transaction(tx));
    }
}

/// Writes a block.
pub fn write_block(buf: &mut Vec<u8>, block: &Block)
    ensures
        final(buf)@ == old(buf)@ + enc_block(block@),
        block_encodable(block@),
{
    let ghost all = block@.transactions;
    write_header(buf, &block.header);
    append_u64_le(buf, block.transactions.len() as u64);
    let ghost head = buf@;
    let mut i: usize = 0;
    assert(all.take(0) =~= Seq::<TransactionView>::empty());
    while i < block.transactions.len()
        invariant
            i <= block.transactions.len(),
            all == transactions_view(block.transactions@),
            buf@ == head + enc_transaction_items(all.take(i as int)),
            forall|j: int| 0 <= j < i ==> transaction_encodable(#[trigger] all[j]),
        decreases block.transactions.len() - i,
    {
        write_transaction(buf, &block.transactions[i]);
        proof {
            lemma_transaction_items_push(all.take(i as int), all[i as int]);
            assert(all.take(i + 1) =~= all.take(i as int).push(all[i as int]));
            assert(buf@ =~= head + enc_transaction_items(all.take(i + 1)));
        }
        i += 1;
    }
    proof {
        assert(all.take(i as int) =~= all);
        assert(buf@ =~= old(buf)@ + enc_block(block@));
    }
}

/// Reads a block at `pos`.
pub fn read_block(bytes: &[u8], pos: usize) -> (r: Option<(Block, usize)>)
    requires
        pos <= bytes@.len(),
    ensures
        match parse_block(bytes@.skip(pos as int)) {
            Some((value, rest)) => r matches Some((x, next)) && x@ == value && next <= bytes@.len()
                && rest == bytes@.skip(next as int),
            None => r is None,
        },
{
    let (header, at1) = match read_header(bytes, pos) {
        Some(found) => found,
        None => { return None; },
    };
    let (count, start) = match read_u64(bytes, at1) {
        Some(found) => found,
        None => { return None; },
    };
    let mut transactions: Vec<Transaction> = Vec::new();
    let mut at = start;
    let mut left = count;
    proof {
        assert(transactions_view(transactions@) =~= Seq::<TransactionView>::empty());
    }
    while left > 0
        invariant
            at <= bytes@.len(),
            left <= count,
            parse_header(bytes@.skip(pos as int)) == Some((header@, bytes@.skip(at1 as int))),
            parse_u64(bytes@.skip(at1 as int)) == Some((count, bytes@.skip(start as int))),
            match parse_transaction_items(left as nat, bytes@.skip(at as int)) {
                Some((others, rest)) => parse_transaction_items(
                    count as nat,
                    bytes@.skip(start as int),
                ) == Some((transactions_view(transactions@) + others, rest)),
                None => parse_transaction_items(count as nat, bytes@.skip(start as int)) is None,
            },
        decreases left,
    {
        let ghost before = transactions_view(transactions@);
        match read_transaction(bytes, at) {
            Some((tx, next)) => {
                proof {
                    match parse_transaction_items((left - 1) as nat, bytes@.skip(next as int)) {
                        Some((others, rest)) => {
                            assert(before + (seq![tx@] + others) =~= before.push(tx@) + others);
                        },
                        None => {},
                    }
                }
                transactions.push(tx);
                assert(transactions_view(transactions@) =~= before.push(tx@));
                at = next;
                left -= 1;
            },
            None => { return None; },
        }
    }
    proof {
        assert(transactions_view(transactions@) + Seq::<TransactionView>::empty()
            =~= transactions_view(transactions@));
    }
    Some((Block { header, transactions }, at))
}

impl Block {
    /// The bytes of the block.
    pub fn encode(&self) -> (bytes: Vec<u8>)
        ensures
            bytes@ == enc_block(self@),
            block_encodable(self@),
            decode_block(bytes@) == Some(self@),
    {
        let mut bytes: Vec<u8> = Vec::new();
        write_block(&mut bytes, self);
        proof {
            assert(bytes@ =~= enc_block(self@));
            lemma_block_round_trip(self@);
        }
        bytes
    }

    /// The block that the whole of `bytes` spells, if it spells one.
    pub fn decode(bytes: &[u8]) -> (r: Option<Block>)
        ensures
            match decode_block(bytes@) {
                Some(value) => r matches Some(b) && b@ == value,
                None => r is None,
            },
    {
        assert(bytes@.skip(0) =~= bytes@);
        match read_block(bytes, 0) {
            Some((block, next)) => if next == bytes.len() {
                Some(block)
            } else {
                None
            },
            None => None,
        }
    }
}

// ----------------------------------------------------------------------------
// Messages
// ----------------------------------------------------------------------------
/// The bytes of a peer: its host, then its port in four bytes.
#[verifier::opaque]
pub open spec fn enc_node(n: NodeView) -> Seq<u8> {
    enc_string(n.host) + spec_u32_to_le_bytes(n.port as u32)
}

/// A peer from the front of `s`.
#[verifier::opaque]
pub open spec fn parse_node(s: Seq<u8>) -> Option<(NodeView, Seq<u8>)> {
    match parse_string(s) {
        None => None,
        Some((host, s1)) => match parse_u32(s1) {
            None => None,
            Some((port, s2)) => if port <= u16::MAX {
                Some((NodeView { host, port: port as u16 }, s2))
            } else {
                None
            },
        },
    }
}

/// A peer that was written is read back as it was, whatever
/// follows.
proof fn lemma_node_round_trip(n: NodeView, rest: Seq<u8>)
    requires
        encode_utf8(n.host).len() <= u64::MAX,
    ensures
        parse_node(enc_node(n) + rest) == Some((n, rest)),
{
    reveal(enc_node);
    reveal(parse_node);
    let r1 = spec_u32_to_le_bytes(n.port as u32) + rest;
    assert(enc_node(n) + rest =~= enc_string(n.host) + r1);
    lemma_string_round_trip(n.host, r1);
    lemma_u32_round_trip(n.port as u32, rest);
}

/// The bytes of the items of a list, one after the other.
pub open spec fn enc_items<T>(items: Seq<T>, enc: spec_fn(T) -> Seq<u8>) -> Seq<u8>
    decreases items.len(),
{
    if items.len() == 0 {
        Seq::empty()
    } else {
        enc(items[0]) + enc_items(items.drop_first(), enc)
    }
}

/// `count` items from the front of `s`.
pub open spec fn parse_items<T>(
    count: nat,
    s: Seq<u8>,
    parse: spec_fn(Seq<u8>) -> Option<(T, Seq<u8>)>,
) -> Option<(Seq<T>, Seq<u8>)>
    decreases count,
{
    if count == 0 {
        Some((Seq::empty(), s))
    } else {
        match parse(s) {
            None => None,
            Some((item, rest)) => match parse_items((count - 1) as nat, rest, parse) {
                None => None,
                Some((others, after)) => Some((seq![item] + others, after)),
            },
        }
    }
}

/// A list whose items are read back as they were written is read back
/// as it was written.
pub proof fn lemma_items_round_trip<T>(
    items: Seq<T>,
    rest: Seq<u8>,
    enc: spec_fn(T) -> Seq<u8>,
    parse: spec_fn(Seq<u8>) -> Option<(T, Seq<u8>)>,
)
    requires
        forall|i: int, after: Seq<u8>|
            0 <= i < items.len() ==> #[trigger] parse(enc(items[i]) + after) == Some(
                (items[i], after),
            ),
    ensures
        parse_items(items.len(), enc_items(items, enc) + rest, parse) == Some((items, rest)),
    decreases items.len(),
{
    if items.len() > 0 {
        let tail = items.drop_first();
        assert forall|i: int, after: Seq<u8>| 0 <= i < tail.len() implies #[trigger] parse(
            enc(tail[i]) + after,
        ) == Some((tail[i], after)) by {
            assert(tail[i] == items[i + 1]);
        }
        lemma_items_round_trip(tail, rest, enc, parse);
        let after = enc_items(tail, enc) + rest;
        assert(parse(enc(items[0]) + after) == Some((items[0], after)));
        assert(enc_items(items, enc) + rest =~= enc(items[0]) + after);
        assert(seq![items[0]] + tail =~= items);
    } else {
        assert(enc_items(items, enc) + rest =~= rest);
        assert(items =~= Seq::<T>::empty());
    }
}

/// The bytes of a list and of one more item are the bytes of the longer
/// list.
pub proof fn lemma_items_push<T>(items: Seq<T>, item: T, enc: spec_fn(T) -> Seq<u8>)
    ensures
        enc_items(items.push(item), enc) == enc_items(items, enc) + enc(item),
    decreases items.len(),
{
    if items.len() == 0 {
        let one = items.push(item);
        assert(one.drop_first() =~= Seq::<T>::empty());
        assert(one[0] == item);
        assert(enc_items(one.drop_first(), enc) =~= Seq::<u8>::empty());
        assert(enc_items(one, enc) =~= enc(item));
        assert(enc_items(items, enc) + enc(item) =~= enc(item));
    } else {
        lemma_items_push(items.drop_first(), item, enc);
        assert(items.push(item).drop_first() =~= items.drop_first().push(item));
        assert(enc_items(items.push(item), enc) =~= enc_items(items, enc) + enc(item));
    }
}

/// The writer of headers, as a function.
pub open spec fn header_writer() -> spec_fn(HeaderView) -> Seq<u8> {
    |h: HeaderView| enc_header(h)
}

/// The reader of headers, as a function.
pub open spec fn header_reader() -> spec_fn(Seq<u8>) -> Option<(HeaderView, Seq<u8>)> {
    |b: Seq<u8>| parse_header(b)
}

/// The writer of peers, as a function.
pub open spec fn node_writer() -> spec_fn(NodeView) -> Seq<u8> {
    |n: NodeView| enc_node(n)
}

/// The reader of peers, as a function.
pub open spec fn node_reader() -> spec_fn(Seq<u8>) -> Option<(NodeView, Seq<u8>)> {
    |b: Seq<u8>| parse_node(b)
}

/// The bytes of a list of headers: their number, then the headers.
pub open spec fn enc_headers(headers: Seq<HeaderView>) -> Seq<u8> {
    spec_u64_to_le_bytes(headers.len() as u64) + enc_items(headers, header_writer())
}

/// A list of headers from the front of `s`.
pub open spec fn parse_headers(s: Seq<u8>) -> Option<(Seq<HeaderView>, Seq<u8>)> {
    match parse_u64(s) {
        Some((count, rest)) => parse_items(count as nat, rest, header_reader()),
        None => None,
    }
}

/// The bytes of a list of peers: their number, then the peers.
pub open spec fn enc_nodes(nodes: Seq<NodeView>) -> Seq<u8> {
    spec_u64_to_le_bytes(nodes.len() as u64) + enc_items(nodes, node_writer())
}

/// A list of peers from the front of `s`.
pub open spec fn parse_nodes(s: Seq<u8>) -> Option<(Seq<NodeView>, Seq<u8>)> {
    match parse_u64(s) {
        Some((count, rest)) => parse_items(count as nat, rest, node_reader()),
        None => None,
    }
}

/// The tag of the kind of a message.
pub open spec fn message_tag(m: MessageView) -> u32 {
    match m {
        MessageView::GetBlockHeaders { .. } => 0,
        MessageView::BlockHeaders(_) => 1,
        MessageView::GetBlock(_) => 2,
        MessageView::Block(_) => 3,
        MessageView::NewBlock(_) => 4,
        MessageView::NewTransaction(_) => 5,
        MessageView::GetPeers => 6,
        MessageView::Peers(_) => 7,
    }
}

/// The bytes of what a message carries.
pub open spec fn enc_message_body(m: MessageView) -> Seq<u8> {
    match m {
        MessageView::GetBlockHeaders { after_height } => spec_u64_to_le_bytes(after_height),
        MessageView::BlockHeaders(headers) => enc_headers(headers),
        MessageView::GetBlock(hash) => hash,
        MessageView::Block(block) => enc_block(block),
        MessageView::NewBlock(block) => enc_block(block),
        MessageView::NewTransaction(tx) => enc_transaction(tx),
        MessageView::GetPeers => Seq::empty(),
        MessageView::Peers(nodes) => enc_nodes(nodes),
    }
}

/// The bytes of a message: the tag of its kind in four bytes, then what
/// it carries.
pub open spec fn enc_message(m: MessageView) -> Seq<u8> {
    spec_u32_to_le_bytes(message_tag(m)) + enc_message_body(m)
}

/// What a message of the kind `tag` carries, from the front of `s`.
pub open spec fn parse_message_body(tag: u32, s: Seq<u8>) -> Option<(MessageView, Seq<u8>)> {
    if tag == 0 {
        match parse_u64(s) {
            Some((after_height, rest)) => Some((MessageView::GetBlockHeaders { after_height }, rest)),
            None => None,
        }
    } else if tag == 1 {
        match parse_headers(s) {
            Some((headers, rest)) => Some((MessageView::BlockHeaders(headers), rest)),
            None => None,
        }
    } else if tag == 2 {
        match parse_hash(s) {
            Some((hash, rest)) => Some((MessageView::GetBlock(hash), rest)),
            None => None,
        }
    } else if tag == 3 {
        match parse_block(s) {
            Some((block, rest)) => Some((MessageView::Block(block), rest)),
            None => None,
        }
    } else if tag == 4 {
        match parse_block(s) {
            Some((block, rest)) => Some((MessageView::NewBlock(block), rest)),
            None => None,
        }
    } else if tag == 5 {
        match parse_transaction(s) {
            Some((tx, rest)) => Some((MessageView::NewTransaction(tx), rest)),
            None => None,
        }
    } else if tag == 6 {
        Some((MessageView::GetPeers, s))
    } else if tag == 7 {
        match parse_nodes(s) {
            Some((nodes, rest)) => Some((MessageView::Peers(nodes), rest)),
            None => None,
        }
    } else {
        None
    }
}

/// The message that the whole of `bytes` spells, if it spells one.
pub open spec fn decode_message(bytes: Seq<u8>) -> Option<MessageView> {
    match parse_u32(bytes) {
        None => None,
        Some((tag, rest)) => match parse_message_body(tag, rest) {
            Some((m, after)) => if after.len() == 0 {
                Some(m)
            } else {
                None
            },
            None => None,
        },
    }
}

/// Whether a message can be written.
pub open spec fn message_encodable(m: MessageView) -> bool {
    match m {
        MessageView::GetBlockHeaders { .. } => true,
        MessageView::BlockHeaders(headers) => headers.len() <= u64::MAX && forall|i: int|
            0 <= i < headers.len() ==> header_encodable(#[trigger] headers[i]),
        MessageView::GetBlock(hash) => hash.len() == 32,
        MessageView::Block(block) => block_encodable(block),
        MessageView::NewBlock(block) => block_encodable(block),
        MessageView::NewTransaction(tx) => transaction_encodable(tx),
        MessageView::GetPeers => true,
        MessageView::Peers(nodes) => nodes.len() <= u64::MAX && forall|i: int|
            0 <= i < nodes.len() ==> encode_utf8((#[trigger] nodes[i]).host).len() <= u64::MAX,
    }
}

/// A block that was written is read back as it was, whatever follows it.
pub proof fn lemma_block_parse_round_trip(b: BlockView, rest: Seq<u8>)
    requires
        block_encodable(b),
    ensures
        parse_block(enc_block(b) + rest) == Some((b, rest)),
{
    let items = enc_transaction_items(b.transactions);
    let r1 = spec_u64_to_le_bytes(b.transactions.len() as u64) + (items + rest);
    lemma_header_round_trip(b.header, r1);
    lemma_u64_round_trip(b.transactions.len() as u64, items + rest);
    lemma_transaction_items_round_trip(b.transactions, rest);
    assert(enc_block(b) + rest =~= enc_header(b.header) + r1);
}

/// Round trip: decoding the bytes of a message gives the message back.
pub proof fn lemma_message_round_trip(m: MessageView)
    requires
        message_encodable(m),
    ensures
        decode_message(enc_message(m)) == Some(m),
{
    let none = Seq::<u8>::empty();
    let body = enc_message_body(m);
    lemma_u32_round_trip(message_tag(m), body);
    assert(body + none =~= body);
    match m {
        MessageView::GetBlockHeaders { after_height } => {
            lemma_u64_round_trip(after_height, none);
        },
        MessageView::BlockHeaders(headers) => {
            let enc = header_writer();
            let parse = header_reader();
            assert forall|i: int, after: Seq<u8>| 0 <= i < headers.len() implies #[trigger] parse(
                enc(headers[i]) + after,
            ) == Some((headers[i], after)) by {
                lemma_header_round_trip(headers[i], after);
            }
            lemma_items_round_trip(headers, none, enc, parse);
            lemma_u64_round_trip(headers.len() as u64, enc_items(headers, enc) + none);
            assert(body + none =~= spec_u64_to_le_bytes(headers.len() as u64) + (enc_items(
                headers,
                enc,
            ) + none));
        },
        MessageView::GetBlock(hash) => {
            lemma_hash_round_trip(hash, none);
        },
        MessageView::Block(block) => {
            lemma_block_parse_round_trip(block, none);
        },
        MessageView::NewBlock(block) => {
            lemma_block_parse_round_trip(block, none);
        },
        MessageView::NewTransaction(tx) => {
            lemma_transaction_parse_round_trip(tx, none);
        },
        MessageView::GetPeers => {},
        MessageView::Peers(nodes) => {
            let enc = node_writer();
            let parse = node_reader();
            assert forall|i: int, after: Seq<u8>| 0 <= i < nodes.len() implies #[trigger] parse(
                enc(nodes[i]) + after,
            ) == Some((nodes[i], after)) by {
                lemma_node_round_trip(nodes[i], after);
            }
            lemma_items_round_trip(nodes, none, enc, parse);
            lemma_u64_round_trip(nodes.len() as u64, enc_items(nodes, enc) + none);
            assert(body + none =~= spec_u64_to_le_bytes(nodes.len() as u64) + (enc_items(
                nodes,
                enc,
            ) + none));
        },
    }
}

fn write_node(buf: &mut Vec<u8>, node: &Node)
    ensures
        final(buf)@ == old(buf)@ + enc_node(node@),
        encode_utf8(node@.host).len() <= u64::MAX,
{
    reveal(enc_node);
    let _ = node.host.as_str().as_bytes().len();
    write_string(buf, &node.host);
    append_u32_le(buf, node.port as u32);
    assert(buf@ =~= old(buf)@ + enc_node(node@));
}

fn read_node(bytes: &[u8], pos: usize) -> (r: Option<(Node, usize)>)
    requires
        pos <= bytes@.len(),
    ensures
        match parse_node(bytes@.skip(pos as int)) {
            Some((value, rest)) => r matches Some((x, next)) && x@ == value && next <= bytes@.len()
                && rest == bytes@.skip(next as int),
            None => r is None,
        },
{
    reveal(parse_node);
    let (host, at1) = match read_string(bytes, pos) {
        Some(found) => found,
        None => { return None; },
    };
    let (port, at2) = match read_u32(bytes, at1) {
        Some(found) => found,
        None => { return None; },
    };
    if port > 0xffff {
        return None;
    }
    Some((Node { host, port: port as u16 }, at2))
}

fn write_nodes(buf: &mut Vec<u8>, nodes: &Vec<Node>)
    ensures
        final(buf)@ == old(buf)@ + enc_nodes(nodes_view(nodes@)),
        message_encodable(MessageView::Peers(nodes_view(nodes@))),
{
    let ghost all = nodes_view(nodes@);
    append_u64_le(buf, nodes.len() as u64);
    let ghost head = buf@;
    let mut i: usize = 0;
    assert(all.take(0) =~= Seq::<NodeView>::empty());
    while i < nodes.len()
        invariant
            i <= nodes.len(),
            all == nodes_view(nodes@),
            buf@ == head + enc_items(all.take(i as int), node_writer()),
            forall|j: int| 0 <= j < i ==> encode_utf8((#[trigger] all[j]).host).len() <= u64::MAX,
        decreases nodes.len() - i,
    {
        write_node(buf, &nodes[i]);
        proof {
            lemma_items_push(all.take(i as int), all[i as int], node_writer());
            assert(all.take(i + 1) =~= all.take(i as int).push(all[i as int]));
            assert(buf@ =~= head + enc_items(all.take(i + 1), node_writer()));
        }
        i += 1;
    }
    proof {
        assert(all.take(i as int) =~= all);
        assert(buf@ =~= old(buf)@ + enc_nodes(all));
    }
}

fn read_nodes(bytes: &[u8], pos: usize) -> (r: Option<(Vec<Node>, usize)>)
    requires
        pos <= bytes@.len(),
    ensures
        match parse_nodes(bytes@.skip(pos as int)) {
            Some((value, rest)) => r matches Some((x, next)) && nodes_view(x@) == value && next
                <= bytes@.len() && rest == bytes@.skip(next as int),
            None => r is None,
        },
{
    let (count, start) = match read_u64(bytes, pos) {
        Some(found) => found,
        None => { return None; },
    };
    let mut out: Vec<Node> = Vec::new();
    let mut at = start;
    let mut left = count;
    proof {
        assert(nodes_view(out@) =~= Seq::<NodeView>::empty());
    }
    while left > 0
        invariant
            at <= bytes@.len(),
            left <= count,
            parse_u64(bytes@.skip(pos as int)) == Some((count, bytes@.skip(start as int))),
            match parse_items(left as nat, bytes@.skip(at as int), node_reader()) {
                Some((others, rest)) => parse_items(
                    count as nat,
                    bytes@.skip(start as int),
                    node_reader(),
                ) == Some((nodes_view(out@) + others, rest)),
                None => parse_items(count as nat, bytes@.skip(start as int), node_reader())
                    is None,
            },
        decreases left,
    {
        let ghost before = nodes_view(out@);
        match read_node(bytes, at) {
            Some((node, next)) => {
                proof {
                    match parse_items((left - 1) as nat, bytes@.skip(next as int), node_reader()) {
                        Some((others, rest)) => {
                            assert(before + (seq![node@] + others) =~= before.push(node@) + others);
                        },
                        None => {},
                    }
                }
                out.push(node);
                assert(nodes_view(out@) =~= before.push(node@));
                at = next;
                left -= 1;
            },
            None => { return None; },
        }
    }
    proof {
        assert(nodes_view(out@) + Seq::<NodeView>::empty() =~= nodes_view(out@));
    }
    Some((out, at))
}

fn write_headers(buf: &mut Vec<u8>, headers: &Vec<BlockHeader>)
    ensures
        final(buf)@ == old(buf)@ + enc_headers(blocks_header_view(headers@)),
        message_encodable(MessageView::BlockHeaders(blocks_header_view(headers@))),
{
    let ghost all = blocks_header_view(headers@);
    append_u64_le(buf, headers.len() as u64);
    let ghost head = buf@;
    let mut i: usize = 0;
    assert(all.take(0) =~= Seq::<HeaderView>::empty());
    while i < headers.len()
        invariant
            i <= headers.len(),
            all == blocks_header_view(headers@),
            buf@ == head + enc_items(all.take(i as int), header_writer()),
            forall|j: int| 0 <= j < i ==> header_encodable(#[trigger] all[j]),
        decreases headers.len() - i,
    {
        write_header(buf, &headers[i]);
        proof {
            lemma_items_push(all.take(i as int), all[i as int], header_writer());
            assert(all.take(i + 1) =~= all.take(i as int).push(all[i as int]));
            assert(buf@ =~= head + enc_items(all.take(i + 1), header_writer()));
        }
        i += 1;
    }
    proof {
        assert(all.take(i as int) =~= all);
        assert(buf@ =~= old(buf)@ + enc_headers(all));
    }
}

fn read_headers(bytes: &[u8], pos: usize) -> (r: Option<(Vec<BlockHeader>, usize)>)
    requires
        pos <= bytes@.len(),
    ensures
        match parse_headers(bytes@.skip(pos as int)) {
            Some((value, rest)) => r matches Some((x, next)) && blocks_header_view(x@) == value
                && next <= bytes@.len() && rest == bytes@.skip(next as int),
            None => r is None,
        },
{
    let (count, start) = match read_u64(bytes, pos) {
        Some(found) => found,
        None => { return None; },
    };
    let mut out: Vec<BlockHeader> = Vec::new();
    let mut at = start;
    let mut left = count;
    proof {
        assert(blocks_header_view(out@) =~= Seq::<HeaderView>::empty());
    }
    while left > 0
        invariant
            at <= bytes@.len(),
            left <= count,
            parse_u64(bytes@.skip(pos as int)) == Some((count, bytes@.skip(start as int))),
            match parse_items(left as nat, bytes@.skip(at as int), header_reader()) {
                Some((others, rest)) => parse_items(
                    count as nat,
                    bytes@.skip(start as int),
                    header_reader(),
                ) == Some((blocks_header_view(out@) + others, rest)),
                None => parse_items(count as nat, bytes@.skip(start as int), header_reader())
                    is None,
            },
        decreases left,
    {
        let ghost before = blocks_header_view(out@);
        match read_header(bytes, at) {
            Some((header, next)) => {
                proof {
                    match parse_items(
                        (left - 1) as nat,
                        bytes@.skip(next as int),
                        header_reader(),
                    ) {
                        Some((others, rest)) => {
                            assert(before + (seq![header@] + others) =~= before.push(header@)
                                + others);
                        },
                        None => {},
                    }
                }
                out.push(header);
                assert(blocks_header_view(out@) =~= before.push(header@));
                at = next;
                left -= 1;
            },
            None => { return None; },
        }
    }
    proof {
        assert(blocks_header_view(out@) + Seq::<HeaderView>::empty() =~= blocks_header_view(out@));
    }
    Some((out, at))
}

impl NetworkMessage {
    /// The bytes of the message, as they go into a frame.
    pub fn encode(&self) -> (bytes: Vec<u8>)
        ensures
            bytes@ == enc_message(self@),
            message_encodable(self@),
            decode_message(bytes@) == Some(self@),
    {
        let mut bytes: Vec<u8> = Vec::new();
        match self {
            NetworkMessage::GetBlockHeaders { after_height } => {
                append_u32_le(&mut bytes, 0);
                append_u64_le(&mut bytes, *after_height);
            },
            NetworkMessage::BlockHeaders(headers) => {
                append_u32_le(&mut bytes, 1);
                write_headers(&mut bytes, headers);
            },
            NetworkMessage::GetBlock(hash) => {
                append_u32_le(&mut bytes, 2);
                append_bytes(&mut bytes, hash.as_slice());
            },
            NetworkMessage::Block(block) => {
                append_u32_le(&mut bytes, 3);
                write_block(&mut bytes, block);
            },
            NetworkMessage::NewBlock(block) => {
                append_u32_le(&mut bytes, 4);
                write_block(&mut bytes, block);
            },
            NetworkMessage::NewTransaction(tx) => {
                append_u32_le(&mut bytes, 5);
                write_transaction(&mut bytes, tx);
            },
            NetworkMessage::GetPeers => {
                append_u32_le(&mut bytes, 6);
            },
            NetworkMessage::Peers(peers) => {
                append_u32_le(&mut bytes, 7);
                write_nodes(&mut bytes, peers);
            },
        }
        proof {
            assert(bytes@ =~= enc_message(self@));
            lemma_message_round_trip(self@);
        }
        bytes
    }

    /// The message that the whole of `bytes` spells, if it spells one.
    pub fn decode(bytes: &[u8]) -> (r: Option<NetworkMessage>)
        ensures
            match decode_message(bytes@) {
                Some(value) => r matches Some(m) && m@ == value,
                None => r is None,
            },
    {
        assert(bytes@.skip(0) =~= bytes@);
        let (tag, start) = match read_u32(bytes, 0) {
            Some(found) => found,
            None => { return None; },
        };
        let (message, next) = if tag == 0 {
            match read_u64(bytes, start) {
                Some((after_height, next)) => (
                    NetworkMessage::GetBlockHeaders { after_height },
                    next,
                ),
                None => { return None; },
            }
        } else if tag == 1 {
            match read_headers(bytes, start) {
                Some((headers, next)) => (NetworkMessage::BlockHeaders(headers), next),
                None => { return None; },
            }
        } else if tag == 2 {
            match read_hash(bytes, start) {
                Some((hash, next)) => (NetworkMessage::GetBlock(hash), next),
                None => { return None; },
            }
        } else if tag == 3 {
            match read_block(bytes, start) {
                Some((block, next)) => (NetworkMessage::Block(Box::new(block)), next),
                None => { return None; },
            }
        } else if tag == 4 {
            match read_block(bytes, start) {
                Some((block, next)) => (NetworkMessage::NewBlock(Box::new(block)), next),
                None => { return None; },
            }
        } else if tag == 5 {
            match read_transaction(bytes, start) {
                Some((tx, next)) => (NetworkMessage::NewTransaction(Box::new(tx)), next),
                None => { return None; },
            }
        } else if tag == 6 {
            (NetworkMessage::GetPeers, start)
        } else if tag == 7 {
            match read_nodes(bytes, start) {
                Some((peers, next)) => (NetworkMessage::Peers(peers), next),
                None => { return None; },
            }
        } else {
            return None;
        };
        if next == bytes.len() {
            Some(message)
        } else {
            None
        }
    }
}

} // verus!
