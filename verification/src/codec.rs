//! The wire codec: a lossless, deterministic, self-describing byte encoding
//! for records and the session descriptor.
//!
//! Every variable-sized value carries its own length, every optional value a
//! presence byte, and every severity a tag byte, so a decoder needs nothing
//! but the bytes themselves. Encoding and decoding are specified as spec
//! functions over the mathematical views, the executable functions are proved
//! to match them exactly, and the round-trip lemmas show the encoding is
//! lossless: decoding an encoded value gives back every field unchanged.

use crate::protocol::Hello;
use crate::protocol::HelloV;
use crate::protocol::Level;
use crate::protocol::Metadata;
use crate::protocol::ProcessInfo;
use crate::protocol::ProcessInfoV;
use crate::protocol::MetadataV;
use crate::protocol::Record;
use crate::protocol::RecordV;
use vstd::prelude::*;
use vstd::string::StrSliceExecFns;
use vstd::utf8::decode_utf8;
use vstd::utf8::encode_utf8;
use vstd::utf8::encode_utf8_decode_utf8;
use vstd::utf8::encode_utf8_valid_utf8;
use vstd::utf8::valid_utf8;

verus! {

/// Little-endian bytes of a 64-bit length or identifier.
pub open spec fn enc_u64(n: u64) -> Seq<u8> {
    seq![
        (n & 0xff) as u8,
        ((n >> 8) & 0xff) as u8,
        ((n >> 16) & 0xff) as u8,
        ((n >> 24) & 0xff) as u8,
        ((n >> 32) & 0xff) as u8,
        ((n >> 40) & 0xff) as u8,
        ((n >> 48) & 0xff) as u8,
        ((n >> 56) & 0xff) as u8,
    ]
}

/// Little-endian bytes of a 32-bit value (a source line number).
pub open spec fn enc_u32(n: u32) -> Seq<u8> {
    seq![(n & 0xff) as u8, ((n >> 8) & 0xff) as u8, ((n >> 16) & 0xff) as u8, ((n >> 24)
        & 0xff) as u8]
}

/// The 64-bit value held in the first eight bytes of `b`, little-endian.
pub open spec fn combine_u64(b: Seq<u8>) -> u64
    recommends
        b.len() >= 8,
{
    (b[0] as u64) | ((b[1] as u64) << 8) | ((b[2] as u64) << 16) | ((b[3] as u64) << 24) | ((
    b[4] as u64) << 32) | ((b[5] as u64) << 40) | ((b[6] as u64) << 48) | ((b[7] as u64) << 56)
}

/// The 32-bit value held in the first four bytes of `b`, little-endian.
pub open spec fn combine_u32(b: Seq<u8>) -> u32
    recommends
        b.len() >= 4,
{
    (b[0] as u32) | ((b[1] as u32) << 8) | ((b[2] as u32) << 16) | ((b[3] as u32) << 24)
}

/// Reads a 64-bit value off the front of `b`; what is left follows.
pub open spec fn dec_u64(b: Seq<u8>) -> Option<(u64, Seq<u8>)> {
    if b.len() >= 8 {
        Option::Some((combine_u64(b), b.skip(8)))
    } else {
        Option::None
    }
}

/// Reads a 32-bit value off the front of `b`.
pub open spec fn dec_u32(b: Seq<u8>) -> Option<(u32, Seq<u8>)> {
    if b.len() >= 4 {
        Option::Some((combine_u32(b), b.skip(4)))
    } else {
        Option::None
    }
}

/// Reading a 64-bit value off an encoding of `n` gives back `n` exactly.
pub proof fn lemma_u64_round_trip(n: u64, rest: Seq<u8>)
    ensures
        dec_u64(enc_u64(n) + rest) == Option::Some((n, rest)),
{
    let b = enc_u64(n) + rest;
    assert(b.len() >= 8);
    let b0 = (n & 0xff) as u8;
    let b1 = ((n >> 8) & 0xff) as u8;
    let b2 = ((n >> 16) & 0xff) as u8;
    let b3 = ((n >> 24) & 0xff) as u8;
    let b4 = ((n >> 32) & 0xff) as u8;
    let b5 = ((n >> 40) & 0xff) as u8;
    let b6 = ((n >> 48) & 0xff) as u8;
    let b7 = ((n >> 56) & 0xff) as u8;
    assert(b[0] == b0 && b[1] == b1 && b[2] == b2 && b[3] == b3 && b[4] == b4 && b[5] == b5 && b[6]
        == b6 && b[7] == b7);
    assert((b0 as u64) | ((b1 as u64) << 8) | ((b2 as u64) << 16) | ((b3 as u64) << 24) | ((
    b4 as u64) << 32) | ((b5 as u64) << 40) | ((b6 as u64) << 48) | ((b7 as u64) << 56) == n) by (bit_vector)
        requires
            b0 == (n & 0xff) as u8 && b1 == ((n >> 8) & 0xff) as u8 && b2 == ((n >> 16)
                & 0xff) as u8 && b3 == ((n >> 24) & 0xff) as u8 && b4 == ((n >> 32) & 0xff) as u8
                && b5 == ((n >> 40) & 0xff) as u8 && b6 == ((n >> 48) & 0xff) as u8 && b7 == ((n
                >> 56) & 0xff) as u8,
    ;
    assert(combine_u64(b) == n);
    assert(b.skip(8) =~= rest);
}

/// Reading a 32-bit value off an encoding of `n` gives back `n` exactly.
pub proof fn lemma_u32_round_trip(n: u32, rest: Seq<u8>)
    ensures
        dec_u32(enc_u32(n) + rest) == Option::Some((n, rest)),
{
    let b = enc_u32(n) + rest;
    assert(b.len() >= 4);
    let b0 = (n & 0xff) as u8;
    let b1 = ((n >> 8) & 0xff) as u8;
    let b2 = ((n >> 16) & 0xff) as u8;
    let b3 = ((n >> 24) & 0xff) as u8;
    assert(b[0] == b0 && b[1] == b1 && b[2] == b2 && b[3] == b3);
    assert((b0 as u32) | ((b1 as u32) << 8) | ((b2 as u32) << 16) | ((b3 as u32) << 24) == n)
        by (bit_vector)
        requires
            b0 == (n & 0xff) as u8 && b1 == ((n >> 8) & 0xff) as u8 && b2 == ((n >> 16)
                & 0xff) as u8 && b3 == ((n >> 24) & 0xff) as u8,
    ;
    assert(combine_u32(b) == n);
    assert(b.skip(4) =~= rest);
}

/// Appends the little-endian bytes of `n` to `out`.
fn push_u64(out: &mut Vec<u8>, n: u64)
    ensures
        final(out)@ == old(out)@ + enc_u64(n),
{
    out.push((n & 0xff) as u8);
    out.push(((n >> 8) & 0xff) as u8);
    out.push(((n >> 16) & 0xff) as u8);
    out.push(((n >> 24) & 0xff) as u8);
    out.push(((n >> 32) & 0xff) as u8);
    out.push(((n >> 40) & 0xff) as u8);
    out.push(((n >> 48) & 0xff) as u8);
    out.push(((n >> 56) & 0xff) as u8);
    proof {
        assert(out@ =~= old(out)@ + enc_u64(n));
    }
}

/// Appends the little-endian bytes of `n` to `out`.
fn push_u32(out: &mut Vec<u8>, n: u32)
    ensures
        final(out)@ == old(out)@ + enc_u32(n),
{
    out.push((n & 0xff) as u8);
    out.push(((n >> 8) & 0xff) as u8);
    out.push(((n >> 16) & 0xff) as u8);
    out.push(((n >> 24) & 0xff) as u8);
    proof {
        assert(out@ =~= old(out)@ + enc_u32(n));
    }
}

/// Reads a 64-bit value at `pos`; returns it with the position just past it.
fn read_u64(bytes: &Vec<u8>, pos: usize) -> (r: Option<(u64, usize)>)
    requires
        pos <= bytes@.len(),
    ensures
        match r {
            Option::Some(p) => pos <= p.1 <= bytes@.len() && dec_u64(bytes@.skip(pos as int))
                == Option::Some((p.0, bytes@.skip(p.1 as int))),
            Option::None => dec_u64(bytes@.skip(pos as int)) is None,
        },
{
    if bytes.len() - pos >= 8 {
        let n = (bytes[pos] as u64) | ((bytes[pos + 1] as u64) << 8) | ((bytes[pos + 2] as u64)
            << 16) | ((bytes[pos + 3] as u64) << 24) | ((bytes[pos + 4] as u64) << 32) | ((bytes[pos
            + 5] as u64) << 40) | ((bytes[pos + 6] as u64) << 48) | ((bytes[pos + 7] as u64) << 56);
        proof {
            let s = bytes@.skip(pos as int);
            assert(s[0] == bytes@[pos as int] && s[1] == bytes@[pos as int + 1] && s[2]
                == bytes@[pos as int + 2] && s[3] == bytes@[pos as int + 3] && s[4] == bytes@[pos as int
                + 4] && s[5] == bytes@[pos as int + 5] && s[6] == bytes@[pos as int + 6] && s[7]
                == bytes@[pos as int + 7]);
            assert(n == combine_u64(s));
            assert(s.skip(8) =~= bytes@.skip(pos as int + 8));
        }
        Option::Some((n, pos + 8))
    } else {
        Option::None
    }
}

/// Reads a 32-bit value at `pos`; returns it with the position just past it.
fn read_u32(bytes: &Vec<u8>, pos: usize) -> (r: Option<(u32, usize)>)
    requires
        pos <= bytes@.len(),
    ensures
        match r {
            Option::Some(p) => pos <= p.1 <= bytes@.len() && dec_u32(bytes@.skip(pos as int))
                == Option::Some((p.0, bytes@.skip(p.1 as int))),
            Option::None => dec_u32(bytes@.skip(pos as int)) is None,
        },
{
    if bytes.len() - pos >= 4 {
        let n = (bytes[pos] as u32) | ((bytes[pos + 1] as u32) << 8) | ((bytes[pos + 2] as u32)
            << 16) | ((bytes[pos + 3] as u32) << 24);
        proof {
            let s = bytes@.skip(pos as int);
            assert(s[0] == bytes@[pos as int] && s[1] == bytes@[pos as int + 1] && s[2]
                == bytes@[pos as int + 2] && s[3] == bytes@[pos as int + 3]);
            assert(n == combine_u32(s));
            assert(s.skip(4) =~= bytes@.skip(pos as int + 4));
        }
        Option::Some((n, pos + 4))
    } else {
        Option::None
    }
}

/// A length-prefixed run of raw bytes.
pub open spec fn enc_bytes(b: Seq<u8>) -> Seq<u8> {
    enc_u64(b.len() as u64) + b
}

/// Reads a length-prefixed run of raw bytes off the front of `b`.
pub open spec fn dec_bytes(b: Seq<u8>) -> Option<(Seq<u8>, Seq<u8>)> {
    match dec_u64(b) {
        Option::Some(p) => {
            if p.1.len() >= p.0 {
                Option::Some((p.1.take(p.0 as int), p.1.skip(p.0 as int)))
            } else {
                Option::None
            }
        },
        Option::None => Option::None,
    }
}

/// The byte run's length fits in the 64-bit length prefix.
pub open spec fn bytes_fit(b: Seq<u8>) -> bool {
    b.len() < 0x1_0000_0000_0000_0000
}

/// Reading a byte run off an encoding of `data` gives back `data` exactly.
#[verifier::rlimit(50)]
pub proof fn lemma_bytes_round_trip(data: Seq<u8>, rest: Seq<u8>)
    requires
        bytes_fit(data),
    ensures
        dec_bytes(enc_bytes(data) + rest) == Option::Some((data, rest)),
{
    let n = data.len() as u64;
    let tail = data + rest;
    lemma_u64_round_trip(n, tail);
    assert(enc_bytes(data) + rest =~= enc_u64(n) + tail);
    assert(dec_u64(enc_bytes(data) + rest) == Option::Some((n, tail)));
    assert(tail.len() >= n);
    assert(tail.take(n as int) =~= data);
    assert(tail.skip(n as int) =~= rest);
}

/// A string on the wire: the length-prefixed run of its UTF-8 bytes.
pub open spec fn enc_str(s: Seq<char>) -> Seq<u8> {
    enc_bytes(encode_utf8(s))
}

/// Reads a string off the front of `b`: a length-prefixed byte run that must
/// hold valid UTF-8.
pub open spec fn dec_str(b: Seq<u8>) -> Option<(Seq<char>, Seq<u8>)> {
    match dec_bytes(b) {
        Option::Some(p) => {
            if valid_utf8(p.0) {
                Option::Some((decode_utf8(p.0), p.1))
            } else {
                Option::None
            }
        },
        Option::None => Option::None,
    }
}

/// The string's UTF-8 form fits in the 64-bit length prefix.
pub open spec fn str_fits(s: Seq<char>) -> bool {
    encode_utf8(s).len() < 0x1_0000_0000_0000_0000
}

/// Reading a string off an encoding of `s` gives back `s` exactly.
pub proof fn lemma_str_round_trip(s: Seq<char>, rest: Seq<u8>)
    requires
        str_fits(s),
    ensures
        dec_str(enc_str(s) + rest) == Option::Some((s, rest)),
{
    lemma_bytes_round_trip(encode_utf8(s), rest);
    encode_utf8_valid_utf8(s);
    encode_utf8_decode_utf8(s);
}

/// Relies on `String::from_utf8`: when the bytes are valid UTF-8 it returns
/// the string whose UTF-8 form is exactly those bytes, and otherwise an
/// error.
#[verifier::external_body]
fn bytes_to_string(v: Vec<u8>) -> (r: Option<String>)
    ensures
        r is Some <==> valid_utf8(v@),
        r is Some ==> encode_utf8(r.unwrap()@) == v@,
{
    String::from_utf8(v).ok()
}

/// Appends the wire form of the string `s` to `out`.
fn push_str_field(out: &mut Vec<u8>, s: &str)
    ensures
        final(out)@ == old(out)@ + enc_str(s@),
{
    let mut bs = s.as_bytes_vec();
    push_u64(out, bs.len() as u64);
    out.append(&mut bs);
    proof {
        assert(out@ =~= old(out)@ + enc_str(s@));
    }
}

/// Reads a string at `pos`; returns it with the position just past it.
fn read_string(bytes: &Vec<u8>, pos: usize) -> (r: Option<(String, usize)>)
    requires
        pos <= bytes@.len(),
    ensures
        match r {
            Option::Some(p) => pos <= p.1 <= bytes@.len() && dec_str(bytes@.skip(pos as int))
                == Option::Some((p.0@, bytes@.skip(p.1 as int))),
            Option::None => dec_str(bytes@.skip(pos as int)) is None,
        },
{
    match read_u64(bytes, pos) {
        Option::Some(h) => {
            let n = h.0;
            let p1 = h.1;
            if n <= (bytes.len() - p1) as u64 {
                let len = n as usize;
                let mut data: Vec<u8> = Vec::new();
                let mut k: usize = 0;
                while k < len
                    invariant
                        p1 + len <= bytes@.len(),
                        bytes@.len() <= usize::MAX,
                        k <= len,
                        data@ == bytes@.subrange(p1 as int, p1 as int + k as int),
                    decreases len - k,
                {
                    let b = bytes[p1 + k];
                    data.push(b);
                    proof {
                        assert(data@ =~= bytes@.subrange(p1 as int, p1 as int + k as int + 1));
                    }
                    k = k + 1;
                }
                proof {
                    assert(data@ =~= bytes@.skip(p1 as int).take(n as int));
                }
                match bytes_to_string(data) {
                    Option::Some(s) => {
                        proof {
                            encode_utf8_decode_utf8(s@);
                            assert(bytes@.skip(p1 as int).skip(n as int) =~= bytes@.skip(
                                p1 as int + n as int,
                            ));
                        }
                        Option::Some((s, p1 + len))
                    },
                    Option::None => Option::None,
                }
            } else {
                Option::None
            }
        },
        Option::None => Option::None,
    }
}

/// An optional string on the wire: a presence byte, then the string if present.
pub open spec fn enc_opt_str(s: Option<Seq<char>>) -> Seq<u8> {
    match s {
        Option::Some(x) => seq![1u8] + enc_str(x),
        Option::None => seq![0u8],
    }
}

/// Reads an optional string off the front of `b`.
pub open spec fn dec_opt_str(b: Seq<u8>) -> Option<(Option<Seq<char>>, Seq<u8>)> {
    if b.len() < 1 {
        Option::None
    } else if b[0] == 0u8 {
        Option::Some((Option::None, b.skip(1)))
    } else if b[0] == 1u8 {
        match dec_str(b.skip(1)) {
            Option::Some(p) => Option::Some((Option::Some(p.0), p.1)),
            Option::None => Option::None,
        }
    } else {
        Option::None
    }
}

/// The optional string, if present, fits in its length prefix.
pub open spec fn opt_str_fits(s: Option<Seq<char>>) -> bool {
    match s {
        Option::Some(x) => str_fits(x),
        Option::None => true,
    }
}

/// Reading an optional string off an encoding of `s` gives back `s` exactly.
pub proof fn lemma_opt_str_round_trip(s: Option<Seq<char>>, rest: Seq<u8>)
    requires
        opt_str_fits(s),
    ensures
        dec_opt_str(enc_opt_str(s) + rest) == Option::Some((s, rest)),
{
    let b = enc_opt_str(s) + rest;
    match s {
        Option::Some(x) => {
            assert(b[0] == 1u8);
            assert(b.skip(1) =~= enc_str(x) + rest);
            lemma_str_round_trip(x, rest);
        },
        Option::None => {
            assert(b[0] == 0u8);
            assert(b.skip(1) =~= rest);
        },
    }
}

/// An optional line number on the wire: a presence byte, then the number if
/// present.
pub open spec fn enc_opt_u32(n: Option<u32>) -> Seq<u8> {
    match n {
        Option::Some(x) => seq![1u8] + enc_u32(x),
        Option::None => seq![0u8],
    }
}

/// Reads an optional 32-bit value off the front of `b`.
pub open spec fn dec_opt_u32(b: Seq<u8>) -> Option<(Option<u32>, Seq<u8>)> {
    if b.len() < 1 {
        Option::None
    } else if b[0] == 0u8 {
        Option::Some((Option::None, b.skip(1)))
    } else if b[0] == 1u8 {
        match dec_u32(b.skip(1)) {
            Option::Some(p) => Option::Some((Option::Some(p.0), p.1)),
            Option::None => Option::None,
        }
    } else {
        Option::None
    }
}

/// Reading an optional 32-bit value off an encoding of `n` gives back `n`.
pub proof fn lemma_opt_u32_round_trip(n: Option<u32>, rest: Seq<u8>)
    ensures
        dec_opt_u32(enc_opt_u32(n) + rest) == Option::Some((n, rest)),
{
    let b = enc_opt_u32(n) + rest;
    match n {
        Option::Some(x) => {
            assert(b[0] == 1u8);
            assert(b.skip(1) =~= enc_u32(x) + rest);
            lemma_u32_round_trip(x, rest);
        },
        Option::None => {
            assert(b[0] == 0u8);
            assert(b.skip(1) =~= rest);
        },
    }
}

/// The tag byte of a severity level.
pub open spec fn level_tag(l: Level) -> u8 {
    match l {
        Level::Error => 1u8,
        Level::Warn => 2u8,
        Level::Info => 3u8,
        Level::Debug => 4u8,
        Level::Trace => 5u8,
    }
}

/// Reads a severity level off the front of `b`: one tag byte.
pub open spec fn dec_level(b: Seq<u8>) -> Option<(Level, Seq<u8>)> {
    if b.len() < 1 {
        Option::None
    } else if b[0] == 1u8 {
        Option::Some((Level::Error, b.skip(1)))
    } else if b[0] == 2u8 {
        Option::Some((Level::Warn, b.skip(1)))
    } else if b[0] == 3u8 {
        Option::Some((Level::Info, b.skip(1)))
    } else if b[0] == 4u8 {
        Option::Some((Level::Debug, b.skip(1)))
    } else if b[0] == 5u8 {
        Option::Some((Level::Trace, b.skip(1)))
    } else {
        Option::None
    }
}

/// Reading a level off its tag byte gives back the level.
pub proof fn lemma_level_round_trip(l: Level, rest: Seq<u8>)
    ensures
        dec_level(seq![level_tag(l)] + rest) == Option::Some((l, rest)),
{
    let b = seq![level_tag(l)] + rest;
    assert(b[0] == level_tag(l));
    assert(b.skip(1) =~= rest);
}

/// Metadata on the wire: the level tag, then the origin tag string.
pub open spec fn enc_metadata(m: MetadataV) -> Seq<u8> {
    seq![level_tag(m.level)] + enc_str(m.target)
}

/// Reads metadata off the front of `b`.
pub open spec fn dec_metadata(b: Seq<u8>) -> Option<(MetadataV, Seq<u8>)> {
    match dec_level(b) {
        Option::Some(p) => match dec_str(p.1) {
            Option::Some(q) => Option::Some((MetadataV { level: p.0, target: q.0 }, q.1)),
            Option::None => Option::None,
        },
        Option::None => Option::None,
    }
}

/// Reading metadata off an encoding of `m` gives back `m` exactly.
pub proof fn lemma_metadata_round_trip(m: MetadataV, rest: Seq<u8>)
    requires
        str_fits(m.target),
    ensures
        dec_metadata(enc_metadata(m) + rest) == Option::Some((m, rest)),
{
    let b = enc_metadata(m) + rest;
    assert(b =~= seq![level_tag(m.level)] + (enc_str(m.target) + rest));
    lemma_level_round_trip(m.level, enc_str(m.target) + rest);
    lemma_str_round_trip(m.target, rest);
}

/// A record on the wire: metadata, message, the two optional source-location
/// strings, and the optional line number, in that fixed order.
pub open spec fn enc_record(r: RecordV) -> Seq<u8> {
    enc_metadata(r.metadata) + enc_str(r.message) + enc_opt_str(r.module) + enc_opt_str(r.file)
        + enc_opt_u32(r.line)
}

/// Reads a record off the front of `b`.
pub open spec fn dec_record(b: Seq<u8>) -> Option<(RecordV, Seq<u8>)> {
    match dec_metadata(b) {
        Option::Some(m) => match dec_str(m.1) {
            Option::Some(msg) => match dec_opt_str(msg.1) {
                Option::Some(md) => match dec_opt_str(md.1) {
                    Option::Some(f) => match dec_opt_u32(f.1) {
                        Option::Some(ln) => Option::Some(
                            (
                                RecordV {
                                    metadata: m.0,
                                    message: msg.0,
                                    module: md.0,
                                    file: f.0,
                                    line: ln.0,
                                },
                                ln.1,
                            ),
                        ),
                        Option::None => Option::None,
                    },
                    Option::None => Option::None,
                },
                Option::None => Option::None,
            },
            Option::None => Option::None,
        },
        Option::None => Option::None,
    }
}

/// Every string carried by the record fits in its length prefix. This holds
/// of every record an executable caller can build; it is a machine limit, not
/// a restriction of the format.
pub open spec fn record_fits(r: RecordV) -> bool {
    str_fits(r.metadata.target) && str_fits(r.message) && opt_str_fits(r.module) && opt_str_fits(
        r.file,
    )
}

/// Reading a record off an encoding of `r` gives back `r` in every field.
#[verifier::rlimit(100)]
pub proof fn lemma_record_prefix_round_trip(r: RecordV, rest: Seq<u8>)
    requires
        record_fits(r),
    ensures
        dec_record(enc_record(r) + rest) == Option::Some((r, rest)),
{
    let t_line = enc_opt_u32(r.line) + rest;
    let t_file = enc_opt_str(r.file) + t_line;
    let t_module = enc_opt_str(r.module) + t_file;
    let t_msg = enc_str(r.message) + t_module;
    assert(enc_record(r) + rest =~= enc_metadata(r.metadata) + t_msg);
    lemma_metadata_round_trip(r.metadata, t_msg);
    assert(dec_metadata(enc_record(r) + rest) == Option::Some((r.metadata, t_msg)));
    lemma_str_round_trip(r.message, t_module);
    assert(dec_str(t_msg) == Option::Some((r.message, t_module)));
    lemma_opt_str_round_trip(r.module, t_file);
    assert(dec_opt_str(t_module) == Option::Some((r.module, t_file)));
    lemma_opt_str_round_trip(r.file, t_line);
    assert(dec_opt_str(t_file) == Option::Some((r.file, t_line)));
    lemma_opt_u32_round_trip(r.line, rest);
    assert(dec_opt_u32(t_line) == Option::Some((r.line, rest)));
    assert(RecordV {
        metadata: r.metadata,
        message: r.message,
        module: r.module,
        file: r.file,
        line: r.line,
    } == r);
}

/// Decodes a whole buffer as one record: the record must fill the buffer
/// exactly, with nothing trailing.
pub open spec fn spec_decode_record(b: Seq<u8>) -> Option<RecordV> {
    match dec_record(b) {
        Option::Some(p) => {
            if p.1.len() == 0 {
                Option::Some(p.0)
            } else {
                Option::None
            }
        },
        Option::None => Option::None,
    }
}

/// Round trip: decoding the encoding of any record gives back a record equal
/// in every field to the original.
pub proof fn lemma_record_round_trip(r: RecordV)
    requires
        record_fits(r),
    ensures
        spec_decode_record(enc_record(r)) == Option::Some(r),
{
    lemma_record_prefix_round_trip(r, Seq::empty());
    assert(enc_record(r) + Seq::<u8>::empty() =~= enc_record(r));
}

/// Appends the presence byte and, if present, the wire form of `s` to `out`.
fn push_opt_str(out: &mut Vec<u8>, s: &Option<String>)
    ensures
        final(out)@ == old(out)@ + enc_opt_str(s.deep_view()),
{
    match s {
        Option::Some(x) => {
            out.push(1u8);
            push_str_field(out, x.as_str());
            proof {
                assert(out@ =~= old(out)@ + enc_opt_str(s.deep_view()));
            }
        },
        Option::None => {
            out.push(0u8);
            proof {
                assert(out@ =~= old(out)@ + enc_opt_str(s.deep_view()));
            }
        },
    }
}

/// Appends the presence byte and, if present, the line number to `out`.
fn push_opt_u32(out: &mut Vec<u8>, n: Option<u32>)
    ensures
        final(out)@ == old(out)@ + enc_opt_u32(n),
{
    match n {
        Option::Some(x) => {
            out.push(1u8);
            push_u32(out, x);
            proof {
                assert(out@ =~= old(out)@ + enc_opt_u32(n));
            }
        },
        Option::None => {
            out.push(0u8);
            proof {
                assert(out@ =~= old(out)@ + enc_opt_u32(n));
            }
        },
    }
}

/// The tag byte of a severity level.
fn level_tag_value(l: Level) -> (t: u8)
    ensures
        t == level_tag(l),
{
    match l {
        Level::Error => 1u8,
        Level::Warn => 2u8,
        Level::Info => 3u8,
        Level::Debug => 4u8,
        Level::Trace => 5u8,
    }
}

/// Encodes a record into its wire bytes: deterministic, and lossless by
/// [`lemma_record_round_trip`].
pub fn encode_record(r: &Record) -> (out: Vec<u8>)
    ensures
        out@ == enc_record(r@),
{
    let mut out: Vec<u8> = Vec::new();
    out.push(level_tag_value(r.metadata.level));
    push_str_field(&mut out, r.metadata.target.as_str());
    push_str_field(&mut out, r.message.as_str());
    push_opt_str(&mut out, &r.module);
    push_opt_str(&mut out, &r.file);
    push_opt_u32(&mut out, r.line);
    proof {
        assert(out@ =~= enc_record(r@));
    }
    out
}

/// Reads a severity level at `pos`: one tag byte.
fn read_level(bytes: &Vec<u8>, pos: usize) -> (r: Option<(Level, usize)>)
    requires
        pos <= bytes@.len(),
    ensures
        match r {
            Option::Some(p) => pos <= p.1 <= bytes@.len() && dec_level(bytes@.skip(pos as int))
                == Option::Some((p.0, bytes@.skip(p.1 as int))),
            Option::None => dec_level(bytes@.skip(pos as int)) is None,
        },
{
    if bytes.len() - pos >= 1 {
        let t = bytes[pos];
        proof {
            assert(bytes@.skip(pos as int)[0] == bytes@[pos as int]);
            assert(bytes@.skip(pos as int).skip(1) =~= bytes@.skip(pos as int + 1));
        }
        if t == 1 {
            Option::Some((Level::Error, pos + 1))
        } else if t == 2 {
            Option::Some((Level::Warn, pos + 1))
        } else if t == 3 {
            Option::Some((Level::Info, pos + 1))
        } else if t == 4 {
            Option::Some((Level::Debug, pos + 1))
        } else if t == 5 {
            Option::Some((Level::Trace, pos + 1))
        } else {
            Option::None
        }
    } else {
        Option::None
    }
}

/// Reads an optional string at `pos`: a presence byte, then the string.
fn read_opt_string(bytes: &Vec<u8>, pos: usize) -> (r: Option<(Option<String>, usize)>)
    requires
        pos <= bytes@.len(),
    ensures
        match r {
            Option::Some(p) => pos <= p.1 <= bytes@.len() && dec_opt_str(bytes@.skip(pos as int))
                == Option::Some((p.0.deep_view(), bytes@.skip(p.1 as int))),
            Option::None => dec_opt_str(bytes@.skip(pos as int)) is None,
        },
{
    if bytes.len() - pos >= 1 {
        let t = bytes[pos];
        proof {
            assert(bytes@.skip(pos as int)[0] == bytes@[pos as int]);
            assert(bytes@.skip(pos as int).skip(1) =~= bytes@.skip(pos as int + 1));
        }
        if t == 0 {
            Option::Some((Option::None, pos + 1))
        } else if t == 1 {
            match read_string(bytes, pos + 1) {
                Option::Some(p) => Option::Some((Option::Some(p.0), p.1)),
                Option::None => Option::None,
            }
        } else {
            Option::None
        }
    } else {
        Option::None
    }
}

/// Reads an optional line number at `pos`: a presence byte, then the number.
fn read_opt_u32(bytes: &Vec<u8>, pos: usize) -> (r: Option<(Option<u32>, usize)>)
    requires
        pos <= bytes@.len(),
    ensures
        match r {
            Option::Some(p) => pos <= p.1 <= bytes@.len() && dec_opt_u32(bytes@.skip(pos as int))
                == Option::Some((p.0, bytes@.skip(p.1 as int))),
            Option::None => dec_opt_u32(bytes@.skip(pos as int)) is None,
        },
{
    if bytes.len() - pos >= 1 {
        let t = bytes[pos];
        proof {
            assert(bytes@.skip(pos as int)[0] == bytes@[pos as int]);
            assert(bytes@.skip(pos as int).skip(1) =~= bytes@.skip(pos as int + 1));
        }
        if t == 0 {
            Option::Some((Option::None, pos + 1))
        } else if t == 1 {
            match read_u32(bytes, pos + 1) {
                Option::Some(p) => Option::Some((Option::Some(p.0), p.1)),
                Option::None => Option::None,
            }
        } else {
            Option::None
        }
    } else {
        Option::None
    }
}

/// Decodes a whole buffer as one record. Succeeds exactly when the buffer is
/// the wire form of a record with nothing trailing, and then returns that
/// record, equal in every field to the one encoded.
pub fn decode_record(bytes: &Vec<u8>) -> (r: Option<Record>)
    ensures
        match r {
            Option::Some(rec) => spec_decode_record(bytes@) == Option::Some(rec@),
            Option::None => spec_decode_record(bytes@) is None,
        },
{
    proof {
        assert(bytes@.skip(0) =~= bytes@);
    }
    match read_level(bytes, 0) {
        Option::Some(lv) => match read_string(bytes, lv.1) {
            Option::Some(target) => match read_string(bytes, target.1) {
                Option::Some(message) => match read_opt_string(bytes, message.1) {
                    Option::Some(module) => match read_opt_string(bytes, module.1) {
                        Option::Some(file) => match read_opt_u32(bytes, file.1) {
                            Option::Some(line) => {
                                if line.1 == bytes.len() {
                                    let rec = Record {
                                        metadata: Metadata { level: lv.0, target: target.0 },
                                        message: message.0,
                                        module: module.0,
                                        file: file.0,
                                        line: line.0,
                                    };
                                    proof {
                                        assert(bytes@.skip(line.1 as int).len() == 0);
                                    }
                                    Option::Some(rec)
                                } else {
                                    proof {
                                        assert(bytes@.skip(line.1 as int).len() != 0);
                                    }
                                    Option::None
                                }
                            },
                            Option::None => Option::None,
                        },
                        Option::None => Option::None,
                    },
                    Option::None => Option::None,
                },
                Option::None => Option::None,
            },
            Option::None => Option::None,
        },
        Option::None => Option::None,
    }
}

/// The wire form of the strings of `l`, back to back, without a count.
pub open spec fn enc_str_seq(l: Seq<Seq<char>>) -> Seq<u8>
    decreases l.len(),
{
    if l.len() == 0 {
        Seq::empty()
    } else {
        enc_str(l[0]) + enc_str_seq(l.drop_first())
    }
}

/// A list of strings on the wire: a 64-bit count, then the strings back to
/// back.
pub open spec fn enc_str_list(l: Seq<Seq<char>>) -> Seq<u8> {
    enc_u64(l.len() as u64) + enc_str_seq(l)
}

/// Reads `k` strings off the front of `b`.
pub open spec fn dec_str_seq(k: nat, b: Seq<u8>) -> Option<(Seq<Seq<char>>, Seq<u8>)>
    decreases k,
{
    if k == 0 {
        Option::Some((Seq::empty(), b))
    } else {
        match dec_str(b) {
            Option::Some(p) => match dec_str_seq((k - 1) as nat, p.1) {
                Option::Some(q) => Option::Some((seq![p.0] + q.0, q.1)),
                Option::None => Option::None,
            },
            Option::None => Option::None,
        }
    }
}

/// Reads a counted list of strings off the front of `b`.
pub open spec fn dec_str_list(b: Seq<u8>) -> Option<(Seq<Seq<char>>, Seq<u8>)> {
    match dec_u64(b) {
        Option::Some(p) => dec_str_seq(p.0 as nat, p.1),
        Option::None => Option::None,
    }
}

/// The list's count and every string in it fit their length prefixes.
pub open spec fn str_list_fits(l: Seq<Seq<char>>) -> bool {
    l.len() < 0x1_0000_0000_0000_0000 && (forall|i: int|
        0 <= i < l.len() ==> str_fits(#[trigger] l[i]))
}

/// Reading back the strings written back to back gives the same strings.
pub proof fn lemma_str_seq_round_trip(l: Seq<Seq<char>>, rest: Seq<u8>)
    requires
        forall|i: int| 0 <= i < l.len() ==> str_fits(#[trigger] l[i]),
    ensures
        dec_str_seq(l.len(), enc_str_seq(l) + rest) == Option::Some((l, rest)),
    decreases l.len(),
{
    if l.len() == 0 {
        assert(enc_str_seq(l) + rest =~= rest);
        assert(Seq::<Seq<char>>::empty() =~= l);
    } else {
        let tail = enc_str_seq(l.drop_first()) + rest;
        assert(enc_str_seq(l) + rest =~= enc_str(l[0]) + tail);
        lemma_str_round_trip(l[0], tail);
        lemma_str_seq_round_trip(l.drop_first(), rest);
        assert(seq![l[0]] + l.drop_first() =~= l);
    }
}

/// Reading a counted list off an encoding of `l` gives back `l` exactly.
pub proof fn lemma_str_list_round_trip(l: Seq<Seq<char>>, rest: Seq<u8>)
    requires
        str_list_fits(l),
    ensures
        dec_str_list(enc_str_list(l) + rest) == Option::Some((l, rest)),
{
    let n = l.len() as u64;
    let tail = enc_str_seq(l) + rest;
    lemma_u64_round_trip(n, tail);
    assert(enc_str_list(l) + rest =~= enc_u64(n) + tail);
    assert(dec_u64(enc_str_list(l) + rest) == Option::Some((n, tail)));
    lemma_str_seq_round_trip(l, rest);
}

/// Appending one string at the back of a list appends its wire form at the
/// back of the list's wire form.
proof fn lemma_enc_str_seq_snoc(l: Seq<Seq<char>>, x: Seq<char>)
    ensures
        enc_str_seq(l.push(x)) == enc_str_seq(l) + enc_str(x),
    decreases l.len(),
{
    if l.len() == 0 {
        assert(l.push(x).drop_first() =~= Seq::<Seq<char>>::empty());
        assert(l.push(x)[0] == x);
        assert(enc_str_seq(l.push(x)) == enc_str(x) + enc_str_seq(Seq::<Seq<char>>::empty()));
        assert(enc_str_seq(Seq::<Seq<char>>::empty()) == Seq::<u8>::empty());
        assert(enc_str(x) + Seq::<u8>::empty() =~= enc_str(x));
        assert(enc_str_seq(l) == Seq::<u8>::empty());
        assert(Seq::<u8>::empty() + enc_str(x) =~= enc_str(x));
    } else {
        assert(l.push(x).drop_first() =~= l.drop_first().push(x));
        lemma_enc_str_seq_snoc(l.drop_first(), x);
        assert(l.push(x)[0] == l[0]);
        assert(enc_str_seq(l.push(x)) == enc_str(l[0]) + enc_str_seq(l.drop_first().push(x)));
        assert(enc_str_seq(l.push(x)) == enc_str(l[0]) + (enc_str_seq(l.drop_first()) + enc_str(
            x,
        )));
        assert(enc_str(l[0]) + (enc_str_seq(l.drop_first()) + enc_str(x)) =~= (enc_str(l[0])
            + enc_str_seq(l.drop_first())) + enc_str(x));
        assert(enc_str_seq(l) == enc_str(l[0]) + enc_str_seq(l.drop_first()));
    }
}

/// Appends the wire form of the string list `l` to `out`.
fn push_str_list(out: &mut Vec<u8>, l: &Vec<String>)
    ensures
        final(out)@ == old(out)@ + enc_str_list(l.deep_view()),
{
    push_u64(out, l.len() as u64);
    proof {
        assert(l.deep_view().take(0) =~= Seq::<Seq<char>>::empty());
        assert(out@ =~= old(out)@ + enc_u64(l@.len() as u64) + enc_str_seq(l.deep_view().take(0)));
    }
    let mut i: usize = 0;
    while i < l.len()
        invariant
            i <= l@.len(),
            l@.len() == l.deep_view().len(),
            out@ == old(out)@ + enc_u64(l@.len() as u64) + enc_str_seq(
                l.deep_view().take(i as int),
            ),
        decreases l@.len() - i,
    {
        push_str_field(out, l[i].as_str());
        proof {
            assert(l.deep_view()[i as int] == l@[i as int]@);
            lemma_enc_str_seq_snoc(l.deep_view().take(i as int), l.deep_view()[i as int]);
            assert(l.deep_view().take(i as int).push(l.deep_view()[i as int]) =~= l.deep_view()
                .take(i as int + 1));
            assert(out@ =~= old(out)@ + enc_u64(l@.len() as u64) + enc_str_seq(
                l.deep_view().take(i as int + 1),
            ));
        }
        i = i + 1;
    }
    proof {
        assert(l.deep_view().take(l@.len() as int) =~= l.deep_view());
        assert(out@ =~= old(out)@ + enc_str_list(l.deep_view()));
    }
}

/// Reads a counted list of strings at `pos`.
fn read_string_list(bytes: &Vec<u8>, pos: usize) -> (r: Option<(Vec<String>, usize)>)
    requires
        pos <= bytes@.len(),
    ensures
        match r {
            Option::Some(p) => pos <= p.1 <= bytes@.len() && dec_str_list(bytes@.skip(pos as int))
                == Option::Some((p.0.deep_view(), bytes@.skip(p.1 as int))),
            Option::None => dec_str_list(bytes@.skip(pos as int)) is None,
        },
{
    match read_u64(bytes, pos) {
        Option::Some(h) => {
            let count = h.0;
            let start = h.1;
            let mut acc: Vec<String> = Vec::new();
            let mut cur: usize = start;
            let mut k: u64 = 0;
            proof {
                assert(acc.deep_view() =~= Seq::<Seq<char>>::empty());
            }
            while k < count
                invariant
                    k <= count,
                    pos <= start <= cur <= bytes@.len(),
                    dec_u64(bytes@.skip(pos as int)) == Option::Some(
                        (count, bytes@.skip(start as int)),
                    ),
                    match dec_str_seq((count - k) as nat, bytes@.skip(cur as int)) {
                        Option::Some(q) => dec_str_seq(count as nat, bytes@.skip(start as int))
                            == Option::Some((acc.deep_view() + q.0, q.1)),
                        Option::None => dec_str_seq(count as nat, bytes@.skip(start as int)) is None,
                    },
                decreases count - k,
            {
                match read_string(bytes, cur) {
                    Option::Some(s) => {
                        proof {
                            let ghost pre = acc.deep_view();
                            let ghost sv = s.0@;
                            let ghost next = bytes@.skip(s.1 as int);
                            assert(dec_str(bytes@.skip(cur as int)) == Option::Some((sv, next)));
                            match dec_str_seq((count - k - 1) as nat, next) {
                                Option::Some(q2) => {
                                    assert(dec_str_seq((count - k) as nat, bytes@.skip(cur as int))
                                        == Option::Some((seq![sv] + q2.0, q2.1)));
                                    assert(pre + (seq![sv] + q2.0) =~= (pre.push(sv)) + q2.0);
                                },
                                Option::None => {
                                    assert(dec_str_seq((count - k) as nat, bytes@.skip(cur as int))
                                        is None);
                                },
                            }
                        }
                        let ghost prev_acc = acc.deep_view();
                        cur = s.1;
                        acc.push(s.0);
                        proof {
                            assert(acc.deep_view() =~= prev_acc.push(s.0@));
                        }
                        k = k + 1;
                    },
                    Option::None => {
                        proof {
                            assert(dec_str_seq((count - k) as nat, bytes@.skip(cur as int))
                                is None);
                        }
                        return Option::None;
                    },
                }
            }
            proof {
                assert(dec_str_seq(0nat, bytes@.skip(cur as int)) == Option::Some((
                    Seq::<Seq<char>>::empty(),
                    bytes@.skip(cur as int),
                )));
                assert(acc.deep_view() + Seq::<Seq<char>>::empty() =~= acc.deep_view());
            }
            Option::Some((acc, cur))
        },
        Option::None => Option::None,
    }
}

/// Establishes [`str_fits`] for one string a caller holds: a string in
/// memory has at most `usize::MAX` UTF-8 bytes, and that always fits the
/// 64-bit length prefix.
fn str_fits_witness(s: &str)
    ensures
        str_fits(s@),
{
    let bs = s.as_bytes_vec();
    let _n = bs.len();
}

/// Establishes [`opt_str_fits`] for an optional string a caller holds.
fn opt_str_fits_witness(s: &Option<String>)
    ensures
        opt_str_fits(s.deep_view()),
{
    match s {
        Option::Some(x) => {
            str_fits_witness(x.as_str());
        },
        Option::None => {},
    }
}

/// Establishes [`record_fits`] for a record a caller holds: every record in
/// memory fits the wire format's length prefixes, so the round-trip lemma
/// applies to it.
pub fn record_fits_witness(r: &Record)
    ensures
        record_fits(r@),
{
    str_fits_witness(r.metadata.target.as_str());
    str_fits_witness(r.message.as_str());
    opt_str_fits_witness(&r.module);
    opt_str_fits_witness(&r.file);
}

/// Establishes [`str_list_fits`] for a list of strings a caller holds.
fn str_list_fits_witness(l: &Vec<String>)
    ensures
        str_list_fits(l.deep_view()),
{
    let _n = l.len();
    let mut i: usize = 0;
    while i < l.len()
        invariant
            i <= l@.len(),
            l@.len() == l.deep_view().len(),
            l@.len() < 0x1_0000_0000_0000_0000,
            forall|j: int| 0 <= j < i ==> str_fits(#[trigger] l.deep_view()[j]),
        decreases l@.len() - i,
    {
        str_fits_witness(l[i].as_str());
        proof {
            assert(l.deep_view()[i as int] == l@[i as int]@);
        }
        i = i + 1;
    }
}

/// Establishes [`hello_fits`] for a session descriptor a caller holds.
pub fn hello_fits_witness(h: &Hello)
    ensures
        hello_fits(h@),
{
    str_list_fits_witness(&h.process_info.args);
    str_list_fits_witness(&h.process_info.env);
    opt_str_fits_witness(&h.process_info.cwd);
}

/// The process snapshot on the wire: the argument list, the environment
/// list, the optional working directory, and the process id, in that fixed
/// order.
pub open spec fn enc_process_info(p: ProcessInfoV) -> Seq<u8> {
    enc_str_list(p.args) + enc_str_list(p.env) + enc_opt_str(p.cwd) + enc_u64(p.id)
}

/// Reads a process snapshot off the front of `b`.
pub open spec fn dec_process_info(b: Seq<u8>) -> Option<(ProcessInfoV, Seq<u8>)> {
    match dec_str_list(b) {
        Option::Some(a) => match dec_str_list(a.1) {
            Option::Some(e) => match dec_opt_str(e.1) {
                Option::Some(c) => match dec_u64(c.1) {
                    Option::Some(i) => Option::Some(
                        (ProcessInfoV { args: a.0, env: e.0, cwd: c.0, id: i.0 }, i.1),
                    ),
                    Option::None => Option::None,
                },
                Option::None => Option::None,
            },
            Option::None => Option::None,
        },
        Option::None => Option::None,
    }
}

/// Every list and string of the snapshot fits its length prefix.
pub open spec fn process_info_fits(p: ProcessInfoV) -> bool {
    str_list_fits(p.args) && str_list_fits(p.env) && opt_str_fits(p.cwd)
}

/// Reading a snapshot off an encoding of `p` gives back `p` in every field.
#[verifier::rlimit(100)]
pub proof fn lemma_process_info_prefix_round_trip(p: ProcessInfoV, rest: Seq<u8>)
    requires
        process_info_fits(p),
    ensures
        dec_process_info(enc_process_info(p) + rest) == Option::Some((p, rest)),
{
    let t_id = enc_u64(p.id) + rest;
    let t_cwd = enc_opt_str(p.cwd) + t_id;
    let t_env = enc_str_list(p.env) + t_cwd;
    assert(enc_process_info(p) + rest =~= enc_str_list(p.args) + t_env);
    lemma_str_list_round_trip(p.args, t_env);
    assert(dec_str_list(enc_process_info(p) + rest) == Option::Some((p.args, t_env)));
    lemma_str_list_round_trip(p.env, t_cwd);
    assert(dec_str_list(t_env) == Option::Some((p.env, t_cwd)));
    lemma_opt_str_round_trip(p.cwd, t_id);
    assert(dec_opt_str(t_cwd) == Option::Some((p.cwd, t_id)));
    lemma_u64_round_trip(p.id, rest);
    assert(dec_u64(t_id) == Option::Some((p.id, rest)));
    assert(ProcessInfoV { args: p.args, env: p.env, cwd: p.cwd, id: p.id } == p);
}

/// The session descriptor on the wire: exactly its process snapshot.
pub open spec fn enc_hello(h: HelloV) -> Seq<u8> {
    enc_process_info(h.process_info)
}

/// Every list and string of the descriptor fits its length prefix.
pub open spec fn hello_fits(h: HelloV) -> bool {
    process_info_fits(h.process_info)
}

/// Decodes a whole buffer as one session descriptor: it must fill the buffer
/// exactly.
pub open spec fn spec_decode_hello(b: Seq<u8>) -> Option<HelloV> {
    match dec_process_info(b) {
        Option::Some(p) => {
            if p.1.len() == 0 {
                Option::Some(HelloV { process_info: p.0 })
            } else {
                Option::None
            }
        },
        Option::None => Option::None,
    }
}

/// Round trip: decoding the encoding of any session descriptor gives back a
/// descriptor equal in every field to the original.
pub proof fn lemma_hello_round_trip(h: HelloV)
    requires
        hello_fits(h),
    ensures
        spec_decode_hello(enc_hello(h)) == Option::Some(h),
{
    lemma_process_info_prefix_round_trip(h.process_info, Seq::empty());
    assert(enc_hello(h) + Seq::<u8>::empty() =~= enc_hello(h));
    assert(HelloV { process_info: h.process_info } == h);
}

/// Encodes a session descriptor into its wire bytes: deterministic, and
/// lossless by [`lemma_hello_round_trip`].
pub fn encode_hello(h: &Hello) -> (out: Vec<u8>)
    ensures
        out@ == enc_hello(h@),
{
    let mut out: Vec<u8> = Vec::new();
    push_str_list(&mut out, &h.process_info.args);
    push_str_list(&mut out, &h.process_info.env);
    push_opt_str(&mut out, &h.process_info.cwd);
    push_u64(&mut out, h.process_info.id);
    proof {
        assert(out@ =~= enc_hello(h@));
    }
    out
}

/// Decodes a whole buffer as one session descriptor. Succeeds exactly when
/// the buffer is the wire form of a descriptor with nothing trailing.
pub fn decode_hello(bytes: &Vec<u8>) -> (r: Option<Hello>)
    ensures
        match r {
            Option::Some(h) => spec_decode_hello(bytes@) == Option::Some(h@),
            Option::None => spec_decode_hello(bytes@) is None,
        },
{
    proof {
        assert(bytes@.skip(0) =~= bytes@);
    }
    match read_string_list(bytes, 0) {
        Option::Some(args) => match read_string_list(bytes, args.1) {
            Option::Some(env) => match read_opt_string(bytes, env.1) {
                Option::Some(cwd) => match read_u64(bytes, cwd.1) {
                    Option::Some(id) => {
                        if id.1 == bytes.len() {
                            let h = Hello {
                                process_info: ProcessInfo {
                                    args: args.0,
                                    env: env.0,
                                    cwd: cwd.0,
                                    id: id.0,
                                },
                            };
                            proof {
                                assert(bytes@.skip(id.1 as int).len() == 0);
                            }
                            Option::Some(h)
                        } else {
                            proof {
                                assert(bytes@.skip(id.1 as int).len() != 0);
                            }
                            Option::None
                        }
                    },
                    Option::None => Option::None,
                },
                Option::None => Option::None,
            },
            Option::None => Option::None,
        },
        Option::None => Option::None,
    }
}

} // verus!
