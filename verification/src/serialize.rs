//! The byte-level codec used for undo snapshots, command parameters and the
//! journal: little-endian integers, length-prefixed UTF-8 strings, and
//! count-prefixed lists.
//!
//! Every encoding is canonical: a decoder accepts exactly the byte strings
//! that the encoder produces, so decoding is a two-sided inverse of encoding.
//! Entity types stored in tables implement [`Serializable`], whose proof
//! obligations carry the round trip.

use vstd::prelude::*;
use vstd::bytes::*;
use vstd::utf8::*;
use vstd::slice::*;

verus! {

/// Relies on `core::str::Utf8Error`, the error type of `core::str::from_utf8`;
/// carried through opaquely.
#[verifier::external_type_specification]
#[verifier::external_body]
pub struct ExUtf8Error(core::str::Utf8Error);

/// Relies on `core::str::from_utf8`: it returns the string slice over the
/// given bytes exactly when they are valid UTF-8, and an error otherwise.
pub assume_specification[ core::str::from_utf8 ](v: &[u8]) -> (r: Result<&str, core::str::Utf8Error>)
    ensures
        r matches Ok(s) ==> valid_utf8(v@) && encode_utf8(s@) == v@,
        r is Err ==> !valid_utf8(v@),
;

// ------------------------------------------------------------------
// Field encodings (spec)
// ------------------------------------------------------------------

pub open spec fn spec_serialize_u8(v: u8) -> Seq<u8> {
    seq![v]
}

pub open spec fn spec_take_u8(b: Seq<u8>) -> Option<(u8, Seq<u8>)> {
    if b.len() >= 1 {
        Some((b[0], b.skip(1)))
    } else {
        None
    }
}

pub open spec fn spec_serialize_u16(v: u16) -> Seq<u8> {
    spec_u16_to_le_bytes(v)
}

pub open spec fn spec_take_u16(b: Seq<u8>) -> Option<(u16, Seq<u8>)> {
    if b.len() >= 2 {
        Some((spec_u16_from_le_bytes(b.take(2)), b.skip(2)))
    } else {
        None
    }
}

pub open spec fn spec_serialize_u64(v: u64) -> Seq<u8> {
    spec_u64_to_le_bytes(v)
}

pub open spec fn spec_take_u64(b: Seq<u8>) -> Option<(u64, Seq<u8>)> {
    if b.len() >= 8 {
        Some((spec_u64_from_le_bytes(b.take(8)), b.skip(8)))
    } else {
        None
    }
}

/// A `usize` travels as a 64-bit value; decoding rejects values that do not
/// fit the machine word.
pub open spec fn spec_serialize_usize(v: usize) -> Seq<u8> {
    spec_u64_to_le_bytes(v as u64)
}

pub open spec fn spec_take_usize(b: Seq<u8>) -> Option<(usize, Seq<u8>)> {
    match spec_take_u64(b) {
        Some((v, rest)) => if v <= usize::MAX as u64 {
            Some((v as usize, rest))
        } else {
            None
        },
        None => None,
    }
}

/// A string travels as the byte length of its UTF-8 encoding followed by
/// those bytes.
pub open spec fn spec_serialize_string(s: Seq<char>) -> Seq<u8> {
    spec_u64_to_le_bytes(encode_utf8(s).len() as u64) + encode_utf8(s)
}

pub open spec fn spec_take_string(b: Seq<u8>) -> Option<(Seq<char>, Seq<u8>)> {
    match spec_take_u64(b) {
        Some((n, rest)) => if n <= rest.len() && valid_utf8(rest.take(n as int)) {
            Some((decode_utf8(rest.take(n as int)), rest.skip(n as int)))
        } else {
            None
        },
        None => None,
    }
}

/// A raw byte string travels as its length followed by the bytes.
pub open spec fn spec_serialize_bytes(b: Seq<u8>) -> Seq<u8> {
    spec_u64_to_le_bytes(b.len() as u64) + b
}

pub open spec fn spec_take_bytes(b: Seq<u8>) -> Option<(Seq<u8>, Seq<u8>)> {
    match spec_take_u64(b) {
        Some((n, rest)) => if n <= rest.len() {
            Some((rest.take(n as int), rest.skip(n as int)))
        } else {
            None
        },
        None => None,
    }
}

// ------------------------------------------------------------------
// Round trip and canonicity of the field encodings
// ------------------------------------------------------------------

pub proof fn lemma_take_bytes(v: Seq<u8>, rest: Seq<u8>)
    requires
        v.len() <= u64::MAX,
    ensures
        spec_take_bytes(spec_serialize_bytes(v) + rest) == Some((v, rest)),
{
    let n = v.len() as u64;
    let tail = v + rest;
    assert(spec_serialize_bytes(v) + rest =~= spec_u64_to_le_bytes(n) + tail);
    lemma_take_u64(n, tail);
    assert(tail.take(n as int) =~= v);
    assert(tail.skip(n as int) =~= rest);
}

pub proof fn lemma_take_bytes_canonical(b: Seq<u8>)
    ensures
        spec_take_bytes(b) matches Some((v, rest)) ==> v.len() <= u64::MAX
            && spec_serialize_bytes(v) + rest =~= b,
{
    lemma_take_u64_canonical(b);
    if spec_take_bytes(b) is Some {
        let (v, rest) = spec_take_bytes(b).unwrap();
        let (n, r0) = spec_take_u64(b).unwrap();
        assert(v.len() == n);
        assert(spec_serialize_bytes(v) + rest =~= spec_u64_to_le_bytes(n) + r0);
    }
}

pub proof fn lemma_take_u8(v: u8, rest: Seq<u8>)
    ensures
        spec_take_u8(spec_serialize_u8(v) + rest) == Some((v, rest)),
{
    assert((spec_serialize_u8(v) + rest).skip(1) =~= rest);
}

pub proof fn lemma_take_u8_canonical(b: Seq<u8>)
    ensures
        spec_take_u8(b) matches Some((v, rest)) ==> spec_serialize_u8(v) + rest =~= b,
{
}

pub proof fn lemma_take_u16(v: u16, rest: Seq<u8>)
    ensures
        spec_take_u16(spec_serialize_u16(v) + rest) == Some((v, rest)),
{
    lemma_auto_spec_u16_to_from_le_bytes();
    let b = spec_serialize_u16(v) + rest;
    assert(b.take(2) =~= spec_u16_to_le_bytes(v));
    assert(b.skip(2) =~= rest);
}

pub proof fn lemma_take_u16_canonical(b: Seq<u8>)
    ensures
        spec_take_u16(b) matches Some((v, rest)) ==> spec_serialize_u16(v) + rest =~= b,
{
    lemma_auto_spec_u16_to_from_le_bytes();
    if b.len() >= 2 {
        assert(spec_u16_to_le_bytes(spec_u16_from_le_bytes(b.take(2))) == b.take(2));
    }
}

pub proof fn lemma_take_u64(v: u64, rest: Seq<u8>)
    ensures
        spec_take_u64(spec_serialize_u64(v) + rest) == Some((v, rest)),
{
    lemma_auto_spec_u64_to_from_le_bytes();
    let b = spec_serialize_u64(v) + rest;
    assert(b.take(8) =~= spec_u64_to_le_bytes(v));
    assert(b.skip(8) =~= rest);
}

pub proof fn lemma_take_u64_canonical(b: Seq<u8>)
    ensures
        spec_take_u64(b) matches Some((v, rest)) ==> spec_serialize_u64(v) + rest =~= b,
{
    lemma_auto_spec_u64_to_from_le_bytes();
    if b.len() >= 8 {
        assert(spec_u64_to_le_bytes(spec_u64_from_le_bytes(b.take(8))) == b.take(8));
    }
}

pub proof fn lemma_take_usize(v: usize, rest: Seq<u8>)
    ensures
        spec_take_usize(spec_serialize_usize(v) + rest) == Some((v, rest)),
{
    lemma_take_u64(v as u64, rest);
}

pub proof fn lemma_take_usize_canonical(b: Seq<u8>)
    ensures
        spec_take_usize(b) matches Some((v, rest)) ==> spec_serialize_usize(v) + rest =~= b,
{
    lemma_take_u64_canonical(b);
}

pub proof fn lemma_take_string(s: Seq<char>, rest: Seq<u8>)
    requires
        encode_utf8(s).len() <= u64::MAX,
    ensures
        spec_take_string(spec_serialize_string(s) + rest) == Some((s, rest)),
{
    broadcast use encode_utf8_valid_utf8, encode_utf8_decode_utf8;

    let n = encode_utf8(s).len() as u64;
    let tail = encode_utf8(s) + rest;
    assert(spec_serialize_string(s) + rest =~= spec_u64_to_le_bytes(n) + tail);
    lemma_take_u64(n, tail);
    assert(tail.take(n as int) =~= encode_utf8(s));
    assert(tail.skip(n as int) =~= rest);
}

pub proof fn lemma_take_string_canonical(b: Seq<u8>)
    ensures
        spec_take_string(b) matches Some((s, rest)) ==> encode_utf8(s).len() <= u64::MAX
            && spec_serialize_string(s) + rest =~= b,
{
    broadcast use decode_utf8_encode_utf8;

    lemma_take_u64_canonical(b);
    if spec_take_string(b) is Some {
        let (s, rest) = spec_take_string(b).unwrap();
        let (n, r0) = spec_take_u64(b).unwrap();
        assert(encode_utf8(decode_utf8(r0.take(n as int))) == r0.take(n as int));
        assert(encode_utf8(s).len() == n);
        assert(spec_serialize_string(s) + rest =~= spec_u64_to_le_bytes(n) + r0);
    }
}

// ------------------------------------------------------------------
// Field encodings (exec)
// ------------------------------------------------------------------

pub fn write_bytes(out: &mut Vec<u8>, v: &Vec<u8>)
    ensures
        final(out)@ == old(out)@ + spec_serialize_bytes(v@),
{
    write_u64(out, v.len() as u64);
    let mut b = vstd::slice::slice_to_vec(v.as_slice());
    out.append(&mut b);
}

pub fn read_bytes(bytes: &[u8], pos: usize) -> (r: Option<(Vec<u8>, usize)>)
    requires
        pos <= bytes@.len(),
    ensures
        match r {
            Some((v, end)) => pos <= end <= bytes@.len() && spec_take_bytes(
                bytes@.skip(pos as int),
            ) == Some((v@, bytes@.skip(end as int))),
            None => spec_take_bytes(bytes@.skip(pos as int)) is None,
        },
{
    match read_u64(bytes, pos) {
        Some((n, mid)) => {
            if n <= (bytes.len() - mid) as u64 {
                let end = mid + (n as usize);
                let chunk = vstd::slice::slice_to_vec(slice_subrange(bytes, mid, end));
                proof {
                    assert(chunk@ =~= bytes@.skip(mid as int).take(n as int));
                    assert(bytes@.skip(mid as int).skip(n as int) =~= bytes@.skip(end as int));
                }
                Some((chunk, end))
            } else {
                None
            }
        },
        None => None,
    }
}

pub fn write_u8(out: &mut Vec<u8>, v: u8)
    ensures
        final(out)@ == old(out)@ + spec_serialize_u8(v),
{
    out.push(v);
    assert(out@ =~= old(out)@ + spec_serialize_u8(v));
}

pub fn write_u16(out: &mut Vec<u8>, v: u16)
    ensures
        final(out)@ == old(out)@ + spec_serialize_u16(v),
{
    let mut b = u16_to_le_bytes(v);
    out.append(&mut b);
}

pub fn write_u64(out: &mut Vec<u8>, v: u64)
    ensures
        final(out)@ == old(out)@ + spec_serialize_u64(v),
{
    let mut b = u64_to_le_bytes(v);
    out.append(&mut b);
}

pub fn write_usize(out: &mut Vec<u8>, v: usize)
    ensures
        final(out)@ == old(out)@ + spec_serialize_usize(v),
{
    write_u64(out, v as u64);
}

pub fn write_string(out: &mut Vec<u8>, s: &String)
    ensures
        final(out)@ == old(out)@ + spec_serialize_string(s@),
        encode_utf8(s@).len() <= u64::MAX,
{
    let bytes = s.as_str().as_bytes();
    let n = bytes.len();
    proof {
        broadcast use vstd::slice::axiom_spec_len;

        assert(n == bytes@.len());
    }
    write_u64(out, n as u64);
    let mut b = slice_to_vec(bytes);
    out.append(&mut b);
}

pub fn read_u8(bytes: &[u8], pos: usize) -> (r: Option<(u8, usize)>)
    requires
        pos <= bytes@.len(),
    ensures
        match r {
            Some((v, end)) => pos <= end <= bytes@.len() && spec_take_u8(bytes@.skip(pos as int))
                == Some((v, bytes@.skip(end as int))),
            None => spec_take_u8(bytes@.skip(pos as int)) is None,
        },
{
    if bytes.len() - pos >= 1 {
        let v = *slice_index_get(bytes, pos);
        assert(bytes@.skip(pos as int).skip(1) =~= bytes@.skip(pos + 1));
        Some((v, pos + 1))
    } else {
        None
    }
}

pub fn read_u16(bytes: &[u8], pos: usize) -> (r: Option<(u16, usize)>)
    requires
        pos <= bytes@.len(),
    ensures
        match r {
            Some((v, end)) => pos <= end <= bytes@.len() && spec_take_u16(bytes@.skip(pos as int))
                == Some((v, bytes@.skip(end as int))),
            None => spec_take_u16(bytes@.skip(pos as int)) is None,
        },
{
    if bytes.len() - pos >= 2 {
        let s = slice_subrange(bytes, pos, pos + 2);
        let v = u16_from_le_bytes(s);
        assert(bytes@.skip(pos as int).take(2) =~= bytes@.subrange(pos as int, pos + 2));
        assert(bytes@.skip(pos as int).skip(2) =~= bytes@.skip(pos + 2));
        Some((v, pos + 2))
    } else {
        None
    }
}

pub fn read_u64(bytes: &[u8], pos: usize) -> (r: Option<(u64, usize)>)
    requires
        pos <= bytes@.len(),
    ensures
        match r {
            Some((v, end)) => pos <= end <= bytes@.len() && spec_take_u64(bytes@.skip(pos as int))
                == Some((v, bytes@.skip(end as int))),
            None => spec_take_u64(bytes@.skip(pos as int)) is None,
        },
{
    if bytes.len() - pos >= 8 {
        let s = slice_subrange(bytes, pos, pos + 8);
        let v = u64_from_le_bytes(s);
        assert(bytes@.skip(pos as int).take(8) =~= bytes@.subrange(pos as int, pos + 8));
        assert(bytes@.skip(pos as int).skip(8) =~= bytes@.skip(pos + 8));
        Some((v, pos + 8))
    } else {
        None
    }
}

pub fn read_usize(bytes: &[u8], pos: usize) -> (r: Option<(usize, usize)>)
    requires
        pos <= bytes@.len(),
    ensures
        match r {
            Some((v, end)) => pos <= end <= bytes@.len() && spec_take_usize(
                bytes@.skip(pos as int),
            ) == Some((v, bytes@.skip(end as int))),
            None => spec_take_usize(bytes@.skip(pos as int)) is None,
        },
{
    match read_u64(bytes, pos) {
        Some((v, end)) => if v <= usize::MAX as u64 {
            Some((v as usize, end))
        } else {
            None
        },
        None => None,
    }
}

pub fn read_string(bytes: &[u8], pos: usize) -> (r: Option<(String, usize)>)
    requires
        pos <= bytes@.len(),
    ensures
        match r {
            Some((s, end)) => pos <= end <= bytes@.len() && spec_take_string(
                bytes@.skip(pos as int),
            ) == Some((s@, bytes@.skip(end as int))),
            None => spec_take_string(bytes@.skip(pos as int)) is None,
        },
{
    match read_u64(bytes, pos) {
        Some((n, mid)) => {
            if n <= (bytes.len() - mid) as u64 {
                let end = mid + (n as usize);
                let chunk = slice_subrange(bytes, mid, end);
                assert(chunk@ =~= bytes@.skip(mid as int).take(n as int));
                match core::str::from_utf8(chunk) {
                    Ok(s) => {
                        let owned = s.to_owned();
                        proof {
                            broadcast use encode_utf8_decode_utf8;

                            assert(decode_utf8(chunk@) == owned@);
                            assert(bytes@.skip(mid as int).skip(n as int) =~= bytes@.skip(
                                end as int,
                            ));
                        }
                        Some((owned, end))
                    },
                    Err(_) => None,
                }
            } else {
                None
            }
        },
        None => None,
    }
}

// ------------------------------------------------------------------
// Serializable values
// ------------------------------------------------------------------

/// A value that can travel as bytes: the interface the engine expects from
/// every entity and command-parameter type.  The codec is stated over the
/// value's view, so undo snapshots and replay are reasoned about at the
/// mathematical level; decoding a prefix of a byte string is a two-sided
/// inverse of encoding, which the two proof obligations state, and the
/// engine's rollback and replay correctness rest on them.
pub trait Serializable: View + Sized {
    /// The byte image of a value with this view.
    spec fn spec_serialize(v: Self::V) -> Seq<u8>;

    /// Whether the view's variable-length parts fit the format's 64-bit
    /// length prefixes.  Every value that exists at run time fits, and
    /// `serialize` proves it; the round trip is promised for fitting views.
    spec fn spec_fits(v: Self::V) -> bool;

    /// Decode one view from a prefix of `b`, returning it with the rest.
    spec fn spec_take(b: Seq<u8>) -> Option<(Self::V, Seq<u8>)>;

    /// Decoding an encoded view returns the view and leaves the rest.
    proof fn lemma_take_round_trip(v: Self::V, rest: Seq<u8>)
        requires
            Self::spec_fits(v),
        ensures
            Self::spec_take(Self::spec_serialize(v) + rest) == Some((v, rest)),
    ;

    /// Only encodings of fitting views are decoded: a successful decode
    /// re-encodes to its input.
    proof fn lemma_take_canonical(b: Seq<u8>)
        ensures
            Self::spec_take(b) matches Some((v, rest)) ==> Self::spec_fits(v)
                && Self::spec_serialize(v) + rest =~= b,
    ;

    /// Append the byte image of the value to `out`.
    fn serialize(&self, out: &mut Vec<u8>)
        ensures
            final(out)@ == old(out)@ + Self::spec_serialize(self@),
            Self::spec_fits(self@),
    ;

    /// Decode one value starting at `pos`, returning it with the position
    /// after it.
    fn read_from(bytes: &[u8], pos: usize) -> (r: Option<(Self, usize)>)
        requires
            pos <= bytes@.len(),
        ensures
            match r {
                Some(p) => pos <= p.1 <= bytes@.len() && Self::spec_take(
                    bytes@.skip(pos as int),
                ) == Some((p.0@, bytes@.skip(p.1 as int))),
                None => Self::spec_take(bytes@.skip(pos as int)) is None,
            },
    ;
}

/// Decode a view from the whole of `b`: a decode that leaves a rest is
/// rejected.  This is the form in which undo snapshots are decoded.
pub open spec fn spec_deserialize<T: Serializable>(b: Seq<u8>) -> Option<T::V> {
    match T::spec_take(b) {
        Some((v, rest)) => if rest.len() == 0 {
            Some(v)
        } else {
            None
        },
        None => None,
    }
}

/// Whole-value round trip: deserializing a serialized view gives it back.
pub proof fn lemma_deserialize_round_trip<T: Serializable>(v: T::V)
    requires
        T::spec_fits(v),
    ensures
        spec_deserialize::<T>(T::spec_serialize(v)) == Some(v),
{
    T::lemma_take_round_trip(v, Seq::empty());
    assert(T::spec_serialize(v) + Seq::<u8>::empty() =~= T::spec_serialize(v));
}

/// Whole-value canonicity: a deserialized byte string is the serialization
/// of its view.
pub proof fn lemma_deserialize_canonical<T: Serializable>(b: Seq<u8>)
    ensures
        spec_deserialize::<T>(b) matches Some(v) ==> T::spec_fits(v) && T::spec_serialize(v)
            =~= b,
{
    T::lemma_take_canonical(b);
    if spec_deserialize::<T>(b) is Some {
        let v = spec_deserialize::<T>(b).unwrap();
        assert(T::spec_serialize(v) + Seq::<u8>::empty() =~= T::spec_serialize(v));
    }
}

/// Decode a value from the whole of `bytes`.
pub fn deserialize<T: Serializable>(bytes: &[u8]) -> (r: Option<T>)
    ensures
        r is Some <==> spec_deserialize::<T>(bytes@) is Some,
        r matches Some(v) ==> spec_deserialize::<T>(bytes@) == Some(v@),
{
    assert(bytes@.skip(0) =~= bytes@);
    match T::read_from(bytes, 0) {
        Some((v, end)) => {
            if end == bytes.len() {
                proof {
                    assert(bytes@.skip(end as int) =~= Seq::<u8>::empty());
                }
                Some(v)
            } else {
                proof {
                    assert(bytes@.skip(end as int).len() > 0);
                }
                None
            }
        },
        None => None,
    }
}

/// Serialize a value into a fresh buffer.
pub fn serialize_to_vec<T: Serializable>(v: &T) -> (out: Vec<u8>)
    ensures
        out@ == T::spec_serialize(v@),
        T::spec_fits(v@),
{
    let mut out: Vec<u8> = Vec::new();
    v.serialize(&mut out);
    proof {
        assert(out@ =~= T::spec_serialize(v@));
    }
    out
}

// ------------------------------------------------------------------
// Lists of serializable values
// ------------------------------------------------------------------

/// A list fits the format: its count fits, and every element fits.
pub open spec fn seq_fits<T: Serializable>(s: Seq<T::V>) -> bool {
    s.len() <= u64::MAX && forall|k: int| 0 <= k < s.len() ==> T::spec_fits(#[trigger] s[k])
}

/// The views of the elements of a vector.
pub open spec fn seq_view<T: View>(s: Seq<T>) -> Seq<T::V> {
    s.map_values(|x: T| x@)
}

/// The byte image of a list body: each element in order.
pub open spec fn spec_serialize_seq<T: Serializable>(s: Seq<T::V>) -> Seq<u8>
    decreases s.len(),
{
    if s.len() == 0 {
        Seq::empty()
    } else {
        T::spec_serialize(s[0]) + spec_serialize_seq::<T>(s.drop_first())
    }
}

/// Decode exactly `n` views from a prefix of `b`.
pub open spec fn spec_take_n<T: Serializable>(b: Seq<u8>, n: nat) -> Option<(Seq<T::V>, Seq<u8>)>
    decreases n,
{
    if n == 0 {
        Some((Seq::empty(), b))
    } else {
        match T::spec_take(b) {
            Some((v, rest)) => match spec_take_n::<T>(rest, (n - 1) as nat) {
                Some((vs, rest2)) => Some((seq![v] + vs, rest2)),
                None => None,
            },
            None => None,
        }
    }
}

pub proof fn lemma_take_n_round_trip<T: Serializable>(s: Seq<T::V>, rest: Seq<u8>)
    requires
        forall|k: int| 0 <= k < s.len() ==> T::spec_fits(#[trigger] s[k]),
    ensures
        spec_take_n::<T>(spec_serialize_seq::<T>(s) + rest, s.len()) == Some((s, rest)),
    decreases s.len(),
{
    reveal_with_fuel(spec_take_n, 3);
    reveal_with_fuel(spec_serialize_seq, 3);
    if s.len() == 0 {
        assert(spec_serialize_seq::<T>(s) + rest =~= rest);
        assert(Seq::<T::V>::empty() =~= s);
    } else {
        let tail = s.drop_first();
        assert(spec_serialize_seq::<T>(s) + rest =~= T::spec_serialize(s[0]) + (
        spec_serialize_seq::<T>(tail) + rest));
        T::lemma_take_round_trip(s[0], spec_serialize_seq::<T>(tail) + rest);
        lemma_take_n_round_trip::<T>(tail, rest);
        assert(seq![s[0]] + tail =~= s);
    }
}

pub proof fn lemma_take_n_canonical<T: Serializable>(b: Seq<u8>, n: nat)
    ensures
        spec_take_n::<T>(b, n) matches Some((vs, rest)) ==> vs.len() == n && (forall|k: int|
            0 <= k < vs.len() ==> T::spec_fits(#[trigger] vs[k])) && spec_serialize_seq::<T>(vs)
            + rest =~= b,
    decreases n,
{
    reveal_with_fuel(spec_take_n, 3);
    reveal_with_fuel(spec_serialize_seq, 3);
    if n != 0 {
        T::lemma_take_canonical(b);
        if T::spec_take(b) is Some {
            let (v, r0) = T::spec_take(b).unwrap();
            lemma_take_n_canonical::<T>(r0, (n - 1) as nat);
            if spec_take_n::<T>(r0, (n - 1) as nat) is Some {
                let (vs, rest) = spec_take_n::<T>(r0, (n - 1) as nat).unwrap();
                let all = seq![v] + vs;
                assert(all.drop_first() =~= vs);
                assert(spec_serialize_seq::<T>(all) + rest =~= T::spec_serialize(v) + (
                spec_serialize_seq::<T>(vs) + rest));
            }
        }
    }
}

/// The byte image of a list: its element count followed by the elements.
pub open spec fn spec_serialize_list<T: Serializable>(s: Seq<T::V>) -> Seq<u8> {
    spec_serialize_u64(s.len() as u64) + spec_serialize_seq::<T>(s)
}

/// Decode a count-prefixed list from a prefix of `b`.
pub open spec fn spec_take_list<T: Serializable>(b: Seq<u8>) -> Option<(Seq<T::V>, Seq<u8>)> {
    match spec_take_u64(b) {
        Some((n, rest)) => spec_take_n::<T>(rest, n as nat),
        None => None,
    }
}

pub proof fn lemma_take_list<T: Serializable>(s: Seq<T::V>, rest: Seq<u8>)
    requires
        seq_fits::<T>(s),
    ensures
        spec_take_list::<T>(spec_serialize_list::<T>(s) + rest) == Some((s, rest)),
{
    let n = s.len() as u64;
    let body = spec_serialize_seq::<T>(s) + rest;
    assert(spec_serialize_list::<T>(s) + rest =~= spec_serialize_u64(n) + body);
    lemma_take_u64(n, body);
    lemma_take_n_round_trip::<T>(s, rest);
}

pub proof fn lemma_take_list_canonical<T: Serializable>(b: Seq<u8>)
    ensures
        spec_take_list::<T>(b) matches Some((vs, rest)) ==> seq_fits::<T>(vs)
            && spec_serialize_list::<T>(vs) + rest =~= b,
{
    lemma_take_u64_canonical(b);
    if spec_take_u64(b) is Some {
        let (n, rest0) = spec_take_u64(b).unwrap();
        lemma_take_n_canonical::<T>(rest0, n as nat);
        if spec_take_n::<T>(rest0, n as nat) is Some {
            let (vs, rest) = spec_take_n::<T>(rest0, n as nat).unwrap();
            assert(spec_serialize_list::<T>(vs) + rest =~= spec_serialize_u64(n) + (
            spec_serialize_seq::<T>(vs) + rest));
        }
    }
}

/// Append the byte image of a list to `out`.
pub fn write_vec<T: Serializable>(out: &mut Vec<u8>, items: &Vec<T>)
    ensures
        final(out)@ == old(out)@ + spec_serialize_list::<T>(seq_view(items@)),
        seq_fits::<T>(seq_view(items@)),
{
    write_u64(out, items.len() as u64);
    let mut i: usize = 0;
    while i < items.len()
        invariant
            i <= items@.len(),
            out@ == old(out)@ + spec_serialize_u64(items@.len() as u64) + spec_serialize_seq::<T>(
                seq_view(items@).take(i as int),
            ),
            forall|k: int| 0 <= k < i ==> T::spec_fits(#[trigger] seq_view(items@)[k]),
        decreases items@.len() - i,
    {
        items[i].serialize(out);
        proof {
            lemma_serialize_seq_snoc::<T>(seq_view(items@).take(i as int), items@[i as int]@);
            assert(seq_view(items@).take(i + 1) =~= seq_view(items@).take(i as int).push(
                items@[i as int]@,
            ));
        }
        i = i + 1;
    }
    proof {
        assert(seq_view(items@).take(items@.len() as int) =~= seq_view(items@));
        assert(out@ =~= old(out)@ + spec_serialize_list::<T>(seq_view(items@)));
    }
}

/// Decode a count-prefixed list starting at `pos`.
pub fn read_vec<T: Serializable>(bytes: &[u8], pos: usize) -> (r: Option<(Vec<T>, usize)>)
    requires
        pos <= bytes@.len(),
    ensures
        match r {
            Some((v, end)) => pos <= end <= bytes@.len() && spec_take_list::<T>(
                bytes@.skip(pos as int),
            ) == Some((seq_view(v@), bytes@.skip(end as int))),
            None => spec_take_list::<T>(bytes@.skip(pos as int)) is None,
        },
{
    match read_u64(bytes, pos) {
        Some((n, mid)) => {
            let mut vs: Vec<T> = Vec::new();
            let mut i: u64 = 0;
            let mut cur: usize = mid;
            proof {
                reveal_with_fuel(spec_take_n, 2);
                assert(seq_view(vs@) =~= Seq::<T::V>::empty());
            }
            while i < n
                invariant
                    i <= n,
                    pos <= cur <= bytes@.len(),
                    spec_take_u64(bytes@.skip(pos as int)) == Some((n, bytes@.skip(mid as int))),
                    spec_take_n::<T>(bytes@.skip(mid as int), i as nat) == Some(
                        (seq_view(vs@), bytes@.skip(cur as int)),
                    ),
                decreases n - i,
            {
                match T::read_from(bytes, cur) {
                    Some((v, end)) => {
                        proof {
                            lemma_take_n_snoc::<T>(bytes@.skip(mid as int), i as nat,
                                seq_view(vs@), v@, bytes@.skip(cur as int),
                                bytes@.skip(end as int));
                            assert(seq_view(vs@.push(v)) =~= seq_view(vs@).push(v@));
                        }
                        vs.push(v);
                        cur = end;
                        i = i + 1;
                    },
                    None => {
                        proof {
                            lemma_take_n_none::<T>(bytes@.skip(mid as int), n as nat, i as nat,
                                seq_view(vs@), bytes@.skip(cur as int));
                        }
                        return None;
                    },
                }
            }
            Some((vs, cur))
        },
        None => None,
    }
}

proof fn lemma_serialize_seq_snoc<T: Serializable>(s: Seq<T::V>, v: T::V)
    ensures
        spec_serialize_seq::<T>(s.push(v)) =~= spec_serialize_seq::<T>(s) + T::spec_serialize(v),
    decreases s.len(),
{
    reveal_with_fuel(spec_serialize_seq, 3);
    if s.len() == 0 {
        assert(s.push(v)[0] == v);
        assert(s.push(v).drop_first() =~= Seq::<T::V>::empty());
        assert(spec_serialize_seq::<T>(s.push(v)) =~= T::spec_serialize(v));
    } else {
        assert(s.push(v)[0] == s[0]);
        assert(s.push(v).drop_first() =~= s.drop_first().push(v));
        lemma_serialize_seq_snoc::<T>(s.drop_first(), v);
    }
}

/// Taking `i` views and then one more is taking `i + 1` views.
proof fn lemma_take_n_snoc<T: Serializable>(
    b: Seq<u8>,
    i: nat,
    vs: Seq<T::V>,
    v: T::V,
    mid: Seq<u8>,
    rest: Seq<u8>,
)
    requires
        spec_take_n::<T>(b, i) == Some((vs, mid)),
        T::spec_take(mid) == Some((v, rest)),
    ensures
        spec_take_n::<T>(b, i + 1) == Some((vs.push(v), rest)),
    decreases i,
{
    reveal_with_fuel(spec_take_n, 3);
    if i == 0 {
        assert(b == mid);
        assert(vs =~= Seq::<T::V>::empty());
        assert(seq![v] + Seq::<T::V>::empty() =~= vs.push(v));
    } else {
        let (v0, r0) = T::spec_take(b).unwrap();
        let (vs0, mid0) = spec_take_n::<T>(r0, (i - 1) as nat).unwrap();
        assert(vs == seq![v0] + vs0);
        assert(vs0 =~= vs.drop_first());
        lemma_take_n_snoc::<T>(r0, (i - 1) as nat, vs0, v, mid, rest);
        assert(seq![v0] + vs0.push(v) =~= vs.push(v));
    }
}

/// A failed view decode after `i` good ones fails the whole list.
proof fn lemma_take_n_none<T: Serializable>(b: Seq<u8>, n: nat, i: nat, vs: Seq<T::V>, mid: Seq<u8>)
    requires
        i < n,
        spec_take_n::<T>(b, i) == Some((vs, mid)),
        T::spec_take(mid) is None,
    ensures
        spec_take_n::<T>(b, n) is None,
    decreases i,
{
    reveal_with_fuel(spec_take_n, 3);
    if i == 0 {
        assert(b == mid);
    } else {
        let (v0, r0) = T::spec_take(b).unwrap();
        let (vs0, mid0) = spec_take_n::<T>(r0, (i - 1) as nat).unwrap();
        lemma_take_n_none::<T>(r0, (n - 1) as nat, (i - 1) as nat, vs0, mid);
    }
}

} // verus!
