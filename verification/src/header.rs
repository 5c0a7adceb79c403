//! Handshake header fields and payload framing.
//!
//! A handshake header is an ordered sequence of `key=value` text
//! fields; lookup takes the first field with a given key.  Payloads on
//! an established connection are framed with a little-endian 32-bit
//! length prefix.

use vstd::prelude::*;
use vstd::bytes::{spec_u32_to_le_bytes, spec_u32_from_le_bytes, u32_to_le_bytes, u32_from_le_bytes, lemma_auto_spec_u32_to_from_le_bytes};
use vstd::slice::{slice_to_vec, slice_subrange, slice_index_get};
use vstd::string::StrSliceExecFns;
use vstd::utf8::{encode_utf8, decode_utf8, valid_utf8, encode_utf8_valid_utf8, encode_utf8_decode_utf8};
use crate::error::{Error, IoErrorKind};

verus! {

/// The character sequences of a list of owned field pairs.
pub open spec fn fields_view(fields: Seq<(String, String)>) -> Seq<(Seq<char>, Seq<char>)> {
    fields.map_values(|p: (String, String)| (p.0@, p.1@))
}

/// The value of the first field named `key`, or `None` when no field
/// carries that key.
pub open spec fn spec_lookup(fields: Seq<(Seq<char>, Seq<char>)>, key: Seq<char>) -> Option<
    Seq<char>,
>
    decreases fields.len(),
{
    if fields.len() == 0 {
        None
    } else if fields[0].0 == key {
        Some(fields[0].1)
    } else {
        spec_lookup(fields.drop_first(), key)
    }
}

/// String equality by contents.
pub fn str_eq(a: &str, b: &str) -> (r: bool)
    ensures
        r == (a@ == b@),
{
    let owned_a: String = a.to_owned();
    let owned_b: String = b.to_owned();
    owned_a == owned_b
}

/// Finds the first field named `key` and returns a reference to its
/// value.
pub fn lookup_field<'a>(fields: &'a Vec<(String, String)>, key: &str) -> (r: Option<&'a String>)
    ensures
        match r {
            Some(v) => spec_lookup(fields_view(fields@), key@) == Some(v@),
            None => spec_lookup(fields_view(fields@), key@) is None,
        },
{
    let ghost fv = fields_view(fields@);
    proof {
        assert(fv.skip(0) =~= fv);
    }
    let n = fields.len();
    for i in 0..n
        invariant
            n == fields.len(),
            fv == fields_view(fields@),
            fv.len() == n,
            spec_lookup(fv, key@) == spec_lookup(fv.skip(i as int), key@),
    {
        proof {
            assert(fv.skip(i as int)[0] == fv[i as int]);
            assert(fv.skip(i as int).drop_first() =~= fv.skip(i + 1));
        }
        if str_eq(fields[i].0.as_str(), key) {
            return Some(&fields[i].1);
        }
    }
    None
}

/// Wire bytes of one field: the key's UTF-8 bytes, the `=` sign, the
/// value's UTF-8 bytes.
pub open spec fn field_bytes(k: Seq<char>, v: Seq<char>) -> Seq<u8> {
    encode_utf8(k) + seq![61u8] + encode_utf8(v)
}

/// Wire bytes of a header's body: each field's bytes behind its own
/// little-endian 32-bit length prefix, in order.
pub open spec fn encode_body(fields: Seq<(Seq<char>, Seq<char>)>) -> Seq<u8>
    decreases fields.len(),
{
    if fields.len() == 0 {
        Seq::empty()
    } else {
        spec_u32_to_le_bytes(field_bytes(fields[0].0, fields[0].1).len() as u32) + field_bytes(
            fields[0].0,
            fields[0].1,
        ) + encode_body(fields.drop_first())
    }
}

/// Wire bytes of a whole header: the body behind its own length
/// prefix.
pub open spec fn encode_header_bytes(fields: Seq<(Seq<char>, Seq<char>)>) -> Seq<u8> {
    spec_u32_to_le_bytes(encode_body(fields).len() as u32) + encode_body(fields)
}

/// One more field extends the body at its end.
pub proof fn lemma_encode_body_push(fields: Seq<(Seq<char>, Seq<char>)>, p: (Seq<char>, Seq<char>))
    ensures
        encode_body(fields.push(p)) =~= encode_body(fields) + spec_u32_to_le_bytes(
            field_bytes(p.0, p.1).len() as u32,
        ) + field_bytes(p.0, p.1),
    decreases fields.len(),
{
    lemma_auto_spec_u32_to_from_le_bytes();
    if fields.len() == 0 {
        assert(fields.push(p).drop_first() =~= Seq::<(Seq<char>, Seq<char>)>::empty());
        assert(fields.push(p)[0] == p);
        assert(encode_body(fields.push(p).drop_first()) =~= Seq::<u8>::empty());
        assert(encode_body(fields.push(p)) == spec_u32_to_le_bytes(
            field_bytes(p.0, p.1).len() as u32,
        ) + field_bytes(p.0, p.1) + encode_body(fields.push(p).drop_first()));
        assert(encode_body(fields.push(p)) =~= (encode_body(fields) + spec_u32_to_le_bytes(
            field_bytes(p.0, p.1).len() as u32,
        )) + field_bytes(p.0, p.1));
    } else {
        assert(fields.push(p)[0] == fields[0]);
        assert(fields.push(p).drop_first() =~= fields.drop_first().push(p));
        lemma_encode_body_push(fields.drop_first(), p);
        let pre = spec_u32_to_le_bytes(field_bytes(fields[0].0, fields[0].1).len() as u32)
            + field_bytes(fields[0].0, fields[0].1);
        let tail = spec_u32_to_le_bytes(field_bytes(p.0, p.1).len() as u32) + field_bytes(p.0, p.1);
        assert(encode_body(fields.push(p)) == pre + encode_body(fields.drop_first().push(p)));
        assert(encode_body(fields.push(p)) =~= pre + (encode_body(fields.drop_first()) + tail));
        assert(encode_body(fields) == pre + encode_body(fields.drop_first()));
        assert(pre + (encode_body(fields.drop_first()) + tail) =~= (encode_body(fields)
            + spec_u32_to_le_bytes(field_bytes(p.0, p.1).len() as u32)) + field_bytes(p.0, p.1));
    }
}

/// Encodes a header for the wire, exactly as
/// [`encode_header_bytes`] states.  The bounds are those the 32-bit
/// length prefixes force.
pub fn encode_header(fields: &Vec<(String, String)>) -> (r: Vec<u8>)
    requires
        encode_body(fields_view(fields@)).len() <= u32::MAX,
        forall|i: int|
            0 <= i < fields@.len() ==> field_bytes(
                fields_view(fields@)[i].0,
                fields_view(fields@)[i].1,
            ).len() <= u32::MAX,
    ensures
        r@ == encode_header_bytes(fields_view(fields@)),
{
    let ghost fv = fields_view(fields@);
    let mut body: Vec<u8> = Vec::new();
    let n = fields.len();
    proof {
        lemma_auto_spec_u32_to_from_le_bytes();
        assert(fv.take(0) =~= Seq::<(Seq<char>, Seq<char>)>::empty());
    }
    for i in 0..n
        invariant
            n == fields@.len(),
            fv == fields_view(fields@),
            body@ == encode_body(fv.take(i as int)),
            encode_body(fv.take(i as int)).len() <= encode_body(fv).len() <= u32::MAX,
            forall|j: int|
                0 <= j < fields@.len() ==> field_bytes(fv[j].0, fv[j].1).len() <= u32::MAX,
    {
        let kb = fields[i].0.as_str().as_bytes_vec();
        let vb = fields[i].1.as_str().as_bytes_vec();
        proof {
            assert(fv[i as int] == (fields@[i as int].0@, fields@[i as int].1@));
            assert(field_bytes(fv[i as int].0, fv[i as int].1) =~= kb@ + seq![61u8] + vb@);
            assert(field_bytes(fv[i as int].0, fv[i as int].1).len() <= u32::MAX);
        }
        let flen: usize = kb.len() + 1 + vb.len();
        let mut lenb = u32_to_le_bytes(flen as u32);
        body.append(&mut lenb);
        let mut kb2 = kb;
        body.append(&mut kb2);
        body.push(61u8);
        let mut vb2 = vb;
        body.append(&mut vb2);
        proof {
            lemma_encode_body_push(fv.take(i as int), fv[i as int]);
            assert(fv.take(i as int).push(fv[i as int]) =~= fv.take(i as int + 1));
            assert(body@ =~= encode_body(fv.take(i as int + 1)));
            lemma_encode_body_prefix(fv, i as int + 1);
        }
    }
    proof {
        assert(fv.take(n as int) =~= fv);
    }
    let total: usize = body.len();
    let mut r = u32_to_le_bytes(total as u32);
    r.append(&mut body);
    r
}

/// A body prefix is never longer than the whole body.
pub proof fn lemma_encode_body_prefix(fields: Seq<(Seq<char>, Seq<char>)>, i: int)
    requires
        0 <= i <= fields.len(),
    ensures
        encode_body(fields.take(i)).len() <= encode_body(fields).len(),
    decreases fields.len() - i,
{
    if i < fields.len() {
        lemma_encode_body_push(fields.take(i), fields[i]);
        assert(fields.take(i).push(fields[i]) =~= fields.take(i + 1));
        lemma_encode_body_prefix(fields, i + 1);
    } else {
        assert(fields.take(i) =~= fields);
    }
}

/// The index of the first occurrence of `b` in `s`, or `-1`.
pub open spec fn find_byte(s: Seq<u8>, b: u8) -> int
    decreases s.len(),
{
    if s.len() == 0 {
        -1
    } else if s[0] == b {
        0
    } else {
        let rest = find_byte(s.drop_first(), b);
        if rest == -1 {
            -1
        } else {
            rest + 1
        }
    }
}

/// A prefix without `b` and a match at its end pin the index down.
pub proof fn lemma_find_byte_at(s: Seq<u8>, b: u8, i: int)
    requires
        0 <= i < s.len(),
        s[i] == b,
        forall|j: int| 0 <= j < i ==> s[j] != b,
    ensures
        find_byte(s, b) == i,
    decreases i,
{
    if i > 0 {
        assert(s.drop_first()[i - 1] == b);
        assert(forall|j: int| 0 <= j < i - 1 ==> s.drop_first()[j] != b);
        lemma_find_byte_at(s.drop_first(), b, i - 1);
    }
}

/// A sequence without `b` anywhere answers `-1`.
pub proof fn lemma_find_byte_absent(s: Seq<u8>, b: u8)
    requires
        forall|j: int| 0 <= j < s.len() ==> s[j] != b,
    ensures
        find_byte(s, b) == -1,
    decreases s.len(),
{
    if s.len() > 0 {
        assert(forall|j: int| 0 <= j < s.len() - 1 ==> s.drop_first()[j] != b);
        lemma_find_byte_absent(s.drop_first(), b);
    }
}

/// Finds the first occurrence of `b` in a byte slice.
fn find_byte_slice(s: &[u8], b: u8) -> (r: Option<usize>)
    ensures
        match r {
            Some(i) => i < s@.len() && find_byte(s@, b) == i as int && s@[i as int] == b,
            None => find_byte(s@, b) == -1,
        },
{
    let n = s.len();
    for i in 0..n
        invariant
            n == s@.len(),
            forall|j: int| 0 <= j < i ==> s@[j] != b,
    {
        if *slice_index_get(s, i) == b {
            proof {
                lemma_find_byte_at(s@, b, i as int);
            }
            return Some(i);
        }
    }
    proof {
        lemma_find_byte_absent(s@, b);
    }
    None
}

/// What one field's wire bytes decode to: the text before the first
/// `=` sign is the key, the text after it the value; bytes without an
/// `=` sign, or that are not well-formed UTF-8, decode to nothing.
pub open spec fn decode_field_bytes(fb: Seq<u8>) -> Option<(Seq<char>, Seq<char>)> {
    let e = find_byte(fb, 61u8);
    if e == -1 {
        None
    } else {
        let kb = fb.take(e);
        let vb = fb.skip(e + 1);
        if valid_utf8(kb) && valid_utf8(vb) {
            Some((decode_utf8(kb), decode_utf8(vb)))
        } else {
            None
        }
    }
}

/// What a header body decodes to: length-prefixed fields, one after
/// the other, each well formed; anything truncated or malformed
/// decodes to nothing.
pub open spec fn decode_body(body: Seq<u8>) -> Option<Seq<(Seq<char>, Seq<char>)>>
    decreases body.len(),
{
    if body.len() == 0 {
        Some(Seq::empty())
    } else if body.len() < 4 {
        None
    } else {
        let flen = spec_u32_from_le_bytes(body.take(4)) as int;
        if body.len() - 4 < flen {
            None
        } else {
            match decode_field_bytes(body.subrange(4, 4 + flen)) {
                None => None,
                Some(kv) => match decode_body(body.skip(4 + flen)) {
                    None => None,
                    Some(rest) => Some(seq![kv] + rest),
                },
            }
        }
    }
}

/// What a whole header decodes to: its length prefix must cover the
/// rest exactly, and the body must decode.
pub open spec fn spec_decode_header(data: Seq<u8>) -> Option<Seq<(Seq<char>, Seq<char>)>> {
    if data.len() < 4 {
        None
    } else {
        let total = spec_u32_from_le_bytes(data.take(4)) as int;
        if data.len() - 4 != total {
            None
        } else {
            decode_body(data.skip(4))
        }
    }
}

/// Relies on `String::from_utf8`: it succeeds exactly on well-formed
/// UTF-8 and returns the string holding those bytes.
#[verifier::external_body]
fn utf8_to_string(bytes: Vec<u8>) -> (r: Option<String>)
    ensures
        match r {
            Some(s) => valid_utf8(bytes@) && s@ == decode_utf8(bytes@) && encode_utf8(s@)
                == bytes@,
            None => !valid_utf8(bytes@),
        },
{
    String::from_utf8(bytes).ok()
}

/// Decodes a header from the wire, exactly as [`spec_decode_header`]
/// states: the fields in order on well-formed input, and a transport
/// error — the stream ended inside a frame, or a frame is malformed —
/// on anything else.
pub fn decode_header(data: &Vec<u8>) -> (r: Result<Vec<(String, String)>, Error>)
    ensures
        match r {
            Ok(f) => spec_decode_header(data@) == Some(fields_view(f@)),
            Err(e) => spec_decode_header(data@) is None && e == Error::Io(
                IoErrorKind::UnexpectedEof,
            ),
        },
{
    proof {
        lemma_auto_spec_u32_to_from_le_bytes();
    }
    if data.len() < 4 {
        return Err(Error::Io(IoErrorKind::UnexpectedEof));
    }
    let total = u32_from_le_bytes(slice_subrange(data.as_slice(), 0, 4));
    proof {
        assert(data@.subrange(0, 4) =~= data@.take(4));
    }
    if (data.len() - 4) as u64 != total as u64 {
        return Err(Error::Io(IoErrorKind::UnexpectedEof));
    }
    let mut fields: Vec<(String, String)> = Vec::new();
    let mut pos: usize = 4;
    proof {
        assert(fields_view(fields@) =~= Seq::<(Seq<char>, Seq<char>)>::empty());
    }
    while pos < data.len()
        invariant
            4 <= pos <= data@.len(),
            ({
                let whole = decode_body(data@.skip(4));
                let rest = decode_body(data@.skip(pos as int));
                match rest {
                    None => whole is None,
                    Some(tail) => whole == Some(fields_view(fields@) + tail),
                }
            }),
        decreases data@.len() - pos,
    {
        let ghost tail_bytes = data@.skip(pos as int);
        if data.len() - pos < 4 {
            return Err(Error::Io(IoErrorKind::UnexpectedEof));
        }
        let flen_u32 = u32_from_le_bytes(slice_subrange(data.as_slice(), pos, pos + 4));
        proof {
            lemma_auto_spec_u32_to_from_le_bytes();
            assert(data@.subrange(pos as int, pos as int + 4) =~= tail_bytes.take(4));
        }
        let flen = flen_u32 as usize;
        if data.len() - pos - 4 < flen {
            return Err(Error::Io(IoErrorKind::UnexpectedEof));
        }
        let fstart = pos + 4;
        let fend = fstart + flen;
        let ghost fb = data@.subrange(fstart as int, fend as int);
        proof {
            assert(fb =~= tail_bytes.subrange(4, 4 + flen as int));
        }
        let fslice = slice_subrange(data.as_slice(), fstart, fend);
        let e = match find_byte_slice(fslice, 61u8) {
            None => {
                proof {
                    assert(find_byte(fb, 61u8) == -1);
                }
                return Err(Error::Io(IoErrorKind::UnexpectedEof));
            },
            Some(off) => {
                proof {
                    assert(find_byte(fb, 61u8) == off as int);
                }
                fstart + off
            },
        };
        let kb = slice_to_vec(slice_subrange(data.as_slice(), fstart, e));
        let vb = slice_to_vec(slice_subrange(data.as_slice(), e + 1, fend));
        proof {
            assert(kb@ =~= fb.take(e - fstart as int));
            assert(vb@ =~= fb.skip(e - fstart as int + 1));
        }
        let k = match utf8_to_string(kb) {
            None => { return Err(Error::Io(IoErrorKind::UnexpectedEof)) },
            Some(s) => s,
        };
        let v = match utf8_to_string(vb) {
            None => { return Err(Error::Io(IoErrorKind::UnexpectedEof)) },
            Some(s) => s,
        };
        let ghost pre_fields = fields_view(fields@);
        fields.push((k, v));
        pos = fend;
        proof {
            assert(decode_field_bytes(fb) == Some((k@, v@)));
            assert(data@.skip(pos as int) =~= tail_bytes.skip(4 + flen as int));
            assert(fields_view(fields@) =~= pre_fields.push((k@, v@)));
            match decode_body(data@.skip(pos as int)) {
                None => {},
                Some(tail) => {
                    assert(seq![(k@, v@)] + tail =~= Seq::<(Seq<char>, Seq<char>)>::empty().push(
                        (k@, v@),
                    ) + tail);
                    assert(pre_fields + (seq![(k@, v@)] + tail) =~= pre_fields.push((k@, v@))
                        + tail);
                },
            }
        }
    }
    proof {
        assert(data@.skip(pos as int) =~= Seq::<u8>::empty());
        assert(fields_view(fields@) + Seq::<(Seq<char>, Seq<char>)>::empty() =~= fields_view(
            fields@,
        ));
    }
    Ok(fields)
}

/// The wire format is lossless: a header whose keys are free of the
/// `=` sign, encoded and then decoded, yields its fields back
/// unchanged.  The bounds are those the 32-bit length prefixes
/// force.
pub proof fn lemma_header_round_trip(fields: Seq<(Seq<char>, Seq<char>)>)
    requires
        forall|i: int|
            0 <= i < fields.len() ==> find_byte(
                encode_utf8((#[trigger] fields[i]).0),
                61u8,
            ) == -1,
        forall|i: int|
            0 <= i < fields.len() ==> field_bytes((#[trigger] fields[i]).0, fields[i].1).len()
                <= u32::MAX,
        encode_body(fields).len() <= u32::MAX,
    ensures
        spec_decode_header(encode_header_bytes(fields)) == Some(fields),
{
    lemma_auto_spec_u32_to_from_le_bytes();
    let data = encode_header_bytes(fields);
    let body = encode_body(fields);
    assert(data.take(4) =~= spec_u32_to_le_bytes(body.len() as u32));
    assert(data.skip(4) =~= body);
    lemma_body_round_trip(fields);
}

/// The body of the wire format is lossless field by field.
#[verifier::rlimit(60)]
pub proof fn lemma_body_round_trip(fields: Seq<(Seq<char>, Seq<char>)>)
    requires
        forall|i: int|
            0 <= i < fields.len() ==> find_byte(
                encode_utf8((#[trigger] fields[i]).0),
                61u8,
            ) == -1,
        forall|i: int|
            0 <= i < fields.len() ==> field_bytes((#[trigger] fields[i]).0, fields[i].1).len()
                <= u32::MAX,
    ensures
        decode_body(encode_body(fields)) == Some(fields),
    decreases fields.len(),
{
    lemma_auto_spec_u32_to_from_le_bytes();
    if fields.len() == 0 {
        assert(decode_body(encode_body(fields)) =~= Some(Seq::<(Seq<char>, Seq<char>)>::empty()));
        assert(fields =~= Seq::<(Seq<char>, Seq<char>)>::empty());
    } else {
        let k = fields[0].0;
        let v = fields[0].1;
        let ek = encode_utf8(k);
        let f0 = field_bytes(k, v);
        let body = encode_body(fields);
        assert(f0.len() >= 1);
        assert(body.take(4) =~= spec_u32_to_le_bytes(f0.len() as u32));
        assert(body.subrange(4, 4 + f0.len() as int) =~= f0);
        assert(f0[ek.len() as int] == 61u8) by {
            assert(f0 == (ek + seq![61u8]) + encode_utf8(v));
        }
        lemma_find_byte_first(ek, 61u8);
        assert forall|j: int| 0 <= j < ek.len() implies f0[j] != 61u8 by {
            assert(f0[j] == ek[j]);
        }
        lemma_find_byte_at(f0, 61u8, ek.len() as int);
        assert(f0.take(ek.len() as int) =~= ek);
        assert(f0.skip(ek.len() as int + 1) =~= encode_utf8(v));
        encode_utf8_valid_utf8(k);
        encode_utf8_valid_utf8(v);
        encode_utf8_decode_utf8(k);
        encode_utf8_decode_utf8(v);
        assert(decode_field_bytes(f0) == Some((k, v)));
        assert(body.skip(4 + f0.len() as int) =~= encode_body(fields.drop_first()));
        assert forall|i: int| 0 <= i < fields.drop_first().len() implies find_byte(
            encode_utf8((#[trigger] fields.drop_first()[i]).0),
            61u8,
        ) == -1 by {
            assert(fields.drop_first()[i] == fields[i + 1]);
        }
        assert forall|i: int| 0 <= i < fields.drop_first().len() implies field_bytes(
            (#[trigger] fields.drop_first()[i]).0,
            fields.drop_first()[i].1,
        ).len() <= u32::MAX by {
            assert(fields.drop_first()[i] == fields[i + 1]);
        }
        lemma_body_round_trip(fields.drop_first());
        assert(seq![(k, v)] + fields.drop_first() =~= fields);
    }
}

/// Any occurrence of the `=` byte is found: a found index is in
/// range, a `-1` means it occurs nowhere.
pub proof fn lemma_find_byte_first(s: Seq<u8>, b: u8)
    ensures
        find_byte(s, b) >= -1,
        find_byte(s, b) == -1 ==> forall|j: int| 0 <= j < s.len() ==> s[j] != b,
    decreases s.len(),
{
    if s.len() > 0 && s[0] != b {
        lemma_find_byte_first(s.drop_first(), b);
        if find_byte(s, b) == -1 {
            assert(find_byte(s.drop_first(), b) == -1);
            assert forall|j: int| 0 <= j < s.len() implies s[j] != b by {
                if j > 0 {
                    assert(s.drop_first()[j - 1] == s[j]);
                }
            }
        }
    }
}

/// Bytes of one framed payload: a little-endian 32-bit length prefix
/// followed by the payload itself.
pub open spec fn frame_bytes(payload: Seq<u8>) -> Seq<u8> {
    spec_u32_to_le_bytes(payload.len() as u32) + payload
}

/// Frames a payload for the wire.  The payload bytes are treated
/// opaquely; only the length prefix is added.
pub fn frame_payload(payload: &Vec<u8>) -> (f: Vec<u8>)
    requires
        payload@.len() <= u32::MAX,
    ensures
        f@ == frame_bytes(payload@),
{
    let len: u32 = payload.len() as u32;
    let mut f = u32_to_le_bytes(len);
    let mut body = slice_to_vec(payload.as_slice());
    f.append(&mut body);
    f
}

} // verus!
