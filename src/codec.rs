//! Byte layout of vertex keys and label lists.
//!
//! A label list is stored as `[len:u8][utf8 bytes]` for each label, in order,
//! with no separator and nothing after the last label.
use vstd::prelude::*;
use vstd::utf8::*;
use vstd::string::*;
use crate::model::Gid;

verus! {

broadcast use {encode_utf8_valid_utf8, encode_utf8_decode_utf8};

/// Longest label, in UTF-8 bytes, that fits behind a one-byte length prefix.
pub const MAX_LABEL_LEN: usize = 255;

/// Why a label list could not be encoded or decoded.
#[derive(Debug, PartialEq, Eq, Clone, Copy, Structural)]
pub enum CodecError {
    /// A label is longer than `MAX_LABEL_LEN` UTF-8 bytes.
    LabelTooLong,
    /// A length byte points past the end of the buffer.
    Truncated,
    /// A label's bytes are not well-formed UTF-8.
    InvalidUtf8,
    /// A length component does not fit in one byte.
    LengthTooLarge,
}

/// One part of a compound key.
pub enum Component {
    /// A vertex identifier: its bytes as they are.
    Gid(Gid),
    /// A label: its byte length, then its UTF-8 bytes.
    Label(String),
    /// An explicit length prefix: one byte.
    Length(usize),
}

/// The bytes of one component, or the error that refuses it.
pub open spec fn component_bytes(c: Component) -> Result<Seq<u8>, CodecError> {
    match c {
        Component::Gid(g) => Ok(g@),
        Component::Label(s) => if label_fits(s@) {
            Ok(label_record(s@))
        } else {
            Err(CodecError::LabelTooLong)
        },
        Component::Length(n) => if n <= MAX_LABEL_LEN {
            Ok(seq![n as u8])
        } else {
            Err(CodecError::LengthTooLarge)
        },
    }
}

/// A compound key: the bytes of its components, in order, with no separator;
/// the first refused component decides the error.
pub open spec fn encoded_key(cs: Seq<Component>) -> Result<Seq<u8>, CodecError>
    decreases cs.len(),
{
    if cs.len() == 0 {
        Ok(Seq::empty())
    } else {
        match component_bytes(cs[0]) {
            Ok(head) => match encoded_key(cs.drop_first()) {
                Ok(rest) => Ok(head + rest),
                Err(e) => Err(e),
            },
            Err(e) => Err(e),
        }
    }
}

/// The stored form of one label: its byte length, then its UTF-8 bytes.
pub open spec fn label_record(label: Seq<char>) -> Seq<u8> {
    seq![encode_utf8(label).len() as u8] + encode_utf8(label)
}

/// A label fits the layout when its UTF-8 form is at most 255 bytes long.
pub open spec fn label_fits(label: Seq<char>) -> bool {
    encode_utf8(label).len() <= MAX_LABEL_LEN
}

pub open spec fn labels_fit(labels: Seq<Seq<char>>) -> bool {
    forall|i: int| 0 <= i < labels.len() ==> #[trigger] label_fits(labels[i])
}

/// The stored form of a label list: the records of its labels, in order.
pub open spec fn encoded_labels(labels: Seq<Seq<char>>) -> Seq<u8>
    decreases labels.len(),
{
    if labels.len() == 0 {
        Seq::empty()
    } else {
        label_record(labels[0]) + encoded_labels(labels.drop_first())
    }
}

/// What a stored label list decodes to: `None` where a length byte runs past
/// the end, or a label's bytes are not UTF-8.
pub open spec fn decoded_labels(bytes: Seq<u8>) -> Option<Seq<Seq<char>>>
    decreases bytes.len(),
{
    if bytes.len() == 0 {
        Some(Seq::empty())
    } else {
        let end = 1 + bytes[0] as int;
        if end > bytes.len() || !valid_utf8(bytes.subrange(1, end)) {
            None
        } else {
            match decoded_labels(bytes.subrange(end, bytes.len() as int)) {
                Some(rest) => Some(seq![decode_utf8(bytes.subrange(1, end))] + rest),
                None => None,
            }
        }
    }
}

/// The error that decoding `bytes` meets first.
pub open spec fn decode_error(bytes: Seq<u8>) -> CodecError
    decreases bytes.len(),
{
    if bytes.len() == 0 {
        CodecError::Truncated
    } else {
        let end = 1 + bytes[0] as int;
        if end > bytes.len() {
            CodecError::Truncated
        } else if !valid_utf8(bytes.subrange(1, end)) {
            CodecError::InvalidUtf8
        } else {
            decode_error(bytes.subrange(end, bytes.len() as int))
        }
    }
}

/// Decoding the encoding of labels that fit gives the same labels, in the same order.
pub proof fn lemma_labels_round_trip(labels: Seq<Seq<char>>)
    requires
        labels_fit(labels),
    ensures
        decoded_labels(encoded_labels(labels)) == Some(labels),
    decreases labels.len(),
{
    if labels.len() > 0 {
        let rest = labels.drop_first();
        assert(labels_fit(rest)) by {
            assert forall|i: int| 0 <= i < rest.len() implies #[trigger] label_fits(rest[i]) by {
                assert(label_fits(labels[i + 1]));
            }
        }
        lemma_labels_round_trip(rest);
        assert(label_fits(labels[0]));
        let e = encode_utf8(labels[0]);
        let b = encoded_labels(labels);
        assert(b == label_record(labels[0]) + encoded_labels(rest));
        let end = 1 + b[0] as int;
        assert(end == 1 + e.len());
        assert(b.subrange(1, end) =~= e);
        assert(b.subrange(end, b.len() as int) =~= encoded_labels(rest));
        assert(seq![labels[0]] + rest =~= labels);
    }
}

/// Appends the bytes of `src` to `dst`.
fn append_bytes(dst: &mut Vec<u8>, src: &[u8])
    ensures
        final(dst)@ == old(dst)@ + src@,
{
    let mut i: usize = 0;
    while i < src.len()
        invariant
            i <= src@.len(),
            dst@ == old(dst)@ + src@.subrange(0, i as int),
        decreases src@.len() - i,
    {
        dst.push(src[i]);
        i = i + 1;
        assert(src@.subrange(0, i as int) =~= src@.subrange(0, i - 1 as int).push(src@[i - 1]));
    }
    assert(src@.subrange(0, i as int) =~= src@);
}

/// The record of one label: its byte length, then its UTF-8 bytes.
pub fn encode_label(label: &String) -> (r: Result<Vec<u8>, CodecError>)
    ensures
        match r {
            Ok(b) => label_fits(label@) && b@ == label_record(label@),
            Err(e) => !label_fits(label@) && e == CodecError::LabelTooLong,
        },
{
    let bytes = label.as_str().as_bytes();
    if bytes.len() > MAX_LABEL_LEN {
        return Err(CodecError::LabelTooLong);
    }
    let mut out: Vec<u8> = Vec::new();
    out.push(bytes.len() as u8);
    append_bytes(&mut out, bytes);
    assert(out@ =~= label_record(label@));
    Ok(out)
}

/// Concatenates the bytes of the components, in order.
pub fn encode_key(components: &Vec<Component>) -> (r: Result<Vec<u8>, CodecError>)
    ensures
        match r {
            Ok(b) => encoded_key(components@) == Ok::<Seq<u8>, CodecError>(b@),
            Err(e) => encoded_key(components@) == Err::<Seq<u8>, CodecError>(e),
        },
{
    let ghost cs = components@;
    let mut out: Vec<u8> = Vec::new();
    let mut i: usize = 0;
    assert(cs.subrange(0, cs.len() as int) =~= cs);
    proof {
        match encoded_key(cs) {
            Ok(b) => { assert(out@ + b =~= b); },
            Err(_) => {},
        }
    }
    while i < components.len()
        invariant
            i <= cs.len(),
            cs == components@,
            encoded_key(cs) == match encoded_key(cs.subrange(i as int, cs.len() as int)) {
                Ok(rest) => Ok(out@ + rest),
                Err(e) => Err::<Seq<u8>, CodecError>(e),
            },
        decreases cs.len() - i,
    {
        let ghost tail = cs.subrange(i as int, cs.len() as int);
        assert(tail.drop_first() =~= cs.subrange(i + 1, cs.len() as int));
        assert(tail[0] == cs[i as int]);
        let ghost before = out@;
        match &components[i] {
            Component::Gid(g) => {
                append_bytes(&mut out, g.as_bytes().as_slice());
            },
            Component::Label(s) => {
                match encode_label(s) {
                    Ok(b) => { append_bytes(&mut out, b.as_slice()); },
                    Err(e) => { return Err(e); },
                }
            },
            Component::Length(n) => {
                if *n > MAX_LABEL_LEN {
                    return Err(CodecError::LengthTooLarge);
                }
                out.push(*n as u8);
                assert(out@ =~= before + seq![*n as u8]);
            },
        }
        proof {
            match encoded_key(cs.subrange(i + 1, cs.len() as int)) {
                Ok(rest) => {
                    assert(before + (component_bytes(cs[i as int])->Ok_0 + rest) =~= out@ + rest);
                },
                Err(_) => {},
            }
        }
        i = i + 1;
    }
    assert(cs.subrange(i as int, cs.len() as int) =~= Seq::<Component>::empty());
    assert(out@ + Seq::<u8>::empty() =~= out@);
    Ok(out)
}

/// The stored form of a label list; refuses a list with a label over 255 bytes.
pub fn encode_labels(labels: &Vec<String>) -> (r: Result<Vec<u8>, CodecError>)
    ensures
        match r {
            Ok(b) => labels_fit(labels@.map_values(|s: String| s@))
                && b@ == encoded_labels(labels@.map_values(|s: String| s@)),
            Err(e) => !labels_fit(labels@.map_values(|s: String| s@)) && e == CodecError::LabelTooLong,
        },
{
    let ghost ls = labels@.map_values(|s: String| s@);
    let mut out: Vec<u8> = Vec::new();
    let mut i: usize = 0;
    assert(ls.subrange(0, ls.len() as int) =~= ls);
    assert(out@ + encoded_labels(ls) =~= encoded_labels(ls));
    while i < labels.len()
        invariant
            i <= labels@.len(),
            ls == labels@.map_values(|s: String| s@),
            forall|j: int| 0 <= j < i ==> #[trigger] label_fits(ls[j]),
            out@ + encoded_labels(ls.subrange(i as int, ls.len() as int)) == encoded_labels(ls),
        decreases labels@.len() - i,
    {
        let rec = encode_label(&labels[i]);
        match rec {
            Ok(b) => {
                let ghost tail = ls.subrange(i as int, ls.len() as int);
                assert(tail.drop_first() =~= ls.subrange(i + 1, ls.len() as int));
                assert(encoded_labels(tail) == label_record(ls[i as int]) + encoded_labels(tail.drop_first()));
                let ghost before = out@;
                let mut b = b;
                out.append(&mut b);
                assert(out@ + encoded_labels(ls.subrange(i + 1, ls.len() as int))
                    =~= before + encoded_labels(tail));
                i = i + 1;
            },
            Err(e) => {
                assert(!label_fits(ls[i as int]));
                return Err(e);
            },
        }
    }
    assert(ls.subrange(i as int, ls.len() as int) =~= Seq::<Seq<char>>::empty());
    assert(out@ =~= out@ + encoded_labels(Seq::<Seq<char>>::empty()));
    Ok(out)
}

/// Relies on `String::from_utf8`: it returns the string exactly when the
/// bytes are well-formed UTF-8, and that string holds the characters they encode.
#[verifier::external_body]
fn string_from_utf8(bytes: Vec<u8>) -> (r: Option<String>)
    ensures
        r is Some <==> valid_utf8(bytes@),
        r matches Some(s) ==> s@ == decode_utf8(bytes@),
{
    String::from_utf8(bytes).ok()
}

/// Splits a stored label list back into its labels, in order.
pub fn decode_labels(bytes: &Vec<u8>) -> (r: Result<Vec<String>, CodecError>)
    ensures
        match r {
            Ok(ls) => decoded_labels(bytes@) == Some(ls@.map_values(|s: String| s@)),
            Err(e) => decoded_labels(bytes@) is None && e == decode_error(bytes@),
        },
{
    let n = bytes.len();
    let mut out: Vec<String> = Vec::new();
    let mut i: usize = 0;
    assert(bytes@.subrange(0, n as int) =~= bytes@);
    proof {
        match decoded_labels(bytes@) {
            Some(rest) => {
                assert(out@.map_values(|s: String| s@) + rest =~= rest);
            },
            None => {},
        }
    }
    while i < n
        invariant
            n == bytes@.len(),
            i <= n,
            decoded_labels(bytes@) == match decoded_labels(bytes@.subrange(i as int, n as int)) {
                Some(rest) => Some(out@.map_values(|s: String| s@) + rest),
                None => None::<Seq<Seq<char>>>,
            },
            decode_error(bytes@) == decode_error(bytes@.subrange(i as int, n as int)),
        decreases n - i,
    {
        let ghost tail = bytes@.subrange(i as int, n as int);
        let len = bytes[i] as usize;
        if len >= n - i {
            return Err(CodecError::Truncated);
        }
        let end = i + 1 + len;
        let mut seg: Vec<u8> = Vec::new();
        let mut j: usize = i + 1;
        while j < end
            invariant
                i + 1 <= j <= end <= n,
                n == bytes@.len(),
                seg@ == bytes@.subrange(i + 1, j as int),
            decreases end - j,
        {
            seg.push(bytes[j]);
            j = j + 1;
            assert(seg@ =~= bytes@.subrange(i + 1, j as int));
        }
        assert(tail.subrange(1, 1 + tail[0] as int) =~= seg@);
        assert(tail.subrange(1 + tail[0] as int, tail.len() as int) =~= bytes@.subrange(end as int, n as int));
        match string_from_utf8(seg) {
            Some(s) => {
                let ghost prev = out@.map_values(|s: String| s@);
                out.push(s);
                assert(out@.map_values(|s: String| s@) =~= prev.push(s@));
                proof {
                    match decoded_labels(bytes@.subrange(end as int, n as int)) {
                        Some(rest) => {
                            assert(prev.push(s@) + rest =~= prev + (seq![s@] + rest));
                        },
                        None => {},
                    }
                }
                i = end;
            },
            None => {
                return Err(CodecError::InvalidUtf8);
            },
        }
    }
    assert(bytes@.subrange(i as int, n as int) =~= Seq::<u8>::empty());
    assert(out@.map_values(|s: String| s@) + Seq::<Seq<char>>::empty() =~= out@.map_values(|s: String| s@));
    Ok(out)
}

} // verus!
