//! Tagged records: a one-byte record type followed by a payload.
use vstd::prelude::*;
use crate::error::FluxError;
use crate::types::{RecordType, record_type_byte, record_type_of};

verus! {

/// A value that is stored as the payload of a tagged record.
pub trait DbRecord: Sized + View {
    /// The record type that tags values of this kind.
    spec fn spec_record_type() -> RecordType;

    /// The payload bytes of a value.
    spec fn spec_serialize(v: Self::V) -> Seq<u8>;

    /// The value that payload bytes describe, if they are well formed.
    spec fn spec_deserialize(p: Seq<u8>) -> Option<Self::V>;

    fn record_type() -> (r: RecordType)
        ensures
            r == Self::spec_record_type(),
    ;

    fn serialize(&self) -> (r: Vec<u8>)
        ensures
            r@ == Self::spec_serialize(self@),
    ;

    fn deserialize(payload: &[u8]) -> (r: Result<Self, FluxError>)
        ensures
            match r {
                Ok(v) => Self::spec_deserialize(payload@) == Some(v@),
                Err(e) => Self::spec_deserialize(payload@) is None && e == FluxError::InvalidData,
            },
    ;
}

/// The bytes of a record: its tag, then its payload.
pub open spec fn encoded_record(t: RecordType, payload: Seq<u8>) -> Seq<u8> {
    seq![record_type_byte(t)] + payload
}

/// The type and payload of a record, if its tag is known.
pub open spec fn decoded_record(b: Seq<u8>) -> Option<(RecordType, Seq<u8>)> {
    if b.len() >= 1 && record_type_of(b[0]) is Some {
        Some((record_type_of(b[0])->Some_0, b.subrange(1, b.len() as int)))
    } else {
        None
    }
}

/// The stored bytes of a typed value.
pub open spec fn typed_record<T: DbRecord>(v: T::V) -> Seq<u8> {
    encoded_record(T::spec_record_type(), T::spec_serialize(v))
}

/// A record read back from page bytes.
pub struct Record<'a> {
    pub record_type: RecordType,
    pub payload: &'a [u8],
}

impl<'a> Record<'a> {
    /// Tags `payload` with `record_type`.
    pub fn encode(record_type: RecordType, payload: &[u8]) -> (r: Vec<u8>)
        ensures
            r@ == encoded_record(record_type, payload@),
    {
        let mut buf: Vec<u8> = Vec::new();
        buf.push(record_type.to_u8());
        crate::codec::push_bytes(&mut buf, payload);
        assert(buf@ =~= encoded_record(record_type, payload@));
        buf
    }

    /// Splits record bytes into their type and payload; `None` when the
    /// bytes are empty or the tag is unknown.
    pub fn decode(buf: &'a [u8]) -> (r: Option<Record<'a>>)
        ensures
            match r {
                Some(rec) => decoded_record(buf@) == Some((rec.record_type, rec.payload@)),
                None => decoded_record(buf@) is None,
            },
    {
        if buf.len() < 1 {
            return None;
        }
        match RecordType::from_u8(buf[0]) {
            Some(t) => Some(Record { record_type: t, payload: &buf[1..buf.len()] }),
            None => None,
        }
    }
}

/// Decoding a record gives back the type and payload it was encoded from.
pub proof fn lemma_record_round_trip(t: RecordType, payload: Seq<u8>)
    ensures
        decoded_record(encoded_record(t, payload)) == Some((t, payload)),
{
    let b = encoded_record(t, payload);
    crate::types::lemma_record_type_byte(t);
    assert(b.subrange(1, b.len() as int) =~= payload);
}

/// Relies on `std::str::from_utf8`: it accepts exactly the well-formed UTF-8
/// byte sequences, and the text it returns is what those bytes decode to.
#[verifier::external_body]
pub(crate) fn utf8_to_string(bytes: &[u8]) -> (r: Option<String>)
    ensures
        r is Some <==> vstd::utf8::valid_utf8(bytes@),
        r matches Some(s) ==> s@ == vstd::utf8::decode_utf8(bytes@),
{
    match std::str::from_utf8(bytes) {
        Ok(s) => Some(s.to_string()),
        Err(_) => None,
    }
}

} // verus!
