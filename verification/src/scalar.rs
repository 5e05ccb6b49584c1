//! The serialized form of a key and its round trip.
//!
//! On the wire a key is exactly one text scalar, indistinguishable from an
//! ordinary text value. Deserialization accepts a text scalar and nothing
//! else.

use vstd::prelude::*;
use vstd::string::StringExecFns;
use vstd::utf8::decode_utf8;
use vstd::utf8::decode_utf8_encode_utf8;
use vstd::utf8::encode_utf8;

use crate::key::KeyString;

verus! {

/// A scalar of the serialization layer, as far as this library is concerned:
/// either the text scalar a key serializes to, or a non-text scalar that
/// deserialization must reject.
#[derive(Debug)]
pub enum Scalar {
    Text(String),
    Integer(i64),
    Boolean(bool),
}

/// The mathematical value of a scalar.
pub enum ScalarView {
    Text(Seq<char>),
    Integer(int),
    Boolean(bool),
}

impl View for Scalar {
    type V = ScalarView;

    open spec fn view(&self) -> ScalarView {
        match self {
            Scalar::Text(s) => ScalarView::Text(s@),
            Scalar::Integer(i) => ScalarView::Integer(*i as int),
            Scalar::Boolean(b) => ScalarView::Boolean(*b),
        }
    }
}

/// The failure deserialization reports when the source scalar is not text.
#[derive(Clone, Copy, Debug, PartialEq, Eq, Structural)]
pub struct DeserializationError;

/// What serializing a key produces: the text scalar holding the key's text.
pub open spec fn spec_serialize(bytes: Seq<u8>) -> ScalarView {
    ScalarView::Text(decode_utf8(bytes))
}

/// What deserializing a scalar produces: the key whose bytes encode the text
/// scalar, or an error for any other scalar.
pub open spec fn spec_deserialize(v: ScalarView) -> Result<Seq<u8>, DeserializationError> {
    match v {
        ScalarView::Text(t) => Ok(encode_utf8(t)),
        _ => Err(DeserializationError),
    }
}

impl KeyString {
    /// Serializes the key as a plain text scalar.
    pub fn serialize(&self) -> (r: Scalar)
        ensures
            r@ == spec_serialize(self@),
    {
        Scalar::Text(String::from_str(self.as_str()))
    }

    /// Deserializes a key from a scalar. Succeeds exactly on text scalars;
    /// any other scalar yields a `DeserializationError`.
    pub fn deserialize(v: Scalar) -> (r: Result<KeyString, DeserializationError>)
        ensures
            r is Ok <==> v@ is Text,
            match r {
                Ok(k) => spec_deserialize(v@) == Ok::<Seq<u8>, DeserializationError>(k@) && k.text()
                    == v@->Text_0,
                Err(e) => spec_deserialize(v@) == Err::<Seq<u8>, DeserializationError>(e),
            },
    {
        match v {
            Scalar::Text(s) => Ok(KeyString::from_string(s)),
            Scalar::Integer(_) => Err(DeserializationError),
            Scalar::Boolean(_) => Err(DeserializationError),
        }
    }
}

/// Round trip: deserializing the scalar that a key serializes to yields a key
/// with the same bytes, hence one equal to the original.
pub proof fn lemma_serialize_round_trip(k: KeyString)
    requires
        k.wf(),
    ensures
        spec_deserialize(spec_serialize(k@)) == Ok::<Seq<u8>, DeserializationError>(k@),
{
    decode_utf8_encode_utf8(k@);
}

} // verus!
