//! A byte string that is shown as lower-case hexadecimal text.

use vstd::prelude::*;

verus! {

/// The lower-case hexadecimal digit of a value below sixteen.
pub open spec fn hex_digit(n: int) -> char {
    seq!['0', '1', '2', '3', '4', '5', '6', '7', '8', '9', 'a', 'b', 'c', 'd', 'e', 'f'][n]
}

/// The hexadecimal text of a byte string: two digits for each byte, the high
/// half first.
pub open spec fn hex_text(bytes: Seq<u8>) -> Seq<char> {
    Seq::new(
        2 * bytes.len(),
        |i: int|
            if i % 2 == 0 {
                hex_digit(bytes[i / 2] as int / 16)
            } else {
                hex_digit(bytes[i / 2] as int % 16)
            },
    )
}

/// Calls `hex::encode`. That function writes every byte of its input as two
/// lower-case hexadecimal digits, the high half first, and nothing else.
#[verifier::external_body]
fn encode_hex(bytes: &[u8]) -> (text: String)
    ensures
        text@ == hex_text(bytes@),
{
    hex::encode(bytes)
}

/// Bytes that print as hexadecimal text.
#[derive(Clone, PartialEq, Eq, Debug, Hash)]
pub struct HexBytes(pub Vec<u8>);

impl View for HexBytes {
    type V = Seq<u8>;

    open spec fn view(&self) -> Seq<u8> {
        self.0@
    }
}

impl HexBytes {
    /// The bytes as lower-case hexadecimal text.
    pub fn hex(&self) -> (text: String)
        ensures
            text@ == hex_text(self@),
    {
        encode_hex(self.0.as_slice())
    }

    /// The bytes, borrowed.
    pub fn bytes(&self) -> (bytes: &[u8])
        ensures
            bytes@ == self@,
    {
        self.0.as_slice()
    }

    /// The bytes, owned.
    pub fn take_bytes(self) -> (bytes: Vec<u8>)
        ensures
            bytes@ == self@,
    {
        self.0
    }

    /// Copies a slice into a new value.
    pub fn from_slice(slice: &[u8]) -> (made: HexBytes)
        ensures
            made@ == slice@,
    {
        HexBytes(vstd::slice::slice_to_vec(slice))
    }
}

impl From<Vec<u8>> for HexBytes {
    fn from(vec: Vec<u8>) -> (made: HexBytes) {
        HexBytes(vec)
    }
}

impl vstd::std_specs::convert::FromSpecImpl<Vec<u8>> for HexBytes {
    open spec fn obeys_from_spec() -> bool {
        true
    }

    open spec fn from_spec(vec: Vec<u8>) -> HexBytes {
        HexBytes(vec)
    }
}

} // verus!
