//! Fixed-size records carried by the rings, and the parser that fills them
//! from raw feed payloads.

use vstd::prelude::*;

verus! {

/// Size in bytes of a raw message buffer.
pub const RAW_MESSAGE_SIZE: usize = 512;

/// A raw message buffer: the payload bytes, zero-padded.
#[derive(Clone, Copy, Debug)]
pub struct RawMessage {
    /// The raw bytes of the message.
    pub data: [u8; RAW_MESSAGE_SIZE],
}

impl View for RawMessage {
    type V = Seq<u8>;

    open spec fn view(&self) -> Seq<u8> {
        self.data@
    }
}

/// The record a payload is stored as: its bytes followed by zeros.
pub open spec fn padded(bytes: Seq<u8>) -> Seq<u8> {
    bytes + Seq::new((RAW_MESSAGE_SIZE - bytes.len()) as nat, |i: int| 0u8)
}

impl RawMessage {
    /// A message whose bytes are all zero.
    pub fn zeroed() -> (r: RawMessage)
        ensures
            r@ == Seq::new(RAW_MESSAGE_SIZE as nat, |i: int| 0u8),
    {
        let r = RawMessage { data: [0u8; RAW_MESSAGE_SIZE] };
        assert(r@ =~= Seq::new(RAW_MESSAGE_SIZE as nat, |i: int| 0u8));
        r
    }

    /// A message holding `bytes`, zero-padded; `None` when they do not fit.
    pub fn from_bytes(bytes: &[u8]) -> (r: Option<RawMessage>)
        ensures
            bytes@.len() <= RAW_MESSAGE_SIZE ==> r is Some && r->0@ == padded(bytes@),
            bytes@.len() > RAW_MESSAGE_SIZE ==> r is None,
    {
        if bytes.len() > RAW_MESSAGE_SIZE {
            return None;
        }
        let mut m = RawMessage::zeroed();
        let mut i: usize = 0;
        while i < bytes.len()
            invariant
                bytes@.len() <= RAW_MESSAGE_SIZE,
                0 <= i <= bytes@.len(),
                m@.len() == RAW_MESSAGE_SIZE,
                forall|k: int| 0 <= k < i ==> m@[k] == bytes@[k],
                forall|k: int| bytes@.len() <= k < RAW_MESSAGE_SIZE ==> m@[k] == 0u8,
            decreases bytes@.len() - i,
        {
            m.data[i] = bytes[i];
            i = i + 1;
        }
        assert(m@ =~= padded(bytes@));
        Some(m)
    }
}

impl Default for RawMessage {
    fn default() -> (r: RawMessage)
        ensures
            r@ == Seq::new(RAW_MESSAGE_SIZE as nat, |i: int| 0u8),
    {
        RawMessage::zeroed()
    }
}

/// Why a payload was not turned into a record.
#[derive(Debug, PartialEq, Eq, Structural)]
pub enum DummyParserError {
    General,
}

/// Relies on `std::str::from_utf8`: it succeeds exactly on valid UTF-8.
#[verifier::external_body]
fn is_utf8(bytes: &[u8]) -> (r: bool)
    ensures
        r == vstd::utf8::valid_utf8(bytes@),
{
    std::str::from_utf8(bytes).is_ok()
}

/// A parser that stores each UTF-8 payload as it is, zero-padded.
#[derive(Debug, Clone, Copy)]
pub struct DummyParser;

impl DummyParser {
    /// Stores a UTF-8 payload of at most `RAW_MESSAGE_SIZE` bytes into
    /// `parsed`; any other payload is refused and `parsed` is left as it was.
    pub fn parse(&mut self, raw_data: &[u8], parsed: &mut RawMessage) -> (r: Result<(), DummyParserError>)
        ensures
            r is Ok <==> vstd::utf8::valid_utf8(raw_data@) && raw_data@.len() <= RAW_MESSAGE_SIZE,
            r is Ok ==> final(parsed)@ == padded(raw_data@),
            r is Err ==> *final(parsed) == *old(parsed),
    {
        if !is_utf8(raw_data) {
            return Err(DummyParserError::General);
        }
        match RawMessage::from_bytes(raw_data) {
            None => Err(DummyParserError::General),
            Some(m) => {
                *parsed = m;
                Ok(())
            },
        }
    }
}

} // verus!
