//! Messages, their values, and the errors of decoding.

use crate::wire::SLASH;
use vstd::prelude::*;
use vstd::string::is_ascii_spec_bytes;

verus! {

/// Why a buffer is not a message.
///
/// The error names the part of the message at which the buffer stops
/// conforming; a buffer that ends early is reported by the part it cuts short.
#[derive(Debug, Clone, Copy, PartialEq, Eq)]
pub enum ParserError {
    /// The buffer does not start with `/`, or the address has no terminator.
    InvalidAddress,
    /// The type tag does not start with `,`, or names no known type.
    InvalidType,
    /// The payload is cut short.
    InvalidValue,
}

/// The representation that a type tag selects.
#[derive(Debug, Clone, Copy, PartialEq, Eq)]
pub enum OscType {
    Int,
    Float,
    Bool,
    String,
}

/// The one value that a message carries.
///
/// A float is held as the bit pattern of its IEEE-754 single-precision
/// encoding, which is what travels on the wire.
#[derive(Debug, Clone, PartialEq, Eq)]
pub enum OscValue {
    Int(i32),
    Float(u32),
    Bool(bool),
    String(String),
}

/// An address and the value sent to it.
#[derive(Debug, Clone, PartialEq, Eq)]
pub struct OscMessage {
    pub address: String,
    pub value: OscValue,
}

/// What an [`OscValue`] stands for.
pub ghost enum ValueView {
    Int(i32),
    Float(u32),
    Bool(bool),
    String(Seq<char>),
}

/// What an [`OscMessage`] stands for.
pub ghost struct MessageView {
    pub address: Seq<char>,
    pub value: ValueView,
}

/// Every character is ASCII and none is the terminator.
pub open spec fn is_plain_text(s: Seq<char>) -> bool {
    forall|i: int| 0 <= i < s.len() ==> '\0' < #[trigger] s[i] <= '\u{7f}'
}

/// Plain text that starts with `/`.
pub open spec fn is_address(s: Seq<char>) -> bool {
    &&& s.len() > 0
    &&& s[0] == '/'
    &&& is_plain_text(s)
}

impl ValueView {
    pub open spec fn osc_type(self) -> OscType {
        match self {
            ValueView::Int(_) => OscType::Int,
            ValueView::Float(_) => OscType::Float,
            ValueView::Bool(_) => OscType::Bool,
            ValueView::String(_) => OscType::String,
        }
    }

    /// A string value is valid when it is plain text; every other value is.
    pub open spec fn is_valid(self) -> bool {
        match self {
            ValueView::String(s) => is_plain_text(s),
            _ => true,
        }
    }
}

impl MessageView {
    pub open spec fn osc_type(self) -> OscType {
        self.value.osc_type()
    }

    /// The messages that the wire format can carry without loss.
    pub open spec fn is_valid(self) -> bool {
        is_address(self.address) && self.value.is_valid()
    }
}

impl View for OscValue {
    type V = ValueView;

    open spec fn view(&self) -> ValueView {
        match self {
            OscValue::Int(v) => ValueView::Int(*v),
            OscValue::Float(bits) => ValueView::Float(*bits),
            OscValue::Bool(b) => ValueView::Bool(*b),
            OscValue::String(s) => ValueView::String(s@),
        }
    }
}

impl View for OscMessage {
    type V = MessageView;

    open spec fn view(&self) -> MessageView {
        MessageView { address: self.address@, value: self.value@ }
    }
}

impl DeepView for OscMessage {
    type V = MessageView;

    open spec fn deep_view(&self) -> MessageView {
        self@
    }
}

/// Whether `s` is plain text.
fn is_plain(s: &str) -> (ok: bool)
    ensures
        ok == is_plain_text(s@),
{
    if !s.is_ascii() {
        return false;
    }
    let bytes = s.as_bytes();
    proof {
        is_ascii_spec_bytes(s);
    }
    let mut i: usize = 0;
    while i < bytes.len()
        invariant
            i <= bytes@.len(),
            bytes@.len() == s@.len(),
            forall|j: int| 0 <= j < bytes@.len() ==> bytes@[j] == s@[j] as u8,
            forall|j: int| 0 <= j < s@.len() ==> '\0' <= #[trigger] s@[j] <= '\u{7f}',
            forall|j: int| 0 <= j < i ==> '\0' < #[trigger] s@[j],
        decreases bytes@.len() - i,
    {
        if bytes[i] == 0 {
            assert(s@[i as int] == '\0');
            return false;
        }
        assert(s@[i as int] as u8 != 0);
        i += 1;
    }
    true
}

impl OscValue {
    /// Whether the value is valid: see [`ValueView::is_valid`].
    pub fn is_valid(&self) -> (ok: bool)
        ensures
            ok == self@.is_valid(),
    {
        match self {
            OscValue::String(s) => is_plain(s.as_str()),
            _ => true,
        }
    }

    /// The type of the value held.
    pub fn osc_type(&self) -> (t: OscType)
        ensures
            t == self@.osc_type(),
    {
        match self {
            OscValue::Int(_) => OscType::Int,
            OscValue::Float(_) => OscType::Float,
            OscValue::Bool(_) => OscType::Bool,
            OscValue::String(_) => OscType::String,
        }
    }
}

impl OscMessage {
    /// Whether the message is valid: see [`MessageView::is_valid`].
    pub fn is_valid(&self) -> (ok: bool)
        ensures
            ok == self@.is_valid(),
    {
        let address = self.address.as_str();
        if !is_plain(address) {
            return false;
        }
        let bytes = address.as_bytes();
        proof {
            is_ascii_spec_bytes(address);
        }
        bytes.len() > 0 && bytes[0] == SLASH && self.value.is_valid()
    }

    /// The type of the value carried.
    pub fn osc_type(&self) -> (t: OscType)
        ensures
            t == self@.osc_type(),
    {
        self.value.osc_type()
    }
}

} // verus!
