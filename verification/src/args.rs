//! The general-purpose argument carried by remote calls, its text and byte forms,
//! and the instruction set that a call's result may carry.
use bytes::{BufMut, BytesMut};
use vstd::prelude::*;
use vstd::string::StringSliceAdditionalSpecFns;
use vstd::utf8::*;

verus! {

#[verifier::external_type_specification]
#[verifier::external_body]
pub struct ExBytesMut(BytesMut);

/// The bytes that a `bytes::BytesMut` holds.
pub uninterp spec fn bytes_mut_contents(b: BytesMut) -> Seq<u8>;

/// `BytesMut::new` makes an empty buffer.
pub assume_specification[ BytesMut::new ]() -> (r: BytesMut)
    ensures
        bytes_mut_contents(r) == Seq::<u8>::empty(),
;

/// `BytesMut::with_capacity` makes an empty buffer; its capacity is not stated.
pub assume_specification[ BytesMut::with_capacity ](capacity: usize) -> (r: BytesMut)
    ensures
        bytes_mut_contents(r) == Seq::<u8>::empty(),
;

/// `BytesMut::from(&[u8])` copies the slice into a new buffer.
#[verifier::external_body]
fn bytes_mut_from_slice(s: &[u8]) -> (r: BytesMut)
    ensures
        bytes_mut_contents(r) == s@,
{
    BytesMut::from(s)
}

/// `BufMut::put` with a byte slice appends the slice to the buffer.
#[verifier::external_body]
fn bytes_mut_put(b: &mut BytesMut, s: &[u8])
    ensures
        bytes_mut_contents(*final(b)) == bytes_mut_contents(*old(b)) + s@,
{
    b.put(s)
}

/// `std::str::from_utf8` accepts exactly the valid UTF-8 byte sequences.
#[verifier::external_body]
pub(crate) fn str_from_utf8(s: &[u8]) -> (r: Option<&str>)
    ensures
        r is Some <==> valid_utf8(s@),
        r is Some ==> r->0.spec_bytes() == s@,
{
    std::str::from_utf8(s).ok()
}

/// The argument of a remote call.
#[derive(Debug, Clone)]
pub enum Args<'a> {
    Byte(Vec<u8>),
    Bit(&'a [u8]),
    String(String),
    Str(&'a str),
    Empty,
}

/// The mathematical value of an [`Args`].
pub enum ArgsView {
    Byte(Seq<u8>),
    Bit(Seq<u8>),
    String(Seq<char>),
    Str(Seq<char>),
    Empty,
}

impl<'a> View for Args<'a> {
    type V = ArgsView;

    open spec fn view(&self) -> ArgsView {
        match self {
            Args::Byte(e) => ArgsView::Byte(e@),
            Args::Bit(e) => ArgsView::Bit(e@),
            Args::String(e) => ArgsView::String(e@),
            Args::Str(e) => ArgsView::Str(e@),
            Args::Empty => ArgsView::Empty,
        }
    }
}

impl ArgsView {
    /// The bytes that the argument stands for: byte variants as they are,
    /// text variants by their UTF-8 encoding, `Empty` as nothing.
    pub open spec fn bytes(self) -> Seq<u8> {
        match self {
            ArgsView::Byte(e) => e,
            ArgsView::Bit(e) => e,
            ArgsView::String(e) => encode_utf8(e),
            ArgsView::Str(e) => encode_utf8(e),
            ArgsView::Empty => Seq::empty(),
        }
    }

    /// Whether the argument can be read as text: its bytes, if any, are valid UTF-8.
    pub open spec fn has_text(self) -> bool {
        match self {
            ArgsView::Byte(e) => valid_utf8(e),
            ArgsView::Bit(e) => valid_utf8(e),
            _ => true,
        }
    }

    /// The text that the argument stands for: byte variants decoded as UTF-8,
    /// text variants as they are, `Empty` as the empty string.
    pub open spec fn text(self) -> Seq<char> {
        match self {
            ArgsView::Byte(e) => decode_utf8(e),
            ArgsView::Bit(e) => decode_utf8(e),
            ArgsView::String(e) => e,
            ArgsView::Str(e) => e,
            ArgsView::Empty => Seq::empty(),
        }
    }
}

impl<'a> Default for Args<'a> {
    fn default() -> (r: Self)
        ensures
            r is Empty,
    {
        Args::Empty
    }
}

impl<'a> Args<'a> {
    /// The argument as text. Byte arguments must hold valid UTF-8.
    pub fn to_string(&self) -> (r: String)
        requires
            self@.has_text(),
        ensures
            r@ == self@.text(),
            self matches Args::String(e) ==> r@ == e@,
            self matches Args::Str(e) ==> r@ == e@,
            self matches Args::Byte(e) ==> encode_utf8(r@) == e@,
            self matches Args::Bit(e) ==> encode_utf8(r@) == e@,
            self is Empty ==> r@.len() == 0,
    {
        match self {
            Args::Byte(e) => {
                let s = str_from_utf8(e.as_slice()).unwrap();
                proof {
                    vstd::utf8::encode_utf8_decode_utf8(s@);
                    vstd::utf8::decode_utf8_encode_utf8(e@);
                }
                s.to_owned()
            },
            Args::Bit(e) => {
                let s = str_from_utf8(e).unwrap();
                proof {
                    vstd::utf8::encode_utf8_decode_utf8(s@);
                    vstd::utf8::decode_utf8_encode_utf8(e@);
                }
                s.to_owned()
            },
            Args::String(e) => e.clone(),
            Args::Str(e) => (*e).to_owned(),
            Args::Empty => String::new(),
        }
    }

    /// The argument as a byte buffer.
    pub fn into_bytes_mut(self) -> (r: BytesMut)
        ensures
            bytes_mut_contents(r) == self@.bytes(),
            self matches Args::Byte(e) ==> bytes_mut_contents(r) == e@,
            self matches Args::Bit(e) ==> bytes_mut_contents(r) == e@,
            self matches Args::String(e) ==> bytes_mut_contents(r) == encode_utf8(e@),
            self matches Args::Str(e) ==> bytes_mut_contents(r) == encode_utf8(e@),
            self is Empty ==> bytes_mut_contents(r).len() == 0,
    {
        match self {
            Args::Byte(e) => bytes_mut_from_slice(e.as_slice()),
            Args::Bit(e) => bytes_mut_from_slice(e),
            Args::String(e) => bytes_mut_from_slice(e.as_str().as_bytes()),
            Args::Str(e) => bytes_mut_from_slice(e.as_bytes()),
            Args::Empty => BytesMut::new(),
        }
    }
}

/// The instructions that a call's result may carry.
#[derive(Debug, Clone, Copy, PartialEq, Eq, Structural)]
pub enum Instruction {
    /// Stop.
    Backs,
    /// Start.
    Start,
    /// Pause.
    Pause,
}

/// Puts a string into a new wire buffer (of capacity 1024) as its UTF-8 bytes.
pub fn set_bitcoin(e: String) -> (r: BytesMut)
    ensures
        bytes_mut_contents(r) == encode_utf8(e@),
{
    let mut x = BytesMut::with_capacity(1024);
    bytes_mut_put(&mut x, e.as_str().as_bytes());
    proof { assert(Seq::<u8>::empty() + encode_utf8(e@) =~= encode_utf8(e@)); }
    x
}

/// The text of an argument and its bytes agree: whenever the argument can be read as
/// text, the UTF-8 encoding of its text is exactly its bytes.
pub proof fn law_text_encodes_bytes(a: ArgsView)
    requires
        a.has_text(),
    ensures
        encode_utf8(a.text()) == a.bytes(),
{
    match a {
        ArgsView::Byte(e) => { vstd::utf8::decode_utf8_encode_utf8(e); },
        ArgsView::Bit(e) => { vstd::utf8::decode_utf8_encode_utf8(e); },
        _ => {},
    }
}

/// What an argument's text and bytes are, variant by variant: a text argument's text is
/// its string and its bytes are that string's UTF-8 encoding; a byte argument's bytes are
/// its bytes and, when they are UTF-8, its text is what they encode; the empty argument
/// has no text and no bytes.
pub proof fn law_args_text_and_bytes(a: ArgsView)
    ensures
        a matches ArgsView::String(e) ==> a.text() == e && a.bytes() == encode_utf8(e),
        a matches ArgsView::Str(e) ==> a.text() == e && a.bytes() == encode_utf8(e),
        a matches ArgsView::Byte(e) ==> a.bytes() == e && (valid_utf8(e) ==> encode_utf8(a.text()) == e),
        a matches ArgsView::Bit(e) ==> a.bytes() == e && (valid_utf8(e) ==> encode_utf8(a.text()) == e),
        a is Empty ==> a.text().len() == 0 && a.bytes().len() == 0,
{
    match a {
        ArgsView::Byte(e) => { if valid_utf8(e) { vstd::utf8::decode_utf8_encode_utf8(e); } },
        ArgsView::Bit(e) => { if valid_utf8(e) { vstd::utf8::decode_utf8_encode_utf8(e); } },
        _ => {},
    }
}

} // verus!
