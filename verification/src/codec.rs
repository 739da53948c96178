//! The wire message model and its binary codec.
//!
//! A message is a tagged union of three variants; its encoding is a 4-byte
//! little-endian discriminant followed by the variant's fields, each
//! variable-length field prefixed by its own 8-byte little-endian length.
//! Strings travel as their UTF-8 bytes. The encoding is self-describing and
//! canonical: decoding succeeds exactly on encoder output, and the round trip
//! gives back the original message.

use vstd::bytes::{
    lemma_auto_spec_u32_to_from_le_bytes, lemma_auto_spec_u64_to_from_le_bytes,
    spec_u32_from_le_bytes, spec_u32_to_le_bytes, spec_u64_from_le_bytes, spec_u64_to_le_bytes,
    u32_from_le_bytes, u32_to_le_bytes, u64_from_le_bytes, u64_to_le_bytes,
};
use vstd::prelude::*;
use vstd::slice::{slice_subrange, slice_to_vec};
use vstd::utf8::{
    decode_utf8, decode_utf8_encode_utf8, encode_utf8, encode_utf8_decode_utf8,
    encode_utf8_valid_utf8, valid_utf8,
};

use crate::shim::{
    bytes_to_string, ext_format_recognized, image_decodes, is_decodable_image,
    is_recognized_image_ext,
};
use crate::text::{has_file_name, spec_stem_ext, split_stem_ext};

verus! {

/// One chat message on the wire.
#[derive(Debug, PartialEq, Eq)]
pub enum Message {
    /// A line of text.
    Text(String),
    /// An image: name, extension, and the raw image bytes.
    Image(String, String, Vec<u8>),
    /// A file: name and its contents.
    File(String, Vec<u8>),
}

/// The mathematical shape of a message: character sequences and byte
/// sequences, free of any representation choice.
#[verifier::ext_equal]
pub enum MessageView {
    Text { body: Seq<char> },
    Image { name: Seq<char>, ext: Seq<char>, data: Seq<u8> },
    File { name: Seq<char>, data: Seq<u8> },
}

impl View for Message {
    type V = MessageView;

    open spec fn view(&self) -> MessageView {
        match self {
            Message::Text(body) => MessageView::Text { body: body@ },
            Message::Image(name, ext, data) => MessageView::Image {
                name: name@,
                ext: ext@,
                data: data@,
            },
            Message::File(name, data) => MessageView::File { name: name@, data: data@ },
        }
    }
}

/// Everything that can go wrong when building or decoding a message.
#[derive(Debug, PartialEq, Eq)]
pub enum ChatMessageError {
    /// A named file could not be read.
    FileReadError(String),
    /// An image name carries an extension that is not a recognized raster
    /// image format.
    InvalidImageFormat(String),
    /// Bytes declared to be an image do not decode as the declared format.
    InvalidImage(String),
    /// Anything else, described in words.
    OtherError(String),
    /// Bytes on the wire do not form a valid message encoding.
    MalformedPayload,
}

/// A length-prefixed block: the data's length as 8 little-endian bytes, then
/// the data itself.
pub open spec fn spec_chunk(data: Seq<u8>) -> Seq<u8> {
    spec_u64_to_le_bytes(data.len() as u64) + data
}

/// A string's block: its UTF-8 bytes, length-prefixed.
pub open spec fn spec_str_chunk(s: Seq<char>) -> Seq<u8> {
    spec_chunk(encode_utf8(s))
}

/// Whether every variable-length field fits its 8-byte length prefix. Every
/// message actually held in memory satisfies this.
pub open spec fn encodable(m: MessageView) -> bool {
    match m {
        MessageView::Text { body } => encode_utf8(body).len() <= u64::MAX,
        MessageView::Image { name, ext, data } => encode_utf8(name).len() <= u64::MAX
            && encode_utf8(ext).len() <= u64::MAX && data.len() <= u64::MAX,
        MessageView::File { name, data } => encode_utf8(name).len() <= u64::MAX && data.len()
            <= u64::MAX,
    }
}

/// The encoding of a message: a 4-byte little-endian tag picking the variant,
/// then the variant's fields in declaration order, each length-prefixed.
pub open spec fn spec_encode(m: MessageView) -> Seq<u8> {
    match m {
        MessageView::Text { body } => spec_u32_to_le_bytes(0) + spec_str_chunk(body),
        MessageView::Image { name, ext, data } => spec_u32_to_le_bytes(1) + spec_str_chunk(name)
            + spec_str_chunk(ext) + spec_chunk(data),
        MessageView::File { name, data } => spec_u32_to_le_bytes(2) + spec_str_chunk(name)
            + spec_chunk(data),
    }
}

/// Reads one length-prefixed block starting at `pos`: the data and the
/// position just past it, or `None` when the buffer is too short.
pub open spec fn spec_read_chunk(b: Seq<u8>, pos: int) -> Option<(Seq<u8>, int)>
    recommends
        0 <= pos <= b.len(),
{
    if pos + 8 <= b.len() {
        let n = spec_u64_from_le_bytes(b.subrange(pos, pos + 8)) as int;
        if pos + 8 + n <= b.len() {
            Some((b.subrange(pos + 8, pos + 8 + n), pos + 8 + n))
        } else {
            None
        }
    } else {
        None
    }
}

/// The message encoded in the given bytes, or `None` when the bytes are not
/// exactly one valid message encoding.
pub open spec fn spec_decode(b: Seq<u8>) -> Option<MessageView> {
    if b.len() < 4 {
        None
    } else {
        let tag = spec_u32_from_le_bytes(b.subrange(0, 4));
        if tag == 0 {
            match spec_read_chunk(b, 4) {
                Some(c) => if c.1 == b.len() && valid_utf8(c.0) {
                    Some(MessageView::Text { body: decode_utf8(c.0) })
                } else {
                    None
                },
                None => None,
            }
        } else if tag == 1 {
            match spec_read_chunk(b, 4) {
                Some(c1) => if valid_utf8(c1.0) {
                    match spec_read_chunk(b, c1.1) {
                        Some(c2) => if valid_utf8(c2.0) {
                            match spec_read_chunk(b, c2.1) {
                                Some(c3) => if c3.1 == b.len() {
                                    Some(
                                        MessageView::Image {
                                            name: decode_utf8(c1.0),
                                            ext: decode_utf8(c2.0),
                                            data: c3.0,
                                        },
                                    )
                                } else {
                                    None
                                },
                                None => None,
                            }
                        } else {
                            None
                        },
                        None => None,
                    }
                } else {
                    None
                },
                None => None,
            }
        } else if tag == 2 {
            match spec_read_chunk(b, 4) {
                Some(c1) => if valid_utf8(c1.0) {
                    match spec_read_chunk(b, c1.1) {
                        Some(c2) => if c2.1 == b.len() {
                            Some(MessageView::File { name: decode_utf8(c1.0), data: c2.0 })
                        } else {
                            None
                        },
                        None => None,
                    }
                } else {
                    None
                },
                None => None,
            }
        } else {
            None
        }
    }
}

/// Reading a block at the position where one was written gives back exactly
/// the data that was written there.
proof fn lemma_read_chunk_of_chunk(prefix: Seq<u8>, data: Seq<u8>, rest: Seq<u8>)
    requires
        data.len() <= u64::MAX,
    ensures
        spec_read_chunk(prefix + spec_chunk(data) + rest, prefix.len() as int) == Some(
            (data, prefix.len() + 8 + data.len() as int),
        ),
{
    lemma_auto_spec_u64_to_from_le_bytes();
    let b = prefix + spec_chunk(data) + rest;
    let pos = prefix.len() as int;
    assert(b.subrange(pos, pos + 8) =~= spec_u64_to_le_bytes(data.len() as u64));
    assert(spec_u64_from_le_bytes(b.subrange(pos, pos + 8)) == data.len() as u64);
    assert(b.subrange(pos + 8, pos + 8 + data.len() as int) =~= data);
}

/// Decoding inverts encoding: every message comes back from its own bytes.
pub proof fn lemma_decode_encode(m: MessageView)
    requires
        encodable(m),
    ensures
        spec_decode(spec_encode(m)) == Some(m),
{
    lemma_auto_spec_u32_to_from_le_bytes();
    lemma_auto_spec_u64_to_from_le_bytes();
    let b = spec_encode(m);
    match m {
        MessageView::Text { body } => {
            let bb = encode_utf8(body);
            encode_utf8_valid_utf8(body);
            encode_utf8_decode_utf8(body);
            assert(b =~= spec_u32_to_le_bytes(0) + spec_chunk(bb) + Seq::<u8>::empty());
            assert(b.subrange(0, 4) =~= spec_u32_to_le_bytes(0));
            lemma_read_chunk_of_chunk(spec_u32_to_le_bytes(0), bb, Seq::<u8>::empty());
            assert(spec_decode(b) == Some(MessageView::Text { body: decode_utf8(bb) }));
        },
        MessageView::Image { name, ext, data } => {
            let nb = encode_utf8(name);
            let eb = encode_utf8(ext);
            encode_utf8_valid_utf8(name);
            encode_utf8_decode_utf8(name);
            encode_utf8_valid_utf8(ext);
            encode_utf8_decode_utf8(ext);
            let p1 = spec_u32_to_le_bytes(1);
            let p2 = p1 + spec_chunk(nb);
            let p3 = p2 + spec_chunk(eb);
            assert(b.subrange(0, 4) =~= spec_u32_to_le_bytes(1));
            assert(b =~= p1 + spec_chunk(nb) + (spec_chunk(eb) + spec_chunk(data)));
            lemma_read_chunk_of_chunk(p1, nb, spec_chunk(eb) + spec_chunk(data));
            assert(b =~= p2 + spec_chunk(eb) + spec_chunk(data));
            lemma_read_chunk_of_chunk(p2, eb, spec_chunk(data));
            assert(b =~= p3 + spec_chunk(data) + Seq::<u8>::empty());
            lemma_read_chunk_of_chunk(p3, data, Seq::<u8>::empty());
            assert(spec_decode(b) == Some(
                MessageView::Image { name: decode_utf8(nb), ext: decode_utf8(eb), data },
            ));
        },
        MessageView::File { name, data } => {
            let nb = encode_utf8(name);
            encode_utf8_valid_utf8(name);
            encode_utf8_decode_utf8(name);
            let p1 = spec_u32_to_le_bytes(2);
            let p2 = p1 + spec_chunk(nb);
            assert(b.subrange(0, 4) =~= spec_u32_to_le_bytes(2));
            assert(b =~= p1 + spec_chunk(nb) + spec_chunk(data));
            lemma_read_chunk_of_chunk(p1, nb, spec_chunk(data));
            assert(b =~= p2 + spec_chunk(data) + Seq::<u8>::empty());
            lemma_read_chunk_of_chunk(p2, data, Seq::<u8>::empty());
            assert(spec_decode(b) == Some(MessageView::File { name: decode_utf8(nb), data }));
        },
    }
}

/// The encoding is canonical: any bytes that decode are exactly the encoding
/// of what they decode to.
pub proof fn lemma_decode_canonical(b: Seq<u8>)
    requires
        spec_decode(b) is Some,
    ensures
        encodable(spec_decode(b)->Some_0),
        spec_encode(spec_decode(b)->Some_0) == b,
{
    lemma_auto_spec_u32_to_from_le_bytes();
    lemma_auto_spec_u64_to_from_le_bytes();
    let tag = spec_u32_from_le_bytes(b.subrange(0, 4));
    if tag == 0 {
        let c = spec_read_chunk(b, 4)->Some_0;
        decode_utf8_encode_utf8(c.0);
        assert(b.subrange(4, 12) =~= spec_u64_to_le_bytes(c.0.len() as u64));
        assert(spec_encode(spec_decode(b)->Some_0) =~= b);
    } else if tag == 1 {
        let c1 = spec_read_chunk(b, 4)->Some_0;
        let c2 = spec_read_chunk(b, c1.1)->Some_0;
        let c3 = spec_read_chunk(b, c2.1)->Some_0;
        decode_utf8_encode_utf8(c1.0);
        decode_utf8_encode_utf8(c2.0);
        assert(b.subrange(4, 12) =~= spec_u64_to_le_bytes(c1.0.len() as u64));
        assert(b.subrange(c1.1, c1.1 + 8) =~= spec_u64_to_le_bytes(c2.0.len() as u64));
        assert(b.subrange(c2.1, c2.1 + 8) =~= spec_u64_to_le_bytes(c3.0.len() as u64));
        assert(spec_encode(spec_decode(b)->Some_0) =~= b);
    } else {
        let c1 = spec_read_chunk(b, 4)->Some_0;
        let c2 = spec_read_chunk(b, c1.1)->Some_0;
        decode_utf8_encode_utf8(c1.0);
        assert(b.subrange(4, 12) =~= spec_u64_to_le_bytes(c1.0.len() as u64));
        assert(b.subrange(c1.1, c1.1 + 8) =~= spec_u64_to_le_bytes(c2.0.len() as u64));
        assert(spec_encode(spec_decode(b)->Some_0) =~= b);
    }
}

/// Appends one length-prefixed block.
fn push_chunk(out: &mut Vec<u8>, data: &[u8])
    ensures
        final(out)@ == old(out)@ + spec_chunk(data@),
        data@.len() <= u64::MAX,
{
    let mut lenb = u64_to_le_bytes(data.len() as u64);
    out.append(&mut lenb);
    let mut body = slice_to_vec(data);
    out.append(&mut body);
}

/// Appends one string as a length-prefixed block of its UTF-8 bytes.
fn push_str_chunk(out: &mut Vec<u8>, s: &str)
    ensures
        final(out)@ == old(out)@ + spec_str_chunk(s@),
        encode_utf8(s@).len() <= u64::MAX,
{
    let bytes = s.as_bytes_vec();
    push_chunk(out, bytes.as_slice());
}

/// Reads one length-prefixed block starting at `pos`.
fn read_chunk(b: &[u8], pos: usize) -> (r: Option<(Vec<u8>, usize)>)
    requires
        pos <= b@.len(),
    ensures
        match r {
            Some(c) => spec_read_chunk(b@, pos as int) == Some((c.0@, c.1 as int)),
            None => spec_read_chunk(b@, pos as int) is None,
        },
{
    if b.len() - pos < 8 {
        return None;
    }
    let n = u64_from_le_bytes(slice_subrange(b, pos, pos + 8));
    if n > ((b.len() - pos - 8) as u64) {
        return None;
    }
    let end = pos + 8 + (n as usize);
    Some((slice_to_vec(slice_subrange(b, pos + 8, end)), end))
}

impl Message {
    /// Builds a text message carrying the given line.
    pub fn new_text_message(text: &str) -> (m: Message)
        ensures
            m@ == (MessageView::Text { body: text@ }),
    {
        Message::Text(text.to_owned())
    }

    /// Builds a file message from the file's name and its contents.
    pub fn new_file_message(name: &str, data: Vec<u8>) -> (m: Message)
        ensures
            m@ == (MessageView::File { name: name@, data: data@ }),
    {
        Message::File(name.to_owned(), data)
    }

    /// Builds an image message from the image file's path and its bytes. The
    /// path must carry a name and an extension; the extension must name a
    /// recognized raster image format, and the bytes must decode as that
    /// format. All of this is checked here, at construction, before the
    /// message can go anywhere near a wire.
    pub fn new_image_message(file: &str, data: Vec<u8>) -> (r: Result<Message, ChatMessageError>)
        ensures
            match spec_stem_ext(file@) {
                None => r matches Err(e) && (e matches ChatMessageError::OtherError(_)),
                Some(se) => {
                    if !is_recognized_image_ext(se.1) {
                        r matches Err(e) && (e matches ChatMessageError::InvalidImageFormat(x)
                            && x@ == se.1)
                    } else if !is_decodable_image(se.1, data@) {
                        r matches Err(e) && (e matches ChatMessageError::InvalidImage(x) && x@
                            == file@)
                    } else {
                        r matches Ok(m) && m@ == (MessageView::Image {
                            name: se.0,
                            ext: se.1,
                            data: data@,
                        })
                    }
                },
            },
    {
        let split = match split_stem_ext(file) {
            Some(se) => se,
            None => {
                if !has_file_name(file) {
                    return Err(
                        ChatMessageError::OtherError("Unable to get file name".to_owned()),
                    );
                }
                return Err(
                    ChatMessageError::OtherError("Unable to get file extension".to_owned()),
                );
            },
        };
        let (name, ext) = split;
        if !ext_format_recognized(ext.as_str()) {
            return Err(ChatMessageError::InvalidImageFormat(ext));
        }
        if !image_decodes(ext.as_str(), data.as_slice()) {
            return Err(ChatMessageError::InvalidImage(file.to_owned()));
        }
        Ok(Message::Image(name, ext, data))
    }

    /// Encodes this message into its wire bytes.
    pub fn encode(&self) -> (r: Result<Vec<u8>, ChatMessageError>)
        ensures
            r is Ok,
            encodable(self@),
            r matches Ok(b) ==> b@ == spec_encode(self@),
    {
        match self {
            Message::Text(body) => {
                let mut out = u32_to_le_bytes(0);
                push_str_chunk(&mut out, body.as_str());
                Ok(out)
            },
            Message::Image(name, ext, data) => {
                let mut out = u32_to_le_bytes(1);
                push_str_chunk(&mut out, name.as_str());
                push_str_chunk(&mut out, ext.as_str());
                push_chunk(&mut out, data.as_slice());
                Ok(out)
            },
            Message::File(name, data) => {
                let mut out = u32_to_le_bytes(2);
                push_str_chunk(&mut out, name.as_str());
                push_chunk(&mut out, data.as_slice());
                Ok(out)
            },
        }
    }

    /// Decodes a message from its wire bytes. Succeeds exactly when the bytes
    /// are one valid message encoding; anything else is a malformed payload,
    /// never a panic.
    pub fn from_bytes(bytes: &[u8]) -> (r: Result<Message, ChatMessageError>)
        ensures
            r matches Ok(m) ==> spec_decode(bytes@) == Some(m@),
            r matches Err(e) ==> spec_decode(bytes@) is None && e == ChatMessageError::MalformedPayload,
    {
        if bytes.len() < 4 {
            return Err(ChatMessageError::MalformedPayload);
        }
        let tag = u32_from_le_bytes(slice_subrange(bytes, 0, 4));
        if tag == 0 {
            match read_chunk(bytes, 4) {
                Some(c) => {
                    if c.1 != bytes.len() {
                        return Err(ChatMessageError::MalformedPayload);
                    }
                    match bytes_to_string(c.0.as_slice()) {
                        Some(body) => Ok(Message::Text(body)),
                        None => Err(ChatMessageError::MalformedPayload),
                    }
                },
                None => Err(ChatMessageError::MalformedPayload),
            }
        } else if tag == 1 {
            match read_chunk(bytes, 4) {
                Some(c1) => {
                    match bytes_to_string(c1.0.as_slice()) {
                        Some(name) => {
                            match read_chunk(bytes, c1.1) {
                                Some(c2) => {
                                    match bytes_to_string(c2.0.as_slice()) {
                                        Some(ext) => {
                                            match read_chunk(bytes, c2.1) {
                                                Some(c3) => {
                                                    if c3.1 != bytes.len() {
                                                        return Err(
                                                            ChatMessageError::MalformedPayload,
                                                        );
                                                    }
                                                    Ok(Message::Image(name, ext, c3.0))
                                                },
                                                None => Err(ChatMessageError::MalformedPayload),
                                            }
                                        },
                                        None => Err(ChatMessageError::MalformedPayload),
                                    }
                                },
                                None => Err(ChatMessageError::MalformedPayload),
                            }
                        },
                        None => Err(ChatMessageError::MalformedPayload),
                    }
                },
                None => Err(ChatMessageError::MalformedPayload),
            }
        } else if tag == 2 {
            match read_chunk(bytes, 4) {
                Some(c1) => {
                    match bytes_to_string(c1.0.as_slice()) {
                        Some(name) => {
                            match read_chunk(bytes, c1.1) {
                                Some(c2) => {
                                    if c2.1 != bytes.len() {
                                        return Err(ChatMessageError::MalformedPayload);
                                    }
                                    Ok(Message::File(name, c2.0))
                                },
                                None => Err(ChatMessageError::MalformedPayload),
                            }
                        },
                        None => Err(ChatMessageError::MalformedPayload),
                    }
                },
                None => Err(ChatMessageError::MalformedPayload),
            }
        } else {
            Err(ChatMessageError::MalformedPayload)
        }
    }
}

} // verus!
