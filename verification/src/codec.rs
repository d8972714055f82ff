use vstd::prelude::*;

use bytes::BytesMut;
use tokio_util::codec::{Decoder, Encoder, LinesCodec, LinesCodecError};
use vstd::utf8::{decode_utf8, valid_utf8};

verus! {

#[verifier::external_type_specification]
#[verifier::external_body]
pub struct ExLinesCodecError(LinesCodecError);

/// The byte that ends every frame of the wire format.
pub const NEWLINE: u8 = 10u8;

/// The byte that a frame may carry just before its newline, and that the
/// reader then drops.
pub const CARRIAGE_RETURN: u8 = 13u8;

/// Whether the bytes hold a newline.
pub open spec fn has_newline(bytes: Seq<u8>) -> bool {
    exists|i: int| 0 <= i < bytes.len() && bytes[i] == NEWLINE
}

/// `i` is the position of the first newline of the bytes.
pub open spec fn first_newline_at(bytes: Seq<u8>, i: int) -> bool {
    &&& 0 <= i < bytes.len()
    &&& bytes[i] == NEWLINE
    &&& forall|k: int| 0 <= k < i ==> bytes[k] != NEWLINE
}

/// The position of the first newline of the bytes (meaningful when there is one).
pub open spec fn first_newline(bytes: Seq<u8>) -> int {
    choose|i: int| first_newline_at(bytes, i)
}

/// The bytes without one trailing carriage return, if they end with one.
pub open spec fn strip_cr(bytes: Seq<u8>) -> Seq<u8> {
    if bytes.len() > 0 && bytes.last() == CARRIAGE_RETURN {
        bytes.drop_last()
    } else {
        bytes
    }
}

/// The content of the first frame of the bytes: what precedes the first
/// newline, less a carriage return just before it.
pub open spec fn frame_content(bytes: Seq<u8>) -> Seq<u8> {
    strip_cr(bytes.take(first_newline(bytes)))
}

/// What stays buffered after the first frame has been taken off.
pub open spec fn after_frame(bytes: Seq<u8>) -> Seq<u8> {
    bytes.skip(first_newline(bytes) + 1)
}

/// The bytes that encode one line: its UTF-8 encoding, then a newline.
pub open spec fn frame_bytes(line: Seq<char>) -> Seq<u8> {
    vstd::utf8::encode_utf8(line).push(NEWLINE)
}

/// Whether the bytes left over at the end of a stream are read as one last
/// line: they are, unless they are empty or a lone carriage return.
pub open spec fn has_final_line(bytes: Seq<u8>) -> bool {
    bytes.len() > 0 && !(bytes.len() == 1 && bytes[0] == CARRIAGE_RETURN)
}

/// What the codec hands back for a line whose content is `bytes`: the
/// decoded text when the bytes are UTF-8, an error otherwise.
pub open spec fn codec_read_as(res: Result<Option<String>, LinesCodecError>, bytes: Seq<u8>) -> bool {
    if valid_utf8(bytes) {
        res matches Ok(Some(line)) && line@ == decode_utf8(bytes)
    } else {
        res is Err
    }
}

/// What the reader hands back for a line whose content is `bytes`: the
/// decoded text when the bytes are UTF-8, `InvalidUtf8` otherwise.
pub open spec fn read_as(res: Option<Result<String, LineError>>, bytes: Seq<u8>) -> bool {
    if valid_utf8(bytes) {
        res matches Some(Ok(line)) && line@ == decode_utf8(bytes)
    } else {
        res == Some(Err::<String, LineError>(LineError::InvalidUtf8))
    }
}

/// A received line could not be read.
#[derive(Clone, Copy, Debug, PartialEq, Eq, Structural)]
pub enum LineError {
    /// The line's bytes are not UTF-8.
    InvalidUtf8,
}

/// Calls `<LinesCodec as Decoder>::decode` on a codec made by
/// `LinesCodec::new()` (no length limit) for this call, so that nothing
/// carries over from an earlier call, on a byte buffer holding `buf`.
/// Without a newline in the buffer it returns `Ok(None)` and leaves the
/// buffer alone. With one, it takes the bytes up to and including the first
/// newline off the buffer, drops that newline and a carriage return just
/// before it, and returns the rest as a `String` when it is UTF-8, an error
/// otherwise.
#[verifier::external_body]
fn lines_decode(buf: &mut Vec<u8>) -> (res: Result<Option<String>, LinesCodecError>)
    ensures
        !has_newline(old(buf)@) ==> (res matches Ok(None) && final(buf)@ == old(buf)@),
        has_newline(old(buf)@) ==> {
            &&& final(buf)@ == after_frame(old(buf)@)
            &&& codec_read_as(res, frame_content(old(buf)@))
        },
{
    let mut codec = LinesCodec::new();
    let mut bytes = BytesMut::from(&buf[..]);
    let res = codec.decode(&mut bytes);
    *buf = bytes.to_vec();
    res
}

/// Calls `<LinesCodec as Decoder>::decode_eof` on a codec made by
/// `LinesCodec::new()`, on a byte buffer holding `buf`, once the stream has
/// ended. With a newline in the buffer it does what `decode` does. Without
/// one, it returns `Ok(None)` for an empty buffer or a lone carriage return
/// (leaving the buffer alone), and otherwise empties the buffer and reads
/// all of it, less a trailing carriage return, as the last line.
#[verifier::external_body]
fn lines_decode_eof(buf: &mut Vec<u8>) -> (res: Result<Option<String>, LinesCodecError>)
    ensures
        has_newline(old(buf)@) ==> {
            &&& final(buf)@ == after_frame(old(buf)@)
            &&& codec_read_as(res, frame_content(old(buf)@))
        },
        !has_newline(old(buf)@) && !has_final_line(old(buf)@) ==> (res matches Ok(None)
            && final(buf)@ == old(buf)@),
        !has_newline(old(buf)@) && has_final_line(old(buf)@) ==> {
            &&& final(buf)@ == Seq::<u8>::empty()
            &&& codec_read_as(res, strip_cr(old(buf)@))
        },
{
    let mut codec = LinesCodec::new();
    let mut bytes = BytesMut::from(&buf[..]);
    let res = codec.decode_eof(&mut bytes);
    *buf = bytes.to_vec();
    res
}

/// Calls `<LinesCodec as Encoder<&str>>::encode` on a codec made by
/// `LinesCodec::new()`, on a byte buffer holding `out`: it appends the
/// line's UTF-8 bytes and a newline, and never fails.
#[verifier::external_body]
fn lines_encode(line: &str, out: &mut Vec<u8>) -> (res: Result<(), LinesCodecError>)
    ensures
        res is Ok,
        final(out)@ == old(out)@ + frame_bytes(line@),
{
    let mut codec = LinesCodec::new();
    let mut bytes = BytesMut::from(&out[..]);
    let res = codec.encode(line, &mut bytes);
    *out = bytes.to_vec();
    res
}

/// Appends the frame that carries `line` to `out`.
pub fn encode_line(line: &str, out: &mut Vec<u8>)
    ensures
        final(out)@ == old(out)@ + frame_bytes(line@),
{
    match lines_encode(line, out) {
        Ok(()) => {},
        Err(_) => {},
    }
}

/// Splits a stream of received bytes into lines.
pub struct LineReader {
    pending: Vec<u8>,
}

impl LineReader {
    /// The bytes received and not yet read as lines.
    pub closed spec fn pending(&self) -> Seq<u8> {
        self.pending@
    }

    /// A reader with nothing buffered.
    pub fn new() -> (reader: LineReader)
        ensures
            reader.pending() == Seq::<u8>::empty(),
    {
        LineReader { pending: Vec::new() }
    }

    /// Buffers bytes just received.
    pub fn push_bytes(&mut self, data: &[u8])
        ensures
            final(self).pending() == old(self).pending() + data@,
    {
        let mut i: usize = 0;
        while i < data.len()
            invariant
                i <= data@.len(),
                self.pending@ == old(self).pending@ + data@.take(i as int),
            decreases data@.len() - i,
        {
            self.pending.push(data[i]);
            assert(data@.take(i + 1) =~= data@.take(i as int).push(data@[i as int]));
            i += 1;
        }
        assert(data@.take(data@.len() as int) =~= data@);
    }

    /// Takes the next complete line off the buffer: `None` while no newline
    /// has arrived; the line, or the error for a line that is not UTF-8,
    /// once one has.
    pub fn next_line(&mut self) -> (res: Option<Result<String, LineError>>)
        ensures
            !has_newline(old(self).pending()) ==> res is None && final(self).pending() == old(
                self,
            ).pending(),
            has_newline(old(self).pending()) ==> {
                &&& final(self).pending() == after_frame(old(self).pending())
                &&& read_as(res, frame_content(old(self).pending()))
            },
    {
        match lines_decode(&mut self.pending) {
            Ok(Some(line)) => Some(Ok(line)),
            Ok(None) => None,
            Err(_) => Some(Err(LineError::InvalidUtf8)),
        }
    }

    /// Once the stream has ended: takes the next line off the buffer,
    /// reading what is left without a newline as a last line (unless it is
    /// empty or a lone carriage return); `None` when nothing is left to read.
    pub fn finish_line(&mut self) -> (res: Option<Result<String, LineError>>)
        ensures
            has_newline(old(self).pending()) ==> {
                &&& final(self).pending() == after_frame(old(self).pending())
                &&& read_as(res, frame_content(old(self).pending()))
            },
            !has_newline(old(self).pending()) && !has_final_line(old(self).pending()) ==> res is None
                && final(self).pending() == old(self).pending(),
            !has_newline(old(self).pending()) && has_final_line(old(self).pending()) ==> {
                &&& final(self).pending() == Seq::<u8>::empty()
                &&& read_as(res, strip_cr(old(self).pending()))
            },
    {
        match lines_decode_eof(&mut self.pending) {
            Ok(Some(line)) => Some(Ok(line)),
            Ok(None) => None,
            Err(_) => Some(Err(LineError::InvalidUtf8)),
        }
    }
}

} // verus!
