//! The byte-level side of reading and writing GBLN documents: serializing
//! to bytes with optional XZ compression, and turning bytes (compressed or
//! not) back into a value tree. File access itself lives outside the
//! library; callers hand bytes in and take bytes out.

use vstd::prelude::*;
use crate::config::GblnConfig;
use crate::error::{Error, ErrorKind};
use crate::parser::{sp_document, parse};
use crate::serializer::{ser_value, to_string, to_string_pretty};
use crate::value::{wf, Value};
use vstd::utf8::{decode_utf8, encode_utf8, valid_utf8};

verus! {

/// The XZ stream that encoding `data` at `level` produces; the encoding
/// depends on the input bytes and the level alone.
pub uninterp spec fn xz_encoded(data: Seq<u8>, level: u8) -> Seq<u8>;

/// The bytes an XZ stream decodes to, when it decodes at all; decoding
/// depends on the stream alone.
pub uninterp spec fn xz_decoded(data: Seq<u8>) -> Option<Seq<u8>>;

/// Relies on xz2's `XzEncoder` over a byte-vector sink: writing all of
/// `data` and finishing yields the XZ stream for `data` at `level`.
/// `XzEncoder::new` aborts on a preset above 9, so those levels are ruled
/// out here.
#[verifier::external_body]
fn compress_xz(data: &[u8], level: u8) -> (r: Result<Vec<u8>, Error>)
    requires
        level <= 9,
    ensures
        r matches Ok(out) ==> out@ == xz_encoded(data@, level),
{
    let mut encoder = xz2::write::XzEncoder::new(Vec::new(), level as u32);
    if let Err(e) = std::io::Write::write_all(&mut encoder, data) {
        return Err(Error::io(e.to_string()));
    }
    match encoder.finish() {
        Ok(out) => Ok(out),
        Err(e) => Err(Error::io(e.to_string())),
    }
}

/// Relies on xz2's `XzDecoder`: reading to the end decodes one XZ stream;
/// a stream the encoder produced decodes back to the bytes it was given.
#[verifier::external_body]
fn decompress_xz(data: &[u8]) -> (r: Result<Vec<u8>, Error>)
    ensures
        r matches Ok(out) ==> xz_decoded(data@) == Some(out@),
        r matches Ok(out) ==> (forall|orig: Seq<u8>, level: u8|
            (#[trigger] xz_encoded(orig, level)) == data@ ==> out@ == orig),
        r is Err ==> (forall|orig: Seq<u8>, level: u8|
            (#[trigger] xz_encoded(orig, level)) != data@),
{
    let mut decoder = xz2::read::XzDecoder::new(data);
    let mut out = Vec::new();
    match std::io::Read::read_to_end(&mut decoder, &mut out) {
        Ok(_) => Ok(out),
        Err(e) => Err(Error::io(e.to_string())),
    }
}

/// Relies on `String::from_utf8`: it succeeds exactly on valid UTF-8 and
/// decodes those bytes.
#[verifier::external_body]
fn bytes_to_string(bytes: Vec<u8>) -> (r: Result<String, Error>)
    ensures
        match r {
            Ok(s) => valid_utf8(bytes@) && s@ == decode_utf8(bytes@),
            Err(e) => !valid_utf8(bytes@) && e.kind == ErrorKind::IoError,
        },
{
    match String::from_utf8(bytes) {
        Ok(s) => Ok(s),
        Err(e) => Err(Error::io(e.to_string())),
    }
}

/// The first bytes of every XZ stream.
pub open spec fn spec_is_xz(data: Seq<u8>) -> bool {
    data.len() >= 6 && data[0] == 0xfd && data[1] == 0x37 && data[2] == 0x7a && data[3] == 0x58
        && data[4] == 0x5a && data[5] == 0x00
}

/// Whether `data` starts with the XZ magic bytes `FD 37 7A 58 5A 00`.
pub fn is_xz_compressed(data: &[u8]) -> (r: bool)
    ensures
        r == spec_is_xz(data@),
{
    data.len() >= 6 && data[0] == 0xfd && data[1] == 0x37 && data[2] == 0x7a && data[3] == 0x58
        && data[4] == 0x5a && data[5] == 0x00
}

/// The serialized text of `value` under `config`: compact in mini mode,
/// pretty otherwise, always on the canonical (key-sorted) form.
pub open spec fn io_doc_text(v: crate::value::SpecValue, config: GblnConfig) -> Seq<char> {
    if config.mini_mode {
        ser_value(crate::value::normalize(v), false, 0)
    } else {
        ser_value(crate::value::normalize(v), true, 0)
    }
}

/// The compression level actually used: levels above 9 are clamped to 9,
/// as the configuration builder clamps them.
pub open spec fn effective_level(level: u8) -> u8 {
    if level <= 9 {
        level
    } else {
        9
    }
}

/// Serializes a value to the bytes that belong on disk: the document text
/// in UTF-8, XZ-compressed when the configuration asks for it (a level
/// above 9 counts as 9). Only compression can fail.
pub fn to_io_bytes(value: &Value, config: &GblnConfig) -> (r: Result<Vec<u8>, Error>)
    ensures
        match r {
            Ok(out) => if config.compress {
                out@ == xz_encoded(
                    encode_utf8(io_doc_text(value@, *config)),
                    effective_level(config.compression_level),
                )
            } else {
                out@ == encode_utf8(io_doc_text(value@, *config))
            },
            Err(_) => config.compress,
        },
{
    let content = if config.mini_mode {
        to_string(value)
    } else {
        to_string_pretty(value)
    };
    let bytes = content.as_str().as_bytes_vec();
    if config.compress {
        let level: u8 = if config.compression_level <= 9 {
            config.compression_level
        } else {
            9
        };
        compress_xz(bytes.as_slice(), level)
    } else {
        Ok(bytes)
    }
}

/// The document text carried by on-disk bytes: the bytes themselves, or
/// what their XZ stream holds, read as UTF-8.
pub open spec fn io_text(bytes: Seq<u8>) -> Option<Seq<char>> {
    if spec_is_xz(bytes) {
        match xz_decoded(bytes) {
            Some(d) => if valid_utf8(d) {
                Some(decode_utf8(d))
            } else {
                None
            },
            None => None,
        }
    } else {
        if valid_utf8(bytes) {
            Some(decode_utf8(bytes))
        } else {
            None
        }
    }
}

/// Parses on-disk bytes into a value tree, decompressing first when they
/// start with the XZ magic. A returned tree is exactly the parse of the
/// carried text; success is owed for uncompressed parseable text and for
/// every stream the encoder produced from parseable text.
pub fn from_io_bytes(bytes: &[u8]) -> (r: Result<Value, Error>)
    ensures
        r matches Ok(v) ==> (io_text(bytes@) matches Some(t) && sp_document(t) == Some(v@)
            && wf(v@)),
        (!spec_is_xz(bytes@) && valid_utf8(bytes@) && decode_utf8(bytes@).len() < usize::MAX
            && sp_document(decode_utf8(bytes@)) is Some) ==> r is Ok,
        forall|orig: Seq<u8>, level: u8|
            ((#[trigger] xz_encoded(orig, level)) == bytes@ && spec_is_xz(bytes@) && valid_utf8(
                orig,
            ) && decode_utf8(orig).len() < usize::MAX && sp_document(decode_utf8(orig)) is Some)
                ==> r is Ok,
{
    let data: Vec<u8> = if is_xz_compressed(bytes) {
        decompress_xz(bytes)?
    } else {
        vstd::slice::slice_to_vec(bytes)
    };
    let text = bytes_to_string(data)?;
    let n = text.as_str().unicode_len();
    if n == usize::MAX {
        return Err(Error::io(String::from_str("document too large")));
    }
    parse(text.as_str())
}

} // verus!
