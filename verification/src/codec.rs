//! The bytes of a rename list file: what an export writes and how an import is read.
use vstd::prelude::*;
use vstd::slice::slice_subrange;
use vstd::utf8::*;

verus! {

/// The text that lossy UTF-8 decoding makes of `raw`.
pub uninterp spec fn utf8_lossy_text(raw: Seq<u8>) -> Seq<char>;

/// The text that the GBK decoder makes of `raw`.
pub uninterp spec fn gbk_text(raw: Seq<u8>) -> Seq<char>;

/// `std::str::from_utf8`: gives the decoded text exactly when `raw` is well-formed UTF-8.
#[verifier::external_body]
fn strict_utf8(raw: &[u8]) -> (r: Option<String>)
    ensures
        match r {
            Some(s) => valid_utf8(raw@) && s@ == decode_utf8(raw@),
            None => !valid_utf8(raw@),
        },
{
    match std::str::from_utf8(raw) {
        Ok(s) => Some(s.to_string()),
        Err(_) => None,
    }
}

/// `String::from_utf8_lossy`: depends on the bytes alone, and decodes well-formed UTF-8 unchanged.
/// Which replacement characters stand for malformed bytes is left to the name. Replacements take
/// more room than what they stand for; the bound on the length keeps the text within what can be
/// allocated.
#[verifier::external_body]
fn lossy_utf8(raw: &[u8]) -> (r: String)
    requires
        valid_utf8(raw@) || raw@.len() * 8 + 64 <= isize::MAX,
    ensures
        r@ == utf8_lossy_text(raw@),
        valid_utf8(raw@) ==> r@ == decode_utf8(raw@),
{
    String::from_utf8_lossy(raw).into_owned()
}

/// `decode_without_bom_handling` of `encoding_rs::GBK`: depends on the bytes alone. It reads all of
/// them as GBK, whatever they begin with, and replaces malformed sequences; the mapping table
/// itself is left to the name. It panics where its buffer size overflows, which the bound on the
/// length rules out.
#[verifier::external_body]
fn decode_gbk(raw: &[u8]) -> (r: String)
    requires
        raw@.len() * 8 + 64 <= isize::MAX,
    ensures
        r@ == gbk_text(raw@),
{
    let (text, _) = encoding_rs::GBK.decode_without_bom_handling(raw);
    text.into_owned()
}

/// The UTF-8 byte order mark.
pub open spec fn byte_order_mark() -> Seq<u8> {
    seq![0xEFu8, 0xBBu8, 0xBFu8]
}

/// Whether `raw` begins with the UTF-8 byte order mark.
pub open spec fn has_mark(raw: Seq<u8>) -> bool {
    raw.len() >= 3 && raw[0] == 0xEF && raw[1] == 0xBB && raw[2] == 0xBF
}

/// UTF-8 text in which malformed bytes are tolerated.
pub open spec fn lenient_text(raw: Seq<u8>) -> Seq<char> {
    if valid_utf8(raw) {
        decode_utf8(raw)
    } else {
        utf8_lossy_text(raw)
    }
}

/// The text of an imported file: UTF-8 behind a byte order mark, UTF-8 where the bytes are
/// well-formed, GBK otherwise.
pub open spec fn decoded(raw: Seq<u8>) -> Seq<char> {
    if has_mark(raw) {
        lenient_text(raw.skip(3))
    } else if valid_utf8(raw) {
        decode_utf8(raw)
    } else {
        gbk_text(raw)
    }
}

/// The bytes of an imported file without a byte order mark.
pub open spec fn unmarked(raw: Seq<u8>) -> Seq<u8> {
    if has_mark(raw) {
        raw.skip(3)
    } else {
        raw
    }
}

/// Whether the text of an imported file fits into memory for certain: well-formed UTF-8 takes no
/// more room than the file, other bytes may take several times as much.
pub open spec fn decodable(raw: Seq<u8>) -> bool {
    valid_utf8(unmarked(raw)) || raw.len() * 8 + 64 <= isize::MAX
}

/// Gives the bytes of an imported file without a byte order mark, and tells whether there was one.
fn split_mark(raw: &[u8]) -> (r: (&[u8], bool))
    ensures
        r.0@ == unmarked(raw@),
        r.1 == has_mark(raw@),
{
    if raw.len() >= 3 && raw[0] == 0xEF && raw[1] == 0xBB && raw[2] == 0xBF {
        let body = slice_subrange(raw, 3, raw.len());
        assert(body@ =~= raw@.skip(3));
        (body, true)
    } else {
        (raw, false)
    }
}

/// Whether the bytes of an imported file can be decoded.
pub fn can_decode(raw: &[u8]) -> (r: bool)
    ensures
        r == decodable(raw@),
{
    if raw.len() <= (isize::MAX as usize - 64) / 8 {
        return true;
    }
    let (body, _) = split_mark(raw);
    strict_utf8(body).is_some()
}

/// Decodes the bytes of an imported file.
pub fn decode_text(raw: &[u8]) -> (r: String)
    requires
        decodable(raw@),
    ensures
        r@ == decoded(raw@),
{
    let (body, marked) = split_mark(raw);
    if marked {
        return lossy_utf8(body);
    }
    match strict_utf8(body) {
        Some(s) => s,
        None => decode_gbk(body),
    }
}

/// The bytes of an exported file: a byte order mark, so that spreadsheets recognise the encoding,
/// and the text in UTF-8.
pub open spec fn exported(text: Seq<char>) -> Seq<u8> {
    byte_order_mark() + encode_utf8(text)
}

/// Encodes the text of an export.
pub fn export_bytes(text: &str) -> (r: Vec<u8>)
    ensures
        r@ == exported(text@),
{
    let mut data: Vec<u8> = vec![0xEFu8, 0xBBu8, 0xBFu8];
    let bytes = text.as_bytes();
    data.extend_from_slice(bytes);
    assert(data@ =~= exported(text@));
    data
}

/// An exported file can be decoded, whatever its length, and is read back as the text that was
/// exported.
pub proof fn export_reads_back(text: Seq<char>)
    ensures
        decodable(exported(text)),
        decoded(exported(text)) == text,
{
    assert(exported(text).skip(3) =~= encode_utf8(text));
    encode_utf8_valid_utf8(text);
    encode_utf8_decode_utf8(text);
}

/// A UTF-8 file without a byte order mark can be decoded, whatever its length, and is read back as
/// the text it encodes, unless that text itself begins with the mark's character.
pub proof fn plain_utf8_reads_back(text: Seq<char>)
    requires
        text.len() == 0 || text[0] != '\u{feff}',
    ensures
        decodable(encode_utf8(text)),
        decoded(encode_utf8(text)) == text,
{
    let raw = encode_utf8(text);
    encode_utf8_valid_utf8(text);
    encode_utf8_decode_utf8(text);
    if has_mark(raw) {
        if text.len() > 0 {
            encode_utf8_first_scalar(text);
            assert(codepoint_width_3(0xEF, 0xBB, 0xBF) == 0xfeff) by {
                assert((((0xEFu8 & 0x0F) as u32) << 12) | (((0xBBu8 & 0x3f) as u32) << 6) | ((0xBFu8
                    & 0x3f) as u32) == 0xfeff) by (bit_vector);
            }
            assert(text[0] as u32 == 0xfeff);
        }
    }
}

/// How the bytes of an imported file are read: behind a byte order mark as UTF-8, whatever follows;
/// without one as UTF-8 where they are well-formed, and only otherwise as GBK, all of them.
pub proof fn encodings_are_tried_in_order(raw: Seq<u8>)
    ensures
        raw.len() >= 3 && raw.take(3) == seq![0xEFu8, 0xBBu8, 0xBFu8] ==> {
            let body = raw.skip(3);
            decoded(raw) == (if valid_utf8(body) {
                decode_utf8(body)
            } else {
                utf8_lossy_text(body)
            })
        },
        !(raw.len() >= 3 && raw.take(3) == seq![0xEFu8, 0xBBu8, 0xBFu8]) && valid_utf8(raw)
            ==> decoded(raw) == decode_utf8(raw),
        !(raw.len() >= 3 && raw.take(3) == seq![0xEFu8, 0xBBu8, 0xBFu8]) && !valid_utf8(raw)
            ==> decoded(raw) == gbk_text(raw),
        decodable(raw) <== raw.len() * 8 + 64 <= isize::MAX,
{
    let mark = seq![0xEFu8, 0xBBu8, 0xBFu8];
    if raw.len() >= 3 {
        if raw.take(3) == mark {
            assert(raw.take(3)[0] == raw[0] && raw.take(3)[1] == raw[1] && raw.take(3)[2]
                == raw[2]);
        }
        if has_mark(raw) {
            assert(raw.take(3) =~= mark);
        }
    }
}

/// An export begins with the byte order mark, and the rest is the text in UTF-8.
pub proof fn exports_begin_with_the_mark(text: Seq<char>)
    ensures
        exported(text).len() >= 3,
        exported(text)[0] == 0xEF && exported(text)[1] == 0xBB && exported(text)[2] == 0xBF,
        exported(text).skip(3) == encode_utf8(text),
{
    assert(exported(text).skip(3) =~= encode_utf8(text));
}

} // verus!
