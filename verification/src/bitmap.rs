//! Screenshots as uncompressed 24-bit bitmap files.
use vstd::prelude::*;

verus! {

/// A pixel: red, green and blue.
#[derive(Debug, Clone, Copy, PartialEq, Eq, Structural)]
pub struct Pixel {
    pub r: u8,
    pub g: u8,
    pub b: u8,
}

/// The four bytes of `x`, the lowest first.
pub open spec fn le32(x: int) -> Seq<u8> {
    seq![
        (x % 256) as u8,
        (x / 256 % 256) as u8,
        (x / 65536 % 256) as u8,
        (x / 16777216 % 256) as u8,
    ]
}

/// The length of a row of `w` pixels: three bytes each, filled up to a multiple of four.
pub open spec fn row_length(w: int) -> int {
    (3 * w + 3) / 4 * 4
}

/// The length of the file header.
pub const HEADER_LENGTH: u32 = 54;

/// The length of the file.
pub open spec fn file_length(w: int, h: int) -> int {
    HEADER_LENGTH + row_length(w) * h
}

/// The file header.
pub open spec fn header(w: int, h: int) -> Seq<u8> {
    seq![0x42u8, 0x4Du8] + le32(file_length(w, h)) + zeros(4) + le32(HEADER_LENGTH as int) + le32(
        40,
    ) + le32(w) + le32(h) + seq![1u8, 0u8] + seq![24u8, 0u8] + zeros(24)
}

/// `n` zero bytes.
pub open spec fn zeros(n: nat) -> Seq<u8> {
    Seq::new(n, |i: int| 0u8)
}

/// The bytes of pixels: blue, green and red of each.
pub open spec fn pixel_bytes(pixels: Seq<Pixel>) -> Seq<u8>
    decreases pixels.len(),
{
    if pixels.len() == 0 {
        Seq::empty()
    } else {
        let p = pixels.last();
        pixel_bytes(pixels.drop_last()) + seq![p.b, p.g, p.r]
    }
}

/// The bytes of row `y` of the image.
pub open spec fn row_bytes(w: int, pixels: Seq<Pixel>, y: int) -> Seq<u8> {
    pixel_bytes(pixels.subrange(y * w, y * w + w)) + zeros((row_length(w) - 3 * w) as nat)
}

/// The bytes of the lowest `n` rows of the image, the lowest first.
pub open spec fn body(w: int, h: int, pixels: Seq<Pixel>, n: nat) -> Seq<u8>
    decreases n,
{
    if n == 0 {
        Seq::empty()
    } else {
        body(w, h, pixels, (n - 1) as nat) + row_bytes(w, pixels, h - n)
    }
}

/// The bitmap file of an image whose pixels are given row by row from the top.
pub open spec fn bitmap_file(w: int, h: int, pixels: Seq<Pixel>) -> Seq<u8> {
    header(w, h) + body(w, h, pixels, h as nat)
}

/// Appends the four bytes of `x`, the lowest first.
fn push_le32(out: &mut Vec<u8>, x: u32)
    ensures
        final(out)@ == old(out)@ + le32(x as int),
{
    out.push((x % 256) as u8);
    out.push((x / 256 % 256) as u8);
    out.push((x / 65536 % 256) as u8);
    out.push((x / 16777216 % 256) as u8);
    assert(out@ =~= old(out)@ + le32(x as int));
}

/// Appends `n` zero bytes.
fn push_zeros(out: &mut Vec<u8>, n: u32)
    ensures
        final(out)@ == old(out)@ + zeros(n as nat),
{
    let mut i: u32 = 0;
    assert(out@ =~= old(out)@ + zeros(0));
    while i < n
        invariant
            0 <= i <= n,
            out@ == old(out)@ + zeros(i as nat),
        decreases n - i,
    {
        out.push(0);
        i = i + 1;
        assert(out@ =~= old(out)@ + zeros(i as nat));
    }
}

/// Appends the file header.
fn push_header(out: &mut Vec<u8>, w: u32, h: u32, length: u32)
    requires
        length == file_length(w as int, h as int),
    ensures
        final(out)@ == old(out)@ + header(w as int, h as int),
{
    out.push(0x42);
    out.push(0x4D);
    push_le32(out, length);
    push_zeros(out, 4);
    push_le32(out, HEADER_LENGTH);
    push_le32(out, 40);
    push_le32(out, w);
    push_le32(out, h);
    out.push(1);
    out.push(0);
    out.push(24);
    out.push(0);
    push_zeros(out, 24);
    assert(out@ =~= old(out)@ + header(w as int, h as int));
}

/// Appends row `y` of the image.
fn push_row(out: &mut Vec<u8>, w: u32, pixels: &Vec<Pixel>, y: u32, pad: u32)
    requires
        y * w + w <= pixels@.len(),
        pad == row_length(w as int) - 3 * w,
    ensures
        final(out)@ == old(out)@ + row_bytes(w as int, pixels@, y as int),
{
    let ghost first = y * w;
    let ghost row = pixels@.subrange(first, first + w);
    assert(0 <= y * w) by (nonlinear_arith);
    let count: usize = pixels.len();
    let start: usize = (y as usize) * (w as usize);
    let mut x: u32 = 0;
    assert(pixel_bytes(row.take(0)) =~= Seq::<u8>::empty());
    while x < w
        invariant
            0 <= x <= w,
            start == first,
            0 <= first,
            first + w <= pixels@.len(),
            pixels@.len() == count,
            row == pixels@.subrange(first, first + w),
            out@ == old(out)@ + pixel_bytes(row.take(x as int)),
        decreases w - x,
    {
        let p = pixels[start + x as usize];
        proof {
            assert(row.take(x + 1).drop_last() =~= row.take(x as int));
            assert(row.take(x + 1).last() == p);
        }
        out.push(p.b);
        out.push(p.g);
        out.push(p.r);
        x = x + 1;
        assert(out@ =~= old(out)@ + pixel_bytes(row.take(x as int)));
    }
    assert(row.take(x as int) =~= row);
    push_zeros(out, pad);
    assert(out@ =~= old(out)@ + row_bytes(w as int, pixels@, y as int));
}

/// Whether an image of `w` times `h` pixels of which `count` are given can be encoded: its file
/// length must fit the header, and no pixel may be missing.
pub open spec fn encodable(w: int, h: int, count: int) -> bool {
    &&& 3 * w + 3 <= u32::MAX
    &&& file_length(w, h) <= u32::MAX
    &&& w * h <= count
}

/// Decides whether an image can be encoded.
pub fn can_encode(w: u32, h: u32, count: usize) -> (r: bool)
    ensures
        r == encodable(w as int, h as int, count as int),
{
    if w > (u32::MAX - 3) / 3 {
        return false;
    }
    let length: u32 = (w * 3 + 3) / 4 * 4;
    assert(length * h <= 0xffff_ffff * 0xffff_ffff) by (nonlinear_arith)
        requires
            length <= 0xffff_ffff,
            h <= 0xffff_ffff,
    ;
    assert(w * h <= 0xffff_ffff * 0xffff_ffff) by (nonlinear_arith)
        requires
            w <= 0xffff_ffff,
            h <= 0xffff_ffff,
    ;
    assert(0 <= length * h && 0 <= w * h) by (nonlinear_arith)
        requires
            0 <= length,
            0 <= h,
            0 <= w,
    ;
    HEADER_LENGTH as u128 + length as u128 * h as u128 <= u32::MAX as u128 && w as u128 * h as u128
        <= count as u128
}

/// Encodes an image whose pixels are given row by row from the top.
pub fn encode_bitmap(w: u32, h: u32, pixels: &Vec<Pixel>) -> (r: Vec<u8>)
    requires
        encodable(w as int, h as int, pixels@.len() as int),
    ensures
        r@ == bitmap_file(w as int, h as int, pixels@),
{
    let length: u32 = (w * 3 + 3) / 4 * 4;
    assert(0 <= length * h) by (nonlinear_arith)
        requires
            0 <= length,
            0 <= h,
    ;
    let pad: u32 = length - w * 3;
    let mut out: Vec<u8> = Vec::new();
    push_header(&mut out, w, h, HEADER_LENGTH + length * h);
    let ghost head = header(w as int, h as int);
    let mut n: u32 = 0;
    assert(out@ =~= head + body(w as int, h as int, pixels@, 0));
    while n < h
        invariant
            0 <= n <= h,
            w * h <= pixels@.len(),
            pad == row_length(w as int) - 3 * w,
            out@ == head + body(w as int, h as int, pixels@, n as nat),
        decreases h - n,
    {
        let y: u32 = h - 1 - n;
        assert(y * w + w <= w * h) by (nonlinear_arith)
            requires
                y + 1 <= h,
                0 <= w,
        ;
        push_row(&mut out, w, pixels, y, pad);
        n = n + 1;
        assert(out@ =~= head + body(w as int, h as int, pixels@, n as nat));
    }
    out
}

/// The length of pixels in bytes, and the place of each channel.
proof fn pixel_places(pixels: Seq<Pixel>)
    ensures
        pixel_bytes(pixels).len() == 3 * pixels.len(),
        forall|x: int|
            0 <= x < pixels.len() ==> pixel_bytes(pixels)[3 * x] == (#[trigger] pixels[x]).b
                && pixel_bytes(pixels)[3 * x + 1] == pixels[x].g && pixel_bytes(pixels)[3 * x + 2]
                == pixels[x].r,
    decreases pixels.len(),
{
    if pixels.len() > 0 {
        let rest = pixels.drop_last();
        pixel_places(rest);
        assert forall|x: int| 0 <= x < pixels.len() implies pixel_bytes(pixels)[3 * x] == (
        #[trigger] pixels[x]).b && pixel_bytes(pixels)[3 * x + 1] == pixels[x].g && pixel_bytes(
            pixels,
        )[3 * x + 2] == pixels[x].r by {
            if x < rest.len() {
                assert(rest[x] == pixels[x]);
            }
        }
    }
}

/// The length of the lowest rows, and the place of each.
proof fn row_places(w: int, h: int, pixels: Seq<Pixel>, n: nat, y: int)
    requires
        0 <= w,
        n <= h,
        w * h <= pixels.len(),
        h - n <= y < h,
    ensures
        body(w, h, pixels, n).len() == row_length(w) * n,
        row_length(w) * (h - 1 - y) + row_length(w) <= row_length(w) * n,
        body(w, h, pixels, n).subrange(
            row_length(w) * (h - 1 - y),
            row_length(w) * (h - 1 - y) + row_length(w),
        ) == row_bytes(w, pixels, y),
    decreases n,
{
    let below = (n - 1) as nat;
    let top = h - n;
    let len = row_length(w);
    assert(0 <= top * w && top * w + w <= w * h) by (nonlinear_arith)
        requires
            0 <= top,
            top + 1 <= h,
            0 <= w,
    ;
    pixel_places(pixels.subrange(top * w, top * w + w));
    assert(row_bytes(w, pixels, top).len() == len);
    assert(len * below + len == len * n) by (nonlinear_arith)
        requires
            below == n - 1,
    ;
    assert(0 <= len * below) by (nonlinear_arith)
        requires
            0 <= len,
            0 <= below,
    ;
    let all = body(w, h, pixels, n);
    if below > 0 {
        row_places(w, h, pixels, below, h - 1);
    } else {
        assert(len * below == 0) by (nonlinear_arith)
            requires
                below == 0,
        ;
    }
    assert(body(w, h, pixels, below).len() == len * below);
    if y == top {
        assert(all.subrange(len * below, len * below + len) =~= row_bytes(w, pixels, y));
    } else {
        row_places(w, h, pixels, below, y);
        assert(0 <= len * (h - 1 - y)) by (nonlinear_arith)
            requires
                0 <= len,
                0 <= h - 1 - y,
        ;
        let at = len * (h - 1 - y);
        assert(all.subrange(at, at + len) =~= body(w, h, pixels, below).subrange(at, at + len));
    }
}

/// The place of the pixel in column `x` of row `y`.
pub open spec fn pixel_place(w: int, h: int, x: int, y: int) -> int {
    HEADER_LENGTH + row_length(w) * (h - 1 - y) + 3 * x
}

/// A bitmap file has the length that its header states, rows that begin at multiples of four bytes
/// and are filled up by less than four, and each pixel of the image at its place: rows from the
/// bottom, blue before green before red.
pub proof fn pixels_at_their_places(w: int, h: int, pixels: Seq<Pixel>, x: int, y: int)
    requires
        w * h <= pixels.len(),
        0 <= x < w,
        0 <= y < h,
    ensures
        bitmap_file(w, h, pixels).len() == file_length(w, h),
        row_length(w) % 4 == 0,
        0 <= row_length(w) - 3 * w < 4,
        HEADER_LENGTH <= pixel_place(w, h, x, y),
        pixel_place(w, h, x, y) + 3 <= file_length(w, h),
        bitmap_file(w, h, pixels)[pixel_place(w, h, x, y)] == pixels[y * w + x].b,
        bitmap_file(w, h, pixels)[pixel_place(w, h, x, y) + 1] == pixels[y * w + x].g,
        bitmap_file(w, h, pixels)[pixel_place(w, h, x, y) + 2] == pixels[y * w + x].r,
{
    let len = row_length(w);
    let at = len * (h - 1 - y);
    row_places(w, h, pixels, h as nat, y);
    assert(0 <= at) by (nonlinear_arith)
        requires
            0 <= len,
            0 <= h - 1 - y,
            at == len * (h - 1 - y),
    ;
    assert(0 <= y * w && y * w + w <= w * h) by (nonlinear_arith)
        requires
            0 <= y,
            y + 1 <= h,
            0 <= w,
    ;
    let row = pixels.subrange(y * w, y * w + w);
    pixel_places(row);
    assert(row[x] == pixels[y * w + x]);
    let rows = body(w, h, pixels, h as nat);
    let bytes = row_bytes(w, pixels, y);
    assert(rows.subrange(at, at + len) == bytes);
    assert(rows[at + 3 * x] == bytes[3 * x]);
    assert(rows[at + 3 * x + 1] == bytes[3 * x + 1]);
    assert(rows[at + 3 * x + 2] == bytes[3 * x + 2]);
    header_length(w, h);
    behind_header(w, h, pixels, at + 3 * x);
    behind_header(w, h, pixels, at + 3 * x + 1);
    behind_header(w, h, pixels, at + 3 * x + 2);
}

/// The length of the header.
proof fn header_length(w: int, h: int)
    ensures
        header(w, h).len() == HEADER_LENGTH,
{
}

/// The bytes of the rows stand behind the header.
proof fn behind_header(w: int, h: int, pixels: Seq<Pixel>, i: int)
    requires
        0 <= i < body(w, h, pixels, h as nat).len(),
    ensures
        bitmap_file(w, h, pixels)[HEADER_LENGTH + i] == body(w, h, pixels, h as nat)[i],
{
    header_length(w, h);
}

/// The number in the four bytes from `at` on, the lowest first.
pub open spec fn number_at(bytes: Seq<u8>, at: int) -> int {
    bytes[at] + 256 * bytes[at + 1] + 65536 * bytes[at + 2] + 16777216 * bytes[at + 3]
}

/// Four bytes hold the number they were made of.
proof fn le32_reads_back(x: int)
    requires
        0 <= x <= u32::MAX,
    ensures
        number_at(le32(x), 0) == x,
{
    let b0 = x % 256;
    let b1 = x / 256 % 256;
    let b2 = x / 65536 % 256;
    let b3 = x / 16777216 % 256;
    assert(x / 65536 == x / 256 / 256);
    assert(x / 16777216 == x / 256 / 256 / 256);
    assert(x / 16777216 < 256);
    assert(b0 + 256 * b1 + 65536 * b2 + 16777216 * b3 == x);
}

/// The length of the lowest rows.
proof fn body_length(w: int, h: int, pixels: Seq<Pixel>, n: nat)
    requires
        0 <= w,
        n <= h,
        w * h <= pixels.len(),
    ensures
        body(w, h, pixels, n).len() == row_length(w) * n,
{
    if n > 0 {
        row_places(w, h, pixels, n, h - 1);
    }
}

/// The header of a bitmap file says what follows: the mark of a bitmap, the length of the whole
/// file, where the pixels begin, the width and the height, and one plane of 24 bits for each pixel;
/// everything else in it is zero. This holds of empty images too.
pub proof fn header_says_what_follows(w: int, h: int, pixels: Seq<Pixel>)
    requires
        0 <= w <= u32::MAX,
        0 <= h <= u32::MAX,
        w * h <= pixels.len(),
        bitmap_file(w, h, pixels).len() <= u32::MAX,
    ensures
        ({
            let file = bitmap_file(w, h, pixels);
            &&& file.len() >= 54
            &&& file[0] == 0x42 && file[1] == 0x4D
            &&& number_at(file, 2) == file.len()
            &&& number_at(file, 6) == 0
            &&& number_at(file, 10) == 54
            &&& number_at(file, 14) == 40
            &&& number_at(file, 18) == w
            &&& number_at(file, 22) == h
            &&& file[26] == 1 && file[27] == 0
            &&& file[28] == 24 && file[29] == 0
            &&& forall|i: int| 30 <= i < 54 ==> #[trigger] file[i] == 0
        }),
{
    let file = bitmap_file(w, h, pixels);
    let head = header(w, h);
    body_length(w, h, pixels, h as nat);
    assert(head.len() == 54);
    assert(file.len() == file_length(w, h));
    assert(0 <= row_length(w) * h) by (nonlinear_arith)
        requires
            0 <= row_length(w),
            0 <= h,
    ;
    le32_reads_back(file_length(w, h));
    le32_reads_back(HEADER_LENGTH as int);
    le32_reads_back(40);
    le32_reads_back(w);
    le32_reads_back(h);
    assert(file.subrange(2, 6) =~= le32(file_length(w, h)));
    assert(file.subrange(10, 14) =~= le32(HEADER_LENGTH as int));
    assert(file.subrange(14, 18) =~= le32(40));
    assert(file.subrange(18, 22) =~= le32(w));
    assert(file.subrange(22, 26) =~= le32(h));
    number_in_part(file, 2, le32(file_length(w, h)));
    number_in_part(file, 10, le32(HEADER_LENGTH as int));
    number_in_part(file, 14, le32(40));
    number_in_part(file, 18, le32(w));
    number_in_part(file, 22, le32(h));
}

/// A number in a part of the bytes is that number in all of them.
proof fn number_in_part(bytes: Seq<u8>, at: int, part: Seq<u8>)
    requires
        0 <= at,
        at + 4 <= bytes.len(),
        part.len() == 4,
        bytes.subrange(at, at + 4) == part,
    ensures
        number_at(bytes, at) == number_at(part, 0),
{
    assert(bytes[at] == part[0]);
    assert(bytes[at + 1] == part[1]);
    assert(bytes[at + 2] == part[2]);
    assert(bytes[at + 3] == part[3]);
}

/// The bytes that fill up a row are zero, and rows lie one behind another from the end of the header
/// to the end of the file.
pub proof fn rows_are_filled_with_zeros(w: int, h: int, pixels: Seq<Pixel>, y: int, k: int)
    requires
        0 <= w,
        w * h <= pixels.len(),
        0 <= y < h,
        3 * w <= k < row_length(w),
    ensures
        3 * w <= row_length(w) < 3 * w + 4,
        bitmap_file(w, h, pixels).len() == 54 + row_length(w) * h,
        54 + row_length(w) * (h - 1 - y) + k < bitmap_file(w, h, pixels).len(),
        bitmap_file(w, h, pixels)[54 + row_length(w) * (h - 1 - y) + k] == 0,
{
    let len = row_length(w);
    let at = len * (h - 1 - y);
    row_places(w, h, pixels, h as nat, y);
    assert(0 <= at) by (nonlinear_arith)
        requires
            0 <= len,
            0 <= h - 1 - y,
            at == len * (h - 1 - y),
    ;
    assert(0 <= y * w && y * w + w <= w * h) by (nonlinear_arith)
        requires
            0 <= y,
            y + 1 <= h,
            0 <= w,
    ;
    pixel_places(pixels.subrange(y * w, y * w + w));
    let rows = body(w, h, pixels, h as nat);
    let bytes = row_bytes(w, pixels, y);
    assert(rows.subrange(at, at + len) == bytes);
    assert(rows[at + k] == bytes[k]);
    assert(header(w, h).len() == 54);
}

/// An image can be encoded exactly where no pixel is missing and its rows of three bytes for each
/// pixel, each filled up to a multiple of four, fit the file length behind the header.
pub proof fn encodable_images_fit(w: int, h: int, count: int, len: int)
    requires
        0 <= w,
        0 <= h,
        len % 4 == 0,
        3 * w <= len < 3 * w + 4,
    ensures
        encodable(w, h, count) <==> 3 * w + 3 <= 0xffff_ffff && 54 + len * h <= 0xffff_ffff && w * h
            <= count,
{
    assert(row_length(w) == len);
}

} // verus!
