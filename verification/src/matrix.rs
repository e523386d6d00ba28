use vstd::prelude::*;
use crate::error::Error;

verus! {

// ---------------------------------------------------------------------------
// Color encoding
// ---------------------------------------------------------------------------

/// Packed 16-bit pixel value for an 8-bit-per-channel color: the top 5 bits
/// of red in the most significant bits, the top 6 bits of green in the
/// middle, and the top 5 bits of blue in the least significant bits.
pub open spec fn rgb565_spec(r: u8, g: u8, b: u8) -> u16 {
    (((r >> 3) as u16) << 11) | (((g >> 2) as u16) << 5) | ((b >> 3) as u16)
}

/// The 5-bit red field of a packed pixel.
pub open spec fn red_field(p: u16) -> u8 {
    (p >> 11) as u8
}

/// The 6-bit green field of a packed pixel.
pub open spec fn green_field(p: u16) -> u8 {
    ((p >> 5) & 0x3f) as u8
}

/// The 5-bit blue field of a packed pixel.
pub open spec fn blue_field(p: u16) -> u8 {
    (p & 0x1f) as u8
}

/// Encodes a true-color triple into the device's native 16-bit format.
/// The transform is lossy and deterministic: only the top bits of each
/// channel survive.
pub fn rgb565(rgb: [u8; 3]) -> (p: u16)
    ensures
        p == rgb565_spec(rgb[0], rgb[1], rgb[2]),
{
    (((rgb[0] >> 3) as u16) << 11) | (((rgb[1] >> 2) as u16) << 5) | ((rgb[2] >> 3) as u16)
}

/// Decoding the three fields of a packed pixel recovers exactly the top bits
/// that the encoder took, and re-expanding each field to 8 bits lands within
/// one quantization step (8 for the 5-bit fields, 4 for the 6-bit field) of
/// the original channel.
pub proof fn lemma_rgb565_roundtrip(r: u8, g: u8, b: u8)
    ensures
        red_field(rgb565_spec(r, g, b)) == r >> 3,
        green_field(rgb565_spec(r, g, b)) == g >> 2,
        blue_field(rgb565_spec(r, g, b)) == b >> 3,
        ((r >> 3) << 3) <= r < ((r >> 3) << 3) + 8,
        ((g >> 2) << 2) <= g < ((g >> 2) << 2) + 4,
        ((b >> 3) << 3) <= b < ((b >> 3) << 3) + 8,
{
    assert(((((r >> 3) as u16) << 11) | (((g >> 2) as u16) << 5) | ((b >> 3) as u16)) >> 11
        == (r >> 3) as u16) by (bit_vector);
    assert((((((r >> 3) as u16) << 11) | (((g >> 2) as u16) << 5) | ((b >> 3) as u16)) >> 5)
        & 0x3f == (g >> 2) as u16) by (bit_vector);
    assert(((((r >> 3) as u16) << 11) | (((g >> 2) as u16) << 5) | ((b >> 3) as u16)) & 0x1f
        == (b >> 3) as u16) by (bit_vector);
    assert(((r >> 3) << 3) <= r < ((r >> 3) << 3) + 8) by (bit_vector);
    assert(((g >> 2) << 2) <= g < ((g >> 2) << 2) + 4) by (bit_vector);
    assert(((b >> 3) << 3) <= b < ((b >> 3) << 3) + 8) by (bit_vector);
}

/// Black encodes to the all-zero pixel.
pub proof fn lemma_black_is_zero()
    ensures
        rgb565_spec(0, 0, 0) == 0,
{
    assert((((0u8 >> 3) as u16) << 11) | (((0u8 >> 2) as u16) << 5) | ((0u8 >> 3) as u16)
        == 0u16) by (bit_vector);
}

// ---------------------------------------------------------------------------
// Cell addressing
// ---------------------------------------------------------------------------

/// Byte offset of the cell at (row, col): row-major, 2 bytes per cell,
/// no padding and no stride gap.
pub open spec fn offset_spec(row: int, col: int) -> int {
    (row * 8 + col) * 2
}

/// Computes the byte offset of a cell inside the 128-byte device image.
pub fn offset(row: u8, col: u8) -> (o: usize)
    requires
        row < 8,
        col < 8,
    ensures
        o == offset_spec(row as int, col as int),
        o + 2 <= 128,
        o % 2 == 0,
{
    (row as usize * 8 + col as usize) * 2
}

/// The addressing scheme is injective: distinct in-range cells never share
/// a byte offset.
pub proof fn lemma_offset_injective(row1: int, col1: int, row2: int, col2: int)
    requires
        0 <= row1 < 8,
        0 <= col1 < 8,
        0 <= row2 < 8,
        0 <= col2 < 8,
        offset_spec(row1, col1) == offset_spec(row2, col2),
    ensures
        row1 == row2,
        col1 == col2,
{
}

/// Distinct in-range cells occupy disjoint 2-byte ranges.
pub proof fn lemma_offset_separated(row1: int, col1: int, row2: int, col2: int)
    requires
        0 <= row1 < 8,
        0 <= col1 < 8,
        0 <= row2 < 8,
        0 <= col2 < 8,
        !(row1 == row2 && col1 == col2),
    ensures
        offset_spec(row1, col1) + 2 <= offset_spec(row2, col2)
            || offset_spec(row2, col2) + 2 <= offset_spec(row1, col1),
{
}

/// The 64 cells cover the 128-byte range exactly: every even offset in
/// [0, 128) is the offset of some in-range cell, so there are no gaps.
pub proof fn lemma_offset_covers(k: int)
    requires
        0 <= k < 128,
        k % 2 == 0,
    ensures
        exists|row: int, col: int|
            0 <= row < 8 && 0 <= col < 8 && offset_spec(row, col) == k,
{
    let half = k / 2;
    let row = half / 8;
    let col = half % 8;
    assert(k == half * 2);
    assert(half == row * 8 + col) by (nonlinear_arith)
        requires
            half == k / 2,
            row == half / 8,
            col == half % 8,
            0 <= k < 128,
    ;
    assert(0 <= row < 8 && 0 <= col < 8) by (nonlinear_arith)
        requires
            half == k / 2,
            row == half / 8,
            col == half % 8,
            0 <= k < 128,
    ;
    assert(offset_spec(row, col) == k);
}

// ---------------------------------------------------------------------------
// Pixel byte layout
// ---------------------------------------------------------------------------

/// The byte stored first for a packed pixel (the low byte).
pub open spec fn pixel_lo(p: u16) -> u8 {
    p as u8
}

/// The byte stored second for a packed pixel (the high byte).
pub open spec fn pixel_hi(p: u16) -> u8 {
    (p >> 8) as u8
}

/// Splits a packed pixel into the two bytes the device stores, low byte
/// first.
pub fn pixel_bytes(p: u16) -> (bytes: [u8; 2])
    ensures
        bytes[0] == pixel_lo(p),
        bytes[1] == pixel_hi(p),
{
    [p as u8, (p >> 8) as u8]
}

/// Reassembling the two stored bytes recovers the packed pixel exactly.
pub proof fn lemma_pixel_bytes_roundtrip(p: u16)
    ensures
        (pixel_lo(p) as u16) | ((pixel_hi(p) as u16) << 8) == p,
{
    assert(((p as u8) as u16) | ((((p >> 8) as u8) as u16) << 8) == p) by (bit_vector);
}

// ---------------------------------------------------------------------------
// Device image
// ---------------------------------------------------------------------------

/// The 128-byte image that a fully cleared device holds.
pub open spec fn cleared() -> Seq<u8> {
    Seq::new(128, |i: int| 0u8)
}

/// What one pixel write leaves on the device: the two bytes of the cell are
/// replaced by the encoded color, every other byte is untouched.
pub open spec fn write_pixel_spec(s: Seq<u8>, rgb: [u8; 3], row: int, col: int) -> Seq<u8> {
    s.update(offset_spec(row, col), pixel_lo(rgb565_spec(rgb[0], rgb[1], rgb[2])))
        .update(offset_spec(row, col) + 1, pixel_hi(rgb565_spec(rgb[0], rgb[1], rgb[2])))
}

/// What clearing leaves on the device, whatever it held before.
pub open spec fn clear_spec(s: Seq<u8>) -> Seq<u8> {
    cleared()
}

/// Clearing is idempotent: clearing an already cleared device changes
/// nothing, so two clears end in the same 128-byte image as one.
pub proof fn lemma_clear_idempotent(s: Seq<u8>)
    ensures
        clear_spec(clear_spec(s)) == clear_spec(s),
{
}

/// The packed value stored at cell (row, col) of a device image, low byte
/// first.
pub open spec fn cell_value(s: Seq<u8>, row: int, col: int) -> u16 {
    (s[offset_spec(row, col)] as u16) | ((s[offset_spec(row, col) + 1] as u16) << 8)
}

/// Every cell of a cleared device reads back as the encoding of black.
pub proof fn lemma_cleared_cell_is_black(row: int, col: int)
    requires
        0 <= row < 8,
        0 <= col < 8,
    ensures
        cell_value(cleared(), row, col) == rgb565_spec(0, 0, 0),
{
    lemma_black_is_zero();
    assert((0u8 as u16) | ((0u8 as u16) << 8) == 0u16) by (bit_vector);
}

// ---------------------------------------------------------------------------
// Gradient demo pattern
// ---------------------------------------------------------------------------

/// The demo gradient: red fades down the rows, blue rises across the
/// columns, green is held at half intensity. The step is 255 / 8 = 31.
pub open spec fn gradient_rgb_spec(row: int, col: int) -> [u8; 3] {
    [(255 - 31 * row) as u8, 127u8, (31 * col) as u8]
}

/// The packed pixel the demo gradient stores at cell (row, col).
pub open spec fn gradient_cell_spec(row: int, col: int) -> u16 {
    rgb565_spec((255 - 31 * row) as u8, 127u8, (31 * col) as u8)
}

/// The color of the demo gradient at cell (row, col).
pub fn gradient_color(row: u8, col: u8) -> (rgb: [u8; 3])
    requires
        row < 8,
        col < 8,
    ensures
        rgb == gradient_rgb_spec(row as int, col as int),
{
    let step: u8 = 0xff / 8;
    [0xff - step * row, 0x7f, step * col]
}

/// In-memory image of the 64-cell device: 128 contiguous bytes, 2 bytes per
/// cell in row-major order. It mirrors, byte for byte, what the sequence of
/// positioned writes leaves on the real device, and doubles as a test
/// device.
pub struct DeviceImage {
    bytes: Vec<u8>,
}

impl View for DeviceImage {
    type V = Seq<u8>;

    closed spec fn view(&self) -> Seq<u8> {
        self.bytes@
    }
}

impl DeviceImage {
    /// A device image is always exactly 128 bytes.
    pub open spec fn wf(&self) -> bool {
        self@.len() == 128
    }

    /// A fresh, fully black image.
    pub fn new() -> (img: DeviceImage)
        ensures
            img.wf(),
            img@ == cleared(),
    {
        let mut bytes: Vec<u8> = Vec::new();
        let mut i: usize = 0;
        while i < 128
            invariant
                i <= 128,
                bytes@.len() == i,
                forall|k: int| 0 <= k < i ==> bytes@[k] == 0u8,
            decreases 128 - i,
        {
            bytes.push(0u8);
            i = i + 1;
        }
        proof {
            assert(bytes@ =~= cleared());
        }
        DeviceImage { bytes }
    }

    /// An image with the given initial contents.
    pub fn from_bytes(bytes: Vec<u8>) -> (img: DeviceImage)
        requires
            bytes@.len() == 128,
        ensures
            img.wf(),
            img@ == bytes@,
    {
        DeviceImage { bytes }
    }

    /// A copy of the image's 128 bytes.
    pub fn contents(&self) -> (v: Vec<u8>)
        requires
            self.wf(),
        ensures
            v@ == self@,
    {
        let mut v: Vec<u8> = Vec::new();
        let mut i: usize = 0;
        while i < 128
            invariant
                self.wf(),
                i <= 128,
                v@ =~= self@.subrange(0, i as int),
            decreases 128 - i,
        {
            v.push(self.bytes[i]);
            i = i + 1;
        }
        proof {
            assert(v@ =~= self@);
        }
        v
    }

    /// Sets the cell at (row, col) to the encoding of `rgb`: the cell's two
    /// bytes change, nothing else does.
    pub fn set_pixel(&mut self, rgb: [u8; 3], row: u8, col: u8)
        requires
            old(self).wf(),
            row < 8,
            col < 8,
        ensures
            final(self).wf(),
            final(self)@ == write_pixel_spec(old(self)@, rgb, row as int, col as int),
    {
        let p = rgb565(rgb);
        let bytes = pixel_bytes(p);
        let o = offset(row, col);
        self.bytes[o] = bytes[0];
        self.bytes[o + 1] = bytes[1];
    }

    /// Hardened pixel write: coordinates are validated first. In-range
    /// coordinates behave as `set_pixel`; out-of-range coordinates leave the
    /// image untouched and fail with an out-of-range error instead of
    /// addressing a byte outside the device.
    pub fn try_set_pixel(&mut self, rgb: [u8; 3], row: u8, col: u8) -> (r: Result<(), Error>)
        requires
            old(self).wf(),
        ensures
            final(self).wf(),
            row < 8 && col < 8 ==> r is Ok
                && final(self)@ == write_pixel_spec(old(self)@, rgb, row as int, col as int),
            !(row < 8 && col < 8) ==> final(self)@ == old(self)@
                && (r matches Err(e) && e.message@ == "pixel coordinate out of range"@),
    {
        if row < 8 && col < 8 {
            self.set_pixel(rgb, row, col);
            Ok(())
        } else {
            Err(Error { message: String::from_str("pixel coordinate out of range") })
        }
    }

    /// The packed pixel currently stored at (row, col).
    pub fn read_pixel(&self, row: u8, col: u8) -> (p: u16)
        requires
            self.wf(),
            row < 8,
            col < 8,
        ensures
            p == cell_value(self@, row as int, col as int),
    {
        let o = offset(row, col);
        let lo = self.bytes[o];
        let hi = self.bytes[o + 1];
        (lo as u16) | ((hi as u16) << 8)
    }

    /// Sets every cell to black, row by row, column by column. Whatever the
    /// image held before, afterwards it is the fully cleared image.
    pub fn clear(&mut self)
        requires
            old(self).wf(),
        ensures
            final(self).wf(),
            final(self)@ == clear_spec(old(self)@),
    {
        proof {
            lemma_black_is_zero();
        }
        let mut row: u8 = 0;
        while row < 8
            invariant
                self.wf(),
                row <= 8,
                forall|k: int| 0 <= k < 16 * (row as int) ==> self@[k] == 0u8,
            decreases 8 - row,
        {
            let mut col: u8 = 0;
            while col < 8
                invariant
                    self.wf(),
                    row < 8,
                    col <= 8,
                    forall|k: int|
                        0 <= k < 16 * (row as int) + 2 * (col as int) ==> self@[k] == 0u8,
                decreases 8 - col,
            {
                proof {
                    lemma_black_is_zero();
                    assert(0u16 >> 8 == 0u16) by (bit_vector);
                }
                self.set_pixel([0, 0, 0], row, col);
                col = col + 1;
            }
            row = row + 1;
        }
        proof {
            assert(self@ =~= cleared());
        }
    }

    /// Draws the demo gradient cell by cell: afterwards every cell holds the
    /// encoding of its gradient color.
    pub fn render_gradient(&mut self)
        requires
            old(self).wf(),
        ensures
            final(self).wf(),
            forall|r: int, c: int|
                0 <= r < 8 && 0 <= c < 8 ==> #[trigger] cell_value(final(self)@, r, c)
                    == gradient_cell_spec(r, c),
    {
        let mut row: u8 = 0;
        while row < 8
            invariant
                self.wf(),
                row <= 8,
                forall|r: int, c: int|
                    0 <= r < row as int && 0 <= c < 8 ==> #[trigger] cell_value(self@, r, c)
                        == gradient_cell_spec(r, c),
            decreases 8 - row,
        {
            let mut col: u8 = 0;
            while col < 8
                invariant
                    self.wf(),
                    row < 8,
                    col <= 8,
                    forall|r: int, c: int|
                        0 <= r < row as int && 0 <= c < 8 ==> #[trigger] cell_value(self@, r, c)
                            == gradient_cell_spec(r, c),
                    forall|c: int|
                        0 <= c < col as int ==> #[trigger] cell_value(self@, row as int, c)
                            == gradient_cell_spec(row as int, c),
                decreases 8 - col,
            {
                let rgb = gradient_color(row, col);
                let ghost prev = self@;
                self.set_pixel(rgb, row, col);
                proof {
                    let p = rgb565_spec(rgb[0], rgb[1], rgb[2]);
                    lemma_pixel_bytes_roundtrip(p);
                    assert(cell_value(self@, row as int, col as int) == p);
                    assert forall|r: int, c: int|
                        0 <= r < row as int && 0 <= c < 8
                            implies #[trigger] cell_value(self@, r, c) == gradient_cell_spec(r, c) by {
                        lemma_offset_separated(r, c, row as int, col as int);
                        assert(cell_value(prev, r, c) == gradient_cell_spec(r, c));
                    }
                    assert forall|c: int|
                        0 <= c < col as int
                            implies #[trigger] cell_value(self@, row as int, c)
                                == gradient_cell_spec(row as int, c) by {
                        lemma_offset_separated(row as int, c, row as int, col as int);
                        assert(cell_value(prev, row as int, c) == gradient_cell_spec(row as int, c));
                    }
                }
                col = col + 1;
            }
            row = row + 1;
        }
    }
}

} // verus!
