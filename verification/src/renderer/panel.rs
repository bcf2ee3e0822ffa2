//! The framebuffer of the LED panel and the packet that carries a frame to it.
//!
//! Each cell holds one of the four panel colours. A frame travels as the
//! three header bytes `:00` followed by two bits per cell, cells in storage
//! order, packed eight bits to a byte with the first bit as the most
//! significant one; a last group of fewer than eight bits forms a byte of
//! its own, right-aligned.

use vstd::prelude::*;

use super::{Color, ColorTypes, spec_flatten};
use super::frame::{Frame, lemma_index_in_grid};

verus! {

/// The colour the panel shows for what a caller paints. The panel has no
/// true colour: a raw pixel is painted red.
pub open spec fn spec_panel_color(p: ColorTypes) -> Color {
    match p {
        ColorTypes::Color(c) => c,
        ColorTypes::Pixel(_) => Color::Red,
    }
}

/// The two bits that encode a colour on the wire: (first bit, second bit).
pub open spec fn color_bits(c: Color) -> (bool, bool) {
    match c {
        Color::Blank => (false, false),
        Color::Red => (true, false),
        Color::Orange => (true, true),
        Color::Green => (false, true),
    }
}

/// The bit stream of a frame: two bits per cell, in storage order.
pub open spec fn spec_frame_bits(cells: Seq<Color>) -> Seq<bool> {
    Seq::new(
        2 * cells.len(),
        |k: int|
            if k % 2 == 0 {
                color_bits(cells[k / 2]).0
            } else {
                color_bits(cells[k / 2]).1
            },
    )
}

/// The number that a group of bits spells, first bit most significant.
pub open spec fn bits_value(bits: Seq<bool>) -> nat
    decreases bits.len(),
{
    if bits.len() == 0 {
        0
    } else {
        2 * bits_value(bits.drop_last()) + if bits.last() { 1nat } else { 0nat }
    }
}

/// The number of bytes that `n` bits fill.
pub open spec fn byte_count(n: nat) -> nat {
    (n + 7) / 8
}

/// The `j`-th group of (at most) eight bits.
pub open spec fn bit_group(bits: Seq<bool>, j: int) -> Seq<bool> {
    bits.subrange(8 * j, if 8 * j + 8 <= bits.len() { 8 * j + 8 } else { bits.len() as int })
}

/// A bit stream packed into bytes.
pub open spec fn spec_pack(bits: Seq<bool>) -> Seq<u8> {
    Seq::new(byte_count(bits.len()), |j: int| bits_value(bit_group(bits, j)) as u8)
}

/// The header that opens every frame packet (`:00`).
pub open spec fn packet_header() -> Seq<u8> {
    seq![0x3au8, 0x30u8, 0x30u8]
}

/// The packet that carries a frame to the panel.
pub open spec fn spec_packet(cells: Seq<Color>) -> Seq<u8> {
    packet_header() + spec_pack(spec_frame_bits(cells))
}

/// 2 to the power `n`.
pub open spec fn pow_two(n: nat) -> nat
    decreases n,
{
    if n == 0 {
        1
    } else {
        2 * pow_two((n - 1) as nat)
    }
}

proof fn lemma_pow_two_monotonic(a: nat, b: nat)
    requires
        a <= b,
    ensures
        pow_two(a) <= pow_two(b),
    decreases b,
{
    if a < b {
        lemma_pow_two_monotonic(a, (b - 1) as nat);
    }
}

proof fn lemma_bits_value_bound(bits: Seq<bool>)
    ensures
        bits_value(bits) < pow_two(bits.len()),
    decreases bits.len(),
{
    if bits.len() > 0 {
        lemma_bits_value_bound(bits.drop_last());
    }
}

/// A group of at most eight bits spells a number that fits in a byte.
proof fn lemma_group_fits_byte(bits: Seq<bool>)
    requires
        bits.len() <= 8,
    ensures
        bits_value(bits) < 256,
{
    lemma_bits_value_bound(bits);
    lemma_pow_two_monotonic(bits.len(), 8);
    reveal_with_fuel(pow_two, 9);
}

/// Two groups of bits of the same length that spell the same number are equal.
proof fn lemma_bits_value_injective(a: Seq<bool>, b: Seq<bool>)
    requires
        a.len() == b.len(),
        bits_value(a) == bits_value(b),
    ensures
        a == b,
    decreases a.len(),
{
    if a.len() > 0 {
        lemma_bits_value_injective(a.drop_last(), b.drop_last());
        assert(a.last() == b.last());
        assert(a =~= a.drop_last().push(a.last()));
        assert(b =~= b.drop_last().push(b.last()));
    }
}

/// The packet determines the frame: two frames of the same size that travel
/// as the same packet are equal.
pub proof fn lemma_packet_determines_frame(a: Seq<Color>, b: Seq<Color>)
    requires
        a.len() == b.len(),
        spec_packet(a) == spec_packet(b),
    ensures
        a == b,
{
    let ba = spec_frame_bits(a);
    let bb = spec_frame_bits(b);
    let pa = spec_pack(ba);
    let pb = spec_pack(bb);
    assert(pa =~= spec_packet(a).subrange(3, spec_packet(a).len() as int));
    assert(pb =~= spec_packet(b).subrange(3, spec_packet(b).len() as int));
    assert forall|k: int| 0 <= k < ba.len() implies ba[k] == bb[k] by {
        let j = k / 8;
        let ga = bit_group(ba, j);
        let gb = bit_group(bb, j);
        assert(0 <= j < byte_count(ba.len()));
        lemma_group_fits_byte(ga);
        lemma_group_fits_byte(gb);
        assert(pa[j] == pb[j]);
        lemma_bits_value_injective(ga, gb);
        assert(ga[k - 8 * j] == ba[k]);
        assert(gb[k - 8 * j] == bb[k]);
    }
    assert forall|i: int| 0 <= i < a.len() implies a[i] == b[i] by {
        assert(ba[2 * i] == bb[2 * i]);
        assert(ba[2 * i + 1] == bb[2 * i + 1]);
        assert((2 * i) / 2 == i);
        assert((2 * i + 1) / 2 == i);
    }
    assert(a =~= b);
}


/// A frame of `n` cells travels in `3 + ceil(n / 4)` bytes.
pub proof fn lemma_packet_length(cells: Seq<Color>)
    ensures
        spec_packet(cells).len() == 3 + (cells.len() + 3) / 4,
{
    assert(byte_count(2 * cells.len()) == (cells.len() + 3) / 4);
}

proof fn lemma_zero_bits_value(bits: Seq<bool>)
    requires
        forall|k: int| 0 <= k < bits.len() ==> !#[trigger] bits[k],
    ensures
        bits_value(bits) == 0,
    decreases bits.len(),
{
    if bits.len() > 0 {
        lemma_zero_bits_value(bits.drop_last());
    }
}

/// An all-blank frame travels as the header followed by zero bytes.
pub proof fn lemma_blank_packet(n: nat)
    ensures
        spec_packet(Seq::new(n, |i: int| Color::Blank)) == packet_header() + Seq::new(byte_count(2 * n), |j: int| 0u8),
{
    let cells = Seq::new(n, |i: int| Color::Blank);
    let bits = spec_frame_bits(cells);
    assert forall|j: int| 0 <= j < byte_count(bits.len()) implies #[trigger] spec_pack(bits)[j] == 0u8 by {
        lemma_zero_bits_value(bit_group(bits, j));
    }
    assert(spec_pack(bits) =~= Seq::new(byte_count(2 * n), |j: int| 0u8));
}

/// The framebuffer of the LED panel: `size.1` rows of `size.0` cells. Its
/// view is well formed (`wf`) for every framebuffer that `new` made and the
/// methods below changed.
pub struct Renderer {
    framebuffer: Vec<Color>,
    size: (usize, usize),
}

impl View for Renderer {
    type V = Frame<Color>;

    closed spec fn view(&self) -> Frame<Color> {
        Frame { width: self.size.0 as nat, height: self.size.1 as nat, cells: self.framebuffer@ }
    }
}

impl Renderer {
    /// An all-blank framebuffer of `width` columns and `height` rows.
    pub fn new(width: usize, height: usize) -> (r: Renderer)
        requires
            width * height <= usize::MAX,
        ensures
            r@.wf(),
            r@.width == width,
            r@.height == height,
            r@.cells == Seq::new((width * height) as nat, |i: int| Color::Blank),
    {
        let n = width * height;
        let mut framebuffer: Vec<Color> = Vec::with_capacity(n);
        let mut i: usize = 0;
        while i < n
            invariant
                i <= n,
                framebuffer@ == Seq::new(i as nat, |k: int| Color::Blank),
            decreases n - i,
        {
            framebuffer.push(Color::Blank);
            i = i + 1;
            assert(framebuffer@ =~= Seq::new(i as nat, |k: int| Color::Blank));
        }
        Renderer { framebuffer, size: (width, height) }
    }

    /// The size of the framebuffer as (columns, rows).
    pub fn size(&self) -> (s: (usize, usize))
        ensures
            s.0 == self@.width,
            s.1 == self@.height,
    {
        self.size
    }

    /// The cells of the framebuffer, row after row.
    pub fn framebuffer(&self) -> (cells: &Vec<Color>)
        ensures
            cells@ == self@.cells,
    {
        &self.framebuffer
    }

    /// Paints the cell in row `x`, column `y` (both counted from 1); does
    /// nothing where (x, y) lies outside the panel.
    pub fn update_framebuffer(&mut self, x: usize, y: usize, pixel: ColorTypes)
        requires
            old(self)@.wf(),
        ensures
            final(self)@ == old(self)@.set(x as int, y as int, spec_panel_color(pixel)),
            final(self)@.wf(),
    {
        let p = match pixel {
            ColorTypes::Color(c) => c,
            ColorTypes::Pixel(_) => Color::Red,
        };
        let width = self.size.0;
        let height = self.size.1;
        let len = self.framebuffer.len();
        if x <= height && y <= width && y > 0 && x > 0 {
            proof {
                lemma_index_in_grid(self@, x as int, y as int);
                assert((x - 1) * width + (y - 1) < len);
            }
            let idx = (x - 1) * width + (y - 1);
            self.framebuffer.set(idx, p);
        }
    }

    /// The packet that carries the current frame to the panel: the header
    /// `:00`, then the cells two bits each, packed eight bits to a byte.
    pub fn frame_packet(&self) -> (packet: Vec<u8>)
        requires
            2 * self@.cells.len() <= usize::MAX,
        ensures
            packet@ == spec_packet(self@.cells),
    {
        let cells = &self.framebuffer;
        let n = cells.len();
        let mut bits: Vec<bool> = Vec::new();
        let mut i: usize = 0;
        while i < n
            invariant
                i <= n,
                n == cells@.len(),
                2 * n <= usize::MAX,
                bits@ == spec_frame_bits(cells@.take(i as int)),
            decreases n - i,
        {
            let (hi, lo) = match cells[i] {
                Color::Blank => (false, false),
                Color::Red => (true, false),
                Color::Orange => (true, true),
                Color::Green => (false, true),
            };
            bits.push(hi);
            bits.push(lo);
            proof {
                let cur = cells@.take(i as int);
                let next = cells@.take(i + 1);
                assert forall|k: int| 0 <= k < 2 * i implies #[trigger] spec_frame_bits(next)[k] == spec_frame_bits(cur)[k] by {
                    assert(next[k / 2] == cur[k / 2]);
                }
                assert(bits@ =~= spec_frame_bits(next));
            }
            i = i + 1;
        }
        assert(cells@.take(n as int) =~= cells@);
        let ghost stream = bits@;
        let total = bits.len();
        let nbytes = total / 8 + if total % 8 == 0 { 0 } else { 1 };
        assert(nbytes == byte_count(total as nat));
        let mut packet: Vec<u8> = vec![0x3a, 0x30, 0x30];
        assert(packet@ =~= packet_header());
        let mut j: usize = 0;
        while j < nbytes
            invariant
                j <= nbytes,
                nbytes == byte_count(total as nat),
                total == stream.len(),
                bits@ == stream,
                packet@ == packet_header() + spec_pack(stream).take(j as int),
            decreases nbytes - j,
        {
            let start = 8 * j;
            let end = if total - start >= 8 { start + 8 } else { total };
            assert(bit_group(stream, j as int) == stream.subrange(start as int, end as int));
            let mut v: u8 = 0;
            let mut k: usize = start;
            while k < end
                invariant
                    start <= k <= end,
                    end <= total,
                    end - start <= 8,
                    total == stream.len(),
                    bits@ == stream,
                    v == bits_value(stream.subrange(start as int, k as int)),
                decreases end - k,
            {
                proof {
                    let before = stream.subrange(start as int, k as int);
                    lemma_bits_value_bound(before);
                    lemma_pow_two_monotonic(before.len(), 7);
                    reveal_with_fuel(pow_two, 8);
                    assert(v < 128);
                }
                let bit: u8 = if bits[k] { 1 } else { 0 };
                assert(v < 128 ==> (v << 1u8) == 2 * v) by (bit_vector);
                v = (v << 1u8) + bit;
                proof {
                    let after = stream.subrange(start as int, k + 1);
                    assert(after.drop_last() =~= stream.subrange(start as int, k as int));
                }
                k = k + 1;
            }
            proof {
                lemma_group_fits_byte(bit_group(stream, j as int));
            }
            packet.push(v);
            proof {
                assert(spec_pack(stream).take(j + 1) =~= spec_pack(stream).take(j as int).push(v));
                assert(packet@ =~= packet_header() + spec_pack(stream).take(j + 1));
            }
            j = j + 1;
        }
        assert(spec_pack(stream).take(nbytes as int) =~= spec_pack(stream));
        packet
    }

    /// Paints every cell blank.
    pub fn clear_framebuffer(&mut self)
        requires
            old(self)@.wf(),
        ensures
            final(self)@ == old(self)@.filled(Color::Blank),
            final(self)@.wf(),
    {
        let n = self.framebuffer.len();
        let mut i: usize = 0;
        while i < n
            invariant
                i <= n,
                n == old(self).framebuffer@.len(),
                self.size == old(self).size,
                self.framebuffer@.len() == n,
                forall|k: int| 0 <= k < i ==> self.framebuffer@[k] == Color::Blank,
            decreases n - i,
        {
            self.framebuffer.set(i, Color::Blank);
            i = i + 1;
        }
        assert(self@.cells =~= old(self)@.filled(Color::Blank).cells);
    }
}

/// The items of a grid of arrays in one vector, row after row and, within a
/// row, array after array.
pub fn flatten<T, const N: usize>(v: Vec<Vec<[T; N]>>) -> (flat: Vec<T>)
    ensures
        flat@ == spec_flatten(v@),
{
    super::ffmpeg::flatten(v)
}

} // verus!
