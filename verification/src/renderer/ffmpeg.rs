//! The true-colour framebuffer shown by a video player that reads raw RGB
//! frames on its standard input, and the command line of that player.

use vstd::prelude::*;

use super::{Color, ColorTypes, Pixel, array_into_vec, flat_row, spec_flatten, spec_rgb};
use super::frame::{Frame, lemma_index_in_grid};
use super::panel::color_bits;

verus! {

/// The pixel a framebuffer cell takes for what a caller paints.
pub open spec fn spec_true_color(p: ColorTypes) -> Pixel {
    match p {
        ColorTypes::Color(c) => spec_rgb(c),
        ColorTypes::Pixel(px) => px,
    }
}

/// A named colour painted on the true-colour framebuffer takes the value
/// that `Color::to_pixel` gives it; a raw pixel is painted as it is.
pub proof fn lemma_true_color_painted(c: Color, p: Pixel)
    ensures
        spec_true_color(ColorTypes::Color(c)) == spec_rgb(c),
        spec_true_color(ColorTypes::Pixel(p)) == p,
{
}

/// The true colour of a panel colour lights the red channel exactly where
/// the panel's wire code sets its first bit, and the green channel exactly
/// where it sets its second; blue stays dark. Both renderers thus show the
/// same colour for each name.
pub proof fn lemma_true_color_matches_panel(c: Color)
    ensures
        (spec_true_color(ColorTypes::Color(c)).red > 0) == color_bits(c).0,
        (spec_true_color(ColorTypes::Color(c)).green > 0) == color_bits(c).1,
        spec_true_color(ColorTypes::Color(c)).blue == 0,
{
}

/// The black pixel that a cleared framebuffer holds.
pub open spec fn black() -> Pixel {
    Pixel { red: 0, green: 0, blue: 0 }
}

/// Channel `k` (0 red, 1 green, 2 blue) of a pixel.
pub open spec fn channel(p: Pixel, k: int) -> u8 {
    if k == 0 {
        p.red
    } else if k == 1 {
        p.green
    } else {
        p.blue
    }
}

/// A raw RGB frame: three bytes per cell, cells in storage order.
pub open spec fn spec_frame_bytes(cells: Seq<Pixel>) -> Seq<u8> {
    Seq::new(3 * cells.len(), |k: int| channel(cells[k / 3], k % 3))
}

/// The true-colour framebuffer: `size.1` rows of `size.0` pixels. Its view
/// is well formed (`wf`) for every framebuffer that `new` made and the
/// methods below changed.
pub struct Renderer {
    framebuffer: Vec<Pixel>,
    size: (usize, usize),
}

impl View for Renderer {
    type V = Frame<Pixel>;

    closed spec fn view(&self) -> Frame<Pixel> {
        Frame { width: self.size.0 as nat, height: self.size.1 as nat, cells: self.framebuffer@ }
    }
}

impl Renderer {
    /// An all-black framebuffer of `width` columns and `height` rows.
    pub fn new(width: usize, height: usize) -> (r: Renderer)
        requires
            width * height <= usize::MAX,
        ensures
            r@.wf(),
            r@.width == width,
            r@.height == height,
            r@.cells == Seq::new((width * height) as nat, |i: int| black()),
    {
        let n = width * height;
        let mut framebuffer: Vec<Pixel> = Vec::with_capacity(n);
        let mut i: usize = 0;
        while i < n
            invariant
                i <= n,
                framebuffer@ == Seq::new(i as nat, |k: int| black()),
            decreases n - i,
        {
            framebuffer.push(Pixel { red: 0, green: 0, blue: 0 });
            i = i + 1;
            assert(framebuffer@ =~= Seq::new(i as nat, |k: int| black()));
        }
        Renderer { framebuffer, size: (width, height) }
    }

    /// The size of the framebuffer as (columns, rows).
    pub fn size(&self) -> (s: (usize, usize))
        ensures
            s.0 == self@.width,
            s.1 == self@.height,
    {
        self.size
    }

    /// The pixels of the framebuffer, row after row.
    pub fn framebuffer(&self) -> (cells: &Vec<Pixel>)
        ensures
            cells@ == self@.cells,
    {
        &self.framebuffer
    }

    /// The raw RGB frame that the player is sent: red, green and blue byte
    /// of each pixel, pixels in storage order.
    pub fn frame_bytes(&self) -> (bytes: Vec<u8>)
        requires
            3 * self@.cells.len() <= usize::MAX,
        ensures
            bytes@ == spec_frame_bytes(self@.cells),
    {
        let cells = &self.framebuffer;
        let n = cells.len();
        let mut bytes: Vec<u8> = Vec::new();
        let mut i: usize = 0;
        while i < n
            invariant
                i <= n,
                n == cells@.len(),
                3 * n <= usize::MAX,
                bytes@ == spec_frame_bytes(cells@.take(i as int)),
            decreases n - i,
        {
            let rgb = cells[i].into_bytes();
            bytes.push(rgb[0]);
            bytes.push(rgb[1]);
            bytes.push(rgb[2]);
            proof {
                let cur = cells@.take(i as int);
                let next = cells@.take(i + 1);
                assert forall|k: int| 0 <= k < 3 * i implies #[trigger] spec_frame_bytes(next)[k] == spec_frame_bytes(cur)[k] by {
                    assert(next[k / 3] == cur[k / 3]);
                }
                assert(bytes@ =~= spec_frame_bytes(next));
            }
            i = i + 1;
        }
        assert(cells@.take(n as int) =~= cells@);
        bytes
    }

    /// Paints the pixel in row `x`, column `y` (both counted from 1); does
    /// nothing where (x, y) lies outside the framebuffer.
    pub fn update_framebuffer(&mut self, x: usize, y: usize, pixel: ColorTypes)
        requires
            old(self)@.wf(),
        ensures
            final(self)@ == old(self)@.set(x as int, y as int, spec_true_color(pixel)),
            final(self)@.wf(),
    {
        let p = match pixel {
            ColorTypes::Color(c) => c.to_pixel(),
            ColorTypes::Pixel(c) => c,
        };
        let width = self.size.0;
        let height = self.size.1;
        let len = self.framebuffer.len();
        if x <= height && y <= width && y > 0 && x > 0 {
            proof {
                lemma_index_in_grid(self@, x as int, y as int);
                assert((x - 1) * width + (y - 1) < len);
            }
            let idx = (x - 1) * width + (y - 1);
            self.framebuffer.set(idx, p);
        }
    }

    /// Paints every pixel black.
    pub fn clear_framebuffer(&mut self)
        requires
            old(self)@.wf(),
        ensures
            final(self)@ == old(self)@.filled(black()),
            final(self)@.wf(),
    {
        let n = self.framebuffer.len();
        let mut i: usize = 0;
        while i < n
            invariant
                i <= n,
                n == old(self).framebuffer@.len(),
                self.size == old(self).size,
                self.framebuffer@.len() == n,
                forall|k: int| 0 <= k < i ==> self.framebuffer@[k] == black(),
            decreases n - i,
        {
            self.framebuffer.set(i, Pixel { red: 0, green: 0, blue: 0 });
            i = i + 1;
        }
        assert(self@.cells =~= old(self)@.filled(black()).cells);
    }
}

/// The items of a grid of arrays in one vector, row after row and, within a
/// row, array after array.
pub fn flatten<T, const N: usize>(v: Vec<Vec<[T; N]>>) -> (flat: Vec<T>)
    ensures
        flat@ == spec_flatten(v@),
{
    let ghost rows = v@;
    let mut flat: Vec<T> = Vec::new();
    for row in it: v.into_iter()
        invariant
            it.seq() == rows,
            flat@ == spec_flatten(rows.take(it.index())),
    {
        let ghost done = flat@;
        let ghost row_items = row@;
        let mut part: Vec<T> = Vec::new();
        for arr in jt: row.into_iter()
            invariant
                jt.seq() == row_items,
                part@ == flat_row(row_items.take(jt.index())),
        {
            let mut items = array_into_vec(arr);
            proof {
                let before = row_items.take(jt.index());
                let after = row_items.take(jt.index() + 1);
                assert(after =~= before.push(arr));
                assert(after.map_values(|a: [T; N]| a@) =~= before.map_values(|a: [T; N]| a@).push(arr@));
                before.map_values(|a: [T; N]| a@).lemma_flatten_push(arr@);
            }
            part.append(&mut items);
        }
        proof {
            let before = rows.take(it.index());
            let after = rows.take(it.index() + 1);
            assert(row_items.take(row_items.len() as int) =~= row_items);
            assert(after =~= before.push(row));
            assert(after.map_values(|r: Vec<[T; N]>| flat_row(r@)) =~= before.map_values(|r: Vec<[T; N]>| flat_row(r@)).push(flat_row(row_items)));
            before.map_values(|r: Vec<[T; N]>| flat_row(r@)).lemma_flatten_push(flat_row(row_items));
        }
        flat.append(&mut part);
    }
    assert(rows.take(rows.len() as int) =~= rows);
    flat
}

/// The decimal digit `d` (0 to 9) as a character.
pub open spec fn digit_char(d: nat) -> char {
    if d == 0 {
        '0'
    } else if d == 1 {
        '1'
    } else if d == 2 {
        '2'
    } else if d == 3 {
        '3'
    } else if d == 4 {
        '4'
    } else if d == 5 {
        '5'
    } else if d == 6 {
        '6'
    } else if d == 7 {
        '7'
    } else if d == 8 {
        '8'
    } else {
        '9'
    }
}

/// The value of a decimal digit character.
pub open spec fn char_digit(c: char) -> nat {
    if c == '0' {
        0
    } else if c == '1' {
        1
    } else if c == '2' {
        2
    } else if c == '3' {
        3
    } else if c == '4' {
        4
    } else if c == '5' {
        5
    } else if c == '6' {
        6
    } else if c == '7' {
        7
    } else if c == '8' {
        8
    } else {
        9
    }
}

/// `n` written in decimal, without leading zeros.
pub open spec fn spec_decimal(n: nat) -> Seq<char>
    decreases n,
{
    if n < 10 {
        seq![digit_char(n)]
    } else {
        spec_decimal(n / 10).push(digit_char(n % 10))
    }
}

/// The number that a string of decimal digits spells.
pub open spec fn decimal_value(s: Seq<char>) -> nat
    decreases s.len(),
{
    if s.len() == 0 {
        0
    } else {
        10 * decimal_value(s.drop_last()) + char_digit(s.last())
    }
}

/// Reading the decimal form of a number back gives the number, and the
/// form starts with a non-zero digit unless the number is 0.
pub proof fn lemma_decimal_reads_back(n: nat)
    ensures
        decimal_value(spec_decimal(n)) == n,
        spec_decimal(n).len() >= 1,
        n > 0 ==> spec_decimal(n)[0] != '0',
    decreases n,
{
    let d = n % 10;
    assert(char_digit(digit_char(d)) == d);
    if n >= 10 {
        lemma_decimal_reads_back(n / 10);
        assert(spec_decimal(n).drop_last() =~= spec_decimal(n / 10));
        assert(spec_decimal(n)[0] == spec_decimal(n / 10)[0]);
        assert(10 * (n / 10) + d == n);
    } else {
        assert(spec_decimal(n).drop_last() =~= Seq::<char>::empty());
        assert(decimal_value(Seq::<char>::empty()) == 0);
    }
}

/// The digit `d` as a one-character string.
fn digit_str(d: usize) -> (s: &'static str)
    requires
        d < 10,
    ensures
        s@ == seq![digit_char(d as nat)],
{
    if d == 0 {
        proof { reveal_strlit("0"); }
        "0"
    } else if d == 1 {
        proof { reveal_strlit("1"); }
        "1"
    } else if d == 2 {
        proof { reveal_strlit("2"); }
        "2"
    } else if d == 3 {
        proof { reveal_strlit("3"); }
        "3"
    } else if d == 4 {
        proof { reveal_strlit("4"); }
        "4"
    } else if d == 5 {
        proof { reveal_strlit("5"); }
        "5"
    } else if d == 6 {
        proof { reveal_strlit("6"); }
        "6"
    } else if d == 7 {
        proof { reveal_strlit("7"); }
        "7"
    } else if d == 8 {
        proof { reveal_strlit("8"); }
        "8"
    } else {
        proof { reveal_strlit("9"); }
        "9"
    }
}

/// Appends `n` in decimal to `s`.
fn push_decimal(s: &mut String, n: usize)
    ensures
        final(s)@ == old(s)@ + spec_decimal(n as nat),
    decreases n,
{
    if n >= 10 {
        push_decimal(s, n / 10);
    }
    s.append(digit_str(n % 10));
    assert(spec_decimal(n as nat) == (if n >= 10 { spec_decimal((n / 10) as nat) } else { seq![] }).push(digit_char((n % 10) as nat)));
}

/// `n` written in decimal.
pub fn decimal(n: usize) -> (s: String)
    ensures
        s@ == spec_decimal(n as nat),
{
    let mut s = String::new();
    push_decimal(&mut s, n);
    assert(s@ =~= spec_decimal(n as nat));
    s
}

/// The arguments of the video player: raw RGB frames of `width` by `height`
/// pixels at `framerate` frames a second, read from standard input.
pub open spec fn spec_player_args(width: nat, height: nat, framerate: nat) -> Seq<Seq<char>> {
    seq![
        "-f"@,
        "rawvideo"@,
        "-pixel_format"@,
        "rgb24"@,
        "-video_size"@,
        spec_decimal(width) + "x"@ + spec_decimal(height),
        "-framerate"@,
        spec_decimal(framerate),
        "-"@,
    ]
}

/// The arguments with which the video player is started.
pub fn player_args(width: usize, height: usize, framerate: usize) -> (args: Vec<String>)
    ensures
        args@.map_values(|a: String| a@) == spec_player_args(width as nat, height as nat, framerate as nat),
{
    let mut size = decimal(width);
    size.append("x");
    let h = decimal(height);
    size.append(h.as_str());
    let mut args: Vec<String> = Vec::new();
    args.push(String::from_str("-f"));
    args.push(String::from_str("rawvideo"));
    args.push(String::from_str("-pixel_format"));
    args.push(String::from_str("rgb24"));
    args.push(String::from_str("-video_size"));
    args.push(size);
    args.push(String::from_str("-framerate"));
    args.push(decimal(framerate));
    args.push(String::from_str("-"));
    assert(args@.map_values(|a: String| a@) =~= spec_player_args(width as nat, height as nat, framerate as nat));
    args
}

} // verus!
