//! A rectangular grid of colours, stored row by row.
use crate::color::{decimal, decimal_text, pixel_text, to_ppm, Color};
use crate::vec3::Vec3;
use vstd::prelude::*;
use vstd::string::StringExecFns;

verus! {

pub struct Canvas {
    pub width: usize,
    pub height: usize,
    pub pixels: Vec<Color>,
}

/// The lines of the given pixels, one per pixel, with a line feed between
/// two lines and none after the last.
pub open spec fn pixel_lines(pixels: Seq<Color>) -> Seq<char>
    decreases pixels.len(),
{
    if pixels.len() == 0 {
        Seq::empty()
    } else if pixels.len() == 1 {
        pixel_text(pixels[0])
    } else {
        pixel_lines(pixels.drop_last()) + seq!['\n'] + pixel_text(pixels.last())
    }
}

/// The plain PPM image of the given size and pixels: the magic number,
/// the size, the largest channel value, then the pixels.
pub open spec fn ppm_text(width: nat, height: nat, pixels: Seq<Color>) -> Seq<char> {
    seq!['P', '3', '\n'] + decimal_text(width) + seq![' '] + decimal_text(height) + seq![
        '\n',
        '2',
        '5',
        '5',
        '\n',
    ] + pixel_lines(pixels) + seq!['\n']
}

impl Canvas {
    /// The grid holds one pixel for each position.
    pub open spec fn wf(&self) -> bool {
        self.pixels@.len() == self.width * self.height
    }

    /// The position in `pixels` of column `x` of row `y`.
    pub open spec fn offset(&self, x: usize, y: usize) -> int {
        y * self.width + x
    }

    /// A black canvas of the given size.
    pub fn new(width: usize, height: usize) -> (canvas: Canvas)
        requires
            width * height <= usize::MAX,
        ensures
            canvas.wf(),
            canvas.width == width,
            canvas.height == height,
            canvas.pixels@ == Seq::new((width * height) as nat, |i: int| Vec3::spec_black()),
    {
        let count: usize = width * height;
        let mut pixels: Vec<Color> = Vec::new();
        let mut i: usize = 0;
        while i < count
            invariant
                i <= count,
                pixels@ == Seq::new(i as nat, |k: int| Vec3::spec_black()),
            decreases count - i,
        {
            pixels.push(Vec3::black());
            i += 1;
        }
        Canvas { width, height, pixels }
    }

    /// The colour at column `x` of row `y`.
    pub fn at(&self, x: usize, y: usize) -> (color: Color)
        requires
            self.wf(),
            x < self.width,
            y < self.height,
        ensures
            color == self.pixels@[self.offset(x, y)],
    {
        let count = self.pixels.len();
        proof {
            lemma_offset_in_range(x as int, y as int, self.width as int, self.height as int);
        }
        self.pixels[y * self.width + x]
    }

    /// Sets the colour at column `x` of row `y` and leaves the rest as it
    /// was.
    pub fn write(&mut self, x: usize, y: usize, color: Color)
        requires
            old(self).wf(),
            x < old(self).width,
            y < old(self).height,
        ensures
            final(self).wf(),
            final(self).width == old(self).width,
            final(self).height == old(self).height,
            final(self).pixels@ == old(self).pixels@.update(old(self).offset(x, y), color),
    {
        let count = self.pixels.len();
        proof {
            lemma_offset_in_range(x as int, y as int, self.width as int, self.height as int);
        }
        let index = y * self.width + x;
        self.pixels[index] = color;
    }

    /// The canvas as the text of a plain PPM image.
    pub fn to_ppm(&self) -> (text: String)
        ensures
            text@ == ppm_text(self.width as nat, self.height as nat, self.pixels@),
    {
        proof {
            reveal_strlit("P3\n");
            reveal_strlit(" ");
            reveal_strlit("\n255\n");
            reveal_strlit("\n");
        }
        let mut text = String::from_str("P3\n");
        text.append(decimal(self.width).as_str());
        text.append(" ");
        text.append(decimal(self.height).as_str());
        text.append("\n255\n");
        let ghost head = text@;
        let mut i: usize = 0;
        while i < self.pixels.len()
            invariant
                i <= self.pixels@.len(),
                text@ == head + pixel_lines(self.pixels@.subrange(0, i as int)),
            decreases self.pixels@.len() - i,
        {
            let ghost before = self.pixels@.subrange(0, i as int);
            let ghost after = self.pixels@.subrange(0, i + 1);
            assert(after.drop_last() == before);
            assert(after.last() == self.pixels@[i as int]);
            let ghost line = pixel_text(self.pixels@[i as int]);
            if i > 0 {
                proof {
                    reveal_strlit("\n");
                }
                text.append("\n");
                assert(pixel_lines(after) == pixel_lines(before) + seq!['\n'] + line);
            } else {
                assert(pixel_lines(before) == Seq::<char>::empty());
                assert(pixel_lines(after) == line);
            }
            text.append(to_ppm(self.pixels[i]).as_str());
            assert(text@ =~= head + pixel_lines(after));
            i += 1;
        }
        assert(self.pixels@.subrange(0, i as int) == self.pixels@);
        text.append("\n");
        text
    }
}

/// A position inside the grid has an offset inside the pixel sequence.
pub proof fn lemma_offset_in_range(x: int, y: int, width: int, height: int)
    requires
        0 <= x < width,
        0 <= y < height,
    ensures
        0 <= y * width + x < width * height,
        y * width >= 0,
{
    assert(y * width + width <= width * height && y * width >= 0) by (nonlinear_arith)
        requires
            0 <= width,
            0 <= y,
            y + 1 <= height,
    ;
}

} // verus!
