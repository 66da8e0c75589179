use vstd::prelude::*;

verus! {

/// An 8-bit-per-channel RGBA colour.
#[derive(Copy, Clone, Debug, Hash, PartialEq, Eq, Structural)]
pub struct Colour {
    pub r: u8,
    pub g: u8,
    pub b: u8,
    pub a: u8,
}

impl Colour {
    pub fn new(r: u8, g: u8, b: u8, a: u8) -> (c: Colour)
        ensures
            c.r == r && c.g == g && c.b == b && c.a == a,
    {
        Colour { r, g, b, a }
    }

    /// Fully opaque white.
    pub fn white() -> (c: Colour)
        ensures
            c.r == 255 && c.g == 255 && c.b == 255 && c.a == 255,
    {
        Colour { r: 255, g: 255, b: 255, a: 255 }
    }

    /// Fully opaque mid grey.
    pub fn half_white() -> (c: Colour)
        ensures
            c.r == 0xBF && c.g == 0xBF && c.b == 0xBF && c.a == 0xFF,
    {
        Colour { r: 0xBF, g: 0xBF, b: 0xBF, a: 0xFF }
    }
}

/// A screen size in whole pixels.
#[derive(Copy, Clone, Debug, Hash, PartialEq, Eq, Structural)]
pub struct ScreenDimension {
    pub width: u32,
    pub height: u32,
}

impl ScreenDimension {
    pub fn new(width: u32, height: u32) -> (d: ScreenDimension)
        ensures
            d.width == width && d.height == height,
    {
        ScreenDimension { width, height }
    }
}

/// One layer of a composed frame: either a solid colour or a pixel buffer
/// with its size.
pub enum Layer {
    SolidColour(Colour),
    FrameBuffer(Vec<Colour>, ScreenDimension),
}

/// A CPU-side pixel buffer for one layer.
pub struct LayerFramebuffer {
    pixels: Vec<Colour>,
}

impl LayerFramebuffer {
    pub fn from_pixels(pixels: Vec<Colour>) -> (fb: LayerFramebuffer)
        ensures
            fb@ == pixels@,
    {
        LayerFramebuffer { pixels }
    }

    pub fn len(&self) -> (n: usize)
        ensures
            n == self@.len(),
    {
        self.pixels.len()
    }

    pub fn get(&self, i: usize) -> (c: Colour)
        requires
            i < self@.len(),
        ensures
            c == self@[i as int],
    {
        self.pixels[i]
    }

    pub fn set(&mut self, i: usize, c: Colour)
        requires
            i < old(self)@.len(),
        ensures
            final(self)@ == old(self)@.update(i as int, c),
    {
        self.pixels.set(i, c);
    }

    /// The buffer as raw bytes: each pixel contributes its four channels
    /// in `r`, `g`, `b`, `a` order, with nothing between pixels.
    pub fn as_bytes(&self) -> (bytes: Vec<u8>)
        requires
            self@.len() * 4 <= usize::MAX,
        ensures
            bytes@.len() == self@.len() * 4,
            forall|i: int|
                0 <= i < self@.len() ==> bytes@[4 * i] == (#[trigger] self@[i]).r && bytes@[4 * i
                    + 1] == self@[i].g && bytes@[4 * i + 2] == self@[i].b && bytes@[4 * i + 3]
                    == self@[i].a,
    {
        let mut bytes: Vec<u8> = Vec::new();
        let mut i: usize = 0;
        while i < self.pixels.len()
            invariant
                i <= self@.len(),
                self@.len() * 4 <= usize::MAX,
                bytes@.len() == i * 4,
                forall|m: int|
                    0 <= m < i ==> bytes@[4 * m] == (#[trigger] self@[m]).r && bytes@[4 * m + 1]
                        == self@[m].g && bytes@[4 * m + 2] == self@[m].b && bytes@[4 * m + 3]
                        == self@[m].a,
            decreases self@.len() - i,
        {
            let c = self.pixels[i];
            bytes.push(c.r);
            bytes.push(c.g);
            bytes.push(c.b);
            bytes.push(c.a);
            i = i + 1;
        }
        bytes
    }
}

impl View for LayerFramebuffer {
    type V = Seq<Colour>;

    closed spec fn view(&self) -> Seq<Colour> {
        self.pixels@
    }
}

} // verus!
