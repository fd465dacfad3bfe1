use vstd::prelude::*;

verus! {

/// An 8-bit grayscale image, stored in an `image::GrayImage`.
#[verifier::external_body]
pub struct Raster {
    img: image::GrayImage,
}

/// The width of a raster, in pixels.
pub uninterp spec fn raster_width(r: Raster) -> nat;

/// The height of a raster, in pixels.
pub uninterp spec fn raster_height(r: Raster) -> nat;

/// The luminance values of a raster in row-major order: pixel `(x, y)`
/// stands at index `y * width + x`.
pub uninterp spec fn raster_pixels(r: Raster) -> Seq<u8>;

/// The row-major index of pixel `(x, y)` in an image of the given width.
pub open spec fn pixel_index(width: int, x: int, y: int) -> int {
    y * width + x
}

impl Raster {
    pub open spec fn width_spec(&self) -> nat {
        raster_width(*self)
    }

    pub open spec fn height_spec(&self) -> nat {
        raster_height(*self)
    }

    pub open spec fn pixels(&self) -> Seq<u8> {
        raster_pixels(*self)
    }

    /// The luminance of pixel `(x, y)`.
    pub open spec fn at(&self, x: int, y: int) -> u8 {
        self.pixels()[pixel_index(self.width_spec() as int, x, y)]
    }

    /// The stored pixels are exactly `width * height` values, a count that
    /// fits in `usize`.
    pub open spec fn wf(&self) -> bool {
        &&& self.pixels().len() == self.width_spec() * self.height_spec()
        &&& self.width_spec() * self.height_spec() <= usize::MAX
    }

    /// Relies on `ImageBuffer::new`: an image of the given size with every
    /// value zero, laid out row-major; it panics when `width * height`
    /// overflows `usize`.
    #[verifier::external_body]
    pub(crate) fn blank(width: u32, height: u32) -> (r: Raster)
        requires
            width as int * height as int <= usize::MAX as int,
        ensures
            raster_width(r) == width as nat,
            raster_height(r) == height as nat,
            raster_pixels(r) == Seq::new(width as nat * height as nat, |i: int| 0u8),
    {
        Raster { img: image::GrayImage::new(width, height) }
    }

    /// Relies on `ImageBuffer::width`.
    #[verifier::external_body]
    fn img_width(&self) -> (r: u32)
        ensures
            r as nat == raster_width(*self),
    {
        self.img.width()
    }

    /// Relies on `ImageBuffer::height`.
    #[verifier::external_body]
    fn img_height(&self) -> (r: u32)
        ensures
            r as nat == raster_height(*self),
    {
        self.img.height()
    }

    /// Relies on `ImageBuffer::get_pixel`: the value at row-major index
    /// `y * width + x`; it panics outside the image.
    #[verifier::external_body]
    fn img_get(&self, x: u32, y: u32) -> (r: u8)
        requires
            self.wf(),
            x < self.width_spec(),
            y < self.height_spec(),
        ensures
            r == raster_pixels(*self)[y * raster_width(*self) + x],
    {
        self.img.get_pixel(x, y).0[0]
    }

    /// Relies on `ImageBuffer::put_pixel`: it overwrites the value at
    /// row-major index `y * width + x` and nothing else; it panics outside
    /// the image.
    #[verifier::external_body]
    pub(crate) fn put(&mut self, x: u32, y: u32, v: u8)
        requires
            old(self).wf(),
            x < old(self).width_spec(),
            y < old(self).height_spec(),
        ensures
            raster_width(*final(self)) == raster_width(*old(self)),
            raster_height(*final(self)) == raster_height(*old(self)),
            raster_pixels(*final(self)) == raster_pixels(*old(self)).update(
                y * raster_width(*old(self)) + x,
                v,
            ),
    {
        self.img.put_pixel(x, y, image::Luma([v]))
    }

    /// The width of the image.
    pub fn width(&self) -> (r: u32)
        ensures
            r as nat == self.width_spec(),
    {
        self.img_width()
    }

    /// The height of the image.
    pub fn height(&self) -> (r: u32)
        ensures
            r as nat == self.height_spec(),
    {
        self.img_height()
    }

    /// The luminance of pixel `(x, y)`.
    pub fn pixel(&self, x: u32, y: u32) -> (r: u8)
        requires
            self.wf(),
            x < self.width_spec(),
            y < self.height_spec(),
        ensures
            r == self.at(x as int, y as int),
    {
        self.img_get(x, y)
    }
}

} // verus!
