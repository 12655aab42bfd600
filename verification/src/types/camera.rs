//! The camera: the measures of a picture and the loop that fills it.

use vstd::prelude::*;
use crate::types::canvas::Canvas;
use crate::types::colour::Colour;
use crate::types::matrix::Matrix;
use crate::types::scalar::Scalar;

verus! {

/// A view of the world: the size of the picture in pixels, the angle it
/// takes in, where the camera stands, and the measures of the picture plane
/// that follow from them.
#[derive(Clone, Copy, Debug)]
pub struct Camera {
    pub hsize: usize,
    pub vsize: usize,
    pub fov: Scalar,
    pub transform: Matrix,
    pub pixel_size: Scalar,
    pub half_width: Scalar,
    pub half_height: Scalar,
}

impl Camera {
    /// The camera with these measures.
    pub fn new(
        hsize: usize,
        vsize: usize,
        fov: Scalar,
        transform: Matrix,
        pixel_size: Scalar,
        half_width: Scalar,
        half_height: Scalar,
    ) -> (c: Camera)
        ensures
            c == (Camera { hsize, vsize, fov, transform, pixel_size, half_width, half_height }),
    {
        Camera { hsize, vsize, fov, transform, pixel_size, half_width, half_height }
    }

    /// The picture: for every pixel, row after row from the top and left to
    /// right in each row, what `colour_at` gives for its column and row.
    pub fn render<F: Fn(usize, usize) -> Colour>(&self, colour_at: F) -> (image: Canvas)
        requires
            self.hsize * self.vsize <= usize::MAX,
            forall|x: usize, y: usize|
                x < self.hsize && y < self.vsize ==> call_requires(colour_at, (x, y)),
        ensures
            image@.width == self.hsize,
            image@.height == self.vsize,
            image@.pixels.len() == self.hsize * self.vsize,
            forall|x: usize, y: usize|
                x < self.hsize && y < self.vsize ==> call_ensures(
                    colour_at,
                    (x, y),
                    #[trigger] image@.pixels[image@.at(x as int, y as int)],
                ),
    {
        let mut image = Canvas::new(self.hsize, self.vsize);
        let mut y: usize = 0;
        while y < self.vsize
            invariant
                y <= self.vsize,
                image@.width == self.hsize,
                image@.height == self.vsize,
                image@.pixels.len() == self.hsize * self.vsize,
                forall|x: usize, y: usize|
                    x < self.hsize && y < self.vsize ==> call_requires(colour_at, (x, y)),
                forall|a: usize, b: usize|
                    a < self.hsize && b < y ==> call_ensures(
                        colour_at,
                        (a, b),
                        #[trigger] image@.pixels[image@.at(a as int, b as int)],
                    ),
            decreases self.vsize - y,
        {
            let mut x: usize = 0;
            while x < self.hsize
                invariant
                    y < self.vsize,
                    x <= self.hsize,
                    image@.width == self.hsize,
                    image@.height == self.vsize,
                    image@.pixels.len() == self.hsize * self.vsize,
                    forall|x: usize, y: usize|
                        x < self.hsize && y < self.vsize ==> call_requires(colour_at, (x, y)),
                    forall|a: usize, b: usize|
                        a < self.hsize && b < y ==> call_ensures(
                            colour_at,
                            (a, b),
                            #[trigger] image@.pixels[image@.at(a as int, b as int)],
                        ),
                    forall|a: usize|
                        a < x ==> call_ensures(
                            colour_at,
                            (a, y),
                            #[trigger] image@.pixels[image@.at(a as int, y as int)],
                        ),
                decreases self.hsize - x,
            {
                let colour = colour_at(x, y);
                let ghost before = image@;
                image.set((x, y), colour);
                proof {
                    assert forall|a: usize, b: usize| a < self.hsize && b < y implies call_ensures(
                        colour_at,
                        (a, b),
                        #[trigger] image@.pixels[image@.at(a as int, b as int)],
                    ) by {
                        before.lemma_at_differs(a as int, b as int, x as int, y as int);
                        before.lemma_at_in_grid(a as int, b as int);
                        assert(image@.pixels[image@.at(a as int, b as int)]
                            == before.pixels[before.at(a as int, b as int)]);
                    }
                    assert forall|a: usize| a < x + 1 implies call_ensures(
                        colour_at,
                        (a, y),
                        #[trigger] image@.pixels[image@.at(a as int, y as int)],
                    ) by {
                        before.lemma_at_in_grid(a as int, y as int);
                        if a < x {
                            before.lemma_at_differs(a as int, y as int, x as int, y as int);
                            assert(image@.pixels[image@.at(a as int, y as int)]
                                == before.pixels[before.at(a as int, y as int)]);
                        }
                    }
                }
                x += 1;
            }
            y += 1;
        }
        image
    }
}

} // verus!
