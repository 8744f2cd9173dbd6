//! Painting a node mask as an RGBA8 bitmap.
//!
//! A pixel is a node where the field is close to zero and an antinode
//! elsewhere. Whether it is, the host decides; the layout of the bitmap and
//! the colour of every byte are decided here.

use vstd::prelude::*;
use crate::error::ChladniError;

verus! {

/// Bytes per pixel: red, green, blue, alpha.
pub const CHANNELS: usize = 4;

/// The byte of channel `c` of a pixel: nodes are black, antinodes are white,
/// and both are opaque.
pub open spec fn channel(node: bool, c: int) -> u8 {
    if c == 3 {
        255
    } else if node {
        0
    } else {
        255
    }
}

/// The bitmap of a mask: four bytes for every pixel, in mask order.
pub open spec fn painted(mask: Seq<bool>) -> Seq<u8> {
    Seq::new(4 * mask.len(), |k: int| channel(mask[k / 4], k % 4))
}

/// A grid is accepted when both its sides have at least two pixels, so that
/// the first and the last pixel of a row or a column are different points of
/// the plate, and when its bitmap fits into memory.
pub open spec fn grid_accepted(width: usize, height: usize) -> bool {
    &&& width >= 2
    &&& height >= 2
    &&& width * height * 4 <= usize::MAX
}

/// The place of pixel `(ix, iy)` in a row-major mask, top row first.
pub open spec fn pixel_index(ix: int, iy: int, width: int) -> int {
    iy * width + ix
}

/// Different pixels of a grid have different places, all below the number of
/// pixels.
pub proof fn lemma_pixel_index_injective(
    ix: int,
    iy: int,
    jx: int,
    jy: int,
    width: int,
    height: int,
)
    requires
        0 <= ix < width,
        0 <= jx < width,
        0 <= iy < height,
        0 <= jy < height,
    ensures
        0 <= pixel_index(ix, iy, width) < width * height,
        pixel_index(ix, iy, width) == pixel_index(jx, jy, width) ==> ix == jx && iy == jy,
{
    assert(0 <= iy * width + ix < width * height) by (nonlinear_arith)
        requires
            0 <= ix < width,
            0 <= iy < height,
    ;
    if iy < jy {
        assert(iy * width + ix < jy * width + jx) by (nonlinear_arith)
            requires
                0 <= ix < width,
                0 <= jx,
                iy < jy,
        ;
    } else if jy < iy {
        assert(jy * width + jx < iy * width + ix) by (nonlinear_arith)
            requires
                0 <= jx < width,
                0 <= ix,
                jy < iy,
        ;
    }
}

/// The number of pixels of a grid, or `InvalidInput` for a grid that is not
/// accepted.
pub fn pixel_count(width: usize, height: usize) -> (r: Result<usize, ChladniError>)
    ensures
        grid_accepted(width, height) ==> r == Ok::<usize, ChladniError>(
            (width * height) as usize,
        ),
        !grid_accepted(width, height) ==> r == Err::<usize, ChladniError>(
            ChladniError::InvalidInput,
        ),
{
    if width <= 1 || height <= 1 {
        return Err(ChladniError::InvalidInput);
    }
    match width.checked_mul(height) {
        None => Err(ChladniError::InvalidInput),
        Some(pixels) => match pixels.checked_mul(CHANNELS) {
            None => Err(ChladniError::InvalidInput),
            Some(_) => Ok(pixels),
        },
    }
}

/// Paints a row-major node mask as RGBA8.
///
/// The grid has to be accepted (`InvalidInput` otherwise) and the mask has to
/// hold one entry per pixel (`LengthMismatch` otherwise). Then the bitmap
/// holds `width * height * 4` bytes: opaque black for every node, opaque
/// white for every antinode.
pub fn paint(width: usize, height: usize, nodes: &Vec<bool>) -> (r: Result<Vec<u8>, ChladniError>)
    ensures
        !grid_accepted(width, height) ==> r == Err::<Vec<u8>, ChladniError>(
            ChladniError::InvalidInput,
        ),
        grid_accepted(width, height) && nodes.len() != width * height ==> r == Err::<
            Vec<u8>,
            ChladniError,
        >(ChladniError::LengthMismatch),
        grid_accepted(width, height) && nodes.len() == width * height ==> (r matches Ok(bitmap)
            && bitmap@ == painted(nodes@)),
{
    let pixels = match pixel_count(width, height) {
        Ok(pixels) => pixels,
        Err(e) => {
            return Err(e);
        },
    };
    if nodes.len() != pixels {
        return Err(ChladniError::LengthMismatch);
    }
    let mut bitmap: Vec<u8> = Vec::new();
    let mut p: usize = 0;
    while p < pixels
        invariant
            pixels == nodes.len(),
            p <= pixels,
            bitmap@ == painted(nodes@.take(p as int)),
        decreases pixels - p,
    {
        let shade: u8 = if nodes[p] {
            0
        } else {
            255
        };
        bitmap.push(shade);
        bitmap.push(shade);
        bitmap.push(shade);
        bitmap.push(255);
        assert(bitmap@ =~= painted(nodes@.take(p + 1)));
        p += 1;
    }
    assert(nodes@.take(p as int) =~= nodes@);
    Ok(bitmap)
}

/// Classifies every pixel of a grid with `is_node` and paints the result.
///
/// `is_node(ix, iy)` says whether the field at column `ix` of row `iy` is
/// close enough to zero to count as a node. It is asked once for every pixel,
/// row by row from the top and from left to right within a row. The bitmap
/// is the painting of the mask of its answers.
///
/// A grid that is not accepted gives `InvalidInput`, and `is_node` is not
/// asked at all.
pub fn generate_chladni_pattern<F: Fn(usize, usize) -> bool>(
    width: usize,
    height: usize,
    is_node: F,
) -> (r: Result<Vec<u8>, ChladniError>)
    requires
        forall|ix: usize, iy: usize| ix < width && iy < height ==> is_node.requires((ix, iy)),
    ensures
        !grid_accepted(width, height) ==> r == Err::<Vec<u8>, ChladniError>(
            ChladniError::InvalidInput,
        ),
        grid_accepted(width, height) ==> (r matches Ok(bitmap) && exists|mask: Seq<bool>|
            {
                &&& mask.len() == width * height
                &&& forall|ix: usize, iy: usize|
                    ix < width && iy < height ==> #[trigger] is_node.ensures(
                        (ix, iy),
                        mask[pixel_index(ix as int, iy as int, width as int)],
                    )
                &&& bitmap@ == painted(mask)
            }),
        r matches Ok(bitmap) ==> bitmap.len() == width * height * 4,
{
    let pixels = match pixel_count(width, height) {
        Ok(pixels) => pixels,
        Err(e) => {
            return Err(e);
        },
    };
    let mut mask: Vec<bool> = Vec::new();
    let mut iy: usize = 0;
    while iy < height
        invariant
            forall|ix: usize, iy: usize| ix < width && iy < height ==> is_node.requires((ix, iy)),
            iy <= height,
            mask.len() == iy * width,
            pixels == width * height,
            forall|jx: usize, jy: usize|
                jx < width && jy < iy ==> #[trigger] is_node.ensures(
                    (jx, jy),
                    mask@[pixel_index(jx as int, jy as int, width as int)],
                ),
        decreases height - iy,
    {
        let mut ix: usize = 0;
        while ix < width
            invariant
                forall|ix: usize, iy: usize|
                    ix < width && iy < height ==> is_node.requires((ix, iy)),
                iy < height,
                ix <= width,
                mask.len() == iy * width + ix,
                pixels == width * height,
                forall|jx: usize, jy: usize|
                    jx < width && (jy < iy || (jy == iy && jx < ix)) ==> #[trigger] is_node.ensures(
                        (jx, jy),
                        mask@[pixel_index(jx as int, jy as int, width as int)],
                    ),
            decreases width - ix,
        {
            let node = is_node(ix, iy);
            let ghost earlier = mask@;
            mask.push(node);
            assert forall|jx: usize, jy: usize|
                jx < width && (jy < iy || (jy == iy && jx < ix + 1)) implies #[trigger] is_node.ensures(
                    (jx, jy),
                    mask@[pixel_index(jx as int, jy as int, width as int)],
                ) by {
                lemma_pixel_index_injective(
                    jx as int,
                    jy as int,
                    ix as int,
                    iy as int,
                    width as int,
                    height as int,
                );
                if jy == iy && jx == ix {
                } else {
                    assert(pixel_index(jx as int, jy as int, width as int) < earlier.len()) by (nonlinear_arith)
                        requires
                            jx < width,
                            jy < iy || (jy == iy && jx < ix),
                            earlier.len() == iy * width + ix,
                    ;
                }
            }
            ix += 1;
        }
        assert((iy + 1) * width == iy * width + width) by (nonlinear_arith);
        iy += 1;
    }
    let r = paint(width, height, &mask);
    proof {
        let ghost_mask = mask@;
        assert(height * width == width * height) by (nonlinear_arith);
        assert(r matches Ok(bitmap) && bitmap@ == painted(ghost_mask));
    }
    r
}

} // verus!
