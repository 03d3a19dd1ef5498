//! Core of a bounded-arena sprite toy: a rasterizer that paints colored
//! squares into an RGBA pixel buffer, and a physics stepper that advances
//! each sprite one tick under gravity with wall reflection and an inelastic
//! floor bounce. Both operate on one shared packed-record encoding: a flat
//! buffer of fixed-width records, nine fields per entity.

use vstd::prelude::*;

pub mod physics;
pub mod raster;

use crate::physics::{stepped_field, Block};
use crate::raster::{covers, erased_channel, painted_channel, pix, top_cover, Entity};

verus! {

/// Number of fields in one packed entity record.
pub const RECORD_FIELDS: usize = 9;

/// A caller-contract violation: the shape of a buffer handed in does not
/// match what the operation was told to expect.
#[derive(Clone, Copy, Debug, PartialEq, Eq, Structural)]
pub enum BufferError {
    /// The entity buffer's length is not a multiple of the record width.
    EntityBufferLength,
    /// The pixel buffer is too small to hold `width * height` RGBA pixels.
    PixelBufferTooSmall,
}

/// Paint every entity's square into the RGBA pixel buffer, in record order:
/// each covered canvas pixel takes the covering record's color with a fully
/// opaque alpha, later records overwriting earlier ones where they overlap;
/// every byte outside the painted squares is untouched. Squares partly or
/// fully off-canvas are clipped, never an error. The presence marker is not
/// consulted: only the stepper interprets it, and every record is painted.
///
/// Fails, touching nothing, when the entity buffer's length is not a
/// multiple of the record width, or when the pixel buffer cannot hold
/// `width * height` RGBA pixels.
#[verifier::loop_isolation(false)]
pub fn paint(pixels: &mut Vec<u8>, state: &Vec<usize>, width: usize, height: usize) -> (r: Result<
    (),
    BufferError,
>)
    ensures
        r is Ok <==> state@.len() % 9 == 0 && width * height * 4 <= old(pixels)@.len(),
        state@.len() % 9 != 0 ==> r == Err::<(), BufferError>(BufferError::EntityBufferLength),
        state@.len() % 9 == 0 && old(pixels)@.len() < width * height * 4 ==> r == Err::<
            (),
            BufferError,
        >(BufferError::PixelBufferTooSmall),
        r is Err ==> final (pixels)@ == old(pixels)@,
        final (pixels)@.len() == old(pixels)@.len(),
        r is Ok ==> forall|x: int, y: int, c: int|
            #![trigger pix(width as int, x, y, c)]
            0 <= x < width && 0 <= y < height && 0 <= c < 4 ==> final (pixels)@[pix(
                width as int,
                x,
                y,
                c,
            )] == painted_channel(
                state@,
                state@.len() as int / 9,
                x,
                y,
                c,
                old(pixels)@[pix(width as int, x, y, c)],
            ),
        r is Ok ==> forall|k: int|
            width * height * 4 <= k < old(pixels)@.len() ==> final (pixels)@[k] == old(pixels)@[k],
{
    let slen = state.len();
    if slen % RECORD_FIELDS != 0 {
        return Err(BufferError::EntityBufferLength);
    }
    let plen = pixels.len();
    let needed: Option<usize> = match width.checked_mul(height) {
        Some(area) => area.checked_mul(4),
        None => None,
    };
    let enough: bool = match needed {
        Some(total) => total <= plen,
        None => false,
    };
    if !enough {
        return Err(BufferError::PixelBufferTooSmall);
    }
    let n = slen / RECORD_FIELDS;
    proof {
        vstd::arithmetic::div_mod::lemma_fundamental_div_mod(slen as int, 9);
    }
    let ghost pix0 = pixels@;
    let mut i: usize = 0;
    while i < n
        invariant
            i <= n,
            pixels@.len() == pix0.len(),
            forall|x: int, y: int, c: int|
                #![trigger pix(width as int, x, y, c)]
                0 <= x < width && 0 <= y < height && 0 <= c < 4 ==> pixels@[pix(
                    width as int,
                    x,
                    y,
                    c,
                )] == painted_channel(state@, i as int, x, y, c, pix0[pix(width as int, x, y, c)]),
            forall|k: int| width * height * 4 <= k < pix0.len() ==> pixels@[k] == pix0[k],
        decreases n - i,
    {
        let entity = Entity::new(state, i);
        entity.paint(pixels, width, height);
        proof {
            assert forall|x: int, y: int, c: int|
                #![trigger pix(width as int, x, y, c)]
                0 <= x < width && 0 <= y < height && 0 <= c < 4 implies pixels@[pix(
                width as int,
                x,
                y,
                c,
            )] == painted_channel(
                state@,
                i + 1,
                x,
                y,
                c,
                pix0[pix(width as int, x, y, c)],
            ) by {
                assert(entity.covers_pt(x, y) <==> covers(state@, i as int, x, y));
                assert(top_cover(state@, i + 1, x, y) == (if covers(state@, i as int, x, y) {
                    i as int
                } else {
                    top_cover(state@, i as int, x, y)
                }));
            }
        }
        i = i + 1;
    }
    Ok(())
}

/// Erase every entity's current footprint by painting it black (fully
/// opaque), in record order, without touching the entity buffer: the stored
/// color fields are read, never rewritten. Useful to blank the previous
/// frame's sprite coverage before the stepper moves the entities.
///
/// Fails, touching nothing, under the same caller-contract violations as
/// `paint`.
#[verifier::loop_isolation(false)]
pub fn clear(pixels: &mut Vec<u8>, state: &Vec<usize>, width: usize, height: usize) -> (r: Result<
    (),
    BufferError,
>)
    ensures
        r is Ok <==> state@.len() % 9 == 0 && width * height * 4 <= old(pixels)@.len(),
        state@.len() % 9 != 0 ==> r == Err::<(), BufferError>(BufferError::EntityBufferLength),
        state@.len() % 9 == 0 && old(pixels)@.len() < width * height * 4 ==> r == Err::<
            (),
            BufferError,
        >(BufferError::PixelBufferTooSmall),
        r is Err ==> final (pixels)@ == old(pixels)@,
        final (pixels)@.len() == old(pixels)@.len(),
        r is Ok ==> forall|x: int, y: int, c: int|
            #![trigger pix(width as int, x, y, c)]
            0 <= x < width && 0 <= y < height && 0 <= c < 4 ==> final (pixels)@[pix(
                width as int,
                x,
                y,
                c,
            )] == erased_channel(
                state@,
                state@.len() as int / 9,
                x,
                y,
                c,
                old(pixels)@[pix(width as int, x, y, c)],
            ),
        r is Ok ==> forall|k: int|
            width * height * 4 <= k < old(pixels)@.len() ==> final (pixels)@[k] == old(pixels)@[k],
{
    let slen = state.len();
    if slen % RECORD_FIELDS != 0 {
        return Err(BufferError::EntityBufferLength);
    }
    let plen = pixels.len();
    let needed: Option<usize> = match width.checked_mul(height) {
        Some(area) => area.checked_mul(4),
        None => None,
    };
    let enough: bool = match needed {
        Some(total) => total <= plen,
        None => false,
    };
    if !enough {
        return Err(BufferError::PixelBufferTooSmall);
    }
    let n = slen / RECORD_FIELDS;
    proof {
        vstd::arithmetic::div_mod::lemma_fundamental_div_mod(slen as int, 9);
    }
    let ghost pix0 = pixels@;
    let mut i: usize = 0;
    while i < n
        invariant
            i <= n,
            pixels@.len() == pix0.len(),
            forall|x: int, y: int, c: int|
                #![trigger pix(width as int, x, y, c)]
                0 <= x < width && 0 <= y < height && 0 <= c < 4 ==> pixels@[pix(
                    width as int,
                    x,
                    y,
                    c,
                )] == erased_channel(state@, i as int, x, y, c, pix0[pix(width as int, x, y, c)]),
            forall|k: int| width * height * 4 <= k < pix0.len() ==> pixels@[k] == pix0[k],
        decreases n - i,
    {
        let entity = Entity::new(state, i);
        let footprint = Entity { x: entity.x, y: entity.y, size: entity.size, color: (0, 0, 0) };
        footprint.paint(pixels, width, height);
        proof {
            assert forall|x: int, y: int, c: int|
                #![trigger pix(width as int, x, y, c)]
                0 <= x < width && 0 <= y < height && 0 <= c < 4 implies pixels@[pix(
                width as int,
                x,
                y,
                c,
            )] == erased_channel(
                state@,
                i + 1,
                x,
                y,
                c,
                pix0[pix(width as int, x, y, c)],
            ) by {
                assert(footprint.covers_pt(x, y) <==> covers(state@, i as int, x, y));
                assert(top_cover(state@, i + 1, x, y) == (if covers(state@, i as int, x, y) {
                    i as int
                } else {
                    top_cover(state@, i as int, x, y)
                }));
            }
        }
        i = i + 1;
    }
    Ok(())
}

/// Advance every live entity record one tick: move by the velocity, clamp
/// into the arena, reflect the horizontal velocity on side-wall contact, and
/// apply the vertical rule (inelastic floor bounce, perfect ceiling
/// reflection, or gravity). Records whose presence marker is the `0` sentinel
/// are skipped and left untouched; later records are still processed.
///
/// Fails, touching nothing, when the buffer's length is not a multiple of
/// the record width.
pub fn update(state: &mut Vec<i32>, width: i32, height: i32, gravity: i32) -> (r: Result<
    (),
    BufferError,
>)
    ensures
        r is Ok <==> old(state)@.len() % 9 == 0,
        r is Err ==> final (state)@ == old(state)@ && r == Err::<(), BufferError>(
            BufferError::EntityBufferLength,
        ),
        final (state)@.len() == old(state)@.len(),
        r is Ok ==> forall|i: int, f: int|
            0 <= i < old(state)@.len() / 9 && 0 <= f < 9 ==> final (state)@[9 * i + f]
                == #[trigger] stepped_field(old(state)@, i, f, width, height, gravity),
{
    let len = state.len();
    if len % RECORD_FIELDS != 0 {
        return Err(BufferError::EntityBufferLength);
    }
    let n = len / RECORD_FIELDS;
    proof {
        vstd::arithmetic::div_mod::lemma_fundamental_div_mod(len as int, 9);
    }
    let ghost s0 = state@;
    let mut i: usize = 0;
    while i < n
        invariant
            s0 == old(state)@,
            state@.len() == s0.len(),
            9 * n == s0.len(),
            i <= n,
            forall|j: int, f: int|
                0 <= j < i && 0 <= f < 9 ==> state@[9 * j + f] == #[trigger] stepped_field(
                    s0,
                    j,
                    f,
                    width,
                    height,
                    gravity,
                ),
            forall|k: int| 9 * i <= k < s0.len() ==> state@[k] == s0[k],
        decreases n - i,
    {
        match Block::new(state, i) {
            None => {
                proof {
                    assert forall|f: int| 0 <= f < 9 implies state@[9 * i + f]
                        == stepped_field(s0, i as int, f, width, height, gravity) by {
                        assert(state@[9 * i + f] == s0[9 * i + f]);
                    }
                }
            },
            Some(mut block) => {
                proof {
                    assert(state@[9 * i + 0] == s0[9 * i + 0]);
                    assert(state@[9 * i + 1] == s0[9 * i + 1]);
                    assert(state@[9 * i + 2] == s0[9 * i + 2]);
                    assert(state@[9 * i + 3] == s0[9 * i + 3]);
                    assert(state@[9 * i + 4] == s0[9 * i + 4]);
                    assert(state@[9 * i + 5] == s0[9 * i + 5]);
                }
                block.update(width, height, gravity);
                block.apply(state, i);
                proof {
                    assert forall|f: int| 0 <= f < 9 implies state@[9 * i + f]
                        == stepped_field(s0, i as int, f, width, height, gravity) by {
                        if f >= 5 || f == 0 {
                            assert(state@[9 * i + f] == s0[9 * i + f]);
                        }
                    }
                }
            },
        }
        i = i + 1;
    }
    Ok(())
}

} // verus!
