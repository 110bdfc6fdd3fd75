//! Pixel records, the rolling colour cache, and the conversions between
//! pixel sequences and flat byte buffers.

use vstd::prelude::*;

verus! {

/// One image sample: four unsigned 8-bit channels in red, green, blue, alpha
/// order.  The channel order is load-bearing: it fixes the byte layout that
/// [`ColoursToRaw`] and [`RawToColours`] convert through.
#[derive(Clone, Copy, Debug, PartialEq, Eq, Structural)]
pub struct Pixel {
    pub red: u8,
    pub green: u8,
    pub blue: u8,
    pub alpha: u8,
}

/// The all-zero pixel every cache slot starts from.
pub open spec fn spec_default_pixel() -> Pixel {
    Pixel { red: 0, green: 0, blue: 0, alpha: 0 }
}

/// The pixel the decoder treats as "previous" before any token is processed:
/// opaque black.
pub open spec fn spec_initial_pixel() -> Pixel {
    Pixel { red: 0, green: 0, blue: 0, alpha: 255 }
}

/// The colour-cache slot a pixel hashes to: `(3r + 5g + 7b + 11a) mod 64`.
pub open spec fn spec_hash(p: Pixel) -> int {
    (3 * p.red + 5 * p.green + 7 * p.blue + 11 * p.alpha) % 64
}

/// A channel value moved by a signed delta with 8-bit wraparound.
pub open spec fn spec_wrap(channel: int, delta: int) -> u8 {
    ((channel + delta) % 256) as u8
}

/// The pixel obtained from `p` by moving each colour channel by its delta
/// with 8-bit wraparound; alpha is carried over unchanged.
pub open spec fn spec_pixel_add(p: Pixel, dr: int, dg: int, db: int) -> Pixel {
    Pixel {
        red: spec_wrap(p.red as int, dr),
        green: spec_wrap(p.green as int, dg),
        blue: spec_wrap(p.blue as int, db),
        alpha: p.alpha,
    }
}

/// A cache after a last-writer-wins insertion of `p` into its hash slot.
pub open spec fn spec_insert(cache: Seq<Pixel>, p: Pixel) -> Seq<Pixel> {
    cache.update(spec_hash(p), p)
}

/// The channel of `p` that sits `j` bytes into its 4-byte layout.
pub open spec fn spec_channel(p: Pixel, j: int) -> u8 {
    if j == 0 {
        p.red
    } else if j == 1 {
        p.green
    } else if j == 2 {
        p.blue
    } else {
        p.alpha
    }
}

/// The flat byte image of a pixel sequence: four bytes per pixel, channels in
/// red, green, blue, alpha order.
pub open spec fn spec_raw_bytes(pixels: Seq<Pixel>) -> Seq<u8> {
    Seq::new((pixels.len() * 4) as nat, |i: int| spec_channel(pixels[i / 4], i % 4))
}

/// The pixel whose four channels start `4 * i` bytes into `bytes`.
pub open spec fn spec_pixel_at(bytes: Seq<u8>, i: int) -> Pixel {
    Pixel {
        red: bytes[4 * i],
        green: bytes[4 * i + 1],
        blue: bytes[4 * i + 2],
        alpha: bytes[4 * i + 3],
    }
}

/// The pixel sequence read back out of a flat byte buffer.
pub open spec fn spec_colours(bytes: Seq<u8>) -> Seq<Pixel> {
    Seq::new((bytes.len() / 4) as nat, |i: int| spec_pixel_at(bytes, i))
}

impl Default for Pixel {
    /// The all-zero pixel.
    fn default() -> (pixel: Self)
        ensures
            pixel == spec_default_pixel(),
    {
        Pixel { red: 0, green: 0, blue: 0, alpha: 0 }
    }
}

/// `channel + delta` under 8-bit wraparound.
fn wrapping_channel_add(channel: u8, delta: i8) -> (wrapped: u8)
    ensures
        wrapped == spec_wrap(channel as int, delta as int),
{
    let offset: u16 = if delta >= 0 {
        delta as u16
    } else {
        (delta as i16 + 256) as u16
    };
    let total: u16 = channel as u16 + offset;
    proof {
        if delta < 0 {
            vstd::arithmetic::div_mod::lemma_mod_multiples_vanish(
                1,
                channel as int + delta as int,
                256,
            );
        }
    }
    (total % 256) as u8
}

impl Pixel {
    /// The pixel reached from `previous_pixel` by the given per-channel
    /// deltas, each applied with 8-bit wraparound; alpha is unchanged.
    pub fn from_diffs(previous_pixel: &Self, dr: i8, dg: i8, db: i8) -> (pixel: Self)
        ensures
            pixel == spec_pixel_add(*previous_pixel, dr as int, dg as int, db as int),
    {
        Pixel {
            red: wrapping_channel_add(previous_pixel.red, dr),
            green: wrapping_channel_add(previous_pixel.green, dg),
            blue: wrapping_channel_add(previous_pixel.blue, db),
            alpha: previous_pixel.alpha,
        }
    }

    /// The colour-cache slot this pixel hashes to.
    pub fn index_position(&self) -> (idx: usize)
        ensures
            idx == spec_hash(*self),
            idx < 64,
    {
        ((self.red as u16 * 3 + self.green as u16 * 5 + self.blue as u16 * 7 + self.alpha as u16
            * 11) % 64) as usize
    }
}

/// The width, height, channel count and colourspace a stream declares.
#[derive(Debug)]
pub struct QoiHeader {
    pub width: u32,
    pub height: u32,
    pub channels: ColourChannels,
    pub colorspace: Colourspace,
}

/// How many channels a stream declares per pixel.
#[derive(Clone, Copy, Debug, PartialEq, Eq, Structural)]
pub enum ColourChannels {
    Rgb,
    Rgba,
}

/// Which colourspace the stream's channel values are meant in.
#[derive(Clone, Copy, Debug, PartialEq, Eq, Structural)]
pub enum Colourspace {
    SRgb,
    Linear,
}

/// The rolling cache of recently seen pixels: 64 slots addressed by
/// [`spec_hash`], last writer wins, no collision handling.
#[derive(Debug)]
pub struct SeenPixels {
    inner: Vec<Pixel>,
}

impl View for SeenPixels {
    type V = Seq<Pixel>;

    closed spec fn view(&self) -> Seq<Pixel> {
        self.inner@
    }
}

impl SeenPixels {
    /// A cache always holds exactly 64 slots.
    pub open spec fn wf(&self) -> bool {
        self@.len() == 64
    }

    /// The slots of a fresh cache: all default, except that the slot the
    /// initial previous pixel hashes to already holds that pixel, so an
    /// index token may resolve it before any literal pixel has been seen.
    pub open spec fn spec_initial() -> Seq<Pixel> {
        Seq::new(
            64,
            |i: int|
                if i == spec_hash(spec_initial_pixel()) {
                    spec_initial_pixel()
                } else {
                    spec_default_pixel()
                },
        )
    }

    /// A fresh cache, pre-seeded as [`Self::spec_initial`] describes.
    pub fn new() -> (seen: Self)
        ensures
            seen.wf(),
            seen@ == Self::spec_initial(),
    {
        let mut inner: Vec<Pixel> = Vec::new();
        let mut i: usize = 0;
        while i < 64
            invariant
                i <= 64,
                inner@.len() == i,
                forall|k: int| 0 <= k < i ==> inner@[k] == spec_default_pixel(),
            decreases 64 - i,
        {
            inner.push(Pixel { red: 0, green: 0, blue: 0, alpha: 0 });
            i += 1;
        }
        let seeded = Pixel { red: 0, green: 0, blue: 0, alpha: 255 };
        let idx = seeded.index_position();
        inner[idx] = seeded;
        let seen = SeenPixels { inner };
        proof {
            assert(seen@ =~= Self::spec_initial());
        }
        seen
    }

    /// The pixel in slot `idx`.
    pub fn get(&self, idx: usize) -> (pixel: Pixel)
        requires
            self.wf(),
            idx < 64,
        ensures
            pixel == self@[idx as int],
    {
        self.inner[idx]
    }

    /// Overwrites the slot `pixel` hashes to and reports that slot.
    pub fn insert(&mut self, pixel: Pixel) -> (idx: usize)
        requires
            old(self).wf(),
        ensures
            final(self).wf(),
            idx == spec_hash(pixel),
            final(self)@ == spec_insert(old(self)@, pixel),
    {
        let idx = pixel.index_position();
        self.inner[idx] = pixel;
        idx
    }
}

/// Inserting the same pixel twice in a row leaves the cache exactly as it
/// stood after the first insertion.
pub proof fn lemma_insert_idempotent(cache: Seq<Pixel>, pixel: Pixel)
    requires
        cache.len() == 64,
    ensures
        spec_insert(spec_insert(cache, pixel), pixel) == spec_insert(cache, pixel),
{
    assert(spec_insert(spec_insert(cache, pixel), pixel) =~= spec_insert(cache, pixel));
}

/// Marks the buffer types this crate's conversions are defined on.
pub trait Sealed {

}

/// A buffer that converts into its flat byte representation.
pub trait ColoursToRaw: Sealed {
    /// The byte sequence this buffer converts to.
    spec fn raw_view(&self) -> Seq<u8>;

    /// Converts the buffer into its flat byte representation.
    fn to_raw(self) -> (raw: Vec<u8>)
        ensures
            raw@ == self.raw_view(),
    ;
}

/// A byte buffer that converts back into a pixel sequence.
pub trait RawToColours: Sealed {
    /// Whether the buffer splits into whole pixels.
    spec fn aligned(&self) -> bool;

    /// The pixel sequence this buffer converts to.
    spec fn colours_view(&self) -> Seq<Pixel>;

    /// Converts the buffer into the pixel sequence it spells.
    fn to_colours(self) -> (colours: Vec<Pixel>)
        requires
            self.aligned(),
        ensures
            colours@ == self.colours_view(),
    ;
}

/// An append that is always in bounds: the buffer's own growth guarantees
/// room, so no capacity check is asked of the caller.
pub trait PushUnchecked<T>: Sealed {
    /// The elements the buffer holds.
    spec fn elements(&self) -> Seq<T>;

    /// Appends `value` at the end of the buffer.
    fn push_unchecked(&mut self, value: T)
        ensures
            final(self).elements() == old(self).elements().push(value),
    ;
}

impl Sealed for Vec<u8> {

}

impl Sealed for Vec<Pixel> {

}

impl ColoursToRaw for Vec<Pixel> {
    open spec fn raw_view(&self) -> Seq<u8> {
        spec_raw_bytes(self@)
    }

    fn to_raw(self) -> (raw: Vec<u8>) {
        let mut raw: Vec<u8> = Vec::new();
        let mut i: usize = 0;
        while i < self.len()
            invariant
                i <= self@.len(),
                raw@.len() == 4 * i,
                forall|k: int|
                    0 <= k < raw@.len() ==> raw@[k] == spec_channel(self@[k / 4], k % 4),
            decreases self@.len() - i,
        {
            let p = self[i];
            raw.push(p.red);
            raw.push(p.green);
            raw.push(p.blue);
            raw.push(p.alpha);
            i += 1;
        }
        proof {
            assert(raw@ =~= spec_raw_bytes(self@));
        }
        raw
    }
}

impl RawToColours for Vec<u8> {
    open spec fn aligned(&self) -> bool {
        self@.len() % 4 == 0
    }

    open spec fn colours_view(&self) -> Seq<Pixel> {
        spec_colours(self@)
    }

    fn to_colours(self) -> (colours: Vec<Pixel>) {
        let mut colours: Vec<Pixel> = Vec::new();
        let length = self.len();
        let count = length / 4;
        let mut i: usize = 0;
        while i < count
            invariant
                length == self@.len(),
                self@.len() % 4 == 0,
                count == length / 4,
                i <= count,
                colours@.len() == i,
                forall|k: int| 0 <= k < i ==> colours@[k] == spec_pixel_at(self@, k),
            decreases count - i,
        {
            proof {
                vstd::arithmetic::div_mod::lemma_fundamental_div_mod(length as int, 4);
                assert(4 * i + 3 < length);
            }
            let p = Pixel {
                red: self[4 * i],
                green: self[4 * i + 1],
                blue: self[4 * i + 2],
                alpha: self[4 * i + 3],
            };
            colours.push(p);
            i += 1;
        }
        proof {
            assert(colours@ =~= spec_colours(self@));
        }
        colours
    }
}

impl PushUnchecked<Pixel> for Vec<Pixel> {
    open spec fn elements(&self) -> Seq<Pixel> {
        self@
    }

    fn push_unchecked(&mut self, value: Pixel) {
        self.push(value);
    }
}

/// Converting a pixel sequence to its flat bytes and back yields a sequence
/// equal to the original, for any length including zero.
pub proof fn lemma_raw_round_trip(pixels: Seq<Pixel>)
    ensures
        spec_colours(spec_raw_bytes(pixels)) == pixels,
{
    let bytes = spec_raw_bytes(pixels);
    assert forall|i: int| 0 <= i < pixels.len() implies spec_pixel_at(bytes, i) == pixels[i] by {
        assert(bytes[4 * i] == spec_channel(pixels[(4 * i) / 4], (4 * i) % 4));
        assert(bytes[4 * i + 1] == spec_channel(pixels[(4 * i + 1) / 4], (4 * i + 1) % 4));
        assert(bytes[4 * i + 2] == spec_channel(pixels[(4 * i + 2) / 4], (4 * i + 2) % 4));
        assert(bytes[4 * i + 3] == spec_channel(pixels[(4 * i + 3) / 4], (4 * i + 3) % 4));
    }
    assert(spec_colours(bytes) =~= pixels);
}

} // verus!
