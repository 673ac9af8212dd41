//! The frame store: an ordered sequence of equally sized monochrome pixel
//! grids, with indexed pixel access, frame lifecycle operations, byte
//! packing, text rendering and the slide generator.

use vstd::prelude::*;
use vstd::pervasive::VecAdditionalExecFns;
use crate::packing::frame_bytes;
use crate::packing::bits_to_byte;
use crate::params::Direction;
use crate::params::SlideAnimation;
use crate::shifting::blank_frame;
use crate::shifting::lemma_shifted_identity;
use crate::shifting::lemma_shifted_single_pixel;
use crate::shifting::single_pixel_frame;
use crate::shifting::shifted_copy;
use crate::shifting::shifted_frame;
use crate::text::append_brace_close;
use crate::text::append_brace_open;
use crate::text::append_separator;
use crate::text::frame_text;
use crate::text::hex_bytes_text;
use crate::text::lemma_comma_list_push;
use crate::text::sequence_text;
use vstd::string::StringExecFns;

verus! {

/// An ordered sequence of equally sized monochrome frames together with
/// the two unit dimensions that fix the pixel geometry for the store's
/// lifetime. Each frame is a flat row-major array of booleans of length
/// `width_px * height_px`; both pixel dimensions are multiples of 8, so
/// byte boundaries never split across rows.
pub struct ImageSequence {
    bitmaps: Vec<Vec<bool>>,
    width: u8,
    height: u8,
}

/// The sequence with the frames at `i - 1` and `i` exchanged.
pub open spec fn seq_swapped_at(s: Seq<Seq<bool>>, i: int) -> Seq<Seq<bool>>
    recommends
        1 <= i < s.len(),
{
    s.update(i - 1, s[i]).update(i, s[i - 1])
}

/// A freshly allocated all-false pixel array of length `n`.
fn blank_pixels(n: usize) -> (r: Vec<bool>)
    ensures
        r@ == blank_frame(n as nat),
{
    let mut v: Vec<bool> = Vec::new();
    let mut i: usize = 0;
    while i < n
        invariant
            i <= n,
            v@.len() == i,
            forall|p: int| 0 <= p < i ==> !v@[p],
        decreases n - i,
    {
        v.push(false);
        i = i + 1;
    }
    proof {
        assert(v@ =~= blank_frame(n as nat));
    }
    v
}

/// A freshly allocated copy of a pixel array.
fn copy_pixels(src: &Vec<bool>) -> (r: Vec<bool>)
    ensures
        r@ == src@,
{
    let mut v: Vec<bool> = Vec::new();
    let mut i: usize = 0;
    while i < src.len()
        invariant
            i <= src@.len(),
            v@.len() == i,
            forall|p: int| 0 <= p < i ==> v@[p] == src@[p],
        decreases src@.len() - i,
    {
        v.push(*src.get(i).unwrap());
        i = i + 1;
    }
    proof {
        assert(v@ =~= src@);
    }
    v
}

impl ImageSequence {
    /// Grid width in pixels: the unit width times 8.
    pub closed spec fn width_px(self) -> int {
        self.width as int * 8
    }

    /// Grid height in pixels: the unit height times 8.
    pub closed spec fn height_px(self) -> int {
        self.height as int * 8
    }

    /// Pixels per frame.
    pub open spec fn frame_len(self) -> int {
        self.width_px() * self.height_px()
    }

    /// The mathematical content of the store: each frame as a sequence of
    /// booleans in row-major order (`index = y * width_px + x`).
    pub closed spec fn frames(self) -> Seq<Seq<bool>> {
        Seq::new(self.bitmaps@.len(), |i: int| self.bitmaps@[i]@)
    }

    /// Well-formedness: both unit dimensions lie in [1, 8] and every frame
    /// holds exactly `width_px * height_px` pixels.
    pub closed spec fn wf(self) -> bool {
        &&& 1 <= self.width <= 8
        &&& 1 <= self.height <= 8
        &&& forall|i: int|
            0 <= i < self.frames().len() ==> (#[trigger] self.frames()[i]).len()
                == self.frame_len()
    }

    /// The number of output frames a slide along `direction` produces: the
    /// pixel extent of the grid along the movement axis.
    pub open spec fn axis_len(self, direction: Direction) -> int {
        match direction {
            Direction::Top => self.height_px(),
            Direction::Bottom => self.height_px(),
            Direction::Left => self.width_px(),
            Direction::Right => self.width_px(),
        }
    }

    /// Pixels per frame, as a machine integer.
    fn frame_len_px(&self) -> (n: usize)
        requires
            self.wf(),
        ensures
            n == self.frame_len(),
            n <= 4096,
    {
        proof {
            assert((self.width as int * 8) * (self.height as int * 8) <= 4096)
                by (nonlinear_arith)
                requires
                    1 <= self.width <= 8,
                    1 <= self.height <= 8,
            ;
        }
        self.width as usize * 8 * (self.height as usize * 8)
    }

    /// A store of the given unit dimensions holding one blank frame.
    pub fn new(width: u8, height: u8) -> (r: ImageSequence)
        requires
            1 <= width <= 8,
            1 <= height <= 8,
        ensures
            r.wf(),
            r.width_px() == width as int * 8,
            r.height_px() == height as int * 8,
            r.frames().len() == 1,
            r.frames()[0] == blank_frame(r.frame_len() as nat),
    {
        proof {
            assert((width as int * 8) * (height as int * 8) <= 4096) by (nonlinear_arith)
                requires
                    1 <= width <= 8,
                    1 <= height <= 8,
            ;
        }
        let n = width as usize * 8 * (height as usize * 8);
        let first = blank_pixels(n);
        let mut bitmaps: Vec<Vec<bool>> = Vec::new();
        bitmaps.push(first);
        let r = ImageSequence { bitmaps, width, height };
        proof {
            assert(r.frames()[0] =~= blank_frame(r.frame_len() as nat));
        }
        r
    }

    /// The current number of frames.
    pub fn get_frame_count(&self) -> (r: usize)
        ensures
            r == self.frames().len(),
    {
        self.bitmaps.len()
    }

    /// The pixel dimensions, width first.
    pub fn get_dimensions_pixels(&self) -> (r: [usize; 2])
        requires
            self.wf(),
        ensures
            r@[0] == self.width_px(),
            r@[1] == self.height_px(),
    {
        [self.width as usize * 8, self.height as usize * 8]
    }

    /// Bounds-checked pixel read: the pixel at `(x, y)` of frame `idx`, or
    /// nothing when any coordinate is out of range.
    pub fn get(&self, x: usize, y: usize, idx: usize) -> (r: Option<bool>)
        requires
            self.wf(),
        ensures
            (x < self.width_px() && y < self.height_px() && idx < self.frames().len()) ==> r
                == Some(self.frames()[idx as int][y as int * self.width_px() + x as int]),
            !(x < self.width_px() && y < self.height_px() && idx < self.frames().len()) ==> r
                is None,
    {
        let wpx = self.width as usize * 8;
        let hpx = self.height as usize * 8;
        if x < wpx && y < hpx && idx < self.bitmaps.len() {
            proof {
                assert(y * wpx + x < wpx * hpx && wpx * hpx <= 4096) by (nonlinear_arith)
                    requires
                        x < wpx,
                        y < hpx,
                        wpx <= 64,
                        hpx <= 64,
                ;
                assert(self.frames()[idx as int].len() == self.frame_len());
                assert(wpx * hpx == self.frame_len());
            }
            let frame = self.bitmaps.get(idx).unwrap();
            Some(*frame.get(y * wpx + x).unwrap())
        } else {
            None
        }
    }

    /// Bounds-checked pixel write: sets the pixel at `(x, y)` of frame
    /// `idx` and reports whether the coordinate was in range (out-of-range
    /// writes change nothing).
    pub fn set(&mut self, x: usize, y: usize, idx: usize, value: bool) -> (r: bool)
        requires
            old(self).wf(),
        ensures
            r <==> (x < old(self).width_px() && y < old(self).height_px() && idx < old(
                self,
            ).frames().len()),
            r ==> final(self).frames() == old(self).frames().update(
                idx as int,
                old(self).frames()[idx as int].update(
                    y as int * old(self).width_px() + x as int,
                    value,
                ),
            ),
            !r ==> *final(self) == *old(self),
            final(self).wf(),
            final(self).width_px() == old(self).width_px(),
            final(self).height_px() == old(self).height_px(),
    {
        let wpx = self.width as usize * 8;
        let hpx = self.height as usize * 8;
        if x < wpx && y < hpx && idx < self.bitmaps.len() {
            proof {
                assert(y * wpx + x < wpx * hpx && wpx * hpx <= 4096) by (nonlinear_arith)
                    requires
                        x < wpx,
                        y < hpx,
                        wpx <= 64,
                        hpx <= 64,
                ;
                assert(self.frames()[idx as int].len() == self.frame_len());
                assert(wpx * hpx == self.frame_len());
            }
            let mut frame = self.bitmaps.remove(idx);
            frame.set(y * wpx + x, value);
            self.bitmaps.insert(idx, frame);
            proof {
                assert(final(self).frames() =~= old(self).frames().update(
                    idx as int,
                    old(self).frames()[idx as int].update(
                        y as int * old(self).width_px() + x as int,
                        value,
                    ),
                ));
            }
            true
        } else {
            false
        }
    }

    /// A read-only view of one frame's full pixel array, or nothing when
    /// the frame index is out of range.
    pub fn get_frame(&self, idx: usize) -> (r: Option<&Vec<bool>>)
        ensures
            r is Some <==> idx < self.frames().len(),
            r matches Some(f) ==> f@ == self.frames()[idx as int],
    {
        self.bitmaps.get(idx)
    }

    /// Every frame, in display order.
    pub fn iter_frames(&self) -> (r: &Vec<Vec<bool>>)
        ensures
            r@.len() == self.frames().len(),
            forall|i: int| 0 <= i < r@.len() ==> (#[trigger] r@[i])@ == self.frames()[i],
    {
        &self.bitmaps
    }

    /// Appends one blank frame at the end of the sequence.
    pub fn add_frame(&mut self)
        requires
            old(self).wf(),
        ensures
            final(self).wf(),
            final(self).width_px() == old(self).width_px(),
            final(self).height_px() == old(self).height_px(),
            final(self).frames() == old(self).frames().push(
                blank_frame(old(self).frame_len() as nat),
            ),
    {
        let n = self.frame_len_px();
        let blank = blank_pixels(n);
        self.bitmaps.push(blank);
        proof {
            assert(final(self).frames() =~= old(self).frames().push(
                blank_frame(old(self).frame_len() as nat),
            ));
        }
    }

    /// Inserts one blank frame at `idx`, shifting later frames one place
    /// towards the end; `idx` may equal the frame count (append).
    pub fn insert_frame(&mut self, idx: usize)
        requires
            old(self).wf(),
            idx <= old(self).frames().len(),
        ensures
            final(self).wf(),
            final(self).width_px() == old(self).width_px(),
            final(self).height_px() == old(self).height_px(),
            final(self).frames() == old(self).frames().insert(
                idx as int,
                blank_frame(old(self).frame_len() as nat),
            ),
    {
        let n = self.frame_len_px();
        let blank = blank_pixels(n);
        self.bitmaps.insert(idx, blank);
        proof {
            assert(final(self).frames() =~= old(self).frames().insert(
                idx as int,
                blank_frame(old(self).frame_len() as nat),
            ));
        }
    }

    /// Inserts a copy of frame `idx` immediately after it.
    pub fn duplicate_frame(&mut self, idx: usize)
        requires
            old(self).wf(),
            idx < old(self).frames().len(),
        ensures
            final(self).wf(),
            final(self).width_px() == old(self).width_px(),
            final(self).height_px() == old(self).height_px(),
            final(self).frames().len() == old(self).frames().len() + 1,
            final(self).frames() == old(self).frames().insert(
                idx as int + 1,
                old(self).frames()[idx as int],
            ),
    {
        let count = self.bitmaps.len();
        proof {
            // The exec length pins the frame count to a machine integer,
            // so `idx + 1` below cannot overflow.
            assert(idx < count);
        }
        let copy = copy_pixels(self.bitmaps.get(idx).unwrap());
        self.bitmaps.insert(idx + 1, copy);
        proof {
            assert(final(self).frames() =~= old(self).frames().insert(
                idx as int + 1,
                old(self).frames()[idx as int],
            ));
        }
    }

    /// Swaps frame `idx` with its predecessor; fails (and changes nothing)
    /// at the start of the sequence.
    pub fn move_up(&mut self, idx: usize) -> (r: bool)
        requires
            old(self).wf(),
            idx < old(self).frames().len(),
        ensures
            r <==> idx != 0,
            r ==> final(self).frames() == seq_swapped_at(old(self).frames(), idx as int),
            !r ==> *final(self) == *old(self),
            final(self).wf(),
            final(self).width_px() == old(self).width_px(),
            final(self).height_px() == old(self).height_px(),
    {
        if idx != 0 {
            let frame = self.bitmaps.remove(idx);
            self.bitmaps.insert(idx - 1, frame);
            proof {
                assert(final(self).frames() =~= seq_swapped_at(old(self).frames(), idx as int));
            }
            true
        } else {
            false
        }
    }

    /// Swaps frame `idx` with its successor; fails (and changes nothing)
    /// at the end of the sequence.
    pub fn move_down(&mut self, idx: usize) -> (r: bool)
        requires
            old(self).wf(),
            idx < old(self).frames().len(),
        ensures
            r <==> idx != old(self).frames().len() - 1,
            r ==> final(self).frames() == seq_swapped_at(old(self).frames(), idx as int + 1),
            !r ==> *final(self) == *old(self),
            final(self).wf(),
            final(self).width_px() == old(self).width_px(),
            final(self).height_px() == old(self).height_px(),
    {
        if idx != self.bitmaps.len() - 1 {
            let frame = self.bitmaps.remove(idx);
            self.bitmaps.insert(idx + 1, frame);
            proof {
                assert(final(self).frames() =~= seq_swapped_at(old(self).frames(), idx as int + 1));
            }
            true
        } else {
            false
        }
    }

    /// Removes frame `idx`. The sequence may become empty; re-adding a
    /// blank frame is the calling editor layer's responsibility.
    pub fn delete_frame(&mut self, idx: usize)
        requires
            old(self).wf(),
            idx < old(self).frames().len(),
        ensures
            final(self).wf(),
            final(self).width_px() == old(self).width_px(),
            final(self).height_px() == old(self).height_px(),
            final(self).frames() == old(self).frames().remove(idx as int),
    {
        self.bitmaps.remove(idx);
        proof {
            assert(final(self).frames() =~= old(self).frames().remove(idx as int));
        }
    }

    /// Sets every pixel of frame `idx` to false, in place.
    pub fn clear_frame(&mut self, idx: usize)
        requires
            old(self).wf(),
            idx < old(self).frames().len(),
        ensures
            final(self).wf(),
            final(self).width_px() == old(self).width_px(),
            final(self).height_px() == old(self).height_px(),
            final(self).frames() == old(self).frames().update(
                idx as int,
                blank_frame(old(self).frame_len() as nat),
            ),
    {
        let n = self.frame_len_px();
        let blank = blank_pixels(n);
        self.bitmaps.set(idx, blank);
        proof {
            assert(final(self).frames() =~= old(self).frames().update(
                idx as int,
                blank_frame(old(self).frame_len() as nat),
            ));
        }
    }

    /// Replaces the whole pixel array of frame `idx`, provided the new
    /// array has exactly the store's frame length; reports whether the
    /// replacement happened (a mismatch changes nothing).
    pub fn set_frame(&mut self, idx: usize, pixels: Vec<bool>) -> (r: bool)
        requires
            old(self).wf(),
        ensures
            r <==> (idx < old(self).frames().len() && pixels@.len() == old(self).frame_len()),
            r ==> final(self).frames() == old(self).frames().update(idx as int, pixels@),
            !r ==> *final(self) == *old(self),
            final(self).wf(),
            final(self).width_px() == old(self).width_px(),
            final(self).height_px() == old(self).height_px(),
    {
        let n = self.frame_len_px();
        if idx < self.bitmaps.len() && pixels.len() == n {
            self.bitmaps.set(idx, pixels);
            proof {
                assert(final(self).frames() =~= old(self).frames().update(idx as int, pixels@));
            }
            true
        } else {
            false
        }
    }

    /// The `(x, y, value)` triples of one frame in row-major order, or
    /// nothing when the frame index is out of range.
    pub fn iter_pixels(&self, idx: usize) -> (r: Option<Vec<(usize, usize, bool)>>)
        requires
            self.wf(),
        ensures
            r is Some <==> idx < self.frames().len(),
            r matches Some(v) ==> v@.len() == self.frame_len(),
            r matches Some(v) ==> forall|k: int|
                0 <= k < v@.len() ==> (#[trigger] v@[k]).0 == k % self.width_px() && v@[k].1 == k
                    / self.width_px() && v@[k].2 == self.frames()[idx as int][k],
    {
        if idx >= self.bitmaps.len() {
            return None;
        }
        let wpx = self.width as usize * 8;
        let n = self.frame_len_px();
        let frame = self.bitmaps.get(idx).unwrap();
        proof {
            assert(self.frames()[idx as int].len() == self.frame_len());
        }
        let mut v: Vec<(usize, usize, bool)> = Vec::new();
        let mut q: usize = 0;
        while q < n
            invariant
                wpx == self.width_px(),
                wpx >= 8,
                n == self.frame_len(),
                frame@ == self.frames()[idx as int],
                frame@.len() == n,
                q <= n,
                v@.len() == q,
                forall|k: int|
                    0 <= k < q ==> (#[trigger] v@[k]).0 == k % (wpx as int) && v@[k].1 == k / (
                    wpx as int) && v@[k].2 == frame@[k],
            decreases n - q,
        {
            let x = q % wpx;
            let y = q / wpx;
            v.push((x, y, *frame.get(q).unwrap()));
            q = q + 1;
        }
        Some(v)
    }

    /// Packs frame `idx` into bytes: row-major pixels taken eight at a
    /// time, each group most-significant-bit first.
    pub fn get_bytes(&self, idx: usize) -> (r: Vec<u8>)
        requires
            self.wf(),
            idx < self.frames().len(),
        ensures
            r@ == frame_bytes(self.frames()[idx as int]),
    {
        let n = self.frame_len_px();
        let frame = self.bitmaps.get(idx).unwrap();
        proof {
            assert(self.frames()[idx as int].len() == self.frame_len());
        }
        let count = n / 8;
        let mut r: Vec<u8> = Vec::new();
        let mut k: usize = 0;
        while k < count
            invariant
                frame@ == self.frames()[idx as int],
                frame@.len() == n,
                n <= 4096,
                count == n / 8,
                k <= count,
                r@.len() == k,
                forall|j: int| 0 <= j < k ==> r@[j] == frame_bytes(frame@)[j],
            decreases count - k,
        {
            let b = bits_to_byte(frame, 8 * k);
            r.push(b);
            k = k + 1;
        }
        proof {
            assert(r@ =~= frame_bytes(frame@));
        }
        r
    }

    /// One frame's packed bytes as a brace-delimited, comma-separated list
    /// of two-digit zero-padded hexadecimal literals, e.g. `{0x0F, 0x00}`.
    pub fn get_frame_as_string(&self, idx: usize) -> (r: String)
        requires
            self.wf(),
            idx < self.frames().len(),
        ensures
            r@ == frame_text(self.frames()[idx as int]),
    {
        let bytes = self.get_bytes(idx);
        hex_bytes_text(&bytes)
    }

    /// Every frame's hexadecimal literal, comma-separated and nested
    /// inside one outer pair of braces, in frame order.
    pub fn get_sequence_as_string(&self) -> (r: String)
        requires
            self.wf(),
        ensures
            r@ == sequence_text(self.frames()),
    {
        let ghost items = self.frames().map_values(|f: Seq<bool>| frame_text(f));
        let mut s = String::new();
        append_brace_open(&mut s);
        let count = self.bitmaps.len();
        let mut i: usize = 0;
        while i < count
            invariant
                self.wf(),
                count == self.frames().len(),
                i <= count,
                items == self.frames().map_values(|f: Seq<bool>| frame_text(f)),
                s@ == seq!['{'] + crate::text::comma_list(items.take(i as int)),
            decreases count - i,
        {
            if i > 0 {
                append_separator(&mut s);
            }
            let fs = self.get_frame_as_string(i);
            s.append(fs.as_str());
            proof {
                lemma_comma_list_push(items.take(i as int), frame_text(self.frames()[i as int]));
                assert(items.take(i as int + 1) =~= items.take(i as int).push(
                    frame_text(self.frames()[i as int]),
                ));
                assert(s@ =~= seq!['{'] + crate::text::comma_list(items.take(i as int + 1)));
            }
            i = i + 1;
        }
        proof {
            assert(items.take(count as int) =~= items);
        }
        append_brace_close(&mut s);
        proof {
            assert(s@ =~= sequence_text(self.frames()));
        }
        s
    }

    /// Expands frame `idx` in place into a directional slide: a contiguous
    /// run of `axis_len(direction)` frames replaces it, where the frame at
    /// offset `i` shows the source content translated by the direction's
    /// unit step times the kind's shift for `i`, clipped at the grid edge.
    /// Frames before and after the run are untouched.
    pub fn slide(&mut self, idx: usize, direction: Direction, animation: SlideAnimation)
        requires
            old(self).wf(),
            idx < old(self).frames().len(),
        ensures
            final(self).wf(),
            final(self).width_px() == old(self).width_px(),
            final(self).height_px() == old(self).height_px(),
            final(self).frames().len() == old(self).frames().len() + old(self).axis_len(direction)
                - 1,
            forall|j: int| 0 <= j < idx ==> final(self).frames()[j] == old(self).frames()[j],
            forall|j: int|
                idx < j < old(self).frames().len() ==> final(self).frames()[j + old(
                    self,
                ).axis_len(direction) - 1] == old(self).frames()[j],
            forall|i: int|
                0 <= i < old(self).axis_len(direction) ==> final(self).frames()[idx + i]
                    == shifted_frame(
                    old(self).frames()[idx as int],
                    old(self).width_px(),
                    old(self).height_px(),
                    direction.step_dx() * animation.shift_at(old(self).axis_len(direction), i),
                    direction.step_dy() * animation.shift_at(old(self).axis_len(direction), i),
                ),
    {
        let wpx = self.width as usize * 8;
        let hpx = self.height as usize * 8;
        let axis: usize = match direction {
            Direction::Top => hpx,
            Direction::Bottom => hpx,
            Direction::Left => wpx,
            Direction::Right => wpx,
        };
        let ghost src = old(self).frames()[idx as int];
        let ghost base = old(self).frames().len();
        proof {
            assert(old(self).frames()[idx as int].len() == old(self).frame_len());
            assert(wpx as int * (hpx as int) == old(self).frame_len());
        }
        let mut k: usize = 0;
        while k < axis - 1
            invariant
                self.wf(),
                old(self).wf(),
                self.width_px() == old(self).width_px(),
                self.height_px() == old(self).height_px(),
                idx < base,
                base == old(self).frames().len(),
                src == old(self).frames()[idx as int],
                axis == old(self).axis_len(direction),
                8 <= axis <= 64,
                k <= axis - 1,
                self.frames().len() == base + k,
                forall|p: int| 0 <= p < idx ==> #[trigger] self.frames()[p] == old(self).frames()[p],
                forall|p: int| idx <= p <= idx + k ==> #[trigger] self.frames()[p] == src,
                forall|p: int|
                    idx + k < p < base + k ==> #[trigger] self.frames()[p] == old(self).frames()[p
                        - k],
            decreases axis - 1 - k,
        {
            let ghost before = *self;
            self.duplicate_frame(idx);
            proof {
                let pos = idx as int + 1;
                let cur = self.frames();
                assert(cur == before.frames().insert(pos, before.frames()[idx as int]));
                assert forall|p: int| 0 <= p < idx implies #[trigger] cur[p] == old(
                    self,
                ).frames()[p] by {
                    assert(cur[p] == before.frames()[p]);
                }
                assert forall|p: int| idx <= p <= idx + k + 1 implies #[trigger] cur[p] == src by {
                    if p <= idx {
                        assert(cur[p] == before.frames()[p]);
                    } else {
                        assert(cur[p] == before.frames()[p - 1]);
                    }
                }
                assert forall|p: int| idx + k + 1 < p < base + k + 1 implies #[trigger] cur[p]
                    == old(self).frames()[p - (k + 1)] by {
                    assert(cur[p] == before.frames()[p - 1]);
                }
            }
            k = k + 1;
        }
        let snapshot = copy_pixels(self.bitmaps.get(idx).unwrap());
        proof {
            assert(snapshot@ == self.frames()[idx as int]);
        }
        let mut i: usize = 0;
        while i < axis
            invariant
                self.wf(),
                old(self).wf(),
                self.width_px() == old(self).width_px(),
                self.height_px() == old(self).height_px(),
                idx < base,
                base == old(self).frames().len(),
                src == old(self).frames()[idx as int],
                src.len() == old(self).frame_len(),
                axis == old(self).axis_len(direction),
                8 <= axis <= 64,
                wpx == old(self).width_px(),
                hpx == old(self).height_px(),
                8 <= wpx <= 64,
                8 <= hpx <= 64,
                wpx as int * (hpx as int) == old(self).frame_len(),
                snapshot@ == src,
                i <= axis,
                self.frames().len() == base + axis - 1,
                forall|p: int| 0 <= p < idx ==> #[trigger] self.frames()[p] == old(self).frames()[p],
                forall|p: int|
                    idx + i <= p <= idx + axis - 1 ==> #[trigger] self.frames()[p] == src,
                forall|p: int|
                    idx + axis - 1 < p < base + axis - 1 ==> #[trigger] self.frames()[p] == old(
                        self,
                    ).frames()[p - (axis - 1)],
                forall|p: int|
                    idx <= p < idx + i ==> #[trigger] self.frames()[p] == shifted_frame(
                        src,
                        wpx as int,
                        hpx as int,
                        direction.step_dx() * animation.shift_at(axis as int, p - idx),
                        direction.step_dy() * animation.shift_at(axis as int, p - idx),
                    ),
            decreases axis - i,
        {
            let shift: usize = match animation {
                SlideAnimation::SlideIn => axis - 1 - i,
                SlideAnimation::SlideOut => i,
            };
            let sdx: i32 = match direction {
                Direction::Top => 0,
                Direction::Left => -(shift as i32),
                Direction::Bottom => 0,
                Direction::Right => shift as i32,
            };
            let sdy: i32 = match direction {
                Direction::Top => -(shift as i32),
                Direction::Left => 0,
                Direction::Bottom => shift as i32,
                Direction::Right => 0,
            };
            proof {
                assert(shift as int == animation.shift_at(axis as int, i as int));
                match direction {
                    Direction::Top => {
                        assert(direction.step_dy() == -1);
                        assert((-1) * (shift as int) == -(shift as int));
                        assert(direction.step_dx() * (shift as int) == 0);
                        assert(direction.step_dy() * (shift as int) == -(shift as int));
                    },
                    Direction::Left => {
                        assert(direction.step_dx() == -1);
                        assert((-1) * (shift as int) == -(shift as int));
                        assert(direction.step_dx() * (shift as int) == -(shift as int));
                        assert(direction.step_dy() * (shift as int) == 0);
                    },
                    Direction::Bottom => {
                        assert(direction.step_dy() == 1);
                        assert(1 * (shift as int) == shift as int);
                        assert(direction.step_dx() * (shift as int) == 0);
                        assert(direction.step_dy() * (shift as int) == shift as int);
                    },
                    Direction::Right => {
                        assert(direction.step_dx() == 1);
                        assert(1 * (shift as int) == shift as int);
                        assert(direction.step_dx() * (shift as int) == shift as int);
                        assert(direction.step_dy() * (shift as int) == 0);
                    },
                }
                assert(sdx as int == direction.step_dx() * (shift as int));
                assert(sdy as int == direction.step_dy() * (shift as int));
            }
            let nf = shifted_copy(&snapshot, wpx, hpx, sdx, sdy);
            let cur_len = self.bitmaps.len();
            proof {
                assert(idx + i < cur_len);
            }
            let ghost prev = *self;
            self.bitmaps.set(idx + i, nf);
            proof {
                let cur = self.frames();
                assert forall|p: int| 0 <= p < cur.len() && p != idx + i implies #[trigger] cur[p]
                    == prev.frames()[p] by {
                    assert(self.bitmaps@[p] == prev.bitmaps@[p]);
                }
                assert(cur[idx + i] == nf@);
                assert forall|p: int| 0 <= p < cur.len() implies (#[trigger] cur[p]).len()
                    == self.frame_len() by {
                    if p == idx + i {
                        assert(cur[p].len() == wpx as int * (hpx as int));
                    } else {
                        assert(prev.frames()[p].len() == prev.frame_len());
                    }
                }
            }
            i = i + 1;
        }
    }
}

/// Inserting a frame and then deleting at the same index restores the
/// original frame sequence: `insert_frame` and `delete_frame` are
/// inverses when no other mutation intervenes.
pub proof fn lemma_insert_then_delete(frames: Seq<Seq<bool>>, i: int, inserted: Seq<bool>)
    requires
        0 <= i <= frames.len(),
    ensures
        frames.insert(i, inserted).remove(i) == frames,
{
    frames.insert_ensures(i, inserted);
    frames.insert(i, inserted).remove_ensures(i);
    assert(frames.insert(i, inserted).remove(i) =~= frames);
}

/// Exchanging two neighbouring frames twice restores the original
/// sequence: a successful `move_up` is undone by `move_down` on the new
/// position and vice versa, since both perform the same exchange.
pub proof fn lemma_swap_involution(s: Seq<Seq<bool>>, i: int)
    requires
        1 <= i < s.len(),
    ensures
        seq_swapped_at(seq_swapped_at(s, i), i) == s,
{
    assert(seq_swapped_at(seq_swapped_at(s, i), i) =~= s);
}

/// Where the single lit pixel of a slide source stands at offset `i` of
/// the run: displaced out of `(px, py)` by the direction's unit step times
/// the kind's shift for that offset when the result is still on the grid,
/// and nowhere at all when the displacement leaves the grid.
pub proof fn lemma_slide_single_pixel(
    w: int,
    h: int,
    px: int,
    py: int,
    direction: Direction,
    animation: SlideAnimation,
    len: int,
    i: int,
)
    requires
        w >= 1,
        h >= 1,
        0 <= px < w,
        0 <= py < h,
        0 <= i < len,
    ensures
        ({
            let dx = direction.step_dx() * animation.shift_at(len, i);
            let dy = direction.step_dy() * animation.shift_at(len, i);
            &&& (0 <= px + dx < w && 0 <= py + dy < h ==> shifted_frame(
                single_pixel_frame(w, h, px, py),
                w,
                h,
                dx,
                dy,
            ) == single_pixel_frame(w, h, px + dx, py + dy))
            &&& (!(0 <= px + dx < w && 0 <= py + dy < h) ==> shifted_frame(
                single_pixel_frame(w, h, px, py),
                w,
                h,
                dx,
                dy,
            ) == blank_frame((w * h) as nat))
        }),
{
    let dx = direction.step_dx() * animation.shift_at(len, i);
    let dy = direction.step_dy() * animation.shift_at(len, i);
    lemma_shifted_single_pixel(w, h, px, py, dx, dy);
}

/// A slide-in run ends on the unshifted source frame and a slide-out run
/// starts on it: the shift is zero at the last respectively first offset,
/// and a zero shift reproduces the source exactly.
pub proof fn lemma_slide_endpoints(src: Seq<bool>, w: int, h: int, len: int)
    requires
        w >= 1,
        h >= 1,
        src.len() == w * h,
        len >= 1,
    ensures
        SlideAnimation::SlideIn.shift_at(len, len - 1) == 0,
        SlideAnimation::SlideOut.shift_at(len, 0) == 0,
        shifted_frame(src, w, h, 0, 0) == src,
{
    lemma_shifted_identity(src, w, h);
}

} // verus!
