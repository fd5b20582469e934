//! Baked volumetric fields: the persisted binary layout of a
//! signed-distance volume, and the per-scene texture table that maps image
//! slots to the few distinct volumes a scene may bind.
//!
//! The persisted layout is: three little-endian 32-bit world-size scalars,
//! three little-endian 32-bit resolution values (width, height, depth),
//! then `width * height * depth` little-endian 32-bit distance samples in
//! row-major order (x fastest, then y, then z).  A short or inconsistent
//! buffer fails only that asset's load, never the renderer.

use vstd::prelude::*;
use vstd::arithmetic::div_mod::{lemma_div_by_multiple, lemma_div_denominator, lemma_fundamental_div_mod};
use crate::shape::MAX_TEXTURES;

verus! {

/// A decoded volumetric field: world size per axis (raw scalar patterns),
/// the sample resolution, and the samples as raw patterns, x fastest.
#[derive(Clone, Debug)]
pub struct ShapeImage {
    pub size_bits: [u32; 3],
    pub width: u32,
    pub height: u32,
    pub depth: u32,
    pub data_bits: Vec<u32>,
}

impl ShapeImage {
    /// The sample array covers the full resolution.
    pub open spec fn wf(self) -> bool {
        self.data_bits@.len() == self.width as int * self.height as int * self.depth as int
    }
}

/// Why decoding a persisted volume failed.
#[derive(Clone, Copy, PartialEq, Eq, Structural, Debug)]
pub enum VolumeError {
    /// The buffer ends before the 24-byte header does.
    HeaderTooShort,
    /// The sample bytes do not match the resolution in the header.
    SampleCountMismatch,
}

/// The little-endian 32-bit value at byte offset `off`.
pub open spec fn le32(b: Seq<u8>, off: int) -> int {
    b[off] + 256 * (b[off + 1] + 256 * (b[off + 2] + 256 * (b[off + 3] as int)))
}

/// The header length: six 32-bit fields.
pub const HEADER_LEN: usize = 24;

/// A buffer decodes successfully: it holds the header, and exactly four
/// bytes per sample of the resolution the header declares.
pub open spec fn decode_ok(b: Seq<u8>) -> bool {
    b.len() >= 24 && b.len() - 24 == 4 * (le32(b, 12) * le32(b, 16) * le32(b, 20))
}

/// Reads the little-endian 32-bit value at `off`.
fn le32_at(b: &Vec<u8>, off: usize) -> (r: u32)
    requires
        off + 4 <= b@.len(),
    ensures
        r as int == le32(b@, off as int),
{
    let n = b.len();
    let b0 = b[off];
    let b1 = b[off + 1];
    let b2 = b[off + 2];
    let b3 = b[off + 3];
    (b0 as u32) + 256 * (b1 as u32) + 65536 * (b2 as u32) + 16777216 * (b3 as u32)
}

/// Decodes a persisted volume buffer.
///
/// Returns the decoded field exactly when the buffer is consistent:
/// `HeaderTooShort` when it ends inside the header, `SampleCountMismatch`
/// when the sample bytes differ from four per declared sample.
pub fn decode_volume(bytes: &Vec<u8>) -> (r: Result<ShapeImage, VolumeError>)
    ensures
        (r is Ok) == decode_ok(bytes@),
        r matches Err(e) ==> (e == VolumeError::HeaderTooShort <==> bytes@.len() < 24),
        r matches Ok(img) ==> {
            &&& img.wf()
            &&& img.size_bits@[0] == le32(bytes@, 0)
            &&& img.size_bits@[1] == le32(bytes@, 4)
            &&& img.size_bits@[2] == le32(bytes@, 8)
            &&& img.width == le32(bytes@, 12)
            &&& img.height == le32(bytes@, 16)
            &&& img.depth == le32(bytes@, 20)
            &&& img.data_bits@.len() == (bytes@.len() - 24) / 4
            &&& forall|k: int|
                0 <= k < img.data_bits@.len() ==> (#[trigger] img.data_bits@[k]) as int == le32(
                    bytes@,
                    24 + 4 * k,
                )
        },
{
    if bytes.len() < HEADER_LEN {
        return Err(VolumeError::HeaderTooShort);
    }
    let sx = le32_at(bytes, 0);
    let sy = le32_at(bytes, 4);
    let sz = le32_at(bytes, 8);
    let width = le32_at(bytes, 12);
    let height = le32_at(bytes, 16);
    let depth = le32_at(bytes, 20);
    proof {
        vstd::arithmetic::mul::lemma_mul_upper_bound(
            width as int,
            0xFFFF_FFFF,
            height as int,
            0xFFFF_FFFF,
        );
    }
    let wh: u128 = (width as u128) * (height as u128);
    proof {
        vstd::arithmetic::mul::lemma_mul_upper_bound(
            wh as int,
            0xFFFF_FFFF_FFFF_FFFF,
            depth as int,
            0xFFFF_FFFF,
        );
    }
    let whd: u128 = wh * (depth as u128);
    let expected: u128 = 4 * whd;
    let actual: u128 = (bytes.len() - HEADER_LEN) as u128;
    if actual != expected {
        return Err(VolumeError::SampleCountMismatch);
    }
    let count: usize = (bytes.len() - HEADER_LEN) / 4;
    proof {
        lemma_div_by_multiple(whd as int, 4);
        vstd::arithmetic::mul::lemma_mul_is_commutative(whd as int, 4);
        assert(count as int == whd as int);
    }
    let mut data_bits: Vec<u32> = Vec::new();
    let mut k: usize = 0;
    while k < count
        invariant
            k <= count,
            bytes@.len() <= usize::MAX,
            24 + 4 * count <= bytes@.len(),
            bytes@.len() - 24 == 4 * count,
            data_bits@.len() == k,
            forall|i: int|
                0 <= i < k ==> (#[trigger] data_bits@[i]) as int == le32(bytes@, 24 + 4 * i),
        decreases count - k,
    {
        let v = le32_at(bytes, HEADER_LEN + 4 * k);
        data_bits.push(v);
        k = k + 1;
    }
    Ok(
        ShapeImage {
            size_bits: [sx, sy, sz],
            width,
            height,
            depth,
            data_bits,
        },
    )
}

/// Appends the little-endian bytes of a 32-bit value.
fn push_le32(out: &mut Vec<u8>, v: u32)
    ensures
        final(out)@.len() == old(out)@.len() + 4,
        final(out)@ == old(out)@ + seq![
            (v as int % 256) as u8,
            (v as int / 256 % 256) as u8,
            (v as int / 65536 % 256) as u8,
            (v as int / 16777216) as u8,
        ],
        le32(final(out)@, old(out)@.len() as int) == v,
        forall|i: int| 0 <= i < old(out)@.len() ==> final(out)@[i] == old(out)@[i],
{
    let b0: u8 = (v % 256) as u8;
    let b1: u8 = (v / 256 % 256) as u8;
    let b2: u8 = (v / 65536 % 256) as u8;
    let b3: u8 = (v / 16777216) as u8;
    out.push(b0);
    out.push(b1);
    out.push(b2);
    out.push(b3);
    proof {
        let vi = v as int;
        lemma_fundamental_div_mod(vi, 256);
        lemma_fundamental_div_mod(vi / 256, 256);
        lemma_fundamental_div_mod(vi / 65536, 256);
        lemma_div_denominator(vi, 256, 256);
        lemma_div_denominator(vi, 65536, 256);
        assert(vi == vi % 256 + 256 * (vi / 256 % 256 + 256 * (vi / 65536 % 256 + 256 * (vi
            / 16777216))));
        assert(final(out)@ =~= old(out)@ + seq![b0, b1, b2, b3]);
    }
}

/// Encodes a volumetric field into the persisted layout.
pub fn encode_volume(img: &ShapeImage) -> (r: Vec<u8>)
    requires
        img.wf(),
        24 + 4 * img.data_bits@.len() <= usize::MAX,
    ensures
        r@.len() == 24 + 4 * img.data_bits@.len(),
        le32(r@, 0) == img.size_bits@[0],
        le32(r@, 4) == img.size_bits@[1],
        le32(r@, 8) == img.size_bits@[2],
        le32(r@, 12) == img.width,
        le32(r@, 16) == img.height,
        le32(r@, 20) == img.depth,
        forall|k: int|
            0 <= k < img.data_bits@.len() ==> le32(r@, 24 + 4 * k) == (
            #[trigger] img.data_bits@[k]) as int,
        decode_ok(r@),
{
    let mut out: Vec<u8> = Vec::new();
    push_le32(&mut out, img.size_bits[0]);
    push_le32(&mut out, img.size_bits[1]);
    push_le32(&mut out, img.size_bits[2]);
    push_le32(&mut out, img.width);
    push_le32(&mut out, img.height);
    push_le32(&mut out, img.depth);
    let mut k: usize = 0;
    while k < img.data_bits.len()
        invariant
            k <= img.data_bits@.len(),
            24 + 4 * img.data_bits@.len() <= usize::MAX,
            out@.len() == 24 + 4 * k,
            le32(out@, 0) == img.size_bits@[0],
            le32(out@, 4) == img.size_bits@[1],
            le32(out@, 8) == img.size_bits@[2],
            le32(out@, 12) == img.width,
            le32(out@, 16) == img.height,
            le32(out@, 20) == img.depth,
            forall|i: int|
                0 <= i < k ==> le32(out@, 24 + 4 * i) == (#[trigger] img.data_bits@[i]) as int,
        decreases img.data_bits@.len() - k,
    {
        let ghost pre = out@;
        push_le32(&mut out, img.data_bits[k]);
        proof {
            assert forall|i: int| 0 <= i < k + 1 implies le32(out@, 24 + 4 * i) == (
            #[trigger] img.data_bits@[i]) as int by {
                if i < k {
                    assert(le32(pre, 24 + 4 * i) == img.data_bits@[i] as int);
                    assert(out@[24 + 4 * i] == pre[24 + 4 * i]);
                    assert(out@[24 + 4 * i + 1] == pre[24 + 4 * i + 1]);
                    assert(out@[24 + 4 * i + 2] == pre[24 + 4 * i + 2]);
                    assert(out@[24 + 4 * i + 3] == pre[24 + 4 * i + 3]);
                } else {
                    assert(le32(out@, pre.len() as int) == img.data_bits@[i] as int);
                }
            }
        }
        k = k + 1;
    }
    proof {
        assert(out@.len() - 24 == 4 * (le32(out@, 12) * le32(out@, 16) * le32(out@, 20))) by {
            assert(le32(out@, 12) == img.width as int);
            assert(le32(out@, 16) == img.height as int);
            assert(le32(out@, 20) == img.depth as int);
            assert(img.data_bits@.len() == img.width as int * img.height as int
                * img.depth as int);
        }
    }
    out
}

/// The per-scene table of distinct volumetric images: the bound texture
/// handles, and, for each packed image slot, the texture it samples.  A
/// slot with no entry saw the texture table already full.
pub struct ShapeImages {
    pub handles: Vec<u64>,
    pub slots: Vec<Option<u8>>,
}

impl ShapeImages {
    /// The handles are distinct and within the table capacity, and every
    /// assigned slot points at a real handle.
    pub open spec fn wf(self) -> bool {
        &&& self.handles@.len() <= MAX_TEXTURES as int
        &&& forall|x: int, y: int|
            0 <= x < y < self.handles@.len() ==> (#[trigger] self.handles@[x]) != (
            #[trigger] self.handles@[y])
        &&& forall|i: int|
            0 <= i < self.slots@.len() ==> ((#[trigger] self.slots@[i]) matches Some(w)
                ==> (w as int) < self.handles@.len())
    }

    /// An empty table.
    pub fn new() -> (t: Self)
        ensures
            t.wf(),
            t.handles@.len() == 0,
            t.slots@.len() == 0,
    {
        ShapeImages { handles: Vec::new(), slots: Vec::new() }
    }

    /// Registers the next packed image slot's volume: reuse the texture of
    /// an already-bound handle, bind a new texture while the table has
    /// room, and leave the slot unassigned (reported by the caller) when
    /// it is full.
    pub fn add_image(&mut self, image: u64)
        requires
            old(self).wf(),
        ensures
            final(self).wf(),
            final(self).slots@.len() == old(self).slots@.len() + 1,
            forall|i: int|
                0 <= i < old(self).slots@.len() ==> (#[trigger] final(self).slots@[i]) == old(
                    self,
                ).slots@[i],
            (exists|x: int|
                0 <= x < old(self).handles@.len() && old(self).handles@[x] == image) ==> {
                &&& final(self).handles@ == old(self).handles@
                &&& final(self).slots@.last() matches Some(w) && old(self).handles@[w as int]
                    == image && (forall|y: int|
                    0 <= y < w as int ==> (#[trigger] old(self).handles@[y]) != image)
            },
            (forall|x: int|
                0 <= x < old(self).handles@.len() ==> (#[trigger] old(self).handles@[x]) != image)
                && old(self).handles@.len() < MAX_TEXTURES as int ==> {
                &&& final(self).handles@ == old(self).handles@.push(image)
                &&& final(self).slots@.last() == Some(old(self).handles@.len() as u8)
            },
            (forall|x: int|
                0 <= x < old(self).handles@.len() ==> (#[trigger] old(self).handles@[x]) != image)
                && old(self).handles@.len() >= MAX_TEXTURES as int ==> {
                &&& final(self).handles@ == old(self).handles@
                &&& final(self).slots@.last() is None
            },
    {
        let mut j: usize = 0;
        while j < self.handles.len()
            invariant
                j <= self.handles@.len(),
                *self == *old(self),
                old(self).wf(),
                forall|x: int| 0 <= x < j ==> (#[trigger] self.handles@[x]) != image,
            decreases self.handles@.len() - j,
        {
            if self.handles[j] == image {
                self.slots.push(Some(j as u8));
                return ;
            }
            j = j + 1;
        }
        if self.handles.len() < MAX_TEXTURES as usize {
            let w = self.handles.len() as u8;
            self.handles.push(image);
            self.slots.push(Some(w));
            proof {
                assert forall|x: int, y: int|
                    0 <= x < y < self.handles@.len() implies (#[trigger] self.handles@[x]) != (
                #[trigger] self.handles@[y]) by {
                    if y + 1 == self.handles@.len() {
                        assert(self.handles@[x] == old(self).handles@[x]);
                    }
                }
            }
        } else {
            self.slots.push(None);
        }
    }

    /// The texture index a packed image slot samples.  The caller must not
    /// ask for a slot that was left unassigned, as the binding
    /// layer treats that as a programming error.
    pub fn get_image_index(&self, shape_index: u8) -> (r: u8)
        requires
            (shape_index as int) < self.slots@.len(),
            self.slots@[shape_index as int] is Some,
        ensures
            Some(r) == self.slots@[shape_index as int],
    {
        match self.slots[shape_index as usize] {
            Some(w) => w,
            None => vstd::pervasive::unreached(),
        }
    }
}

/// One of the first `n` image slots asked for handle `h`.
pub open spec fn handle_justified(h: u64, images: Seq<crate::pack::PackedImage>, n: int) -> bool {
    exists|k: int| 0 <= k < n && (#[trigger] images[k]).image == h
}

/// Every bound handle was asked for by one of the first `n` image slots.
pub open spec fn handles_from_slots(handles: Seq<u64>, images: Seq<crate::pack::PackedImage>, n: int) -> bool {
    forall|w: int|
        0 <= w < handles.len() ==> #[trigger] handle_justified(handles[w], images, n)
}

/// Builds the per-scene texture table for the packed image slots, in slot
/// order: each slot samples the texture of its image's handle; handles are
/// bound once each, in order of first appearance, up to the table
/// capacity; slots whose image found the table full stay unassigned, and
/// no handle is bound that no slot asked for.
pub fn build_image_table(images: &Vec<crate::pack::PackedImage>) -> (t: ShapeImages)
    ensures
        t.wf(),
        t.slots@.len() == images@.len(),
        forall|k: int|
            0 <= k < images@.len() ==> match #[trigger] t.slots@[k] {
                Some(w) => (w as int) < t.handles@.len() && t.handles@[w as int] == images@[k].image,
                None => t.handles@.len() == MAX_TEXTURES as int && (forall|h: int|
                    0 <= h < t.handles@.len() ==> (#[trigger] t.handles@[h]) != images@[k].image),
            },
        handles_from_slots(t.handles@, images@, images@.len() as int),
{
    let mut t = ShapeImages::new();
    let mut j: usize = 0;
    while j < images.len()
        invariant
            j <= images@.len(),
            t.wf(),
            t.slots@.len() == j,
            forall|k: int|
                0 <= k < j ==> match #[trigger] t.slots@[k] {
                    Some(w) => (w as int) < t.handles@.len() && t.handles@[w as int]
                        == images@[k].image,
                    None => t.handles@.len() == MAX_TEXTURES as int && (forall|h: int|
                        0 <= h < t.handles@.len() ==> (#[trigger] t.handles@[h])
                            != images@[k].image),
                },
            handles_from_slots(t.handles@, images@, j as int),
        decreases images@.len() - j,
    {
        let ghost pre = t;
        let img = images[j].image;
        t.add_image(img);
        proof {
            if exists|x: int| 0 <= x < pre.handles@.len() && pre.handles@[x] == img {
                assert(t.handles@ == pre.handles@);
                lemma_handles_from_slots_widen(t.handles@, images@, j as int);
            } else if pre.handles@.len() < MAX_TEXTURES as int {
                assert(t.handles@ == pre.handles@.push(img));
                assert(t.handles@[t.handles@.len() - 1] == img);
                assert(handles_from_slots(t.handles@, images@, j + 1)) by {
                    assert forall|w: int| 0 <= w < t.handles@.len() implies #[trigger] handle_justified(
                        t.handles@[w],
                        images@,
                        j + 1,
                    ) by {
                        if w < pre.handles@.len() {
                            assert(t.handles@[w] == pre.handles@[w]);
                            assert(handle_justified(pre.handles@[w], images@, j as int));
                            let k0 = choose|k: int|
                                0 <= k < j && (#[trigger] images@[k]).image == pre.handles@[w];
                            assert(0 <= k0 < j + 1 && images@[k0].image == t.handles@[w]);
                        } else {
                            assert(t.handles@[w] == images@[j as int].image);
                            assert(0 <= j < j + 1 && images@[j as int].image == t.handles@[w]);
                        }
                    }
                }
            } else {
                assert(t.handles@ == pre.handles@);
                lemma_handles_from_slots_widen(t.handles@, images@, j as int);
            }
            assert forall|k: int| 0 <= k < j + 1 implies match #[trigger] t.slots@[k] {
                Some(w) => (w as int) < t.handles@.len() && t.handles@[w as int]
                    == images@[k].image,
                None => t.handles@.len() == MAX_TEXTURES as int && (forall|h: int|
                    0 <= h < t.handles@.len() ==> (#[trigger] t.handles@[h])
                        != images@[k].image),
            } by {
                if k < j {
                    assert(t.slots@[k] == pre.slots@[k]);
                } else {
                    assert(t.slots@[k] == t.slots@.last());
                }
            }
        }
        j = j + 1;
    }
    t
}

/// A handle justified by the first `n` slots is justified by `n + 1` too.
proof fn lemma_handles_from_slots_widen(handles: Seq<u64>, images: Seq<crate::pack::PackedImage>, n: int)
    requires
        handles_from_slots(handles, images, n),
    ensures
        handles_from_slots(handles, images, n + 1),
{
    assert forall|w: int| 0 <= w < handles.len() implies #[trigger] handle_justified(
        handles[w],
        images,
        n + 1,
    ) by {
        assert(handle_justified(handles[w], images, n));
        let k0 = choose|k: int| 0 <= k < n && (#[trigger] images[k]).image == handles[w];
        assert(0 <= k0 < n + 1 && images[k0].image == handles[w]);
    }
}

} // verus!
