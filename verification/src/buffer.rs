//! The logical pixel backing store. It tracks its own dimensions separately
//! from the presentation surface dimensions, flags pending dimension changes,
//! and produces immutable snapshots of damaged sub-regions.

use vstd::prelude::*;

use crate::geometry::{pos, spec_clamp, Clamp, Damage};
use crate::snapshot::{copy_rect, spec_snapshot, SnapshotView, WorldDamage};

verus! {

/// Ghost model of the backing store.
#[verifier::ext_equal]
pub struct BufferView {
    pub buffer_width: usize,
    pub buffer_height: usize,
    pub buffer_size_dirty: bool,
    pub surface_width: usize,
    pub surface_height: usize,
    pub surface_size_dirty: bool,
    pub pixels: Seq<u32>,
}

/// The pixel store after a reallocation to `n` cells: existing content is
/// kept up to `n`, and any new cell holds zero.
pub open spec fn spec_resize_pixels(pix: Seq<u32>, n: int) -> Seq<u32> {
    if n <= pix.len() {
        pix.take(n)
    } else {
        pix + Seq::new((n - pix.len()) as nat, |i: int| 0u32)
    }
}

/// Scheduling a buffer resize: a no-op when the dimensions are unchanged;
/// otherwise the dimensions are updated, the dirty flag is set, and the pixel
/// store is reallocated to the new length.
pub open spec fn spec_resize_buffer(b: BufferView, width: usize, height: usize) -> BufferView {
    if b.buffer_width == width && b.buffer_height == height {
        b
    } else {
        BufferView {
            buffer_width: width,
            buffer_height: height,
            buffer_size_dirty: true,
            pixels: spec_resize_pixels(b.pixels, width * height),
            ..b
        }
    }
}

/// Scheduling a surface resize: the same no-op discipline, and the pixel
/// store is never touched.
pub open spec fn spec_resize_surface(b: BufferView, width: usize, height: usize) -> BufferView {
    if b.surface_width == width && b.surface_height == height {
        b
    } else {
        BufferView { surface_width: width, surface_height: height, surface_size_dirty: true, ..b }
    }
}

/// Clearing both dirty flags.
pub open spec fn spec_mark_clean(b: BufferView) -> BufferView {
    BufferView { buffer_size_dirty: false, surface_size_dirty: false, ..b }
}

/// Declaring damage: the candidate rectangle is clamped against the current
/// buffer extent; a clamped rectangle with zero area yields nothing, and
/// otherwise the covered pixels are copied into a fresh snapshot.
pub open spec fn spec_buffer_damage(b: BufferView, d: Damage) -> Option<SnapshotView> {
    match spec_clamp(d, b.buffer_width, b.buffer_height) {
        Option::None => Option::None,
        Option::Some(r) => Option::Some(
            SnapshotView { region: r, pixels: spec_snapshot(b.pixels, b.buffer_width as int, r) },
        ),
    }
}

/// The ghost model of an optional damage entry.
pub open spec fn opt_damage_view(o: Option<WorldDamage>) -> Option<SnapshotView> {
    match o {
        Option::None => Option::None,
        Option::Some(wd) => Option::Some(wd@),
    }
}

/// The logical pixel backing store, one 32-bit pixel per logical pixel,
/// row-major with rows of length `buffer_width`.
#[derive(Debug)]
pub struct Buffer {
    pub buffer_width: usize,
    pub buffer_height: usize,
    pub buffer_size_dirty: bool,
    pub surface_width: usize,
    pub surface_height: usize,
    pub surface_size_dirty: bool,
    pub pixels: Vec<u32>,
}

impl View for Buffer {
    type V = BufferView;

    open spec fn view(&self) -> BufferView {
        BufferView {
            buffer_width: self.buffer_width,
            buffer_height: self.buffer_height,
            buffer_size_dirty: self.buffer_size_dirty,
            surface_width: self.surface_width,
            surface_height: self.surface_height,
            surface_size_dirty: self.surface_size_dirty,
            pixels: self.pixels@,
        }
    }
}

impl Buffer {
    /// Dimensions are at least 1 by 1 and the pixel store holds exactly one
    /// cell per logical pixel.
    pub open spec fn wf(self) -> bool {
        &&& self.buffer_width >= 1
        &&& self.buffer_height >= 1
        &&& self.surface_width >= 1
        &&& self.surface_height >= 1
        &&& self.pixels@.len() == self.buffer_width * self.buffer_height
    }

    /// A 1 by 1 buffer holding a single zero pixel, with a 1 by 1 surface
    /// and clean flags.
    pub fn new() -> (b: Buffer)
        ensures
            b.wf(),
            b.buffer_width == 1,
            b.buffer_height == 1,
            !b.buffer_size_dirty,
            b.surface_width == 1,
            b.surface_height == 1,
            !b.surface_size_dirty,
            b.pixels@ == seq![0u32],
    {
        let mut pixels: Vec<u32> = Vec::new();
        pixels.push(0);
        proof {
            assert(pixels@ =~= seq![0u32]);
        }
        Buffer {
            buffer_width: 1,
            buffer_height: 1,
            buffer_size_dirty: false,
            surface_width: 1,
            surface_height: 1,
            surface_size_dirty: false,
            pixels,
        }
    }

    /// Schedule a buffer resize: no-op when the dimensions are unchanged;
    /// otherwise the pixel store is reallocated to the new length and the
    /// buffer dirty flag is set. Surface state is never touched.
    pub fn resize_buffer(&mut self, buffer_width: usize, buffer_height: usize)
        requires
            old(self).wf(),
            buffer_width >= 1,
            buffer_height >= 1,
            buffer_width * buffer_height <= usize::MAX,
        ensures
            final(self).wf(),
            final(self)@ == spec_resize_buffer(old(self)@, buffer_width, buffer_height),
    {
        if self.buffer_width == buffer_width && self.buffer_height == buffer_height {
            return ;
        }
        self.buffer_width = buffer_width;
        self.buffer_height = buffer_height;
        self.buffer_size_dirty = true;

        let ghost orig = self.pixels@;
        let n = buffer_width * buffer_height;
        if n <= self.pixels.len() {
            self.pixels.truncate(n);
        } else {
            proof {
                assert(self.pixels@.take(orig.len() as int) =~= orig);
            }
            while self.pixels.len() < n
                invariant
                    self.buffer_width == buffer_width,
                    self.buffer_height == buffer_height,
                    self.buffer_size_dirty,
                    self.surface_width == old(self).surface_width,
                    self.surface_height == old(self).surface_height,
                    self.surface_size_dirty == old(self).surface_size_dirty,
                    orig.len() < n as int,
                    orig.len() <= self.pixels@.len() <= n as int,
                    self.pixels@.take(orig.len() as int) == orig,
                    forall|i: int|
                        orig.len() <= i < self.pixels@.len() ==> self.pixels@[i] == 0u32,
                decreases n - self.pixels@.len(),
            {
                self.pixels.push(0);
                proof {
                    assert(self.pixels@.take(orig.len() as int) =~= orig);
                }
            }
        }
        proof {
            assert(self.pixels@ =~= spec_resize_pixels(orig, n as int));
            assert(self@ =~= spec_resize_buffer(old(self)@, buffer_width, buffer_height));
        }
    }

    /// Schedule a surface resize: no-op when the dimensions are unchanged;
    /// otherwise the surface dirty flag is set. The pixel store and buffer
    /// dimensions are never touched.
    pub fn resize_surface(&mut self, surface_width: usize, surface_height: usize)
        requires
            old(self).wf(),
            surface_width >= 1,
            surface_height >= 1,
        ensures
            final(self).wf(),
            final(self)@ == spec_resize_surface(old(self)@, surface_width, surface_height),
    {
        if self.surface_width == surface_width && self.surface_height == surface_height {
            return ;
        }
        self.surface_width = surface_width;
        self.surface_height = surface_height;
        self.surface_size_dirty = true;
    }

    /// Clamp the candidate rectangle against the current buffer extent and,
    /// when the clamped region still has area, copy the covered pixels into
    /// a fresh snapshot. The buffer itself is never changed.
    pub fn damage(&mut self, damage: Damage) -> (r: Option<WorldDamage>)
        requires
            old(self).wf(),
        ensures
            *final(self) == *old(self),
            final(self).wf(),
            opt_damage_view(r) == spec_buffer_damage(old(self)@, damage),
            r matches Option::Some(wd) ==> wd.wf(),
    {
        let clamped = damage.clamp(self.buffer_width, self.buffer_height);
        match clamped {
            Option::None => Option::None,
            Option::Some(region) => {
                let snap = copy_rect(&self.pixels, self.buffer_width, self.buffer_height, region);
                Option::Some(WorldDamage { damage: region, buffer: snap })
            },
        }
    }

    /// Clear both dirty flags; everything else is unchanged.
    pub fn mark_clean(&mut self)
        ensures
            final(self)@ == spec_mark_clean(old(self)@),
            old(self).wf() ==> final(self).wf(),
    {
        self.buffer_size_dirty = false;
        self.surface_size_dirty = false;
    }

    /// The live pixel store, row-major with rows of length `buffer_width`.
    pub fn pixels(&self) -> (r: &[u32])
        ensures
            r@ == self.pixels@,
    {
        self.pixels.as_slice()
    }

    /// Write one pixel of the backing store. This stands in for the raw view
    /// the embedding host writes through: content changes only here or on a
    /// reallocation.
    pub fn write_pixel(&mut self, x: usize, y: usize, value: u32)
        requires
            old(self).wf(),
            x < old(self).buffer_width,
            y < old(self).buffer_height,
        ensures
            final(self).wf(),
            final(self)@ == (BufferView {
                pixels: old(self)@.pixels.update(pos(y as int, x as int, old(self).buffer_width as int), value),
                ..old(self)@
            }),
    {
        let total = self.pixels.len();
        proof {
            assert(total == self.buffer_width * self.buffer_height);
            assert(y * self.buffer_width + x < self.buffer_width * self.buffer_height)
                by (nonlinear_arith)
                requires
                    y < self.buffer_height as int,
                    x < self.buffer_width as int,
                    self.buffer_width >= 1,
            {}
        }
        let idx = y * self.buffer_width + x;
        self.pixels[idx] = value;
    }
}

} // verus!
