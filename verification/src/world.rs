//! The orchestrator: owns the buffer and the FIFO damage queue with its
//! running union, decides coalescing on each declared damage, and on draw
//! replays every queued snapshot into a presenter frame in order.

use std::collections::VecDeque;

use vstd::arithmetic::div_mod::{lemma_fundamental_div_mod, lemma_fundamental_div_mod_converse};
use vstd::prelude::*;

use crate::buffer::{
    opt_damage_view, spec_buffer_damage, spec_mark_clean, spec_resize_buffer, spec_resize_surface,
    Buffer, BufferView,
};
use crate::geometry::{
    lemma_contains_trans, lemma_union_contains, lemma_union_wf, pos, rect_wf, spec_contains,
    spec_fits, spec_is_empty, spec_union, Damage,
};
use crate::snapshot::{lemma_pos_div_mod, SnapshotView, WorldDamage};

verus! {

/// Ghost model of the world: the buffer, the queued entries in FIFO order,
/// and the running union of all queued regions.
#[verifier::ext_equal]
pub struct WorldView {
    pub buffer: BufferView,
    pub damages: Seq<SnapshotView>,
    pub current: Damage,
}

/// Pixel index `j` of a frame with row length `fw` lies inside region `r`.
pub open spec fn spec_covers(r: Damage, fw: int, j: int) -> bool {
    r.top <= j / fw < r.top + r.height && r.left <= j % fw < r.left + r.width
}

/// The snapshot cell that frame index `j` corresponds to within region `r`.
pub open spec fn snap_pos(r: Damage, fw: int, j: int) -> int {
    pos(j / fw - r.top, j % fw - r.left, r.width as int)
}

/// One snapshot replayed over a frame with row length `fw`: covered cells
/// take the snapshot's pixel, all others keep the frame's.
pub open spec fn spec_blit(frame: Seq<u32>, fw: int, e: SnapshotView) -> Seq<u32> {
    Seq::new(
        frame.len(),
        |j: int|
            if spec_covers(e.region, fw, j) {
                e.pixels[snap_pos(e.region, fw, j)]
            } else {
                frame[j]
            },
    )
}

/// One queued entry applied to a frame: an entry whose region no longer fits
/// the current frame dimensions (a resize may have landed since it was
/// queued) is skipped entirely.
pub open spec fn spec_blit_entry(frame: Seq<u32>, fw: usize, fh: usize, e: SnapshotView) -> Seq<
    u32,
> {
    if fw > 0 && spec_fits(e.region, fw, fh) {
        spec_blit(frame, fw as int, e)
    } else {
        frame
    }
}

/// All queued entries applied to a frame, in FIFO order.
pub open spec fn spec_blit_all(
    frame: Seq<u32>,
    fw: usize,
    fh: usize,
    ds: Seq<SnapshotView>,
) -> Seq<u32>
    decreases ds.len(),
{
    if ds.len() == 0 {
        frame
    } else {
        spec_blit_all(spec_blit_entry(frame, fw, fh, ds[0]), fw, fh, ds.skip(1))
    }
}

/// Appending one entry to the queue and replaying is replaying the queue and
/// then that entry.
pub proof fn lemma_blit_all_push(
    frame: Seq<u32>,
    fw: usize,
    fh: usize,
    s: Seq<SnapshotView>,
    e: SnapshotView,
)
    ensures
        spec_blit_all(frame, fw, fh, s.push(e)) == spec_blit_entry(
            spec_blit_all(frame, fw, fh, s),
            fw,
            fh,
            e,
        ),
    decreases s.len(),
{
    let se = s.push(e);
    if s.len() == 0 {
        assert(se[0] == e);
        assert(se.skip(1) =~= Seq::<SnapshotView>::empty());
        assert(spec_blit_all(frame, fw, fh, se) == spec_blit_all(
            spec_blit_entry(frame, fw, fh, e),
            fw,
            fh,
            Seq::<SnapshotView>::empty(),
        ));
        assert(spec_blit_all(spec_blit_entry(frame, fw, fh, e), fw, fh, Seq::<
            SnapshotView,
        >::empty()) == spec_blit_entry(frame, fw, fh, e));
    } else {
        assert(se[0] == s[0]);
        assert(se.skip(1) =~= s.skip(1).push(e));
        assert(spec_blit_all(frame, fw, fh, se) == spec_blit_all(
            spec_blit_entry(frame, fw, fh, s[0]),
            fw,
            fh,
            s.skip(1).push(e),
        ));
        assert(spec_blit_all(frame, fw, fh, s) == spec_blit_all(
            spec_blit_entry(frame, fw, fh, s[0]),
            fw,
            fh,
            s.skip(1),
        ));
        lemma_blit_all_push(spec_blit_entry(frame, fw, fh, s[0]), fw, fh, s.skip(1), e);
    }
}

/// Declaring damage on the world: clamp against the buffer, snapshot, then
/// coalesce. When the new clamped region contains the running union, every
/// queued entry is redundant and the queue is replaced by the new entry
/// alone; otherwise the entry is appended and the union grows. Containment
/// is tested against the clamped region.
pub open spec fn spec_world_damage(w: WorldView, d: Damage) -> WorldView {
    match spec_buffer_damage(w.buffer, d) {
        Option::None => w,
        Option::Some(e) => {
            if spec_contains(e.region, w.current) {
                WorldView { damages: seq![e], current: e.region, ..w }
            } else {
                WorldView {
                    damages: w.damages.push(e),
                    current: spec_union(w.current, e.region),
                    ..w
                }
            }
        },
    }
}

/// The world after a draw: the queue is empty, the running union is reset to
/// the empty rectangle, and the buffer is untouched.
pub open spec fn spec_drawn(w: WorldView) -> WorldView {
    WorldView {
        buffer: w.buffer,
        damages: Seq::<SnapshotView>::empty(),
        current: Damage { left: 0, top: 0, width: 0, height: 0 },
    }
}

/// A frame with the first `upto` snapshot cells of one entry written.
spec fn spec_blit_upto(frame: Seq<u32>, fw: int, e: SnapshotView, upto: int) -> Seq<u32> {
    Seq::new(
        frame.len(),
        |j: int|
            if spec_covers(e.region, fw, j) && snap_pos(e.region, fw, j) < upto {
                e.pixels[snap_pos(e.region, fw, j)]
            } else {
                frame[j]
            },
    )
}

/// The world: one buffer, one damage queue, one running union. The external
/// presenter is not owned here; the embedding host applies the pending
/// resizes it reports, hands in the presenter's frame for `draw`, and calls
/// `mark_clean` once the presenter accepted the new dimensions.
#[derive(Debug)]
pub struct World {
    pub buffer: Buffer,
    pub damages: VecDeque<WorldDamage>,
    pub current_damage: Damage,
}

impl View for World {
    type V = WorldView;

    open spec fn view(&self) -> WorldView {
        WorldView {
            buffer: self.buffer@,
            damages: Seq::new(self.damages@.len(), |i: int| self.damages@[i]@),
            current: self.current_damage,
        }
    }
}

impl World {
    /// The buffer is well formed, every queued entry is well formed, and the
    /// running union contains every queued region.
    pub open spec fn wf(self) -> bool {
        &&& self.buffer.wf()
        &&& rect_wf(self.current_damage)
        &&& forall|i: int| 0 <= i < self.damages@.len() ==> (#[trigger] self.damages@[i]).wf()
        &&& forall|i: int|
            0 <= i < self.damages@.len() ==> spec_contains(
                self.current_damage,
                (#[trigger] self.damages@[i]).damage,
            )
    }

    /// A fresh world: a 1 by 1 buffer holding one zero pixel, an empty
    /// queue, and an empty running union.
    pub fn new() -> (w: World)
        ensures
            w.wf(),
            w@.damages == Seq::<SnapshotView>::empty(),
            w@.current == (Damage { left: 0, top: 0, width: 0, height: 0 }),
            w@.buffer == (BufferView {
                buffer_width: 1,
                buffer_height: 1,
                buffer_size_dirty: false,
                surface_width: 1,
                surface_height: 1,
                surface_size_dirty: false,
                pixels: seq![0u32],
            }),
    {
        let w = World {
            buffer: Buffer::new(),
            damages: VecDeque::new(),
            current_damage: Damage { left: 0, top: 0, width: 0, height: 0 },
        };
        proof {
            assert(w@.damages =~= Seq::<SnapshotView>::empty());
            assert(w@.buffer =~= BufferView {
                buffer_width: 1,
                buffer_height: 1,
                buffer_size_dirty: false,
                surface_width: 1,
                surface_height: 1,
                surface_size_dirty: false,
                pixels: seq![0u32],
            });
        }
        w
    }

    /// Schedule a buffer resize for the next draw.
    pub fn resize_buffer(&mut self, buffer_width: usize, buffer_height: usize)
        requires
            old(self).wf(),
            buffer_width >= 1,
            buffer_height >= 1,
            buffer_width * buffer_height <= usize::MAX,
        ensures
            final(self).wf(),
            final(self)@ == (WorldView {
                buffer: spec_resize_buffer(old(self)@.buffer, buffer_width, buffer_height),
                ..old(self)@
            }),
    {
        self.buffer.resize_buffer(buffer_width, buffer_height);
        proof {
            assert(self@.damages =~= old(self)@.damages);
            assert(self@ =~= (WorldView {
                buffer: spec_resize_buffer(old(self)@.buffer, buffer_width, buffer_height),
                ..old(self)@
            }));
        }
    }

    /// Schedule a surface resize for the next draw.
    pub fn resize_surface(&mut self, surface_width: usize, surface_height: usize)
        requires
            old(self).wf(),
            surface_width >= 1,
            surface_height >= 1,
        ensures
            final(self).wf(),
            final(self)@ == (WorldView {
                buffer: spec_resize_surface(old(self)@.buffer, surface_width, surface_height),
                ..old(self)@
            }),
    {
        self.buffer.resize_surface(surface_width, surface_height);
        proof {
            assert(self@.damages =~= old(self)@.damages);
            assert(self@ =~= (WorldView {
                buffer: spec_resize_surface(old(self)@.buffer, surface_width, surface_height),
                ..old(self)@
            }));
        }
    }

    /// Clear the buffer's dirty flags, once the presenter has accepted the
    /// pending resizes.
    pub fn mark_clean(&mut self)
        requires
            old(self).wf(),
        ensures
            final(self).wf(),
            final(self)@ == (WorldView { buffer: spec_mark_clean(old(self)@.buffer), ..old(self)@ }),
    {
        self.buffer.mark_clean();
        proof {
            assert(self@.damages =~= old(self)@.damages);
            assert(self@ =~= (WorldView {
                buffer: spec_mark_clean(old(self)@.buffer),
                ..old(self)@
            }));
        }
    }

    /// Declare a damaged region: clamp it against the current buffer extent,
    /// snapshot the covered pixels, and coalesce into the queue. A region
    /// that clamps to zero area is silently discarded.
    pub fn damage(&mut self, damage: Damage)
        requires
            old(self).wf(),
        ensures
            final(self).wf(),
            final(self)@ == spec_world_damage(old(self)@, damage),
    {
        let ghost pre = self@;
        let result = self.buffer.damage(damage);
        match result {
            Option::None => {
                proof {
                    assert(self@ =~= pre);
                }
            },
            Option::Some(world_damage) => {
                let ghost e = world_damage@;
                if world_damage.damage.contains_rect(&self.current_damage) {
                    self.damages.clear();
                    self.current_damage = world_damage.damage;
                } else {
                    let merged = self.current_damage.union(&world_damage.damage);
                    proof {
                        lemma_union_wf(pre.current, e.region);
                    }
                    self.current_damage = merged;
                }
                self.damages.push_back(world_damage);
                proof {
                    if spec_contains(e.region, pre.current) {
                        assert(self@.damages =~= seq![e]);
                    } else {
                        assert(self@.damages =~= pre.damages.push(e));
                        lemma_union_contains(pre.current, e.region);
                        assert forall|i: int| 0 <= i < self.damages@.len() implies spec_contains(
                            self.current_damage,
                            (#[trigger] self.damages@[i]).damage,
                        ) by {
                            if i < self.damages@.len() - 1 {
                                lemma_contains_trans(
                                    self.current_damage,
                                    pre.current,
                                    self.damages@[i].damage,
                                );
                            }
                        }
                    }
                    assert(self@ =~= spec_world_damage(pre, damage));
                }
            },
        }
    }

    /// Replay every queued snapshot into the presenter's frame in FIFO
    /// order, skipping entries that no longer fit the frame, then empty the
    /// queue and reset the running union. The buffer is untouched.
    pub fn draw(&mut self, frame: &mut Vec<u32>, frame_width: usize, frame_height: usize)
        requires
            old(self).wf(),
            old(frame)@.len() == frame_width * frame_height,
        ensures
            final(self).wf(),
            final(frame)@ == spec_blit_all(
                old(frame)@,
                frame_width,
                frame_height,
                old(self)@.damages,
            ),
            final(self)@ == spec_drawn(old(self)@),
    {
        let ghost pre = frame@;
        let ghost ds = self@.damages;
        proof {
            assert(ds.take(0) =~= Seq::<SnapshotView>::empty());
        }
        let n = self.damages.len();
        let mut i: usize = 0;
        while i < n
            invariant
                *self == *old(self),
                old(self).wf(),
                i <= n,
                n == self.damages@.len(),
                ds == self@.damages,
                pre.len() == frame_width * frame_height,
                frame@.len() == pre.len(),
                frame@ == spec_blit_all(pre, frame_width, frame_height, ds.take(i as int)),
            decreases n - i,
        {
            let ghost frame_before = frame@;
            proof {
                assert(self.damages@[i as int].wf());
            }
            let wd = &self.damages[i];
            let fits_ok = wd.damage.left + wd.damage.width <= frame_width && wd.damage.top
                + wd.damage.height <= frame_height;
            if fits_ok {
                blit_snapshot(frame, frame_width, frame_height, wd);
            }
            proof {
                assert(ds.take(i + 1) =~= ds.take(i as int).push(ds[i as int]));
                lemma_blit_all_push(pre, frame_width, frame_height, ds.take(i as int), ds[i as int]);
                assert(frame@ == spec_blit_entry(frame_before, frame_width, frame_height, ds[i as int]));
            }
            i += 1;
        }
        proof {
            assert(ds.take(n as int) =~= ds);
        }
        self.damages.clear();
        self.current_damage = Damage { left: 0, top: 0, width: 0, height: 0 };
        proof {
            assert(self@.damages =~= Seq::<SnapshotView>::empty());
            assert(self@ =~= spec_drawn(old(self)@));
        }
    }

    /// The resizes a draw must hand to the presenter before blitting: the
    /// buffer dimensions when the buffer flag is dirty, and the surface
    /// dimensions when the surface flag is dirty. On failure of either call
    /// the host leaves the flags dirty, so the resize is retried on the next
    /// draw; on success it calls `mark_clean`.
    pub fn pending_resizes(&self) -> (r: (Option<(usize, usize)>, Option<(usize, usize)>))
        ensures
            r.0 == (if self.buffer.buffer_size_dirty {
                Option::Some((self.buffer.buffer_width, self.buffer.buffer_height))
            } else {
                Option::<(usize, usize)>::None
            }),
            r.1 == (if self.buffer.surface_size_dirty {
                Option::Some((self.buffer.surface_width, self.buffer.surface_height))
            } else {
                Option::<(usize, usize)>::None
            }),
    {
        let buffer_resize = if self.buffer.buffer_size_dirty {
            Option::Some((self.buffer.buffer_width, self.buffer.buffer_height))
        } else {
            Option::None
        };
        let surface_resize = if self.buffer.surface_size_dirty {
            Option::Some((self.buffer.surface_width, self.buffer.surface_height))
        } else {
            Option::None
        };
        (buffer_resize, surface_resize)
    }

    /// How many damage entries are queued.
    pub fn damage_count(&self) -> (n: usize)
        ensures
            n == self@.damages.len(),
    {
        self.damages.len()
    }

    /// The queued entry at position `i`, front of the queue first.
    pub fn queued(&self, i: usize) -> (r: &WorldDamage)
        requires
            i < self@.damages.len(),
        ensures
            *r == self.damages@[i as int],
            r@ == self@.damages[i as int],
    {
        &self.damages[i]
    }
}

/// Write one snapshot into the frame, row by row. The region must fit the
/// frame entirely.
fn blit_snapshot(frame: &mut Vec<u32>, frame_width: usize, frame_height: usize, e: &WorldDamage)
    requires
        e.wf(),
        spec_fits(e.damage, frame_width, frame_height),
        old(frame)@.len() == frame_width * frame_height,
    ensures
        final(frame)@ == spec_blit(old(frame)@, frame_width as int, e@),
{
    let ghost pre = frame@;
    // the frame and snapshot sizes fit in usize, being lengths of live vectors
    let total = frame.len();
    let snap_total = e.buffer.len();
    let w = e.damage.width;
    let h = e.damage.height;
    proof {
        assert(total == frame_width * frame_height);
        assert(snap_total == w * h);
    }
    let left = e.damage.left;
    let top = e.damage.top;
    proof {
        assert(spec_blit_upto(pre, frame_width as int, e@, 0) =~= pre);
    }
    let mut row: usize = 0;
    while row < h
        invariant
            w == e.damage.width,
            h == e.damage.height,
            left == e.damage.left,
            top == e.damage.top,
            e.wf(),
            spec_fits(e.damage, frame_width, frame_height),
            pre.len() == frame_width * frame_height,
            frame_width * frame_height <= usize::MAX,
            w * h <= usize::MAX,
            frame@.len() == pre.len(),
            row <= h,
            frame@ == spec_blit_upto(pre, frame_width as int, e@, (row * w) as int),
        decreases h - row,
    {
        let mut col: usize = 0;
        while col < w
            invariant
                w == e.damage.width,
                h == e.damage.height,
                left == e.damage.left,
                top == e.damage.top,
                e.wf(),
                spec_fits(e.damage, frame_width, frame_height),
                pre.len() == frame_width * frame_height,
                frame_width * frame_height <= usize::MAX,
                w * h <= usize::MAX,
                frame@.len() == pre.len(),
                row < h,
                col <= w,
                frame@ == spec_blit_upto(pre, frame_width as int, e@, (row * w + col) as int),
            decreases w - col,
        {
            proof {
                assert((top + row) * frame_width + (left + col) < frame_width * frame_height)
                    by (nonlinear_arith)
                    requires
                        top + row < frame_height as int,
                        left + col < frame_width as int,
                        frame_width >= 1,
                {}
                assert(row * w + col < w * h) by (nonlinear_arith)
                    requires
                        0 <= col < w as int,
                        0 <= row < h as int,
                {}
            }
            let fidx = (top + row) * frame_width + (left + col);
            let sidx = row * w + col;
            let v = e.buffer[sidx];
            let ghost mid = frame@;
            frame[fidx] = v;
            proof {
                let fw = frame_width as int;
                let k = sidx as int;
                lemma_pos_div_mod((top + row) as int, (left + col) as int, fw);
                lemma_pos_div_mod(row as int, col as int, w as int);
                assert(spec_covers(e@.region, fw, fidx as int));
                assert(snap_pos(e@.region, fw, fidx as int) == k);
                assert forall|j: int| 0 <= j < pre.len() implies spec_blit_upto(
                    pre,
                    fw,
                    e@,
                    k + 1,
                )[j] == frame@[j] by {
                    if j != fidx as int {
                        if spec_covers(e@.region, fw, j) && snap_pos(e@.region, fw, j) == k {
                            lemma_fundamental_div_mod(j, fw);
                            lemma_fundamental_div_mod_converse(
                                k,
                                w as int,
                                j / fw - top,
                                j % fw - left,
                            );
                            assert(j / fw - top == row && j % fw - left == col as int);
                            assert(j == fw * (top + row) + (left + col));
                            assert(false);
                        }
                    }
                }
                assert(spec_blit_upto(pre, fw, e@, k + 1) =~= frame@);
            }
            col += 1;
        }
        proof {
            assert((row + 1) * w == row * w + w) by (nonlinear_arith) {}
        }
        row += 1;
    }
    proof {
        let fw = frame_width as int;
        assert forall|j: int|
            0 <= j < pre.len() && spec_covers(e@.region, fw, j) implies 0 <= snap_pos(
            e@.region,
            fw,
            j,
        ) < (h * w) as int by {
            assert((j / fw - top) * w + (j % fw - left) < h * w && 0 <= (j / fw - top) * w + (j % fw
                - left)) by (nonlinear_arith)
                requires
                    0 <= j / fw - top < h as int,
                    0 <= j % fw - left < w as int,
            {}
        }
        assert(spec_blit_upto(pre, fw, e@, (h * w) as int) =~= spec_blit(pre, fw, e@));
    }
}

} // verus!
