//! Properties of the damage-tracking core that relate several operations,
//! stated over the ghost models and proved once and for all.

use vstd::prelude::*;

use crate::buffer::{spec_buffer_damage, spec_mark_clean, spec_resize_buffer, BufferView};
use crate::geometry::{
    pos, rect_wf, spec_clamp, spec_contains, spec_fits, spec_is_empty, spec_union, Damage,
};
use crate::snapshot::{lemma_pos_div_mod, spec_snapshot, SnapshotView};
use crate::world::{
    snap_pos, spec_blit_all, spec_blit_entry, spec_covers, spec_drawn, spec_world_damage,
    WorldView,
};

verus! {

/// After any buffer resize the pixel store again holds exactly one cell per
/// logical pixel.
pub proof fn lemma_resize_keeps_store_length(b: BufferView, width: usize, height: usize)
    requires
        b.pixels.len() == b.buffer_width * b.buffer_height,
        width * height <= usize::MAX,
    ensures
        spec_resize_buffer(b, width, height).pixels.len() == spec_resize_buffer(
            b,
            width,
            height,
        ).buffer_width * spec_resize_buffer(b, width, height).buffer_height,
{
}

/// A candidate rectangle lying fully outside the buffer extent, or one with
/// no area of its own, clamps to nothing.
pub proof fn lemma_clamp_outside(r: Damage, w: usize, h: usize)
    requires
        r.left >= w || r.top >= h || r.width == 0 || r.height == 0,
    ensures
        spec_clamp(r, w, h) == Option::<Damage>::None,
{
}

/// Whatever clamping yields has area and lies strictly within the extent.
pub proof fn lemma_clamp_within(r: Damage, w: usize, h: usize)
    ensures
        spec_clamp(r, w, h) matches Option::Some(c) ==> !spec_is_empty(c) && spec_fits(c, w, h)
            && rect_wf(c),
{
}

/// Coalescing on a world whose queue is empty and whose running union is
/// empty: after damage `a` the queue holds exactly `a`'s clamped region;
/// after a second damage `b` whose clamped region contains `a`'s, the queue
/// holds exactly `b`'s clamped region; and when it does not contain it, the
/// two entries stand in FIFO order with the union of both as running union.
/// `ca` and `cb` witness the clamped regions.
pub proof fn lemma_coalescing_pair(w: WorldView, a: Damage, b: Damage, ca: Damage, cb: Damage)
    requires
        w.damages.len() == 0,
        spec_is_empty(w.current),
        spec_clamp(a, w.buffer.buffer_width, w.buffer.buffer_height) == Option::Some(ca),
        spec_clamp(b, w.buffer.buffer_width, w.buffer.buffer_height) == Option::Some(cb),
    ensures
        spec_world_damage(w, a).damages.len() == 1,
        spec_world_damage(w, a).damages[0].region == ca,
        spec_world_damage(w, a).current == ca,
        spec_contains(cb, ca) ==> ({
            let w2 = spec_world_damage(spec_world_damage(w, a), b);
            w2.damages.len() == 1 && w2.damages[0].region == cb && w2.current == cb
        }),
        !spec_contains(cb, ca) ==> ({
            let w2 = spec_world_damage(spec_world_damage(w, a), b);
            w2.damages.len() == 2 && w2.damages[0].region == ca && w2.damages[1].region == cb
                && w2.current == spec_union(ca, cb)
        }),
{
    let w1 = spec_world_damage(w, a);
    assert(spec_buffer_damage(w.buffer, a) matches Option::Some(e) && e.region == ca);
    assert(spec_contains(ca, w.current));
    assert(w1.damages.len() == 1 && w1.damages[0].region == ca && w1.current == ca);
    assert(w1.buffer == w.buffer);
    assert(spec_buffer_damage(w1.buffer, b) matches Option::Some(e) && e.region == cb);
    if !spec_contains(cb, ca) {
        let w2 = spec_world_damage(w1, b);
        assert(w2.damages == w1.damages.push(
            spec_buffer_damage(w1.buffer, b)->Some_0,
        ));
        assert(w2.damages.len() == 2);
    }
}

/// With an empty queue a draw leaves the frame untouched, and with an
/// already reset union and clean flags neither the world state nor the
/// buffer changes: a draw with nothing pending is observationally a no-op.
pub proof fn lemma_draw_idempotent(w: WorldView, frame: Seq<u32>, fw: usize, fh: usize)
    requires
        w.damages.len() == 0,
        w.current == (Damage { left: 0, top: 0, width: 0, height: 0 }),
        !w.buffer.buffer_size_dirty,
        !w.buffer.surface_size_dirty,
    ensures
        spec_blit_all(frame, fw, fh, w.damages) == frame,
        spec_drawn(w) == w,
        spec_mark_clean(w.buffer) == w.buffer,
{
    assert(w.damages =~= Seq::<SnapshotView>::empty());
    assert(spec_drawn(w) =~= w);
    assert(spec_mark_clean(w.buffer) =~= w.buffer);
}

/// Round trip: pixel values written into the buffer and then damaged over a
/// region reappear, after the blit, in the frame at exactly the offsets they
/// were written to.
pub proof fn lemma_round_trip(
    pix: Seq<u32>,
    fw: usize,
    fh: usize,
    r: Damage,
    frame: Seq<u32>,
    x: int,
    y: int,
)
    requires
        frame.len() == fw * fh,
        !spec_is_empty(r),
        spec_fits(r, fw, fh),
        r.left <= x < r.left + r.width,
        r.top <= y < r.top + r.height,
    ensures
        spec_blit_entry(
            frame,
            fw,
            fh,
            SnapshotView { region: r, pixels: spec_snapshot(pix, fw as int, r) },
        )[pos(y, x, fw as int)] == pix[pos(y, x, fw as int)],
{
    let fwi = fw as int;
    let j = pos(y, x, fwi);
    lemma_pos_div_mod(y, x, fwi);
    assert(spec_covers(r, fwi, j));
    let k = snap_pos(r, fwi, j);
    lemma_pos_div_mod(y - r.top, x - r.left, r.width as int);
    assert(0 <= k < (r.width * r.height) as int) by (nonlinear_arith)
        requires
            k == (y - r.top) * r.width + (x - r.left),
            0 <= y - r.top < r.height as int,
            0 <= x - r.left < r.width as int,
    {}
    assert(0 <= j < frame.len()) by (nonlinear_arith)
        requires
            j == y * fwi + x,
            0 <= x < fwi,
            0 <= y < fh as int,
            frame.len() == fw * fh,
            fwi == fw as int,
    {}
    assert(spec_snapshot(pix, fwi, r)[k] == pix[pos(r.top + k / (r.width as int), r.left + k % (
    r.width as int), fwi)]);
}

} // verus!
