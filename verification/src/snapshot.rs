//! Queued damage entries: a clamped region together with the pixels it
//! covered, copied out of the buffer at the moment the damage was declared.

use vstd::arithmetic::div_mod::lemma_fundamental_div_mod_converse;
use vstd::prelude::*;

use crate::geometry::{pos, rect_wf, spec_fits, spec_is_empty, Damage};

verus! {

/// Ghost model of a queued damage entry.
#[verifier::ext_equal]
pub struct SnapshotView {
    pub region: Damage,
    pub pixels: Seq<u32>,
}

/// The contiguous row-major copy of the sub-rectangle `r` of a row-major
/// pixel grid `pix` whose rows have length `stride`.
pub open spec fn spec_snapshot(pix: Seq<u32>, stride: int, r: Damage) -> Seq<u32> {
    Seq::new(
        (r.width * r.height) as nat,
        |k: int|
            pix[pos(
                r.top + k / (r.width as int),
                r.left + k % (r.width as int),
                stride,
            )],
    )
}

/// A queued damage entry. Its snapshot is an independent copy: later buffer
/// mutation or resizing does not affect it.
#[derive(Debug)]
pub struct WorldDamage {
    pub damage: Damage,
    pub buffer: Vec<u32>,
}

impl View for WorldDamage {
    type V = SnapshotView;

    open spec fn view(&self) -> SnapshotView {
        SnapshotView { region: self.damage, pixels: self.buffer@ }
    }
}

impl WorldDamage {
    /// The region has area, its coordinate sums do not overflow, and the
    /// snapshot holds exactly one pixel per cell of the region.
    pub open spec fn wf(self) -> bool {
        &&& !spec_is_empty(self.damage)
        &&& rect_wf(self.damage)
        &&& self.buffer@.len() == self.damage.width * self.damage.height
    }

    pub fn left(&self) -> (r: usize)
        ensures
            r == self.damage.left,
    {
        self.damage.left
    }

    pub fn top(&self) -> (r: usize)
        ensures
            r == self.damage.top,
    {
        self.damage.top
    }

    pub fn width(&self) -> (r: usize)
        ensures
            r == self.damage.width,
    {
        self.damage.width
    }

    pub fn height(&self) -> (r: usize)
        ensures
            r == self.damage.height,
    {
        self.damage.height
    }

    /// The captured pixels, row-major, with rows of length `self.width()`.
    pub fn snapshot(&self) -> (r: &Vec<u32>)
        ensures
            r@ == self.buffer@,
    {
        &self.buffer
    }
}

/// `pos(row, col, w)` divided by `w` recovers `row`, and its remainder
/// recovers `col`, whenever `col` lies within a row.
pub proof fn lemma_pos_div_mod(row: int, col: int, w: int)
    requires
        w > 0,
        0 <= col < w,
        0 <= row,
    ensures
        pos(row, col, w) / w == row,
        pos(row, col, w) % w == col,
{
    lemma_fundamental_div_mod_converse(row * w + col, w, row, col);
}

/// Copy the sub-rectangle `r` out of a `stride` by `grid_height` row-major
/// pixel grid into a fresh contiguous row-major vector.
pub(crate) fn copy_rect(pix: &Vec<u32>, stride: usize, grid_height: usize, r: Damage) -> (out: Vec<
    u32,
>)
    requires
        !spec_is_empty(r),
        spec_fits(r, stride, grid_height),
        pix@.len() == stride * grid_height,
    ensures
        out@ == spec_snapshot(pix@, stride as int, r),
{
    let ghost snap = spec_snapshot(pix@, stride as int, r);
    // the grid size fits in usize, being the length of a live vector
    let total = pix.len();
    proof {
        assert(total == stride * grid_height);
    }
    let w = r.width;
    let h = r.height;
    let mut out: Vec<u32> = Vec::new();
    let mut row: usize = 0;
    while row < h
        invariant
            w == r.width,
            h == r.height,
            !spec_is_empty(r),
            spec_fits(r, stride, grid_height),
            pix@.len() == stride * grid_height,
            snap == spec_snapshot(pix@, stride as int, r),
            stride * grid_height <= usize::MAX,
            row <= h,
            out@.len() == row * w,
            out@ == snap.take((row * w) as int),
        decreases h - row,
    {
        let mut col: usize = 0;
        while col < w
            invariant
                w == r.width,
                h == r.height,
                !spec_is_empty(r),
                spec_fits(r, stride, grid_height),
                pix@.len() == stride * grid_height,
                snap == spec_snapshot(pix@, stride as int, r),
                stride * grid_height <= usize::MAX,
                row < h,
                col <= w,
                out@.len() == row * w + col,
                out@ == snap.take((row * w + col) as int),
            decreases w - col,
        {
            proof {
                assert((r.top + row) * stride + (r.left + col) < stride * grid_height)
                    by (nonlinear_arith)
                    requires
                        r.top + row < grid_height as int,
                        r.left + col < stride as int,
                        stride >= 1,
                {}
            }
            let idx = (r.top + row) * stride + (r.left + col);
            let v = pix[idx];
            out.push(v);
            proof {
                let k = (row * w + col) as int;
                lemma_pos_div_mod(row as int, col as int, w as int);
                assert(k / (w as int) == row && k % (w as int) == col);
                assert(k < snap.len()) by (nonlinear_arith)
                    requires
                        k == row * w + col,
                        snap.len() == w * h,
                        0 <= col < w as int,
                        0 <= row < h as int,
                {}
                assert(snap[k] == pix@[idx as int]);
                assert(out@ =~= snap.take(k + 1));
            }
            col += 1;
        }
        proof {
            assert(row * w + w == (row + 1) * w) by (nonlinear_arith) {}
        }
        row += 1;
    }
    proof {
        assert(h * w == w * h) by (nonlinear_arith) {}
        assert(out@ =~= snap);
    }
    out
}

} // verus!
