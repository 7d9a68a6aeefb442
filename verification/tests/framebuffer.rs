use libpixels::buffer::Buffer;
use libpixels::geometry::{Clamp, Damage};
use libpixels::world::World;

fn rect(left: usize, top: usize, width: usize, height: usize) -> Damage {
    Damage {
        left,
        top,
        width,
        height,
    }
}

#[test]
fn new_buffer_is_one_by_one() {
    let b = Buffer::new();
    assert_eq!(b.buffer_width, 1);
    assert_eq!(b.buffer_height, 1);
    assert_eq!(b.surface_width, 1);
    assert_eq!(b.surface_height, 1);
    assert!(!b.buffer_size_dirty);
    assert!(!b.surface_size_dirty);
    assert_eq!(b.pixels(), &[0u32]);
}

#[test]
fn resize_keeps_store_length() {
    let mut b = Buffer::new();
    b.resize_buffer(4, 4);
    assert_eq!(b.pixels().len(), 16);
    b.resize_buffer(7, 3);
    assert_eq!(b.pixels().len(), 21);
    b.resize_buffer(2, 5);
    assert_eq!(b.pixels().len(), 10);
    b.resize_buffer(1, 1);
    assert_eq!(b.pixels().len(), 1);
}

#[test]
fn resize_sets_dirty_flag_and_mark_clean_clears_it() {
    let mut b = Buffer::new();
    b.resize_buffer(3, 2);
    assert!(b.buffer_size_dirty);
    assert!(!b.surface_size_dirty);
    b.resize_surface(5, 4);
    assert!(b.surface_size_dirty);
    assert_eq!(b.surface_width, 5);
    assert_eq!(b.surface_height, 4);
    b.mark_clean();
    assert!(!b.buffer_size_dirty);
    assert!(!b.surface_size_dirty);
}

#[test]
fn repeated_identical_resize_is_a_no_op() {
    let mut b = Buffer::new();
    b.resize_buffer(1, 1);
    assert!(!b.buffer_size_dirty);
    assert_eq!(b.pixels().len(), 1);

    let mut b2 = Buffer::new();
    b2.resize_buffer(2, 2);
    b2.mark_clean();
    b2.resize_buffer(2, 2);
    assert!(!b2.buffer_size_dirty);
    assert_eq!(b2.pixels().len(), 4);

    let mut w = World::new();
    w.resize_buffer(1, 1);
    assert!(!w.buffer.buffer_size_dirty);
    w.resize_buffer(1, 1);
    assert!(!w.buffer.buffer_size_dirty);
    assert_eq!(w.buffer.pixels().len(), 1);
}

#[test]
fn resize_surface_does_not_touch_pixels() {
    let mut b = Buffer::new();
    b.resize_buffer(2, 2);
    b.write_pixel(0, 0, 7);
    b.resize_surface(9, 9);
    assert_eq!(b.pixels()[0], 7);
    assert_eq!(b.pixels().len(), 4);
    assert!(b.buffer_size_dirty);
    assert!(b.surface_size_dirty);
}

#[test]
fn clamp_fully_outside_returns_nothing() {
    assert_eq!(rect(4, 0, 2, 2).clamp(4, 4), None);
    assert_eq!(rect(0, 4, 2, 2).clamp(4, 4), None);
    assert_eq!(rect(100, 100, 5, 5).clamp(4, 4), None);
    assert_eq!(rect(1, 1, 0, 3).clamp(4, 4), None);
    assert_eq!(rect(1, 1, 3, 0).clamp(4, 4), None);
}

#[test]
fn clamp_partial_overlap_is_cut_to_bounds() {
    assert_eq!(rect(2, 3, 10, 10).clamp(4, 4), Some(rect(2, 3, 2, 1)));
    assert_eq!(rect(0, 0, 10, 1).clamp(4, 4), Some(rect(0, 0, 4, 1)));
    assert_eq!(rect(3, 3, 1, 1).clamp(4, 4), Some(rect(3, 3, 1, 1)));
    assert_eq!(rect(0, 0, 4, 4).clamp(4, 4), Some(rect(0, 0, 4, 4)));
}

#[test]
fn union_and_containment_formulas() {
    let a = rect(1, 1, 2, 2);
    let b = rect(2, 2, 4, 3);
    assert_eq!(a.union(&b), rect(1, 1, 5, 4));
    assert_eq!(a.union(&rect(0, 0, 0, 0)), a);
    assert_eq!(rect(0, 0, 0, 0).union(&b), b);
    assert!(rect(0, 0, 4, 4).contains_rect(&a));
    assert!(!a.contains_rect(&b));
    assert!(a.contains_rect(&rect(5, 5, 0, 7)));
    assert!(a.contains_rect(&a));
}

#[test]
fn buffer_damage_snapshots_current_content() {
    let mut b = Buffer::new();
    b.resize_buffer(3, 3);
    for y in 0..3 {
        for x in 0..3 {
            b.write_pixel(x, y, (10 * y + x) as u32);
        }
    }
    let wd = b.damage(rect(1, 0, 2, 2)).unwrap();
    assert_eq!(wd.left(), 1);
    assert_eq!(wd.top(), 0);
    assert_eq!(wd.width(), 2);
    assert_eq!(wd.height(), 2);
    assert_eq!(wd.snapshot(), &vec![1, 2, 11, 12]);
    // later buffer writes do not affect the captured snapshot
    b.write_pixel(1, 0, 99);
    assert_eq!(wd.snapshot(), &vec![1, 2, 11, 12]);
    assert!(b.damage(rect(3, 0, 1, 1)).is_none());
}

#[test]
fn buffer_damage_outside_returns_none() {
    let mut b = Buffer::new();
    b.resize_buffer(2, 2);
    assert!(b.damage(rect(2, 2, 1, 1)).is_none());
    assert!(b.damage(rect(0, 0, 0, 5)).is_none());
    assert!(b.damage(rect(0, 0, 1, 1)).is_some());
}

#[test]
fn coalescing_containing_damage_replaces_queue() {
    let mut w = World::new();
    w.resize_buffer(4, 4);
    w.damage(rect(1, 1, 2, 2));
    assert_eq!(w.damage_count(), 1);
    // contains the running union: the queue shrinks to the one new entry
    w.damage(rect(0, 0, 4, 4));
    assert_eq!(w.damage_count(), 1);
    assert_eq!(w.queued(0).left(), 0);
    assert_eq!(w.queued(0).top(), 0);
    assert_eq!(w.queued(0).width(), 4);
    assert_eq!(w.queued(0).height(), 4);
    assert_eq!(w.current_damage, rect(0, 0, 4, 4));
}

#[test]
fn coalescing_unrelated_damages_stay_in_fifo_order() {
    let mut w = World::new();
    w.resize_buffer(4, 4);
    w.damage(rect(0, 0, 2, 1));
    w.damage(rect(3, 3, 1, 1));
    assert_eq!(w.damage_count(), 2);
    assert_eq!(w.queued(0).left(), 0);
    assert_eq!(w.queued(0).width(), 2);
    assert_eq!(w.queued(1).left(), 3);
    assert_eq!(w.queued(1).top(), 3);
    assert_eq!(w.current_damage, rect(0, 0, 4, 4));
}

#[test]
fn zero_area_damage_is_discarded() {
    let mut w = World::new();
    w.resize_buffer(4, 4);
    w.damage(rect(4, 4, 2, 2));
    w.damage(rect(0, 0, 0, 0));
    assert_eq!(w.damage_count(), 0);
    assert_eq!(w.current_damage, rect(0, 0, 0, 0));
}

#[test]
fn draw_with_empty_queue_changes_nothing() {
    let mut w = World::new();
    w.resize_buffer(2, 2);
    w.mark_clean();
    let mut frame = vec![5u32, 6, 7, 8];
    w.draw(&mut frame, 2, 2);
    assert_eq!(frame, vec![5, 6, 7, 8]);
    assert_eq!(w.damage_count(), 0);
    assert_eq!(w.current_damage, rect(0, 0, 0, 0));
    assert!(!w.buffer.buffer_size_dirty);
    assert!(!w.buffer.surface_size_dirty);
    // a second draw is just as silent
    w.draw(&mut frame, 2, 2);
    assert_eq!(frame, vec![5, 6, 7, 8]);
}

#[test]
fn round_trip_reproduces_written_pixels() {
    let mut w = World::new();
    w.resize_buffer(4, 4);
    assert_eq!(w.buffer.pixels().len(), 16);
    assert!(w.buffer.pixels().iter().all(|&p| p == 0));

    // external writer fills rows 1..=2, columns 1..=2 with 0xFFFFFFFF
    for y in 1..3 {
        for x in 1..3 {
            w.buffer.write_pixel(x, y, 0xFFFFFFFF);
        }
    }
    w.damage(rect(1, 1, 2, 2));

    assert_eq!(w.damage_count(), 1);
    assert_eq!(w.queued(0).left(), 1);
    assert_eq!(w.queued(0).top(), 1);
    assert_eq!(w.queued(0).width(), 2);
    assert_eq!(w.queued(0).height(), 2);
    assert_eq!(
        w.queued(0).snapshot(),
        &vec![0xFFFFFFFFu32, 0xFFFFFFFF, 0xFFFFFFFF, 0xFFFFFFFF]
    );

    let mut frame = vec![0u32; 16];
    w.draw(&mut frame, 4, 4);
    for y in 0..4 {
        for x in 0..4 {
            let expected = if (1..3).contains(&x) && (1..3).contains(&y) {
                0xFFFFFFFF
            } else {
                0
            };
            assert_eq!(frame[y * 4 + x], expected, "pixel ({}, {})", x, y);
        }
    }
    assert_eq!(w.damage_count(), 0);
}

#[test]
fn draw_replays_entries_in_fifo_order() {
    let mut w = World::new();
    w.resize_buffer(2, 1);
    w.buffer.write_pixel(0, 0, 1);
    w.damage(rect(0, 0, 1, 1));
    w.buffer.write_pixel(0, 0, 2);
    w.damage(rect(0, 0, 2, 1));
    // the second clamped region contains the first: one entry remains
    assert_eq!(w.damage_count(), 1);
    let mut frame = vec![9u32, 9];
    w.draw(&mut frame, 2, 1);
    assert_eq!(frame, vec![2, 0]);
}

#[test]
fn draw_overlapping_entries_last_wins() {
    let mut w = World::new();
    w.resize_buffer(3, 1);
    w.buffer.write_pixel(0, 0, 1);
    w.buffer.write_pixel(1, 0, 1);
    w.damage(rect(0, 0, 2, 1));
    w.buffer.write_pixel(1, 0, 2);
    w.buffer.write_pixel(2, 0, 2);
    w.damage(rect(1, 0, 2, 1));
    assert_eq!(w.damage_count(), 2);
    let mut frame = vec![0u32; 3];
    w.draw(&mut frame, 3, 1);
    assert_eq!(frame, vec![1, 2, 2]);
}

#[test]
fn draw_skips_entries_that_no_longer_fit() {
    let mut w = World::new();
    w.resize_buffer(4, 4);
    w.buffer.write_pixel(3, 3, 42);
    w.damage(rect(3, 3, 1, 1));
    w.damage(rect(0, 0, 1, 1));
    assert_eq!(w.damage_count(), 2);
    // the frame shrank since the damage was queued: the far entry is skipped
    let mut frame = vec![7u32, 7, 7, 7];
    w.draw(&mut frame, 2, 2);
    assert_eq!(frame, vec![0, 7, 7, 7]);
    assert_eq!(w.damage_count(), 0);
}

#[test]
fn pending_resizes_follow_the_dirty_flags() {
    let mut w = World::new();
    assert_eq!(w.pending_resizes(), (None, None));
    w.resize_buffer(4, 2);
    assert_eq!(w.pending_resizes(), (Some((4, 2)), None));
    w.resize_surface(8, 6);
    assert_eq!(w.pending_resizes(), (Some((4, 2)), Some((8, 6))));
    w.mark_clean();
    assert_eq!(w.pending_resizes(), (None, None));
}

#[test]
fn world_starts_empty_and_clean() {
    let w = World::new();
    assert_eq!(w.damage_count(), 0);
    assert_eq!(w.current_damage, rect(0, 0, 0, 0));
    assert_eq!(w.buffer.buffer_width, 1);
    assert_eq!(w.buffer.buffer_height, 1);
    assert_eq!(w.buffer.pixels(), &[0u32]);
}
