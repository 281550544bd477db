use tzompantli::geometry::{Point, Size};
use tzompantli::grid::Grid;
use tzompantli::scroll::{max_scroll_offset, Input, ScrollState, ScrollVelocity, Scroller, TouchAction};

fn grid() -> Grid {
    Grid::new(Size::new(360, 720), 120)
}

#[test]
fn grid_parameters_at_scale_one() {
    let g = grid();
    assert_eq!(g.columns, 3);
    assert_eq!(g.padding, 18);
    assert_eq!(g.entry_size, Size::new(96, 112));
    let g2 = Grid::new(Size::new(360, 720), 240);
    assert_eq!(g2.entry_size, Size::new(192, 224));
    assert_eq!(g2.columns, 1);
    assert_eq!(g2.padding, 84);
    let g3 = Grid::new(Size::new(100, 100), 150);
    assert_eq!(g3.entry_size, Size::new(120, 140));
    assert_eq!(g3.columns, 1);
    assert_eq!(g3.padding, 0);
}

#[test]
fn reserved_slots_and_rows() {
    let g = grid();
    assert_eq!(g.origin(0), Point::new(18, 18));
    assert_eq!(g.origin(1), Point::new(132, 18));
    assert_eq!(g.origin(2), Point::new(246, 18));
    assert_eq!(g.origin(3), Point::new(18, 148));
    assert_eq!(g.origin(4), Point::new(132, 148));
    assert_eq!(g.origin(5), Point::new(246, 148));
    assert_eq!(g.origin(6), Point::new(18, 278));
}

#[test]
fn hit_test_of_origin_round_trips() {
    let g = grid();
    for i in 3..200usize {
        let o = g.origin(i);
        assert_eq!(g.index_at(Point::new(o.x as u32, o.y as u32)), Some(i));
    }
}

#[test]
fn hit_test_reserved_row_and_padding() {
    let g = grid();
    assert_eq!(g.index_at(Point::new(18, 18)), Some(0));
    assert_eq!(g.index_at(Point::new(140, 20)), Some(1));
    assert_eq!(g.index_at(Point::new(250, 20)), Some(2));
    assert_eq!(g.index_at(Point::new(10, 10)), None);
    assert_eq!(g.index_at(Point::new(120, 150)), None);
    assert_eq!(g.index_at(Point::new(20, 140)), None);
    assert_eq!(g.index_at(Point::new(359, 150)), None);
}

#[test]
fn content_height() {
    let g = grid();
    assert_eq!(g.total_height(10), 538);
    assert_eq!(g.total_height(0), 148);
    assert_eq!(g.total_height(3), 148);
    assert_eq!(g.total_height(4), 278);
    assert_eq!(max_scroll_offset(538, 400), 138);
    assert_eq!(max_scroll_offset(300, 400), 0);
}

#[test]
fn drag_then_release_without_velocity_coasts_to_idle() {
    let input = Input::new_default();
    let mut s = Scroller::new();
    s.touch_down(Point::new(100, 300), None);
    assert_eq!(s.velocity.state, ScrollState::Dragging);
    assert!(s.touch_motion(Point::new(100, 250), &input, 1000));
    assert_eq!(s.velocity.state, ScrollState::Dragging);
    assert_eq!(s.action, TouchAction::Drag);
    assert_eq!(s.offset, -50);
    assert_eq!(s.velocity.velocity, -50);
    assert!(!s.touch_motion(Point::new(100, 250), &input, 1000));
    assert_eq!(s.velocity.velocity, 0);
    assert_eq!(s.touch_up(), None);
    assert_eq!(s.velocity.state, ScrollState::Coasting);
    assert_eq!(s.offset, -50);
    assert!(!s.tick(&input, 1_000_000, 1000));
    assert_eq!(s.velocity.state, ScrollState::Idle);
    assert_eq!(s.offset, -50);
}

#[test]
fn small_motion_stays_a_tap() {
    let input = Input::new_default();
    let mut s = Scroller::new();
    s.touch_down(Point::new(100, 300), Some(4));
    assert!(!s.touch_motion(Point::new(110, 310), &input, 1000));
    assert_eq!(s.offset, 0);
    assert_eq!(s.action, TouchAction::Tap(4));
    assert_eq!(s.touch_up(), Some(4));
    assert_eq!(s.velocity.state, ScrollState::Idle);
}

#[test]
fn drag_clamps_at_limits_and_cancels_velocity() {
    let input = Input::new_default();
    let mut s = Scroller::new();
    s.touch_down(Point::new(0, 0), None);
    assert!(!s.touch_motion(Point::new(0, 100), &input, 1000));
    assert_eq!(s.offset, 0);
    assert_eq!(s.velocity.velocity, 0);
    assert!(s.touch_motion(Point::new(0, -500), &input, 120));
    assert_eq!(s.offset, -120);
    assert_eq!(s.velocity.velocity, 0);
}

#[test]
fn coasting_decays_per_tick() {
    let input = Input::new_default();
    let mut v = ScrollVelocity { state: ScrollState::Coasting, velocity: 100, last_tick: None };
    let mut offset: i64 = 0;
    v.apply(&input, 0, &mut offset);
    assert_eq!(offset, 0);
    assert_eq!(v.last_tick, Some(0));
    v.apply(&input, 20_000, &mut offset);
    assert_eq!(offset, 0);
    v.apply(&input, 60_000, &mut offset);
    assert_eq!(offset, 185);
    assert_eq!(v.velocity, 72);
    assert_eq!(v.last_tick, Some(60_000));
    v.apply(&input, 60_000 + 30_000 * 1000, &mut offset);
    assert_eq!(v.velocity, 0);
    assert_eq!(v.state, ScrollState::Idle);
    assert!(offset > 185);
}

#[test]
fn touch_down_stops_coasting() {
    let input = Input::new_default();
    let mut s = Scroller::new();
    s.velocity = ScrollVelocity { state: ScrollState::Coasting, velocity: -40, last_tick: Some(5) };
    s.touch_down(Point::new(1, 1), None);
    assert_eq!(s.velocity.velocity, 0);
    assert_eq!(s.velocity.state, ScrollState::Dragging);
    assert!(!s.tick(&input, 10_000_000, 100));
}

#[test]
fn content_height_with_four_columns() {
    let g = Grid::new(Size::new(424, 720), 120);
    assert_eq!(g.columns, 4);
    assert_eq!(g.padding, 8);
    assert_eq!(g.origin(3), Point::new(8, 128));
    assert_eq!(g.total_height(3), 128);
    assert_eq!(g.total_height(4), 248);
    assert_eq!(g.total_height(7), 248);
    assert_eq!(g.total_height(8), 368);
    for count in 1..40usize {
        let h = g.total_height(count);
        for i in 0..count {
            assert!(g.origin(i).y + g.entry_size.height as u64 + g.padding as u64 <= h);
        }
    }
}

#[test]
fn small_scale_grid() {
    let g = Grid::new(Size::new(360, 720), 30);
    assert_eq!(g.entry_size, Size::new(24, 28));
    assert_eq!(g.columns, 13);
    assert_eq!(g.padding, 3);
    assert_eq!(g.total_height(4), 65);
    let o = g.origin(20);
    assert_eq!(g.index_at(Point::new(o.x as u32, o.y as u32)), Some(20));
}
