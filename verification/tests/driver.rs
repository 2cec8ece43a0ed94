use langton_ant::ant::LangtonsAnt;
use langton_ant::direction::Direction;
use langton_ant::driver::{adjust_zoom, advance_frame, FrameAction, FrameInput, INITIAL_ZOOM};
use langton_ant::render::{GRID_SIZE, HEIGHT, WIDTH};

fn input(window_open: bool, escape_held: bool, zoom_in_held: bool, zoom_out_held: bool) -> FrameInput {
    FrameInput { window_open, escape_held, zoom_in_held, zoom_out_held }
}

#[test]
fn zoom_starts_at_one() {
    assert_eq!(INITIAL_ZOOM, 1);
}

#[test]
fn holding_the_zoom_keys_counts_frames() {
    let mut zoom = INITIAL_ZOOM;
    for _ in 0..5 {
        zoom = adjust_zoom(zoom, true, false);
    }
    assert_eq!(zoom, 6);
    for _ in 0..10 {
        zoom = adjust_zoom(zoom, false, true);
    }
    assert_eq!(zoom, 1);
}

#[test]
fn zoom_out_stops_at_one() {
    assert_eq!(adjust_zoom(3, false, true), 2);
    assert_eq!(adjust_zoom(2, false, true), 1);
    assert_eq!(adjust_zoom(1, false, true), 1);
}

#[test]
fn zoom_keys_act_in_turn_within_a_frame() {
    assert_eq!(adjust_zoom(1, true, true), 1);
    assert_eq!(adjust_zoom(4, true, true), 4);
    assert_eq!(adjust_zoom(4, false, false), 4);
    assert_eq!(adjust_zoom(usize::MAX - 1, true, false), usize::MAX);
}

#[test]
fn a_closed_window_ends_the_loop_and_changes_nothing() {
    let mut ants = vec![LangtonsAnt::centered(GRID_SIZE)];
    let mut buffer = vec![3u32; WIDTH * HEIGHT];
    let mut zoom = 2;
    let action = advance_frame(&mut ants, &mut buffer, &mut zoom, input(false, false, true, false));
    assert_eq!(action, FrameAction::Exit);
    assert_eq!(zoom, 2);
    assert_eq!((ants[0].x(), ants[0].y(), ants[0].direction()), (50, 50, Direction::Up));
    assert!(!ants[0].cell(50, 50));
    assert!(buffer.iter().all(|&p| p == 3));
}

#[test]
fn escape_ends_the_loop_and_changes_nothing() {
    let mut ants = vec![LangtonsAnt::centered(GRID_SIZE)];
    let mut buffer = vec![0u32; WIDTH * HEIGHT];
    let mut zoom = 1;
    let action = advance_frame(&mut ants, &mut buffer, &mut zoom, input(true, true, false, true));
    assert_eq!(action, FrameAction::Exit);
    assert_eq!(zoom, 1);
    assert_eq!((ants[0].x(), ants[0].y()), (50, 50));
    assert!(buffer.iter().all(|&p| p == 0));
}

#[test]
fn a_frame_zooms_then_ticks_then_draws() {
    let mut ants = vec![LangtonsAnt::centered(GRID_SIZE)];
    let mut buffer = vec![0u32; WIDTH * HEIGHT];
    let mut zoom = 1;
    let action = advance_frame(&mut ants, &mut buffer, &mut zoom, input(true, false, true, false));
    assert_eq!(action, FrameAction::Present);
    assert_eq!(zoom, 2);
    assert_eq!((ants[0].x(), ants[0].y(), ants[0].direction()), (51, 50, Direction::Right));
    assert!(ants[0].cell(50, 50));
    // Drawn after the tick and at the new zoom: the toggled cell is white,
    // the cell the ant moved to carries the mark.
    for dy in 0..2 {
        for dx in 0..2 {
            assert_eq!(buffer[(100 + dy) * WIDTH + 100 + dx], 0xFFFFFF);
            assert_eq!(buffer[(100 + dy) * WIDTH + 102 + dx], 0xFF0000);
        }
    }
    assert_eq!(buffer.iter().filter(|&&p| p != 0).count(), 8);
}

#[test]
fn several_ants_are_drawn_without_the_overlay() {
    let mut ants = vec![LangtonsAnt::at(GRID_SIZE, 10, 10), LangtonsAnt::at(GRID_SIZE, 20, 30)];
    let mut buffer = vec![0u32; WIDTH * HEIGHT];
    let mut zoom = 1;
    for _ in 0..3 {
        let action = advance_frame(&mut ants, &mut buffer, &mut zoom, input(true, false, false, false));
        assert_eq!(action, FrameAction::Present);
    }
    assert_eq!(zoom, 1);
    for py in 0..GRID_SIZE {
        for px in 0..GRID_SIZE {
            let on = ants[0].cell(px, py) || ants[1].cell(px, py);
            let expected = if on { 0xFFFFFF } else { 0x000000 };
            assert_eq!(buffer[py * WIDTH + px], expected);
        }
    }
    assert_eq!(buffer.iter().filter(|&&p| p == 0xFFFFFF).count(), 6);
    assert_eq!(buffer.iter().filter(|&&p| p == 0xFF0000).count(), 0);
}
