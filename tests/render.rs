use conway_life::cell::{Cell, Config};
use conway_life::render::{get_color, point, render};

#[test]
fn color_of_dead_is_black() {
    assert_eq!(get_color(Cell::Dead, true), 0x000000);
    assert_eq!(get_color(Cell::Dead, false), 0x000000);
}

#[test]
fn color_of_alive_monochrome_is_white() {
    assert_eq!(get_color(Cell::Alive(1), false), 0xFFFFFF);
    assert_eq!(get_color(Cell::Alive(200), false), 0xFFFFFF);
}

#[test]
fn color_by_age() {
    // r = 50 + 20 * age, g = 255 - 15 * age, b = 50 + 5 * age, each clamped.
    assert_eq!(get_color(Cell::Alive(1), true), 0x46F037);
    assert_eq!(get_color(Cell::Alive(0), true), 0x32FF32);
    assert_eq!(get_color(Cell::Alive(10), true), 0xFA6964);
    assert_eq!(get_color(Cell::Alive(20), true), 0xFF0096);
    assert_eq!(get_color(Cell::Alive(255), true), 0xFF00FF);
}

#[test]
fn window_size_scales_board() {
    let cfg = Config { width: 100, height: 80, scale: 5, fps: 10, color_mode: true };
    assert_eq!(cfg.window_size(), (500, 400));
}

#[test]
fn point_fills_only_its_block() {
    let cfg = Config { width: 3, height: 2, scale: 2, fps: 10, color_mode: false };
    let mut buffer = vec![7u32; 6 * 4];
    point(&mut buffer, &cfg, 1, 1, 9);
    for py in 0..4 {
        for px in 0..6 {
            let expected = if px / 2 == 1 && py / 2 == 1 { 9 } else { 7 };
            assert_eq!(buffer[py * 6 + px], expected, "pixel ({}, {})", px, py);
        }
    }
}

#[test]
fn render_maps_each_cell_to_a_scaled_block() {
    let cfg = Config { width: 3, height: 2, scale: 3, fps: 10, color_mode: true };
    let grid = vec![
        vec![Cell::Alive(1), Cell::Dead, Cell::Alive(20)],
        vec![Cell::Dead, Cell::Alive(10), Cell::Dead],
    ];
    let (w, h) = cfg.window_size();
    let mut buffer = vec![0x123456u32; w * h];
    render(&mut buffer, &grid, &cfg);
    assert_eq!(buffer.len(), 9 * 6);
    for py in 0..h {
        for px in 0..w {
            let expected = get_color(grid[py / 3][px / 3], true);
            assert_eq!(buffer[py * w + px], expected, "pixel ({}, {})", px, py);
        }
    }
    assert_eq!(buffer[0], 0x46F037);
    assert_eq!(buffer[8], 0xFF0096);
    assert_eq!(buffer[3 * 9 + 4], 0xFA6964);
    assert_eq!(buffer[5 * 9 + 8], 0x000000);
}

#[test]
fn render_scale_one_is_the_board() {
    let cfg = Config { width: 2, height: 2, scale: 1, fps: 10, color_mode: false };
    let grid = vec![vec![Cell::Alive(3), Cell::Dead], vec![Cell::Dead, Cell::Alive(1)]];
    let mut buffer = vec![5u32; 4];
    render(&mut buffer, &grid, &cfg);
    assert_eq!(buffer, vec![0xFFFFFF, 0, 0, 0xFFFFFF]);
}
