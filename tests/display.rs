use chip8::{Pixel, Screen, Sprite};

#[test]
fn test_draw_sprite() {
    let mut scr = Screen::default();
    let result = scr.draw(Sprite::new(10, 10, vec![0xF0, 0x90, 0xF0, 0x10, 0xF0]));
    assert_eq!(result, Some(0));
    println!("{} lit pixels", scr.pixels().len());

    let result = scr.draw(Sprite::new(10, 10, vec![0xF0, 0x90, 0xF0, 0x10, 0xF0]));
    assert_eq!(result, Some(1));
}

#[test]
fn second_draw_restores_blank_screen() {
    let mut scr = Screen::default();
    assert_eq!(scr.draw(Sprite::new(3, 4, vec![0xF0, 0x90, 0xF0, 0x10, 0xF0])), Some(0));
    assert_eq!(scr.pixels().len(), 4 + 2 + 4 + 1 + 4);
    assert_eq!(scr.draw(Sprite::new(3, 4, vec![0xF0, 0x90, 0xF0, 0x10, 0xF0])), Some(1));
    assert!(scr.pixels().is_empty());
}

#[test]
fn pixels_are_row_major_with_coordinates() {
    let mut scr = Screen::default();
    assert_eq!(scr.draw(Sprite::new(62, 0, vec![0x80, 0x40])), Some(0));
    let p = scr.pixels();
    assert_eq!(p, vec![Pixel { x: 62, y: 0, value: 1 }, Pixel { x: 63, y: 1, value: 1 }]);
}

#[test]
fn sprite_clipped_at_right_edge() {
    let mut scr = Screen::default();
    assert_eq!(scr.draw(Sprite::new(60, 0, vec![0xFF])), Some(0));
    let p = scr.pixels();
    assert_eq!(p.len(), 4);
    assert!(p.iter().all(|q| q.y == 0 && q.x >= 60));
}

#[test]
fn sprite_clipped_at_bottom_edge() {
    let mut scr = Screen::default();
    assert_eq!(scr.draw(Sprite::new(0, 30, vec![0x80, 0x80, 0x80, 0x80])), Some(0));
    let p = scr.pixels();
    assert_eq!(p, vec![Pixel { x: 0, y: 30, value: 1 }, Pixel { x: 0, y: 31, value: 1 }]);
}

#[test]
fn sprite_off_screen_is_rejected() {
    let mut scr = Screen::default();
    assert_eq!(scr.draw(Sprite::new(64, 0, vec![0xFF])), None);
    assert_eq!(scr.draw(Sprite::new(0, 32, vec![0xFF])), None);
    assert!(scr.pixels().is_empty());
}

#[test]
fn partial_overlap_collides() {
    let mut scr = Screen::default();
    assert_eq!(scr.draw(Sprite::new(0, 0, vec![0xC0])), Some(0));
    assert_eq!(scr.draw(Sprite::new(1, 0, vec![0xC0])), Some(1));
    assert_eq!(scr.pixels(), vec![Pixel { x: 0, y: 0, value: 1 }, Pixel { x: 2, y: 0, value: 1 }]);
}

#[test]
fn clear_turns_every_cell_off() {
    let mut scr = Screen::default();
    scr.draw(Sprite::new(5, 5, vec![0xFF, 0xFF]));
    scr.clear();
    assert!(scr.pixels().is_empty());
}
