use raytracer::display::{begin_frame, pack_rgb};
use raytracer::fps_counter::FpsCounter;
use raytracer::texture::is_even_cell;

#[test]
fn pack_puts_red_in_the_high_byte() {
    assert_eq!(pack_rgb(0x12, 0x34, 0x56), 0x0012_3456);
    assert_eq!(pack_rgb(255, 0, 0), 0x00ff_0000);
    assert_eq!(pack_rgb(0, 0, 255), 0x0000_00ff);
    assert_eq!(pack_rgb(255, 255, 255), 0x00ff_ffff);
}

#[test]
fn frames_count_up_from_one() {
    let mut index: usize = 1;
    assert_eq!(begin_frame(&mut index, false), 1);
    assert_eq!(begin_frame(&mut index, false), 2);
    assert_eq!(begin_frame(&mut index, false), 3);
    assert_eq!(index, 4);
}

#[test]
fn a_reset_restarts_the_count() {
    let mut index: usize = 40;
    assert_eq!(begin_frame(&mut index, true), 1);
    assert_eq!(index, 2);
    assert_eq!(begin_frame(&mut index, false), 2);
}

#[test]
fn fps_counter_starts_at_one_and_counts() {
    let mut counter = FpsCounter::start();
    assert_eq!(counter.frame(), 1);
    let first = counter.update();
    assert_eq!(first.frame, 1);
    let second = counter.update();
    assert_eq!(second.frame, 2);
    assert_eq!(counter.frame(), 3);
    assert!(second.elapsed_ms < 20_000);
}

#[test]
fn checker_parity() {
    assert!(is_even_cell(0, 0, 0));
    assert!(!is_even_cell(1, 0, 0));
    assert!(is_even_cell(1, 1, 0));
    assert!(!is_even_cell(-1, 0, 0));
    assert!(is_even_cell(-1, -1, 0));
    assert!(!is_even_cell(-3, 2, 2));
    assert!(is_even_cell(i64::MAX, i64::MAX, 0));
}
