use mwin::surface::{Format, Surface};

fn surface_4x3() -> Surface {
    Surface::new(Format::Argb8888, 4, 3).unwrap()
}

#[test]
fn new_surface_is_zeroed_with_requested_geometry() {
    let s = surface_4x3();
    assert_eq!(s.size(), (4, 3));
    assert_eq!(s.width(), 4);
    assert_eq!(s.height(), 3);
    assert_eq!(s.format(), Format::Argb8888);
    assert_eq!(s.data().len(), 12);
    assert!(s.data().iter().all(|p| *p == 0));
}

#[test]
fn put_pixel_reads_back_last_write_per_cell() {
    let mut s = surface_4x3();
    s.put_u32_pixel(1, 2, 0x11111111);
    s.put_u32_pixel(3, 0, 0x22222222);
    s.put_u32_pixel(1, 2, 0x33333333);
    assert_eq!(s.get_pixel(1, 2), Some(0x33333333));
    assert_eq!(s.get_pixel(3, 0), Some(0x22222222));
    assert_eq!(s.get_pixel(0, 0), Some(0));
}

#[test]
fn put_pixel_out_of_bounds_is_a_no_op() {
    let mut s = surface_4x3();
    s.put_u32_pixel(0, 0, 0xAAAAAAAA);
    let before: Vec<u32> = s.data().clone();
    s.put_u32_pixel(4, 0, 0xDEADBEEF);
    s.put_u32_pixel(0, 3, 0xDEADBEEF);
    s.put_u32_pixel(u32::MAX, u32::MAX, 0xDEADBEEF);
    assert_eq!(s.data(), &before);
    assert_eq!(s.get_pixel(4, 0), None);
    assert_eq!(s.get_pixel(0, 3), None);
}

#[test]
fn replace_installs_the_whole_snapshot_at_once() {
    let mut s = surface_4x3();
    s.put_u32_pixel(0, 0, 7);
    let fresh = vec![5u32; 10];
    s.replace(fresh, 5, 2);
    assert_eq!(s.size(), (5, 2));
    assert_eq!(s.data().len(), 10);
    assert_eq!(s.get_pixel(4, 1), Some(5));
    assert_eq!(s.get_pixel(0, 2), None);
    assert_eq!(s.format(), Format::Argb8888);
}

#[test]
fn fill_rect_paints_exactly_the_clipped_rectangle() {
    let mut s = Surface::new(Format::Xrgb8888, 6, 6).unwrap();
    s.fill_rect(2, 1, 3, 2, 0xffdadada);
    for y in 0..6u32 {
        for x in 0..6u32 {
            let expected = if (2..5).contains(&x) && (1..3).contains(&y) {
                0xffdadada
            } else {
                0
            };
            assert_eq!(s.get_pixel(x, y), Some(expected), "cell ({x},{y})");
        }
    }
}

#[test]
fn fill_rect_clips_to_the_surface() {
    let mut s = surface_4x3();
    s.fill_rect(3, 2, 10, 10, 1);
    assert_eq!(s.get_pixel(3, 2), Some(1));
    assert_eq!(s.get_pixel(2, 2), Some(0));
    assert_eq!(s.get_pixel(3, 1), Some(0));
}
