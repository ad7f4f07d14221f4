use soft_rasterizer::{rgb_vec_to_u8_slice, Rgb};

#[test]
fn rgb_new_keeps_channels() {
    let c = Rgb::new(1, 2, 3);
    assert_eq!(c, Rgb(1, 2, 3));
    assert_eq!(c.r(), 1);
    assert_eq!(c.g(), 2);
    assert_eq!(c.b(), 3);
}

#[test]
fn rgb_named_colours() {
    assert_eq!(Rgb::red(), Rgb(255, 0, 0));
    assert_eq!(Rgb::green(), Rgb(0, 255, 0));
    assert_eq!(Rgb::blue(), Rgb(0, 0, 255));
}

#[test]
fn rgb_default_is_black() {
    assert_eq!(Rgb::default(), Rgb(0, 0, 0));
}

#[test]
fn rgb_add_is_per_channel() {
    assert_eq!(Rgb(1, 2, 3) + Rgb(10, 20, 30), Rgb(11, 22, 33));
}

#[test]
fn rgb_add_wraps_each_channel() {
    assert_eq!(Rgb(200, 1, 255) + Rgb(100, 2, 1), Rgb(44, 3, 0));
    assert_eq!(Rgb(255, 255, 255) + Rgb(255, 255, 255), Rgb(254, 254, 254));
}

#[test]
fn rgb_add_zero_is_identity() {
    let c = Rgb(7, 99, 250);
    assert_eq!(c + Rgb(0, 0, 0), c);
    assert_eq!(Rgb(0, 0, 0) + c, c);
}

#[test]
fn rgb_bytes_of_empty_buffer() {
    let buffer: Vec<Rgb> = Vec::new();
    assert_eq!(rgb_vec_to_u8_slice(&buffer), Vec::<u8>::new());
}

#[test]
fn rgb_bytes_are_three_per_pixel_in_order() {
    let buffer = vec![Rgb(1, 2, 3), Rgb(4, 5, 6), Rgb(255, 0, 128)];
    assert_eq!(rgb_vec_to_u8_slice(&buffer), vec![1, 2, 3, 4, 5, 6, 255, 0, 128]);
}
