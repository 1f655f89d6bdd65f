use tracer_core::canvas::{canvas, pixel_at, write_pixel, Canvas};
use tracer_core::color::{black, color, Color};
use tracer_core::scalar::Scalar;

fn sc(num: i64, den: i64) -> Scalar {
    Scalar::new(num, den)
}

fn si(value: i64) -> Scalar {
    Scalar::from_int(value)
}

fn red() -> Color {
    color(si(1), si(0), si(0))
}

#[test]
fn it_can_be_instatiated_with_a_width_and_height() {
    let c = canvas(10, 20);
    assert_eq!(c.width, 10);
    assert_eq!(c.height, 20);
    for pixel in &c.pixels {
        assert!(*pixel == black());
    }
}

#[test]
fn it_can_have_its_pixels_read_by_index() {
    let c = canvas(10, 20);
    assert!(c.pixel_at(2, 3) == black());
}

#[test]
fn can_use_pixel_at_function_like_in_buck() {
    let c = canvas(10, 20);
    assert!(pixel_at(c, 2, 3) == black());
}

#[test]
fn can_use_pixel_at_method_like_in_buck() {
    let c = canvas(10, 20);
    assert!(c.pixel_at(2, 3) == black());
}

#[test]
fn it_can_have_its_pixels_set_by_index() {
    let mut c = canvas(10, 20);
    c.write_pixel(2, 3, red());
    assert!(c.clone().pixel_at(2, 3) == red());
    assert!(c.pixel_at(2, 3) == red());
}

#[test]
fn it_can_have_its_pixels_set_by_function_like_in_buck() {
    let mut c = canvas(10, 20);
    write_pixel(&mut c, 2, 3, red());
    assert!(c.clone().pixel_at(2, 3) == red());
    assert!(pixel_at(c, 2, 3) == red());
}

#[test]
fn it_can_have_its_pixels_set_by_method_like_in_buck() {
    let mut c = canvas(10, 20);
    c.write_pixel(2, 3, red());
    assert!(c.clone().pixel_at(2, 3) == red());
    assert!(c.pixel_at(2, 3) == red());
}

#[test]
fn it_can_write_the_header_of_a_ppm_file() {
    let c = canvas(5, 3);
    let ppm = c.to_ppm();
    let header = ppm.lines().take(3).collect::<Vec<&str>>().join("\n");
    assert_eq!(header, "P3\n5 3\n255");
}

#[test]
fn it_can_write_the_pixels_of_a_ppm_file() {
    let mut canv = canvas(5, 3);
    let bright_red = color(sc(3, 2), si(0), si(0));
    let half_green = color(si(0), sc(1, 2), si(0));
    let odd_blue = color(sc(-1, 2), si(0), si(1));
    canv.write_pixel(0, 0, bright_red);
    canv.write_pixel(2, 1, half_green);
    write_pixel(&mut canv, 4, 2, odd_blue);
    let ppm = canv.to_ppm();
    let body = &ppm["P3\n5 3\n255\n".len()..];
    let expected = "255 0 0 0 0 0 0 0 0 0 0 0 0 0 0\n\
                    0 0 0 0 0 0 0 128 0 0 0 0 0 0 0\n\
                    0 0 0 0 0 0 0 0 0 0 0 0 0 0 255";
    assert_eq!(expected, body);
}

#[test]
fn a_fresh_canvas_encodes_header_and_zero_rows() {
    let c = canvas(2, 2);
    assert_eq!(c.to_ppm(), "P3\n2 2\n255\n0 0 0 0 0 0\n0 0 0 0 0 0");
}

#[test]
fn an_empty_canvas_encodes_the_header_alone() {
    let c: Canvas = canvas(0, 3);
    assert_eq!(c.to_ppm(), "P3\n0 3\n255\n");
    let c = canvas(4, 0);
    assert_eq!(c.to_ppm(), "P3\n4 0\n255\n");
}

#[test]
fn clamping_rounds_channels_down_onto_the_byte_range() {
    let mut c = canvas(1, 1);
    c.write_pixel(0, 0, color(sc(1, 2), sc(999, 1000), sc(-3, 2)));
    assert_eq!(c.to_ppm(), "P3\n1 1\n255\n128 255 0");
}
