use rustracer::canvas::{index_from_pos, pos_from_index, Canvas};
use rustracer::minifb_als::from_u8_rgb;

#[test]
///Creating a canvas
fn canvas_creation() {
    let canvas = Canvas::new_canvas(10, 20);
    assert_eq!(canvas.height, 20);
    assert_eq!(canvas.width, 10);
    for color in canvas.pixels {
        assert_eq!(color, 0);
    }

    // azure blue, packed: (0.0, 0.5, 1.0) scaled to bytes
    let azure_blue = from_u8_rgb(0, 127, 255);
    let canvas_2 = Canvas::new_canvas_with_color(10, 20, azure_blue);
    assert_eq!(canvas_2.height, 20);
    assert_eq!(canvas_2.width, 10);
    for color in canvas_2.pixels {
        assert_eq!(color, azure_blue);
    }
}

#[test]
///Writing pixels to a canvas
fn write_pixel_to_canvas() {
    let red = from_u8_rgb(255, 0, 0);
    let mut c = Canvas::new_canvas(10, 20);
    c.set_pixel_color(2, 3, red);
    assert_eq!(c.pixel_at(2, 3), red);
    assert_eq!(c.pixel_at(2, 4), 0);
    assert_eq!(c.pixels[3 * 10 + 2], red);
}

#[test]
///Canvas indexing is row-major
fn canvas_indexing() {
    let c = Canvas::new_canvas(10, 20);
    assert_eq!(index_from_pos(2, 3, 10), 32);
    assert_eq!(pos_from_index(32, &c), (2, 3));
    assert_eq!(pos_from_index(199, &c), (9, 19));
}

#[test]
///Packing RGB bytes into a display word
fn pack_rgb_word() {
    assert_eq!(from_u8_rgb(255, 204, 153), 0x00FFCC99);
    assert_eq!(from_u8_rgb(0, 0, 0), 0);
    assert_eq!(from_u8_rgb(255, 255, 255), 0x00FFFFFF);
    assert_eq!(
        rustracer::minifb_als::from_u8_tuble_rgb((1, 2, 3)),
        0x00010203
    );
}

#[test]
///Buffer positions convert both ways
fn index_round_trip() {
    for y in 0..7usize {
        for x in 0..5usize {
            let index = rustracer::utils::index_from_pos(x, y, 5);
            assert_eq!(rustracer::utils::pos_from_index(index, 5), (x, y));
        }
    }
}
