use sch_gui::{Buffer, Pixel};

fn black() -> Pixel {
    Pixel::new(0, 0, 0)
}

#[test]
fn new_buffer_is_black() {
    let b = Buffer::new(3, 2);
    assert_eq!(b.width(), 3);
    assert_eq!(b.height(), 2);
    assert_eq!(b.pixels().len(), 6);
    assert!(b.pixels().iter().all(|p| *p == black()));
}

#[test]
fn empty_buffer_has_no_pixels() {
    let b = Buffer::new(0, 7);
    assert_eq!(b.pixels().len(), 0);
    assert_eq!(b.height(), 7);
}

#[test]
fn pixel_is_addressed_row_after_row() {
    let mut b = Buffer::new(3, 2);
    {
        let p = b.pixel(1, 1).unwrap();
        p.red = 9;
        p.green = 8;
        p.blue = 7;
    }
    assert_eq!(b.pixels()[4], Pixel::new(9, 8, 7));
    let changed = b.pixels().iter().filter(|p| **p != black()).count();
    assert_eq!(changed, 1);
}

#[test]
fn pixel_past_right_edge_addresses_next_row() {
    let mut b = Buffer::new(3, 2);
    b.pixel(3, 0).unwrap().green = 200;
    assert_eq!(b.pixels()[3], Pixel::new(0, 200, 0));
}

#[test]
fn pixel_past_last_is_none() {
    let mut b = Buffer::new(3, 2);
    assert!(b.pixel(0, 2).is_none());
    assert!(b.pixel(6, 0).is_none());
    assert!(b.pixel(2, 1).is_some());
    assert!(b.pixels().iter().all(|p| *p == black()));
}
