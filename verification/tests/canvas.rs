use termframe::screen::{Colour, Screen};

fn count_of(s: &Screen, c: Colour) -> usize {
    s.screen.iter().filter(|&&p| p == c).count()
}

#[test]
fn new_canvas_is_black() {
    let s = Screen::from(7, 3);
    assert_eq!(s.width, 7);
    assert_eq!(s.height, 3);
    assert_eq!(s.screen.len(), 21);
    assert!(s.screen.iter().all(|&p| p == Colour::Rgb(0, 0, 0)));
}

#[test]
fn fill_then_read_back_every_cell() {
    let mut s = Screen::from(20, 10);
    s.background(Colour::Grey(7));
    for y in 0..10 {
        for x in 0..20 {
            assert_eq!(s.get_pixel(x, y), Colour::Grey(7));
        }
    }
    // Filling again overwrites everything again.
    s.background(Colour::Rgb(1, 2, 3));
    assert_eq!(count_of(&s, Colour::Rgb(1, 2, 3)), 200);
}

#[test]
fn set_pixel_writes_row_major() {
    let mut s = Screen::from(5, 4);
    s.set_pixel(2, 3, Colour::Grey(9));
    assert_eq!(s.screen[5 * 3 + 2], Colour::Grey(9));
    assert_eq!(count_of(&s, Colour::Grey(9)), 1);
}

#[test]
fn set_pixel_clamps_huge_coordinates() {
    let mut s = Screen::from(5, 4);
    s.set_pixel(1_000_000, 999_999_999, Colour::Grey(1));
    // The write lands on the clamped corner, never outside the buffer.
    assert_eq!(s.get_pixel(4, 3), Colour::Grey(1));
    assert_eq!(count_of(&s, Colour::Grey(1)), 1);
}

#[test]
fn set_pixel_on_empty_canvas_is_a_no_op() {
    let mut s = Screen::from(0, 0);
    s.set_pixel(3, 3, Colour::Grey(1));
    assert_eq!(s.screen.len(), 0);
    let mut s = Screen::from(4, 0);
    s.set_pixel(0, 0, Colour::Grey(1));
    assert_eq!(s.screen.len(), 0);
}

#[test]
fn update_size_reallocates_and_clears() {
    let mut s = Screen::from(3, 3);
    s.background(Colour::Grey(200));
    s.update_size(6, 2);
    assert_eq!(s.width, 6);
    assert_eq!(s.height, 2);
    assert_eq!(s.screen.len(), 12);
    assert!(s.screen.iter().all(|&p| p == Colour::Rgb(0, 0, 0)));
}
