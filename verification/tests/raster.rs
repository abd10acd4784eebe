use termframe::screen::{Colour, Screen};

const BG: Colour = Colour::Rgb(0, 0, 0);
const FG: Colour = Colour::Grey(255);

fn lit(s: &Screen) -> Vec<(usize, usize)> {
    let mut v = Vec::new();
    for y in 0..s.height {
        for x in 0..s.width {
            if s.screen[s.width * y + x] != BG {
                v.push((x, y));
            }
        }
    }
    v
}

#[test]
fn horizontal_line_touches_exactly_its_span() {
    let mut s = Screen::from(20, 10);
    s.bresenham((0, 5), (10, 5), FG);
    let expect: Vec<(usize, usize)> = (0..=10).map(|x| (x, 5)).collect();
    assert_eq!(lit(&s), expect);
}

#[test]
fn vertical_line_touches_exactly_one_column() {
    let mut s = Screen::from(20, 10);
    s.bresenham((3, 1), (3, 6), FG);
    let expect: Vec<(usize, usize)> = (1..=6).map(|y| (3, y)).collect();
    assert_eq!(lit(&s), expect);
}

#[test]
fn diagonal_line_steps_once_per_cell() {
    let mut s = Screen::from(20, 10);
    s.bresenham((0, 0), (5, 5), FG);
    let expect: Vec<(usize, usize)> = (0..=5).map(|i| (i, i)).collect();
    assert_eq!(lit(&s), expect);
}

#[test]
fn endpoint_order_does_not_change_the_picture() {
    let cases = [
        ((1, 1), (17, 8)),
        ((-5, 2), (19, 9)),
        ((4, 9), (4, 0)),
        ((0, 0), (10, 5)),
        ((12, 3), (2, 7)),
        ((6, 6), (6, 6)),
    ];
    for (a, b) in cases {
        let mut s1 = Screen::from(20, 10);
        let mut s2 = Screen::from(20, 10);
        s1.bresenham(a, b, FG);
        s2.bresenham(b, a, FG);
        assert_eq!(s1.screen, s2.screen, "endpoints {:?} {:?}", a, b);
    }
}

#[test]
fn far_outside_endpoint_is_clipped_not_fatal() {
    let mut s = Screen::from(20, 10);
    s.bresenham((-10000, 2), (5, 2), FG);
    for (x, y) in lit(&s) {
        assert!(x < 20 && y < 10);
        assert_eq!(y, 2);
    }
    let mut s = Screen::from(20, 10);
    s.bresenham((2, -10000), (2, 5), FG);
    for (x, y) in lit(&s) {
        assert!(x < 20 && y < 10);
        assert_eq!(x, 2);
    }
    let mut s = Screen::from(20, 10);
    s.bresenham((-10000, -9000), (30000, 25000), FG);
    for (x, y) in lit(&s) {
        assert!(x < 20 && y < 10);
    }
}

#[test]
fn triangle_draws_three_edges_unfilled() {
    let mut s = Screen::from(20, 10);
    s.triangle((1, 1), (10, 1), (1, 8), FG, false);
    let on = lit(&s);
    // The horizontal edge, a vertical edge, and the hypotenuse are there...
    assert!(on.contains(&(5, 1)));
    assert!(on.contains(&(1, 4)));
    // ...but the interior is not filled.
    assert!(!on.contains(&(4, 3)));
    assert!(on.len() < 20 * 10 / 2);
}

#[test]
fn antialiased_triangle_is_an_accepted_no_op() {
    let mut s = Screen::from(20, 10);
    s.triangle((1, 1), (10, 1), (1, 8), FG, true);
    assert!(lit(&s).is_empty());
}
