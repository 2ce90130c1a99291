use rustle::{BlitTarget, Blitable, ConstructionError, Frame, FrameType, Point, Size, Window};

#[test]
fn it_works() {
    let result = 2 + 2;
    assert_eq!(result, 4);
}

fn grid<const W: usize, const H: usize>(fill: char) -> Window<W, H> {
    Window::<W, H>::new_with_fill(fill).unwrap()
}

fn marked<const W: usize, const H: usize>(m: &[[char; W]; H], c: char) -> Vec<(i32, i32)> {
    let mut out = Vec::new();
    for y in 0..H {
        for x in 0..W {
            if m[y][x] == c {
                out.push((x as i32, y as i32));
            }
        }
    }
    out
}

#[test]
fn new_fills_with_space() {
    let w = Window::<3, 2>::new().unwrap();
    assert_eq!(w.render(), [[' '; 3]; 2]);
}

#[test]
fn new_with_fill_fills() {
    let w = grid::<4, 3>('x');
    assert_eq!(w.render(), [['x'; 4]; 3]);
}

#[test]
fn construction_at_largest_size_succeeds() {
    assert!(Window::<32767, 0>::new().is_ok());
    assert!(Window::<0, 32767>::new_with_fill('a').is_ok());
}

#[test]
fn construction_too_wide_fails() {
    assert_eq!(Window::<32768, 1>::new().err(), Some(ConstructionError::TooWide));
    assert_eq!(Window::<40000, 40000>::new_with_fill('a').err(), Some(ConstructionError::TooWide));
}

#[test]
fn construction_too_tall_fails() {
    assert_eq!(Window::<1, 32768>::new().err(), Some(ConstructionError::TooTall));
}

#[test]
fn dimensions() {
    assert_eq!(Window::<7, 9>::width(), 7);
    assert_eq!(Window::<7, 9>::height(), 9);
}

#[test]
fn draw_round_trip() {
    let mut w = grid::<5, 4>('.');
    w.draw('#', Point::new(3, 2));
    let m = w.render();
    for y in 0..4 {
        for x in 0..5 {
            let expected = if (x, y) == (3, 2) { '#' } else { '.' };
            assert_eq!(m[y][x], expected);
        }
    }
}

#[test]
fn draw_outside_is_dropped() {
    let mut w = grid::<5, 4>('.');
    for p in [(-1, 0), (0, -1), (5, 0), (0, 4), (i16::MIN, i16::MAX), (i16::MAX, 1)] {
        w.draw('#', p.into());
    }
    assert_eq!(w.render(), [['.'; 5]; 4]);
}

#[test]
fn filled_square_touches_rectangle() {
    let mut w = grid::<8, 6>('.');
    w.draw_filled_square('#', Point::new(2, 1), 3, 4);
    let got = marked(&w.render(), '#');
    let mut expected = Vec::new();
    for y in 1..5 {
        for x in 2..5 {
            expected.push((x, y));
        }
    }
    assert_eq!(got, expected);
}

#[test]
fn filled_square_clips() {
    let mut w = grid::<4, 4>('.');
    w.draw_filled_square('#', Point::new(-2, 3), 4, 5);
    assert_eq!(marked(&w.render(), '#'), vec![(0, 3), (1, 3)]);
}

#[test]
fn filled_square_non_positive_is_noop() {
    let mut w = grid::<4, 4>('.');
    w.draw_filled_square('#', Point::new(1, 1), 0, 3);
    w.draw_filled_square('#', Point::new(1, 1), 3, -2);
    assert_eq!(w.render(), [['.'; 4]; 4]);
}

#[test]
fn square_touches_perimeter() {
    let mut w = grid::<7, 7>('.');
    w.draw_square('#', Point::new(1, 1), 5, 4);
    let m = w.render();
    let got = marked(&m, '#');
    let mut expected = Vec::new();
    for y in 0..7 {
        for x in 0..7 {
            let inside = (1..6).contains(&x) && (1..5).contains(&y);
            let interior = (2..5).contains(&x) && (2..4).contains(&y);
            if inside && !interior {
                expected.push((x, y));
            }
        }
    }
    assert_eq!(got, expected);
    assert_eq!(got.len(), 2 * 5 + 2 * (4 - 2));
}

#[test]
fn square_of_height_two_has_no_interior_rows() {
    let mut w = grid::<5, 5>('.');
    w.draw_square('#', Point::new(0, 0), 3, 2);
    assert_eq!(marked(&w.render(), '#'), vec![(0, 0), (1, 0), (2, 0), (0, 1), (1, 1), (2, 1)]);
}

fn arc(radius: u16) -> Vec<(i32, i32)> {
    let r: i32 = if radius > 32767 { 32767 } else { radius as i32 };
    let (mut x, mut y, mut d) = (0i32, r, 3 - 2 * r);
    let mut out = vec![(x, y)];
    while x <= y {
        x += 1;
        if d < 0 {
            d += 4 * x + 6;
        } else {
            d += 4 * (x - y) + 10;
            y -= 1;
        }
        out.push((x, y));
    }
    out
}

fn eight(a: i32, b: i32) -> [(i32, i32); 8] {
    [(a, b), (-a, b), (a, -b), (-a, -b), (b, a), (-b, a), (b, -a), (-b, -a)]
}

#[test]
fn trace_arc_samples() {
    assert_eq!(rustle::trace_arc(0), vec![(0, 0), (1, -1)]);
    assert_eq!(rustle::trace_arc(5), vec![(0, 5), (1, 5), (2, 4), (3, 3), (4, 2)]);
    assert_eq!(rustle::trace_arc(23), arc(23));
}

#[test]
fn trace_arc_clamps_radius() {
    assert_eq!(rustle::trace_arc(40000), rustle::trace_arc(32767));
    assert_eq!(rustle::trace_arc(u16::MAX).len(), arc(32767).len());
}

#[test]
fn circle_radius_one() {
    let mut w = grid::<5, 5>('.');
    w.draw_circle('o', Point::new(2, 2), 1);
    assert_eq!(marked(&w.render(), 'o'), vec![(2, 1), (1, 2), (3, 2), (2, 3)]);
}

#[test]
fn circle_is_symmetric() {
    let mut w = grid::<41, 41>('.');
    w.draw_circle('o', Point::new(20, 20), 13);
    let m = w.render();
    let got = marked(&m, 'o');
    assert!(!got.is_empty());
    for (x, y) in got {
        let (dx, dy) = (x - 20, y - 20);
        for (rx, ry) in eight(dx, dy) {
            assert_eq!(m[(20 + ry) as usize][(20 + rx) as usize], 'o');
        }
    }
}

#[test]
fn filled_circle_radius_one_marks_cross() {
    let mut w = grid::<5, 5>('.');
    w.draw_filled_circle('o', Point::new(2, 2), 1);
    assert_eq!(marked(&w.render(), 'o'), vec![(2, 1), (1, 2), (2, 2), (3, 2), (2, 3)]);
}

#[test]
fn filled_circle_radius_zero_marks_center() {
    let mut w = Window::<3, 3>::new().unwrap();
    w.draw_filled_circle('x', Point::new(1, 1), 0);
    assert_eq!(w.render(), [[' ', ' ', ' '], [' ', 'x', ' '], [' ', ' ', ' ']]);
}

#[test]
fn filled_circle_contains_hollow() {
    for r in 1..30u16 {
        let mut hollow = grid::<71, 71>('.');
        hollow.draw_circle('o', Point::new(35, 35), r);
        let mut filled = grid::<71, 71>('.');
        filled.draw_filled_circle('o', Point::new(35, 35), r);
        let f = filled.render();
        for (x, y) in marked(&hollow.render(), 'o') {
            assert_eq!(f[y as usize][x as usize], 'o');
        }
    }
}

#[test]
fn circle_clips_at_edges() {
    let mut w = grid::<3, 3>('.');
    w.draw_circle('o', Point::new(0, 0), 1);
    assert_eq!(marked(&w.render(), 'o'), vec![(1, 0), (0, 1)]);
}

#[test]
fn blit_contained() {
    let mut src = grid::<3, 2>('s');
    src.draw('t', Point::new(2, 1));
    let mut dst = grid::<6, 5>('.');
    src.blit(&mut dst, Point::new(2, 1));
    let m = dst.render();
    let s = src.render();
    for y in 0..5 {
        for x in 0..6 {
            let expected = if (2..5).contains(&x) && (1..3).contains(&y) { s[y - 1][x - 2] } else { '.' };
            assert_eq!(m[y][x], expected);
        }
    }
    assert_eq!(m[2][4], 't');
}

#[test]
fn blit_overflowing_clips() {
    let src = grid::<3, 3>('s');
    let mut dst = grid::<4, 4>('.');
    src.blit(&mut dst, Point::new(2, -1));
    assert_eq!(marked(&dst.render(), 's'), vec![(2, 0), (3, 0), (2, 1), (3, 1)]);
}

#[test]
fn blit_is_idempotent() {
    let src = grid::<2, 2>('s');
    let mut once = grid::<4, 4>('.');
    src.blit(&mut once, Point::new(1, 1));
    let mut twice = grid::<4, 4>('.');
    src.blit(&mut twice, Point::new(1, 1));
    src.blit(&mut twice, Point::new(1, 1));
    assert_eq!(once.render(), twice.render());
}

#[test]
fn frame_light_geometry() {
    let mut w = grid::<10, 20>(' ');
    Frame::new(FrameType::Light, 7, 17).blit(&mut w, Point::new(0, 0));
    let m = w.render();
    assert_eq!(m[0][0], '┌');
    assert_eq!(m[0][6], '┐');
    assert_eq!(m[16][0], '└');
    assert_eq!(m[16][6], '┘');
    for x in 1..6 {
        assert_eq!(m[0][x], '─');
        assert_eq!(m[16][x], '─');
    }
    for y in 1..16 {
        assert_eq!(m[y][0], '│');
        assert_eq!(m[y][6], '│');
    }
    for y in 0..20 {
        for x in 0..10 {
            if x > 6 || y > 16 || ((1..6).contains(&x) && (1..16).contains(&y)) {
                assert_eq!(m[y][x], ' ');
            }
        }
    }
}

#[test]
fn frame_double_at_offset() {
    let mut w = grid::<6, 5>('.');
    Frame::new(FrameType::Double, 3, 3).blit(&mut w, Point::new(2, 1));
    let m = w.render();
    assert_eq!(m[1][2..5], ['╔', '═', '╗']);
    assert_eq!(m[2][2..5], ['║', '.', '║']);
    assert_eq!(m[3][2..5], ['╚', '═', '╝']);
    assert_eq!(m[0], ['.'; 6]);
}

#[test]
fn frame_of_one_cell_keeps_last_corner() {
    let mut w = grid::<3, 3>('.');
    Frame::new(FrameType::Light, 1, 1).blit(&mut w, Point::new(1, 1));
    assert_eq!(w.render()[1][1], '┘');
}

#[test]
fn window_composes_frame_through_trait() {
    let mut w = grid::<4, 4>('.');
    let f = Frame::new(FrameType::Light, 2, 2);
    assert_eq!(f.width, 2);
    assert_eq!(f.height, 2);
    assert!(f.frame_type == FrameType::Light);
    f.blit(&mut w, Point::new(-1, -1));
    assert_eq!(marked(&w.render(), '┘'), vec![(0, 0)]);
}

#[test]
fn end_to_end_scenario() {
    let mut w = grid::<100, 50>('A');
    w.draw_square('B', (1, 1).into(), 5, 5);
    w.draw_filled_square('C', (3, 3).into(), 5, 5);
    w.draw_filled_circle('D', (20, 20).into(), 23);
    let m = w.render();

    let mut expected = [['A'; 100]; 50];
    for y in 1..6 {
        for x in 1..6 {
            if x == 1 || x == 5 || y == 1 || y == 5 {
                expected[y][x] = 'B';
            }
        }
    }
    for y in 3..8 {
        for x in 3..8 {
            expected[y][x] = 'C';
        }
    }
    for (a, b) in arc(23) {
        for s in a..=b {
            for (dx, dy) in eight(a, s) {
                let (x, y) = (20 + dx, 20 + dy);
                if (0..100).contains(&x) && (0..50).contains(&y) {
                    expected[y as usize][x as usize] = 'D';
                }
            }
        }
    }
    assert_eq!(m, expected);
    assert_eq!(m[20][20], 'D');
    assert_eq!(m[1][1], 'B');
    assert_eq!(m[20][0], 'D');
    assert_eq!(m[0][0], 'A');
    assert_eq!(m[49][99], 'A');
}

#[test]
fn point_arithmetic() {
    let p = Point::new(3, -4);
    let q: Point = (1, 2).into();
    let r = p + q;
    assert_eq!((r.x, r.y), (4, -2));
    let s = p + (10, 10);
    assert_eq!((s.x, s.y), (13, 6));
    assert!(Point::default() == Point::new(0, 0));
}

#[test]
fn size_new() {
    let s = Size::new(3, 4);
    assert_eq!((s.width, s.height), (3, 4));
}
