use circle_collision::grfx::canvas::Canvas;
use circle_collision::grfx::color::Color;
use circle_collision::math::vector::Point2D;

fn marked(canvas: &Canvas) -> Vec<(u32, u32)> {
    let mut found = Vec::new();
    for y in 0..canvas.height() {
        for x in 0..canvas.width() {
            if canvas.pixels()[(y * canvas.width() + x) as usize] == Color::red() {
                found.push((x, y));
            }
        }
    }
    found
}

fn corners(points: &[(i32, i32)]) -> Vec<Point2D> {
    points.iter().map(|p| Point2D::new(p.0, p.1)).collect()
}

#[test]
fn circle_of_radius_three() {
    let mut canvas = Canvas::new(11, 11);
    canvas.circle(Point2D::new(5, 5), 3, Color::red());
    assert_eq!(
        marked(&canvas),
        vec![
            (4, 2), (5, 2), (6, 2), (3, 3), (7, 3), (2, 4), (8, 4), (2, 5), (8, 5), (2, 6),
            (8, 6), (3, 7), (7, 7), (4, 8), (5, 8), (6, 8)
        ]
    );
}

#[test]
fn circle_of_radius_zero_is_its_centre() {
    let mut canvas = Canvas::new(5, 5);
    canvas.circle(Point2D::new(2, 2), 0, Color::red());
    assert_eq!(marked(&canvas), vec![(2, 2)]);
}

#[test]
fn circle_of_radius_one() {
    let mut canvas = Canvas::new(5, 5);
    canvas.circle(Point2D::new(2, 2), 1, Color::red());
    assert_eq!(marked(&canvas), vec![(2, 1), (1, 2), (3, 2), (2, 3)]);
}

#[test]
fn circle_of_negative_radius_draws_nothing() {
    let mut canvas = Canvas::new(5, 5);
    canvas.circle(Point2D::new(2, 2), -1, Color::red());
    canvas.circle(Point2D::new(2, 2), i32::MIN, Color::red());
    assert_eq!(marked(&canvas), vec![]);
}

#[test]
fn circle_is_clipped_to_the_canvas() {
    let mut canvas = Canvas::new(6, 6);
    canvas.circle(Point2D::new(1, 1), 5, Color::red());
    assert_eq!(marked(&canvas), vec![(5, 3), (4, 4), (3, 5)]);
}

#[test]
fn filled_circle_of_radius_three() {
    let mut canvas = Canvas::new(11, 11);
    canvas.filled_circle(Point2D::new(5, 5), 3, Color::red());
    assert_eq!(
        marked(&canvas),
        vec![
            (4, 2), (5, 2), (6, 2), (3, 3), (4, 3), (5, 3), (6, 3), (7, 3), (2, 4), (3, 4),
            (4, 4), (5, 4), (6, 4), (7, 4), (2, 5), (3, 5), (4, 5), (5, 5), (6, 5), (7, 5),
            (2, 6), (3, 6), (4, 6), (5, 6), (6, 6), (7, 6), (3, 7), (4, 7), (5, 7), (6, 7)
        ]
    );
}

#[test]
fn filled_circle_of_radius_zero_draws_nothing() {
    let mut canvas = Canvas::new(5, 5);
    canvas.filled_circle(Point2D::new(2, 2), 0, Color::red());
    assert_eq!(marked(&canvas), vec![]);
}

#[test]
fn filled_circle_of_radius_one() {
    let mut canvas = Canvas::new(5, 5);
    canvas.filled_circle(Point2D::new(2, 2), 1, Color::red());
    assert_eq!(marked(&canvas), vec![(2, 1), (1, 2), (2, 2)]);
}

#[test]
fn filled_circle_of_negative_radius_draws_nothing() {
    let mut canvas = Canvas::new(5, 5);
    canvas.filled_circle(Point2D::new(2, 2), -4, Color::red());
    assert_eq!(marked(&canvas), vec![]);
}

#[test]
fn filled_circle_of_body_size() {
    let mut canvas = Canvas::new(21, 21);
    canvas.filled_circle(Point2D::new(10, 10), 8, Color::red());
    let found = marked(&canvas);
    assert_eq!(found.len(), 186);
    let row = |y: u32| -> Vec<u32> { found.iter().filter(|p| p.1 == y).map(|p| p.0).collect() };
    assert_eq!(row(1), Vec::<u32>::new());
    assert_eq!(row(2), vec![8, 9, 10, 11, 12]);
    assert_eq!(row(3), (7..=13).collect::<Vec<u32>>());
    assert_eq!(row(7), (3..=16).collect::<Vec<u32>>());
    assert_eq!(row(10), (2..=17).collect::<Vec<u32>>());
    assert_eq!(row(16), (7..=13).collect::<Vec<u32>>());
    assert_eq!(row(17), vec![8, 9, 10, 11, 12]);
    assert_eq!(row(18), Vec::<u32>::new());
}

#[test]
fn filled_circle_covers_what_the_outline_encloses() {
    let mut disk = Canvas::new(21, 21);
    disk.filled_circle(Point2D::new(10, 10), 8, Color::red());
    let filled = marked(&disk);
    for p in [(10, 10), (10, 2), (2, 10), (17, 10), (10, 17), (5, 5), (14, 15)] {
        assert!(filled.contains(&p));
    }
    for p in [(10, 18), (18, 10), (10, 1), (1, 10), (3, 3), (17, 17)] {
        assert!(!filled.contains(&p));
    }
}

#[test]
fn rectangle_outline() {
    let mut canvas = Canvas::new(8, 6);
    canvas.rectangle(Point2D::new(1, 1), 4, 3, Color::red());
    assert_eq!(
        marked(&canvas),
        vec![
            (1, 1), (2, 1), (3, 1), (4, 1), (5, 1), (1, 2), (5, 2), (1, 3), (5, 3), (1, 4),
            (2, 4), (3, 4), (4, 4)
        ]
    );
}

#[test]
fn rectangle_near_the_end_of_the_range() {
    let mut canvas = Canvas::new(4, 4);
    canvas.rectangle(Point2D::new(i32::MAX, i32::MAX), i32::MAX, i32::MAX, Color::red());
    canvas.rectangle(Point2D::new(2, 2), i32::MIN, 0, Color::red());
    assert_eq!(marked(&canvas), vec![(0, 2), (1, 2)]);
}

#[test]
fn filled_rectangle_rows() {
    let mut canvas = Canvas::new(8, 6);
    canvas.filled_rectangle(Point2D::new(1, 1), 4, 2, Color::red());
    assert_eq!(
        marked(&canvas),
        vec![
            (1, 1), (2, 1), (3, 1), (4, 1), (1, 2), (2, 2), (3, 2), (4, 2), (1, 3), (2, 3),
            (3, 3), (4, 3)
        ]
    );
}

#[test]
fn filled_rectangle_of_negative_width() {
    let mut canvas = Canvas::new(8, 6);
    canvas.filled_rectangle(Point2D::new(5, 1), -3, 1, Color::red());
    assert_eq!(marked(&canvas), vec![(2, 1), (3, 1), (4, 1), (2, 2), (3, 2), (4, 2)]);
}

#[test]
fn filled_rectangle_of_negative_height_draws_nothing() {
    let mut canvas = Canvas::new(8, 6);
    canvas.filled_rectangle(Point2D::new(1, 1), 4, -1, Color::red());
    assert_eq!(marked(&canvas), vec![]);
}

#[test]
fn triangle_sides() {
    let mut canvas = Canvas::new(8, 8);
    canvas.triangle(Point2D::new(1, 1), Point2D::new(6, 2), Point2D::new(3, 6), Color::red());
    assert_eq!(
        marked(&canvas),
        vec![
            (1, 1), (2, 1), (3, 1), (1, 2), (4, 2), (5, 2), (6, 2), (2, 3), (5, 3), (2, 4),
            (5, 4), (3, 5), (4, 5), (3, 6)
        ]
    );
}

#[test]
fn polygon_is_closed() {
    let mut canvas = Canvas::new(8, 8);
    canvas.polygon(&corners(&[(1, 1), (6, 1), (6, 5), (1, 5)]), Color::red());
    assert_eq!(
        marked(&canvas),
        vec![
            (1, 1), (2, 1), (3, 1), (4, 1), (5, 1), (6, 1), (1, 2), (6, 2), (1, 3), (6, 3),
            (1, 4), (6, 4), (1, 5), (2, 5), (3, 5), (4, 5), (5, 5)
        ]
    );
}

#[test]
fn polygon_needs_three_vertices() {
    let mut canvas = Canvas::new(8, 8);
    canvas.polygon(&corners(&[(1, 1), (6, 1)]), Color::red());
    canvas.polygon(&corners(&[(1, 1)]), Color::red());
    canvas.polygon(&corners(&[]), Color::red());
    assert_eq!(marked(&canvas), vec![]);
}

#[test]
fn polygon_of_three_is_a_triangle() {
    let mut a = Canvas::new(8, 8);
    let mut b = Canvas::new(8, 8);
    a.polygon(&corners(&[(1, 1), (6, 2), (3, 6)]), Color::red());
    b.triangle(Point2D::new(1, 1), Point2D::new(6, 2), Point2D::new(3, 6), Color::red());
    assert_eq!(a.pixels(), b.pixels());
}

#[test]
fn path_stays_open() {
    let mut canvas = Canvas::new(8, 8);
    canvas.path(&corners(&[(0, 0), (3, 1), (3, 4), (7, 6)]), Color::red());
    assert_eq!(
        marked(&canvas),
        vec![
            (0, 0), (1, 0), (2, 1), (3, 1), (3, 2), (3, 3), (3, 4), (4, 5), (5, 5), (6, 6),
            (7, 6)
        ]
    );
}

#[test]
fn path_of_one_vertex_draws_nothing() {
    let mut canvas = Canvas::new(8, 8);
    canvas.path(&corners(&[(3, 3)]), Color::red());
    canvas.path(&corners(&[]), Color::red());
    assert_eq!(marked(&canvas), vec![]);
}

#[test]
fn circle_outline_hugs_the_ideal_circle() {
    for radius in 0..40i32 {
        let mut canvas = Canvas::new(101, 101);
        canvas.circle(Point2D::new(50, 50), radius, Color::red());
        let found = marked(&canvas);
        assert!(!found.is_empty());
        for (x, y) in found {
            let dx = x as i32 - 50;
            let dy = y as i32 - 50;
            let squared = dx * dx + dy * dy;
            assert!(radius * radius - 3 * radius <= squared);
            assert!(squared <= radius * radius + radius);
        }
    }
}

#[test]
fn filled_circle_stays_inside_the_outline() {
    for radius in 0..40i32 {
        let mut canvas = Canvas::new(101, 101);
        canvas.filled_circle(Point2D::new(50, 50), radius, Color::red());
        for (x, y) in marked(&canvas) {
            let dx = x as i32 - 50;
            let dy = y as i32 - 50;
            assert!(dx * dx + dy * dy <= radius * radius + radius);
            assert!(dx.abs() <= radius && dy.abs() <= radius);
        }
    }
}

#[test]
fn circle_is_the_same_in_all_octants() {
    let mut canvas = Canvas::new(41, 41);
    canvas.circle(Point2D::new(20, 20), 13, Color::red());
    let found = marked(&canvas);
    for &(x, y) in &found {
        let (dx, dy) = (x as i32 - 20, y as i32 - 20);
        for (a, b) in [(-dx, dy), (dx, -dy), (dy, dx), (-dy, -dx)] {
            assert!(found.contains(&((20 + a) as u32, (20 + b) as u32)));
        }
    }
}

#[test]
fn filled_circle_covers_the_inside_of_the_ideal_circle() {
    for radius in 0..40i32 {
        let mut canvas = Canvas::new(101, 101);
        canvas.filled_circle(Point2D::new(50, 50), radius, Color::red());
        let found = marked(&canvas);
        for dx in -radius..=radius {
            for dy in -radius..=radius {
                if dx * dx + dy * dy < radius * radius - 3 * radius {
                    assert!(found.contains(&((50 + dx) as u32, (50 + dy) as u32)));
                }
            }
        }
    }
}
