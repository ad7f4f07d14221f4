use soft_rasterizer::{Point3, Rasterizer, Rgb, Triangle};

type Raster = Rasterizer<Point3>;

fn triangle(a: (i32, i32), b: (i32, i32), c: (i32, i32)) -> Triangle {
    let mut t = Triangle::new();
    t.set_vertex(0, Point3::new(a.0, a.1, 0));
    t.set_vertex(1, Point3::new(b.0, b.1, 0));
    t.set_vertex(2, Point3::new(c.0, c.1, 0));
    t
}

#[test]
fn new_triangle_is_at_the_origin_and_black() {
    let t = Triangle::new();
    assert_eq!(t.a(), Point3::new(0, 0, 0));
    assert_eq!(t.b(), Point3::new(0, 0, 0));
    assert_eq!(t.c(), Point3::new(0, 0, 0));
    assert_eq!(t.color, [Rgb(0, 0, 0); 3]);
}

#[test]
fn set_vertex_replaces_one_vertex() {
    let mut t = Triangle::new();
    t.set_vertex(1, Point3::new(4, 5, 6));
    assert_eq!(t.a(), Point3::new(0, 0, 0));
    assert_eq!(t.b(), Point3::new(4, 5, 6));
    assert_eq!(t.c(), Point3::new(0, 0, 0));
    t.set_vertex(0, Point3::new(1, 1, 1));
    t.set_vertex(2, Point3::new(-7, 8, 9));
    assert_eq!(t.v, [Point3::new(1, 1, 1), Point3::new(4, 5, 6), Point3::new(-7, 8, 9)]);
    assert_eq!(t.color, [Rgb(0, 0, 0); 3]);
}

#[test]
fn set_color_replaces_one_colour() {
    let mut t = Triangle::new();
    t.set_color(0, Rgb(255, 0, 0));
    t.set_color(2, Rgb(0, 0, 255));
    assert_eq!(t.color, [Rgb(255, 0, 0), Rgb(0, 0, 0), Rgb(0, 0, 255)]);
    assert_eq!(t.v, [Point3::new(0, 0, 0); 3]);
}

#[test]
fn centroid_is_inside() {
    let t = triangle((0, 0), (6, 0), (0, 6));
    assert!(Raster::inside_triangle(2, 2, 1, &t));
    let u = triangle((1, 0), (7, 2), (-3, 9));
    assert!(Raster::inside_triangle(1 + 7 - 3, 0 + 2 + 9, 3, &u));
    let w = triangle((-50, -20), (13, -19), (0, 0));
    assert!(Raster::inside_triangle(-50 + 13, -20 - 19, 3, &w));
}

#[test]
fn point_far_outside_the_bounding_box_is_outside() {
    let t = triangle((0, 0), (6, 0), (0, 6));
    assert!(!Raster::inside_triangle(100, 100, 1, &t));
    assert!(!Raster::inside_triangle(-100, 3, 1, &t));
    assert!(!Raster::inside_triangle(3, -100, 1, &t));
    assert!(!Raster::inside_triangle(7, 1, 1, &t));
    assert!(!Raster::inside_triangle(i64::MAX, i64::MIN, 1, &t));
}

#[test]
fn point_inside_the_box_but_beyond_an_edge_is_outside() {
    let t = triangle((0, 0), (6, 0), (0, 6));
    assert!(!Raster::inside_triangle(5, 5, 1, &t));
    assert!(Raster::inside_triangle(1, 4, 1, &t));
}

#[test]
fn inside_does_not_depend_on_the_first_vertex() {
    let points = [(2, 2), (1, 4), (5, 5), (100, 100), (-1, 0), (3, 1), (0, 0), (3, 3)];
    let t1 = triangle((0, 0), (6, 0), (0, 6));
    let t2 = triangle((6, 0), (0, 6), (0, 0));
    let t3 = triangle((0, 6), (0, 0), (6, 0));
    for (x, y) in points.iter() {
        let r = Raster::inside_triangle(*x, *y, 1, &t1);
        assert_eq!(Raster::inside_triangle(*x, *y, 1, &t2), r);
        assert_eq!(Raster::inside_triangle(*x, *y, 1, &t3), r);
    }
}

#[test]
fn inside_does_not_depend_on_the_winding() {
    let points = [(2, 2), (1, 4), (5, 5), (100, 100), (-1, 0), (3, 1)];
    let t1 = triangle((0, 0), (6, 0), (0, 6));
    let t2 = triangle((0, 0), (0, 6), (6, 0));
    for (x, y) in points.iter() {
        assert_eq!(
            Raster::inside_triangle(*x, *y, 1, &t1),
            Raster::inside_triangle(*x, *y, 1, &t2)
        );
    }
    assert!(Raster::inside_triangle(2, 2, 1, &t2));
}

#[test]
fn inside_takes_fractions() {
    let t = triangle((0, 0), (1, 0), (0, 1));
    assert!(Raster::inside_triangle(1, 1, 4, &t));
    assert!(Raster::inside_triangle(1, 1, 3, &t));
    assert!(!Raster::inside_triangle(3, 3, 4, &t));
    assert!(!Raster::inside_triangle(1, 1, 1, &t));
}

#[test]
fn nothing_is_inside_a_flat_triangle() {
    let t = triangle((0, 0), (3, 3), (6, 6));
    assert!(!Raster::inside_triangle(3, 3, 1, &t));
    assert!(!Raster::inside_triangle(2, 2, 1, &t));
    assert!(!Raster::inside_triangle(1, 2, 1, &t));
    let o = Triangle::new();
    assert!(!Raster::inside_triangle(0, 0, 1, &o));
}

#[test]
fn inside_with_the_largest_coordinates() {
    let t = triangle((i32::MIN, i32::MIN), (i32::MAX, i32::MIN), (i32::MIN, i32::MAX));
    assert!(Raster::inside_triangle(-1, -1, 1, &t));
    assert!(!Raster::inside_triangle(0, -1, 1, &t));
    assert!(!Raster::inside_triangle(i32::MAX as i64, i32::MAX as i64, 1, &t));
    assert!(!Raster::inside_triangle(i64::MAX, i64::MAX, u32::MAX, &t));
}

#[test]
fn rasterize_keeps_the_pixels_whose_centre_is_inside() {
    let t = triangle((0, 0), (4, 0), (0, 4));
    assert_eq!(
        Raster::rasterize_triangle(&t),
        vec![(0, 0), (0, 1), (0, 2), (1, 0), (1, 1), (2, 0)]
    );
}

#[test]
fn rasterize_does_not_depend_on_the_winding() {
    let t1 = triangle((0, 0), (4, 0), (0, 4));
    let t2 = triangle((0, 4), (4, 0), (0, 0));
    assert_eq!(Raster::rasterize_triangle(&t1), Raster::rasterize_triangle(&t2));
}

#[test]
fn rasterize_scans_negative_coordinates_too() {
    let t = triangle((-3, -3), (0, -3), (-3, 0));
    assert_eq!(Raster::rasterize_triangle(&t), vec![(-3, -3), (-3, -2), (-2, -3)]);
}

#[test]
fn rasterize_a_flat_triangle_keeps_nothing() {
    let t = triangle((0, 0), (3, 3), (6, 6));
    assert_eq!(Raster::rasterize_triangle(&t), Vec::<(i32, i32)>::new());
    assert_eq!(Raster::rasterize_triangle(&Triangle::new()), Vec::<(i32, i32)>::new());
}

#[test]
fn rasterize_agrees_with_the_test_of_each_centre() {
    let t = triangle((1, 2), (9, 4), (3, 11));
    let pixels = Raster::rasterize_triangle(&t);
    let mut expected = Vec::new();
    for x in 1..=9 {
        for y in 2..=11 {
            if Raster::inside_triangle(2 * x + 1, 2 * y + 1, 2, &t) {
                expected.push((x as i32, y as i32));
            }
        }
    }
    assert!(!expected.is_empty());
    assert_eq!(pixels, expected);
}
