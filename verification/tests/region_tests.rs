use framebuffer_manager::DisplayGeometry;
use framebuffer_manager::Pixel;
use framebuffer_manager::Point;
use framebuffer_manager::Rectangle;
use framebuffer_manager::WindowTemplate;

fn geometry(height: usize, row_stride: usize, bytes_per_pixel: usize) -> DisplayGeometry {
    DisplayGeometry { height, row_stride, bytes_per_pixel }
}

#[test]
fn point_translation() {
    let p = Point::new(5, 6);
    let q = p.translate(1, 2);
    assert_eq!((q.x, q.y), (6, 8));
    let mut r = Point::new(5, 6);
    r.translate_in_place(1, 2);
    assert_eq!((r.x, r.y), (6, 8));
}

#[test]
fn point_from_pair() {
    let p = Point::from((3, 4));
    assert_eq!((p.x, p.y), (3, 4));
}

#[test]
fn color_roundtrip() {
    let p = Pixel { index: 40 };
    let mut buf = vec![0u8; 100];
    p.set_rgb(&mut buf, 7, 8, 9);
    assert_eq!(p.get_rgb(&buf), (7, 8, 9));
    assert_eq!(buf[40], 9);
    assert_eq!(buf[41], 8);
    assert_eq!(buf[42], 7);
}

#[test]
fn offsets_follow_formula_and_are_unique() {
    let g = geometry(10, 100, 4);
    let r = Rectangle::from_dimensions(&Point::new(2, 3), 2, 3, &g);
    for i in 0..2 {
        for k in 0..3 {
            assert_eq!(r.pixels[i][k].index, (i + 3) * 100 + (k + 2) * 4);
        }
    }
    let mut seen: Vec<usize> = Vec::new();
    for row in r.pixels.iter() {
        for p in row.iter() {
            assert!(!seen.contains(&p.index));
            seen.push(p.index);
        }
    }
    assert_eq!(seen.len(), 2 * 3);
}

#[test]
fn fill_twice_equals_once() {
    let g = geometry(10, 100, 4);
    let r = Rectangle::from_dimensions(&Point::new(2, 3), 4, 5, &g);
    let mut once = vec![0u8; 1000];
    r.fill(&mut once, (10, 20, 30));
    let mut twice = vec![0u8; 1000];
    r.fill(&mut twice, (10, 20, 30));
    r.fill(&mut twice, (10, 20, 30));
    assert_eq!(once, twice);
}

#[test]
fn fill_touches_only_its_rectangle() {
    let g = geometry(10, 100, 4);
    let r = Rectangle::from_dimensions(&Point::new(2, 3), 2, 2, &g);
    let mut buf = vec![0u8; 1000];
    r.fill(&mut buf, (255, 255, 255));
    let mut touched: usize = 0;
    for (i, &b) in buf.iter().enumerate() {
        if b != 0 {
            touched += 1;
            let row_ok = (300..700).contains(&i);
            assert!(row_ok, "byte {} outside the rectangle's rows changed", i);
        }
    }
    assert_eq!(touched, 2 * 2 * 3);
}

#[test]
fn template_fit_checks() {
    let g = geometry(100, 400, 4);
    let fitting = WindowTemplate {
        id: 0,
        location: Point::new(0, 0),
        width: 100,
        height: 100,
        border_thickness: 0,
    };
    assert!(fitting.check_fits(&g));
    let too_wide = WindowTemplate {
        id: 0,
        location: Point::new(0, 0),
        width: 101,
        height: 100,
        border_thickness: 0,
    };
    assert!(!too_wide.check_fits(&g));
    let too_tall = WindowTemplate {
        id: 0,
        location: Point::new(0, 1),
        width: 100,
        height: 100,
        border_thickness: 0,
    };
    assert!(!too_tall.check_fits(&g));
    let border_too_thick = WindowTemplate {
        id: 0,
        location: Point::new(0, 0),
        width: 100,
        height: 100,
        border_thickness: 50,
    };
    assert!(!border_too_thick.check_fits(&g));
}
