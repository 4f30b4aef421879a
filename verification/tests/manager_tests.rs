use framebuffer_manager::DisplayGeometry;
use framebuffer_manager::FBmanager;
use framebuffer_manager::FbError;
use framebuffer_manager::Point;
use framebuffer_manager::WindowTemplate;

fn geometry(height: usize, row_stride: usize, bytes_per_pixel: usize) -> DisplayGeometry {
    DisplayGeometry { height, row_stride, bytes_per_pixel }
}

#[test]
fn single_square() {
    let square = WindowTemplate {
        id: 0,
        location: Point::new(0, 0),
        width: 1000,
        height: 1000,
        border_thickness: 0,
    };
    let g = geometry(1000, 4000, 4);
    let mut fm = FBmanager::new(&vec![square], g).unwrap();
    fm.windows[0].main_context.pixels[0][0].set_rgb(&mut fm.buffer, 255, 0, 0);
    fm.fill(0, (255, 0, 0)).unwrap();
    let step_size: usize = 4;
    let line_length: usize = 4000;
    for i in 0..1000 {
        for q in 0..1000 {
            let index: usize = i * line_length + q * step_size;
            assert_eq!(fm.buffer[index], 0);
            assert_eq!(fm.buffer[index + 1], 0);
            assert_eq!(fm.buffer[index + 2], 255);
        }
    }
}

#[test]
fn bordered_window_regions() {
    let template = WindowTemplate {
        id: 0,
        location: Point::new(0, 0),
        width: 200,
        height: 200,
        border_thickness: 10,
    };
    let g = geometry(200, 800, 4);
    let fm = FBmanager::new(&vec![template], g).unwrap();
    let w = &fm.windows[0];
    let b = w.border.as_ref().unwrap();
    let count = |r: &framebuffer_manager::Rectangle| -> usize {
        r.pixels.iter().map(|row| row.len()).sum()
    };
    let border_total = count(&b.top) + count(&b.bot) + count(&b.left) + count(&b.right);
    assert_eq!(border_total, 200 * 200 - 180 * 180);
    assert_eq!(w.main_context.location.x, 10);
    assert_eq!(w.main_context.location.y, 10);
    assert_eq!(w.main_context.pixels.len(), 180);
    assert!(w.main_context.pixels.iter().all(|row| row.len() == 180));
}

#[test]
fn border_and_interior_fills_are_disjoint() {
    let template = WindowTemplate {
        id: 0,
        location: Point::new(0, 0),
        width: 20,
        height: 20,
        border_thickness: 2,
    };
    let g = geometry(20, 80, 4);
    let mut fm = FBmanager::new(&vec![template], g).unwrap();
    fm.fill_border(0, (255, 0, 0)).unwrap();
    fm.fill(0, (0, 255, 0)).unwrap();
    for y in 0..20 {
        for x in 0..20 {
            let idx = y * 80 + x * 4;
            let in_border = x < 2 || x >= 18 || y < 2 || y >= 18;
            if in_border {
                assert_eq!((fm.buffer[idx], fm.buffer[idx + 1], fm.buffer[idx + 2]), (0, 0, 255));
            } else {
                assert_eq!((fm.buffer[idx], fm.buffer[idx + 1], fm.buffer[idx + 2]), (0, 255, 0));
            }
        }
    }
}

#[test]
fn fill_out_of_range_leaves_buffer() {
    let mut templates = Vec::new();
    for id in 0..3 {
        templates.push(WindowTemplate {
            id,
            location: Point::new(id * 10, 0),
            width: 10,
            height: 10,
            border_thickness: 0,
        });
    }
    let g = geometry(10, 120, 4);
    let mut fm = FBmanager::new(&templates, g).unwrap();
    fm.fill(1, (9, 9, 9)).unwrap();
    let before = fm.buffer.clone();
    assert_eq!(fm.fill(5, (1, 2, 3)), Err(FbError::IndexOutOfRange));
    assert_eq!(fm.fill_border(5, (1, 2, 3)), Err(FbError::IndexOutOfRange));
    assert_eq!(fm.buffer, before);
}

#[test]
fn fill_border_without_border_is_noop() {
    let template = WindowTemplate {
        id: 0,
        location: Point::new(0, 0),
        width: 10,
        height: 10,
        border_thickness: 0,
    };
    let g = geometry(10, 40, 4);
    let mut fm = FBmanager::new(&vec![template], g).unwrap();
    fm.fill(0, (5, 6, 7)).unwrap();
    let before = fm.buffer.clone();
    fm.fill_border(0, (255, 255, 255)).unwrap();
    assert_eq!(fm.buffer, before);
}

#[test]
fn rejects_degenerate_border() {
    let template = WindowTemplate {
        id: 0,
        location: Point::new(0, 0),
        width: 20,
        height: 20,
        border_thickness: 10,
    };
    let g = geometry(100, 400, 4);
    assert_eq!(
        FBmanager::new(&vec![template], g).err(),
        Some(FbError::InvalidTemplate)
    );
}

#[test]
fn rejects_template_outside_display() {
    let tall = WindowTemplate {
        id: 0,
        location: Point::new(0, 50),
        width: 10,
        height: 60,
        border_thickness: 0,
    };
    let g = geometry(100, 400, 4);
    assert_eq!(FBmanager::new(&vec![tall], g).err(), Some(FbError::InvalidTemplate));
    let wide = WindowTemplate {
        id: 0,
        location: Point::new(95, 0),
        width: 10,
        height: 10,
        border_thickness: 0,
    };
    assert_eq!(FBmanager::new(&vec![wide], g).err(), Some(FbError::InvalidTemplate));
}

#[test]
fn rejects_mismatched_id() {
    let template = WindowTemplate {
        id: 1,
        location: Point::new(0, 0),
        width: 10,
        height: 10,
        border_thickness: 0,
    };
    let g = geometry(100, 400, 4);
    assert_eq!(FBmanager::new(&vec![template], g).err(), Some(FbError::InvalidTemplate));
}

#[test]
fn new_manager_buffer_is_zeroed() {
    let g = geometry(4, 16, 4);
    let fm = FBmanager::new(&Vec::new(), g).unwrap();
    assert_eq!(fm.buffer.len(), 64);
    assert!(fm.buffer.iter().all(|&b| b == 0));
    assert_eq!(fm.windows.len(), 0);
}
