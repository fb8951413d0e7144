use raycaster::framebuffer::{draw_rect, Framebuffer};

fn rows(buffer: &Framebuffer) -> Vec<Vec<u32>> {
    let mut all = Vec::new();
    for y in 0..buffer.height() {
        let mut row = Vec::new();
        for x in 0..buffer.width() {
            row.push(buffer.pixel(x, y).unwrap());
        }
        all.push(row);
    }
    all
}

#[test]
fn new_buffer_has_one_colour() {
    let buffer = Framebuffer::new(3, 2, 7).unwrap();
    assert_eq!(buffer.width(), 3);
    assert_eq!(buffer.height(), 2);
    assert_eq!(buffer.pixels(), &vec![7, 7, 7, 7, 7, 7]);
}

#[test]
fn new_buffer_may_be_empty() {
    let buffer = Framebuffer::new(0, 5, 7).unwrap();
    assert_eq!(buffer.width(), 0);
    assert_eq!(buffer.height(), 5);
    assert!(buffer.pixels().is_empty());
    assert_eq!(buffer.pixel(0, 0), None);
}

#[test]
fn new_buffer_that_cannot_be_counted() {
    assert!(Framebuffer::new(usize::MAX, 2, 0).is_none());
    assert!(Framebuffer::new(2, usize::MAX, 0).is_none());
}

#[test]
fn pixels_are_stored_row_by_row() {
    let mut buffer = Framebuffer::new(3, 2, 0).unwrap();
    buffer.set_pixel(1, 0, 5);
    buffer.set_pixel(0, 1, 6);
    buffer.set_pixel(2, 1, 9);
    assert_eq!(buffer.pixels(), &vec![0, 5, 0, 6, 0, 9]);
    assert_eq!(buffer.pixel(1, 0), Some(5));
    assert_eq!(buffer.pixel(0, 1), Some(6));
    assert_eq!(buffer.pixel(2, 1), Some(9));
    assert_eq!(buffer.pixel(0, 0), Some(0));
}

#[test]
fn pixel_off_the_canvas_is_none() {
    let buffer = Framebuffer::new(3, 2, 1).unwrap();
    assert_eq!(buffer.pixel(3, 0), None);
    assert_eq!(buffer.pixel(0, 2), None);
    assert_eq!(buffer.pixel(usize::MAX, usize::MAX), None);
}

#[test]
fn set_pixel_off_the_canvas_does_nothing() {
    let mut buffer = Framebuffer::new(3, 2, 1).unwrap();
    buffer.set_pixel(3, 0, 9);
    buffer.set_pixel(0, 2, 9);
    buffer.set_pixel(3, 1, 9);
    buffer.set_pixel(usize::MAX, 0, 9);
    buffer.set_pixel(0, usize::MAX, 9);
    buffer.set_pixel(usize::MAX, usize::MAX, 9);
    assert_eq!(buffer.pixels(), &vec![1, 1, 1, 1, 1, 1]);
}

#[test]
fn fill_sets_every_pixel() {
    let mut buffer = Framebuffer::new(2, 2, 1).unwrap();
    buffer.set_pixel(1, 1, 3);
    buffer.fill(8);
    assert_eq!(buffer.pixels(), &vec![8, 8, 8, 8]);
    assert_eq!(buffer.width(), 2);
    assert_eq!(buffer.height(), 2);
}

#[test]
fn rect_inside_the_canvas() {
    let mut buffer = Framebuffer::new(5, 4, 0).unwrap();
    draw_rect(&mut buffer, 1, 1, 3, 2, 7);
    assert_eq!(
        rows(&buffer),
        vec![
            vec![0, 0, 0, 0, 0],
            vec![0, 7, 7, 7, 0],
            vec![0, 7, 7, 7, 0],
            vec![0, 0, 0, 0, 0],
        ]
    );
}

#[test]
fn rect_is_clipped_at_the_edges() {
    let mut buffer = Framebuffer::new(4, 3, 0).unwrap();
    draw_rect(&mut buffer, 2, 1, 10, 10, 7);
    assert_eq!(
        rows(&buffer),
        vec![vec![0, 0, 0, 0], vec![0, 0, 7, 7], vec![0, 0, 7, 7]]
    );
    assert_eq!(buffer.pixels().len(), 12);
}

#[test]
fn rect_over_the_whole_canvas() {
    let mut buffer = Framebuffer::new(3, 2, 0).unwrap();
    draw_rect(&mut buffer, 0, 0, usize::MAX, usize::MAX, 4);
    assert_eq!(buffer.pixels(), &vec![4, 4, 4, 4, 4, 4]);
}

#[test]
fn rect_whose_far_corner_cannot_be_counted() {
    let mut buffer = Framebuffer::new(3, 2, 0).unwrap();
    draw_rect(&mut buffer, 2, 1, usize::MAX, usize::MAX, 4);
    assert_eq!(buffer.pixels(), &vec![0, 0, 0, 0, 0, 4]);
}

#[test]
fn rect_off_the_canvas_draws_nothing() {
    let mut buffer = Framebuffer::new(3, 2, 0).unwrap();
    draw_rect(&mut buffer, 3, 0, 2, 2, 4);
    draw_rect(&mut buffer, 0, 2, 2, 2, 4);
    draw_rect(&mut buffer, usize::MAX, usize::MAX, 2, 2, 4);
    assert_eq!(buffer.pixels(), &vec![0, 0, 0, 0, 0, 0]);
}

#[test]
fn rect_without_pixels_draws_nothing() {
    let mut buffer = Framebuffer::new(3, 2, 0).unwrap();
    draw_rect(&mut buffer, 1, 1, 0, 5, 4);
    draw_rect(&mut buffer, 1, 1, 5, 0, 4);
    assert_eq!(buffer.pixels(), &vec![0, 0, 0, 0, 0, 0]);
}

#[test]
fn rect_of_one_pixel() {
    let mut buffer = Framebuffer::new(3, 2, 0).unwrap();
    draw_rect(&mut buffer, 2, 0, 1, 1, 4);
    assert_eq!(buffer.pixels(), &vec![0, 0, 4, 0, 0, 0]);
}

#[test]
fn rect_leaves_the_rest_as_it_was() {
    let mut buffer = Framebuffer::new(3, 3, 0).unwrap();
    for y in 0..3 {
        for x in 0..3 {
            buffer.set_pixel(x, y, (10 * y + x) as u32);
        }
    }
    draw_rect(&mut buffer, 1, 0, 1, 2, 99);
    assert_eq!(
        rows(&buffer),
        vec![vec![0, 99, 2], vec![10, 99, 12], vec![20, 21, 22]]
    );
}
