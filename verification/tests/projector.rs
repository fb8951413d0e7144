use raycaster::projector::{tile_px_dimensions, ViewSplit};

#[test]
fn half_view_halves_the_tile_width() {
    assert_eq!(tile_px_dimensions(1024, 512, 16, 16, ViewSplit::Half), (32, 32));
}

#[test]
fn full_view_takes_the_whole_width() {
    assert_eq!(tile_px_dimensions(1024, 512, 16, 16, ViewSplit::Full), (64, 32));
}

#[test]
fn tile_sizes_round_down() {
    assert_eq!(tile_px_dimensions(100, 50, 3, 7, ViewSplit::Full), (33, 7));
    assert_eq!(tile_px_dimensions(100, 50, 3, 7, ViewSplit::Half), (16, 7));
    assert_eq!(tile_px_dimensions(101, 50, 5, 7, ViewSplit::Half), (10, 7));
}

#[test]
fn tiles_of_a_map_larger_than_the_canvas_have_no_size() {
    assert_eq!(tile_px_dimensions(10, 10, 11, 20, ViewSplit::Full), (0, 0));
    assert_eq!(tile_px_dimensions(10, 10, 6, 10, ViewSplit::Half), (0, 1));
}

#[test]
fn tile_sizes_of_the_largest_canvas() {
    assert_eq!(
        tile_px_dimensions(usize::MAX, usize::MAX, usize::MAX, 1, ViewSplit::Half),
        (0, usize::MAX)
    );
    assert_eq!(
        tile_px_dimensions(usize::MAX, usize::MAX, 1, usize::MAX, ViewSplit::Half),
        (usize::MAX / 2, 1)
    );
}
