use raytracer::grid::PixelGrid;

#[test]
fn grid_reports_its_dimensions() {
    let grid = PixelGrid::new(1024, 728).unwrap();
    assert_eq!(grid.width(), 1024);
    assert_eq!(grid.height(), 728);
    assert_eq!(grid.pixel_count(), 745_472);
    assert_eq!(grid.sample_count(), 2_236_416);
}

#[test]
fn grid_refuses_a_frame_too_large_to_count() {
    assert!(PixelGrid::new(usize::MAX, 2).is_none());
    assert!(PixelGrid::new(usize::MAX / 2, 1).is_none());
    assert!(PixelGrid::new(usize::MAX / 3, 1).is_some());
    assert!(PixelGrid::new(usize::MAX / 3 + 1, 1).is_none());
}

#[test]
fn empty_grid_has_no_slots() {
    let grid = PixelGrid::new(0, 5).unwrap();
    assert_eq!(grid.pixel_count(), 0);
    assert_eq!(grid.sample_count(), 0);
    assert_eq!(grid.coords(0), None);
    assert_eq!(grid.index(0, 0), None);
    let flat = PixelGrid::new(5, 0).unwrap();
    assert_eq!(flat.pixel_count(), 0);
    assert_eq!(flat.coords(0), None);
    assert_eq!(flat.index(0, 0), None);
}

#[test]
fn slots_run_row_by_row() {
    let grid = PixelGrid::new(1024, 728).unwrap();
    assert_eq!(grid.coords(0), Some((0, 0)));
    assert_eq!(grid.coords(1023), Some((1023, 0)));
    assert_eq!(grid.coords(1024), Some((0, 1)));
    assert_eq!(grid.coords(2049), Some((1, 2)));
    assert_eq!(grid.coords(745_471), Some((1023, 727)));
    assert_eq!(grid.coords(745_472), None);
    assert_eq!(grid.coords(usize::MAX), None);
}

#[test]
fn pixels_map_to_slots() {
    let grid = PixelGrid::new(1024, 728).unwrap();
    assert_eq!(grid.index(0, 0), Some(0));
    assert_eq!(grid.index(0, 1), Some(1024));
    assert_eq!(grid.index(1, 2), Some(2049));
    assert_eq!(grid.index(1023, 727), Some(745_471));
    assert_eq!(grid.index(1024, 0), None);
    assert_eq!(grid.index(0, 728), None);
}

#[test]
fn slot_and_pixel_round_trip() {
    let grid = PixelGrid::new(7, 5).unwrap();
    let mut seen = vec![false; 35];
    for row in 0..5 {
        for col in 0..7 {
            let slot = grid.index(col, row).unwrap();
            assert!(!seen[slot]);
            seen[slot] = true;
            assert_eq!(grid.coords(slot), Some((col, row)));
        }
    }
    assert!(seen.iter().all(|s| *s));
    for slot in 0..35 {
        let (col, row) = grid.coords(slot).unwrap();
        assert_eq!(grid.index(col, row), Some(slot));
    }
}
