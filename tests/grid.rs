use ray_tracing::assemble_grid;

#[test]
fn pixels_land_by_coordinate() {
    let pixels = vec![(1u32, 1u32, 'd'), (0, 0, 'a'), (1, 0, 'b'), (0, 1, 'c')];
    assert_eq!(assemble_grid(2, 2, &pixels, '.'), vec!['a', 'b', 'c', 'd']);
}

#[test]
fn completion_order_does_not_matter() {
    let a = vec![(0u32, 0u32, 1u8), (2, 0, 3), (1, 1, 5), (0, 1, 4), (1, 0, 2), (2, 1, 6)];
    let mut b = a.clone();
    b.reverse();
    b.swap(0, 3);
    assert_eq!(assemble_grid(3, 2, &a, 0), assemble_grid(3, 2, &b, 0));
    assert_eq!(assemble_grid(3, 2, &a, 0), vec![1, 2, 3, 4, 5, 6]);
}

#[test]
fn missing_pixels_keep_fill() {
    let pixels = vec![(2u32, 0u32, 9i32)];
    assert_eq!(assemble_grid(3, 2, &pixels, -1), vec![-1, -1, 9, -1, -1, -1]);
}

#[test]
fn later_entry_wins() {
    let pixels = vec![(0u32, 0u32, 1u8), (0, 0, 2)];
    assert_eq!(assemble_grid(1, 1, &pixels, 0), vec![2]);
}

#[test]
fn empty_image() {
    let pixels: Vec<(u32, u32, u8)> = vec![];
    assert_eq!(assemble_grid(0, 5, &pixels, 0), Vec::<u8>::new());
}

#[test]
fn float_colours_pass_through() {
    let pixels = vec![(0u32, 0u32, (0.5f32, 0.25f32, 1.0f32)), (1, 0, (0.1, 0.2, 0.3))];
    let grid = assemble_grid(2, 1, &pixels, (0.0, 0.0, 0.0));
    assert_eq!(grid, vec![(0.5, 0.25, 1.0), (0.1, 0.2, 0.3)]);
}
