use elma_physics::grid::{edges, Edge, Outline, Segments, Span};

#[test]
fn cell_lists_segments_in_span_order() {
    let spans = [
        Span { segment: 0, row: 0, from: 0, to: 2 },
        Span { segment: 1, row: 0, from: 2, to: 1 },
        Span { segment: 2, row: 1, from: 3, to: 3 },
        Span { segment: 0, row: 0, from: 1, to: 1 },
    ];
    let grid = Segments::new(4, 2, &spans);
    assert_eq!(grid.width(), 4);
    assert_eq!(grid.height(), 2);
    assert_eq!(grid.cell(0, 0), &[0][..]);
    assert_eq!(grid.cell(1, 0), &[0, 1, 0][..]);
    assert_eq!(grid.cell(2, 0), &[0, 1][..]);
    assert_eq!(grid.cell(3, 0), &[][..] as &[u32]);
    assert_eq!(grid.cell(3, 1), &[2][..]);
    assert_eq!(grid.cell(0, 1), &[][..] as &[u32]);
}

#[test]
fn cell_outside_the_grid_is_empty() {
    let spans = [Span { segment: 7, row: 0, from: 0, to: 1 }, Span { segment: 8, row: 1, from: 0, to: 1 }];
    let grid = Segments::new(2, 2, &spans);
    assert!(grid.cell(-1, 0).is_empty());
    assert!(grid.cell(0, -1).is_empty());
    assert!(grid.cell(2, 0).is_empty());
    assert!(grid.cell(2, 1).is_empty());
    assert!(grid.cell(0, 2).is_empty());
    assert!(grid.cell(i64::MAX, i64::MAX).is_empty());
    assert!(grid.cell(i64::MIN, 0).is_empty());
    assert_eq!(grid.cell(1, 1), &[8][..]);
}

#[test]
fn every_covered_cell_finds_its_segment() {
    let spans = [
        Span { segment: 3, row: 2, from: 4, to: 1 },
        Span { segment: 5, row: 0, from: 0, to: 4 },
    ];
    let grid = Segments::new(5, 3, &spans);
    for column in 1..=4 {
        assert!(grid.cell(column, 2).contains(&3));
    }
    assert!(!grid.cell(0, 2).contains(&3));
    for column in 0..=4 {
        assert!(grid.cell(column, 0).contains(&5));
        assert!(grid.cell(column, 1).is_empty());
    }
}

#[test]
fn empty_grid_has_no_cells() {
    let grid = Segments::new(0, 0, &[]);
    assert!(grid.cell(0, 0).is_empty());
    let grid = Segments::new(3, 1, &[]);
    assert!(grid.cell(2, 0).is_empty());
}

#[test]
fn edges_close_each_polygon_and_skip_grass() {
    let polygons = [
        Outline { grass: false, vertices: 3 },
        Outline { grass: true, vertices: 4 },
        Outline { grass: false, vertices: 0 },
        Outline { grass: false, vertices: 2 },
        Outline { grass: false, vertices: 1 },
    ];
    assert_eq!(
        edges(&polygons),
        vec![
            Edge { polygon: 0, from: 2, to: 0 },
            Edge { polygon: 0, from: 0, to: 1 },
            Edge { polygon: 0, from: 1, to: 2 },
            Edge { polygon: 3, from: 1, to: 0 },
            Edge { polygon: 3, from: 0, to: 1 },
            Edge { polygon: 4, from: 0, to: 0 },
        ]
    );
    assert!(edges(&[]).is_empty());
}

#[test]
fn span_lies_within_a_grid_that_holds_both_ends() {
    let span = Span { segment: 0, row: 1, from: 3, to: 0 };
    assert!(span.lies_within(4, 2));
    assert!(!span.lies_within(3, 2));
    assert!(!span.lies_within(4, 1));
    assert!(!Span { segment: 0, row: 0, from: 0, to: 4 }.lies_within(4, 2));
    assert!(!span.lies_within(0, 0));
}
