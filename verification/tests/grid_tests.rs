use worldgen::grid::cell_from_index;
use worldgen::grid::TotalGrid;
use worldgen::grid::TotalGridBuilder;
use worldgen::points::DPoint2;

fn counting_grid(width: i32, height: i32) -> TotalGrid<i32> {
    let mut builder = TotalGridBuilder::new();
    for i in 0..(width * height) {
        builder.append(i);
    }
    builder.finalize(DPoint2::new(width, height)).unwrap()
}

#[test]
fn cell_from_index_is_row_major() {
    assert_eq!(cell_from_index(3, 0), DPoint2::new(0, 0));
    assert_eq!(cell_from_index(3, 2), DPoint2::new(2, 0));
    assert_eq!(cell_from_index(3, 3), DPoint2::new(0, 1));
    assert_eq!(cell_from_index(3, 7), DPoint2::new(1, 2));
    assert_eq!(cell_from_index(1, 5), DPoint2::new(0, 5));
}

#[test]
fn finalize_takes_a_matching_count() {
    let grid = counting_grid(3, 2);
    assert_eq!(grid.get_width(), 3);
    assert_eq!(grid.get_height(), 2);
    assert_eq!(grid.get_dimensions(), DPoint2::new(3, 2));
    for y in 0..2usize {
        for x in 0..3usize {
            assert_eq!(*grid.get(x, y), (y * 3 + x) as i32);
        }
    }
}

#[test]
fn finalize_refuses_a_wrong_count() {
    let mut builder = TotalGridBuilder::new();
    for i in 0..5 {
        builder.append(i);
    }
    assert!(!builder.ready(DPoint2::new(3, 2)));
    assert!(builder.ready(DPoint2::new(5, 1)));
    assert!(builder.ready(DPoint2::new(1, 5)));
    assert_eq!(builder.finalize(DPoint2::new(3, 2)).err(), Some(()));
}

#[test]
fn finalize_refuses_negative_dimensions() {
    let mut builder = TotalGridBuilder::new();
    for i in 0..6 {
        builder.append(i);
    }
    assert!(!builder.ready(DPoint2::new(-2, -3)));
    assert!(builder.finalize(DPoint2::new(-2, -3)).is_err());
}

#[test]
fn empty_builder_fills_an_empty_grid() {
    let builder: TotalGridBuilder<u8> = TotalGridBuilder::new();
    assert!(builder.ready(DPoint2::new(0, 5)));
    assert!(builder.ready(DPoint2::new(0, 0)));
    assert!(!builder.ready(DPoint2::new(1, 1)));
    let grid = builder.finalize(DPoint2::new(0, 5)).unwrap();
    assert_eq!(grid.get_width(), 0);
    assert_eq!(grid.get_height(), 5);
    assert!(grid.cell_iterator().is_empty());
    assert!(grid.maybe_get(0, 0).is_none());
}

#[test]
fn replace_adds_an_element() {
    let mut builder = TotalGridBuilder::new();
    builder.append(1);
    builder.replace(2);
    let grid = builder.finalize(DPoint2::new(2, 1)).unwrap();
    assert_eq!(*grid.get(0, 0), 1);
    assert_eq!(*grid.get(1, 0), 2);
}

#[test]
fn new_from_func_fills_every_cell() {
    let f = |x: usize, y: usize| 10 * y + x;
    let grid = TotalGrid::new_from_func(DPoint2::new(4, 3), &f);
    assert_eq!(grid.get_dimensions(), DPoint2::new(4, 3));
    for y in 0..3usize {
        for x in 0..4usize {
            assert_eq!(*grid.get(x, y), 10 * y + x);
        }
    }
}

#[test]
fn new_from_func_counts_a_negative_dimension_as_zero() {
    let f = |x: usize, y: usize| x + y;
    let grid = TotalGrid::new_from_func(DPoint2::new(-1, 3), &f);
    assert_eq!(grid.get_dimensions(), DPoint2::new(0, 3));
    assert!(grid.cell_iterator().is_empty());
    let other = TotalGrid::new_from_func(DPoint2::new(2, -7), &f);
    assert_eq!(other.get_dimensions(), DPoint2::new(2, 0));
}

#[test]
fn put_changes_one_cell() {
    let mut grid = counting_grid(3, 3);
    grid.put(1, 2, 100);
    for y in 0..3usize {
        for x in 0..3usize {
            let expected = if (x, y) == (1, 2) { 100 } else { (y * 3 + x) as i32 };
            assert_eq!(*grid.get(x, y), expected);
        }
    }
}

#[test]
fn get_mut_changes_one_cell() {
    let mut grid = counting_grid(2, 3);
    *grid.get_mut(0, 1) = -5;
    assert_eq!(*grid.get(0, 1), -5);
    assert_eq!(*grid.get(1, 0), 1);
    assert_eq!(*grid.get(1, 1), 3);
    assert_eq!(grid.get_dimensions(), DPoint2::new(2, 3));
}

#[test]
fn maybe_get_stops_at_the_border() {
    let mut grid = counting_grid(3, 2);
    assert_eq!(grid.maybe_get(2, 1), Some(&5));
    assert_eq!(grid.maybe_get(0, 0), Some(&0));
    assert_eq!(grid.maybe_get(3, 0), None);
    assert_eq!(grid.maybe_get(0, 2), None);
    assert_eq!(grid.maybe_get(3, 1), None);
    assert!(grid.maybe_get_mut(3, 0).is_none());
    assert!(grid.maybe_get_mut(0, 2).is_none());
    if let Some(cell) = grid.maybe_get_mut(1, 1) {
        *cell = 40;
    }
    assert_eq!(grid.maybe_get(1, 1), Some(&40));
    assert_eq!(grid.maybe_get(0, 1), Some(&3));
}

#[test]
fn cell_iterator_names_every_cell_in_order() {
    let grid = counting_grid(3, 2);
    assert_eq!(
        grid.cell_iterator(),
        vec![
            DPoint2::new(0, 0),
            DPoint2::new(1, 0),
            DPoint2::new(2, 0),
            DPoint2::new(0, 1),
            DPoint2::new(1, 1),
            DPoint2::new(2, 1),
        ]
    );
}

#[test]
fn walk_passes_every_cell_once() {
    let grid = counting_grid(3, 2);
    let mut walk = grid.iter();
    let mut seen = Vec::new();
    while let Some((cell, element)) = walk.next() {
        seen.push((cell, *element));
    }
    assert!(walk.next().is_none());
    assert_eq!(seen.len(), 6);
    for (i, (cell, element)) in seen.iter().enumerate() {
        assert_eq!(*element, i as i32);
        assert_eq!(*cell, DPoint2::new((i % 3) as i32, (i / 3) as i32));
        assert_eq!(*grid.get(cell.x as usize, cell.y as usize), *element);
    }
}
