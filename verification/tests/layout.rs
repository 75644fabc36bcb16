use matview::layout::{count_rows, locate_row, validate_layout};
use matview::LayoutError;

#[test]
fn validate_layout_counts_whole_rows() {
    assert_eq!(validate_layout(1024, 4, 4), Ok(64));
    assert_eq!(validate_layout(16, 4, 4), Ok(1));
    assert_eq!(validate_layout(2048, 512, 4), Ok(1));
    assert_eq!(validate_layout(24, 3, 8), Ok(1));
    assert_eq!(validate_layout(7, 7, 1), Ok(1));
}

#[test]
fn validate_layout_accepts_no_bytes() {
    assert_eq!(validate_layout(0, 4, 4), Ok(0));
    assert_eq!(validate_layout(0, 1, 1), Ok(0));
    assert_eq!(validate_layout(0, usize::MAX, usize::MAX), Ok(0));
}

#[test]
fn validate_layout_every_row_count_of_a_small_grid() {
    for dimensions in 1..=9usize {
        for elem_size in 1..=8usize {
            for rows in 0..=12usize {
                let total = rows * dimensions * elem_size;
                assert_eq!(validate_layout(total, dimensions, elem_size), Ok(rows));
                assert_eq!(count_rows(total, dimensions, elem_size), rows);
            }
        }
    }
}

#[test]
fn validate_layout_rejects_every_length_between_rows() {
    for dimensions in 1..=6usize {
        for elem_size in 1..=4usize {
            let width = dimensions * elem_size;
            for total in 0..=(5 * width) {
                let got = validate_layout(total, dimensions, elem_size);
                if total % width == 0 {
                    assert_eq!(got, Ok(total / width));
                } else {
                    assert_eq!(got, Err(LayoutError::PartialRow));
                }
            }
        }
    }
}

#[test]
fn validate_layout_rejects_a_partial_row() {
    assert_eq!(validate_layout(10, 4, 4), Err(LayoutError::PartialRow));
    assert_eq!(validate_layout(1023, 4, 4), Err(LayoutError::PartialRow));
    assert_eq!(validate_layout(17, 4, 4), Err(LayoutError::PartialRow));
}

#[test]
fn validate_layout_rejects_whole_elements_that_are_no_whole_row() {
    // Three 4-byte elements do not fill a row of two.
    assert_eq!(validate_layout(12, 2, 4), Err(LayoutError::PartialRow));
}

#[test]
fn validate_layout_rejects_a_split_element_after_whole_rows() {
    // Two whole elements and half of a third: the whole elements would make
    // one row of two, but the bytes do not end there.
    assert_eq!(validate_layout(10, 2, 4), Err(LayoutError::PartialRow));
    assert_eq!(validate_layout(9, 1, 4), Err(LayoutError::PartialRow));
}

#[test]
fn validate_layout_reports_an_empty_row_first() {
    assert_eq!(validate_layout(16, 0, 4), Err(LayoutError::ZeroDimensions));
    assert_eq!(validate_layout(16, 0, 0), Err(LayoutError::ZeroDimensions));
    assert_eq!(validate_layout(0, 0, 4), Err(LayoutError::ZeroDimensions));
}

#[test]
fn validate_layout_reports_an_empty_element() {
    assert_eq!(validate_layout(16, 4, 0), Err(LayoutError::ZeroSizedElement));
    assert_eq!(validate_layout(0, 4, 0), Err(LayoutError::ZeroSizedElement));
}

#[test]
fn validate_layout_survives_a_row_wider_than_the_address_space() {
    assert_eq!(
        validate_layout(usize::MAX, usize::MAX, 2),
        Err(LayoutError::PartialRow)
    );
    assert_eq!(
        validate_layout(1024, usize::MAX, usize::MAX),
        Err(LayoutError::PartialRow)
    );
    assert_eq!(validate_layout(usize::MAX, usize::MAX, 1), Ok(1));
    assert_eq!(validate_layout(usize::MAX, 1, usize::MAX), Ok(1));
}

#[test]
fn count_rows_rounds_down() {
    assert_eq!(count_rows(1024, 4, 4), 64);
    assert_eq!(count_rows(1039, 4, 4), 64);
    assert_eq!(count_rows(1040, 4, 4), 65);
    assert_eq!(count_rows(15, 4, 4), 0);
    assert_eq!(count_rows(10, 2, 4), 1);
}

#[test]
fn count_rows_is_zero_without_a_row_or_an_element() {
    assert_eq!(count_rows(1024, 0, 4), 0);
    assert_eq!(count_rows(1024, 4, 0), 0);
    assert_eq!(count_rows(1024, usize::MAX, usize::MAX), 0);
}

#[test]
fn locate_row_gives_consecutive_ranges() {
    assert_eq!(locate_row(1024, 4, 4, 0), Some((0, 16)));
    assert_eq!(locate_row(1024, 4, 4, 1), Some((16, 32)));
    assert_eq!(locate_row(1024, 4, 4, 63), Some((1008, 1024)));
    assert_eq!(locate_row(4096, 512, 4, 1), Some((2048, 4096)));
}

#[test]
fn locate_row_stops_at_the_row_count() {
    assert_eq!(locate_row(1024, 4, 4, 64), None);
    assert_eq!(locate_row(1024, 4, 4, 65), None);
    assert_eq!(locate_row(1024, 4, 4, usize::MAX), None);
    assert_eq!(locate_row(0, 4, 4, 0), None);
}

#[test]
fn locate_row_ignores_trailing_bytes() {
    assert_eq!(locate_row(20, 4, 4, 0), Some((0, 16)));
    assert_eq!(locate_row(20, 4, 4, 1), None);
}

#[test]
fn locate_row_finds_nothing_without_a_row_or_an_element() {
    assert_eq!(locate_row(1024, 0, 4, 0), None);
    assert_eq!(locate_row(1024, 4, 0, 0), None);
}

#[test]
fn locate_row_does_not_overflow() {
    assert_eq!(
        locate_row(usize::MAX, usize::MAX, 1, 0),
        Some((0, usize::MAX))
    );
    assert_eq!(locate_row(usize::MAX, usize::MAX, 1, 1), None);
    assert_eq!(locate_row(usize::MAX, usize::MAX, 2, 0), None);
    assert_eq!(
        locate_row(usize::MAX, 1, 1, usize::MAX - 1),
        Some((usize::MAX - 1, usize::MAX))
    );
    assert_eq!(locate_row(usize::MAX, 1, 1, usize::MAX), None);
}

#[test]
fn locate_row_tiles_the_bytes() {
    let (dimensions, elem_size, rows) = (5usize, 3usize, 11usize);
    let total = rows * dimensions * elem_size;
    let mut expected_start = 0;
    for index in 0..rows {
        let (start, end) = locate_row(total, dimensions, elem_size, index).unwrap();
        assert_eq!(start, expected_start);
        assert_eq!(end - start, dimensions * elem_size);
        expected_start = end;
    }
    assert_eq!(expected_start, total);
}
