use matview::{push_outcome, CastError, LayoutError, MatLEView};

#[test]
fn push_outcome_appends_a_row_and_goes_on() {
    let first = [1u8, 2];
    let second = [3u8, 4];
    let mut rows: Vec<&[u8]> = Vec::new();
    assert_eq!(push_outcome(&mut rows, Ok(&first[..])), None);
    assert_eq!(rows, vec![&first[..]]);
    assert_eq!(push_outcome(&mut rows, Ok(&second[..])), None);
    assert_eq!(rows, vec![&first[..], &second[..]]);
}

#[test]
fn push_outcome_keeps_the_order_of_arrival() {
    let a = [7u32];
    let b = [5u32];
    let c = [9u32];
    let mut rows: Vec<&[u32]> = Vec::new();
    for row in [&c[..], &a[..], &b[..], &a[..]] {
        assert_eq!(push_outcome(&mut rows, Ok(row)), None);
    }
    assert_eq!(rows, vec![&[9u32][..], &[7][..], &[5][..], &[7][..]]);
}

#[test]
fn push_outcome_hands_a_refusal_back_and_keeps_the_rows() {
    let first = [1u8, 2];
    let mut rows: Vec<&[u8]> = vec![&first[..]];
    let refusal = CastError::TargetAlignmentGreaterAndInputNotAligned;
    assert_eq!(push_outcome(&mut rows, Err(refusal)), Some(refusal));
    assert_eq!(rows, vec![&first[..]]);
    let slop = CastError::OutputSliceWouldHaveSlop;
    assert_eq!(push_outcome(&mut rows, Err(slop)), Some(slop));
    assert_eq!(rows, vec![&first[..]]);
}

#[test]
fn push_outcome_hands_back_each_kind_of_refusal() {
    let mut rows: Vec<&[u16]> = Vec::new();
    for refusal in [
        CastError::TargetAlignmentGreaterAndInputNotAligned,
        CastError::OutputSliceWouldHaveSlop,
        CastError::SizeMismatch,
        CastError::AlignmentMismatch,
    ] {
        assert_eq!(push_outcome(&mut rows, Err(refusal)), Some(refusal));
        assert!(rows.is_empty());
    }
}

#[test]
fn push_outcome_accepts_an_empty_row() {
    let mut rows: Vec<&[u8]> = Vec::new();
    assert_eq!(push_outcome(&mut rows, Ok(&[][..])), None);
    assert_eq!(rows.len(), 1);
    assert!(rows[0].is_empty());
}

#[test]
fn get_all_of_six_bytes_in_rows_of_two() {
    let bytes = [10u8, 20, 30, 40, 50, 60];
    let view = MatLEView::<u8>::new(&bytes, 2);
    assert_eq!(
        view.get_all(),
        Ok(vec![&[10u8, 20][..], &[30, 40][..], &[50, 60][..]])
    );
}

#[test]
fn get_all_holds_what_get_gives_at_each_index() {
    let values: Vec<u32> = (100..130).collect();
    let bytes: &[u8] = bytemuck::cast_slice(&values);
    let view = MatLEView::<u32>::try_new(bytes, 5).unwrap();
    let all = view.get_all().unwrap();
    assert_eq!(all.len(), view.len());
    for index in 0..view.len() {
        assert_eq!(all[index], view.get(index).unwrap().unwrap());
    }
}

#[test]
fn get_all_laid_end_to_end_is_the_file() {
    let values: Vec<u16> = (0..24).map(|i| i * 257 + 3).collect();
    let bytes: &[u8] = bytemuck::cast_slice(&values);
    let view = MatLEView::<u16>::try_new(bytes, 4).unwrap();
    let mut joined: Vec<u8> = Vec::new();
    for row in view.get_all().unwrap() {
        joined.extend_from_slice(bytemuck::cast_slice(row));
    }
    assert_eq!(joined, bytes);
}

#[test]
fn get_all_fails_as_a_full_walk_of_the_cursor_does() {
    let values: Vec<u32> = (0..9).collect();
    let bytes: &[u8] = bytemuck::cast_slice(&values);
    let view = MatLEView::<u32>::try_new(&bytes[2..34], 2).unwrap();
    let mut walked: Result<Vec<&[u32]>, CastError> = Ok(Vec::new());
    let mut cursor = view.iter();
    while let Some(outcome) = cursor.next() {
        match (outcome, &mut walked) {
            (Ok(row), Ok(rows)) => rows.push(row),
            (Err(refusal), Ok(_)) => walked = Err(refusal),
            _ => {}
        }
    }
    assert_eq!(view.get_all(), walked);
    assert_eq!(
        view.get_all(),
        Err(CastError::TargetAlignmentGreaterAndInputNotAligned)
    );
}

#[test]
fn eighteen_bytes_are_no_rows_of_sixteen() {
    let bytes = [0u8; 18];
    assert_eq!(
        MatLEView::<f32>::try_new(&bytes, 4).unwrap_err(),
        LayoutError::PartialRow
    );
    assert_eq!(
        MatLEView::<u64>::try_new(&bytes, 2).unwrap_err(),
        LayoutError::PartialRow
    );
}
