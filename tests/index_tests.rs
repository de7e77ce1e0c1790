use bed_reader::error::{BedError, BedErrorPlus};
use bed_reader::index::{div_ceil, to_range_any, Index, RangeAny, RangeBound, RangeNdSlice, SliceInfo1, SliceInfoElem};

fn slice(start: isize, end: Option<isize>, step: isize) -> Index {
    Index::NDSliceInfo(SliceInfo1 { elem: SliceInfoElem::Slice { start, end, step } })
}

fn range(start: Option<usize>, end: Option<usize>) -> Index {
    Index::RangeAny(RangeAny { start, end })
}

#[test]
fn all_selects_every_position() {
    assert_eq!(Index::All.to_vec(4).unwrap(), vec![0, 1, 2, 3]);
    assert_eq!(Index::All.len(4).unwrap(), 4);
    assert_eq!(Index::All.to_vec(0).unwrap(), Vec::<isize>::new());
}

#[test]
fn single_position_is_kept_signed() {
    assert_eq!(Index::One(-1).to_vec(3).unwrap(), vec![-1]);
    assert_eq!(Index::One(2).to_vec(3).unwrap(), vec![2]);
    assert_eq!(Index::One(-1).len(3).unwrap(), 1);
}

#[test]
fn mask_selects_true_entries_in_order() {
    let mask = Index::VecBool(vec![false, false, true, false]);
    assert_eq!(mask.to_vec(4).unwrap(), vec![2]);
    assert_eq!(mask.len(4).unwrap(), 1);
    let mask = Index::VecBool(vec![true, false, true, true]);
    assert_eq!(mask.to_vec(4).unwrap(), vec![0, 2, 3]);
    assert_eq!(mask.len(4).unwrap(), 3);
}

#[test]
fn mask_of_wrong_length_fails() {
    let mask = Index::VecBool(vec![true, false]);
    assert!(matches!(
        mask.to_vec(3),
        Err(BedErrorPlus::BedError(BedError::BoolArrayVectorWrongLength(3, 2)))
    ));
    assert!(matches!(
        mask.len(3),
        Err(BedErrorPlus::BedError(BedError::BoolArrayVectorWrongLength(3, 2)))
    ));
}

#[test]
fn positive_stride_matches_python_range() {
    assert_eq!(slice(1, Some(8), 3).to_vec(10).unwrap(), vec![1, 4, 7]);
    assert_eq!(slice(1, Some(8), 3).len(10).unwrap(), 3);
    assert_eq!(slice(0, None, 2).to_vec(3).unwrap(), vec![0, 2]);
    assert_eq!(slice(2, Some(2), 1).to_vec(3).unwrap(), Vec::<isize>::new());
}

#[test]
fn negative_stride_counts_down_from_end() {
    assert_eq!(slice(0, Some(4), -1).to_vec(4).unwrap(), vec![3, 2, 1, 0]);
    assert_eq!(slice(0, Some(7), -3).to_vec(10).unwrap(), vec![6, 3, 0]);
    assert_eq!(slice(0, Some(4), -2).to_vec(4).unwrap(), vec![3, 1]);
    assert_eq!(slice(0, Some(4), -2).len(4).unwrap(), 2);
    assert_eq!(slice(-2, Some(-1), -1).to_vec(3).unwrap(), vec![1]);
}

#[test]
fn negative_bounds_count_from_end() {
    assert_eq!(slice(-3, Some(-1), 1).to_vec(4).unwrap(), vec![1, 2]);
    assert_eq!(slice(-1, None, 1).to_vec(4).unwrap(), vec![3]);
    assert_eq!(slice(3, Some(0), 1).to_vec(4).unwrap(), Vec::<isize>::new());
    assert_eq!(slice(3, Some(0), 1).len(4).unwrap(), 0);
}

#[test]
fn slice_errors() {
    assert!(matches!(slice(0, None, 0).to_vec(4), Err(BedErrorPlus::BedError(BedError::StepZero))));
    assert!(matches!(
        slice(5, None, 1).to_vec(4),
        Err(BedErrorPlus::BedError(BedError::StartGreaterThanCount(5, 4)))
    ));
    assert!(matches!(
        slice(-5, None, 1).len(4),
        Err(BedErrorPlus::BedError(BedError::StartGreaterThanCount(5, 4)))
    ));
    assert!(matches!(
        slice(0, Some(1000), 1).to_vec(999),
        Err(BedErrorPlus::BedError(BedError::EndGreaterThanCount(1000, 999)))
    ));
    let new_axis = Index::NDSliceInfo(SliceInfo1 { elem: SliceInfoElem::NewAxis });
    assert!(matches!(new_axis.to_vec(4), Err(BedErrorPlus::BedError(BedError::NewAxis))));
    let one = Index::NDSliceInfo(SliceInfo1 { elem: SliceInfoElem::Index(1) });
    assert!(matches!(one.len(4), Err(BedErrorPlus::BedError(BedError::NdSliceInfoNot1D))));
}

#[test]
fn ranges_default_and_check_their_bounds() {
    assert_eq!(range(None, None).to_vec(3).unwrap(), vec![0, 1, 2]);
    assert_eq!(range(Some(1), None).to_vec(3).unwrap(), vec![1, 2]);
    assert_eq!(range(None, Some(2)).to_vec(3).unwrap(), vec![0, 1]);
    assert_eq!(range(Some(1), Some(3)).len(3).unwrap(), 2);
    assert!(matches!(
        range(Some(3), Some(0)).to_vec(3),
        Err(BedErrorPlus::BedError(BedError::StartGreaterThanEnd(3, 0)))
    ));
    assert!(matches!(
        range(Some(1000), None).len(3),
        Err(BedErrorPlus::BedError(BedError::StartGreaterThanEnd(1000, 3)))
    ));
    assert!(matches!(
        range(None, Some(4)).to_vec(3),
        Err(BedErrorPlus::BedError(BedError::EndGreaterThanCount(4, 3)))
    ));
}

#[test]
fn range_bounds_convert() {
    let r = to_range_any(RangeBound::Included(0), RangeBound::Included(2));
    assert_eq!((r.start, r.end), (Some(0), Some(3)));
    let r = to_range_any(RangeBound::Excluded(0), RangeBound::Excluded(2));
    assert_eq!((r.start, r.end), (Some(1), Some(2)));
    let r = to_range_any(RangeBound::Unbounded, RangeBound::Unbounded);
    assert_eq!((r.start, r.end), (None, None));
}

#[test]
fn len_agrees_with_positions() {
    let cases = vec![
        Index::All,
        Index::One(-2),
        Index::Vec(vec![0, -1, 2, 2]),
        Index::VecBool(vec![true, true, false, true, false]),
        slice(0, None, 2),
        slice(-1, Some(0), -2),
        slice(4, Some(1), 1),
        range(Some(1), Some(4)),
    ];
    for index in cases {
        assert_eq!(index.len(5).unwrap(), index.to_vec(5).unwrap().len());
    }
}

#[test]
fn resolved_slice_len_and_positions() {
    let s = RangeNdSlice { start: 2, end: 9, step: 3, is_reversed: false };
    assert_eq!(s.len(), 3);
    assert_eq!(s.to_vec(), vec![2, 5, 8]);
    let s = RangeNdSlice { start: 2, end: 9, step: 3, is_reversed: true };
    assert_eq!(s.to_vec(), vec![8, 5, 2]);
    assert_eq!(div_ceil(7, 3), 3);
    assert_eq!(div_ceil(0, 3), 0);
    assert_eq!(div_ceil(usize::MAX, 1), usize::MAX);
}
