use bed_reader::codec::{check_header, encode_column, set_up_two_bits_to_value, try_div_4};
use bed_reader::engine::{decode_blocks, plan_read, read_image, write_image};
use bed_reader::error::{BedError, BedErrorPlus};
use bed_reader::index::{to_range_any, Index, RangeBound, SliceInfo1, SliceInfoElem};

/// A 3 x 4 matrix: rows [1, 0, -, 0], [2, 0, -, 2], [0, 1, 2, 0], allele 1 counted.
fn small_bed() -> Vec<u8> {
    vec![0x6C, 0x1B, 0x01, 0x32, 0x2F, 0x05, 0x33]
}

fn path() -> String {
    "small.bed".to_string()
}

fn read_i8(
    file: &[u8],
    iid_index: &Index,
    sid_index: &Index,
    count_a1: bool,
    missing: i8,
) -> Result<Vec<Vec<i8>>, BedErrorPlus> {
    let iid = iid_index.to_vec(3)?;
    let sid = sid_index.to_vec(4)?;
    let table = set_up_two_bits_to_value(count_a1, missing, 0i8, 1, 2);
    read_image(&path(), file, 3, 4, &iid, &sid, &table)
}

fn read_f64(file: &[u8], iid_index: &Index, sid_index: &Index, count_a1: bool) -> Vec<Vec<f64>> {
    let iid = iid_index.to_vec(3).unwrap();
    let sid = sid_index.to_vec(4).unwrap();
    let table = set_up_two_bits_to_value(count_a1, f64::NAN, 0.0f64, 1.0, 2.0);
    read_image(&path(), file, 3, 4, &iid, &sid, &table).unwrap()
}

/// Rows of a matrix given as columns.
fn rows_of<T: Copy>(cols: &Vec<Vec<T>>) -> Vec<Vec<T>> {
    let nrows = if cols.is_empty() { 0 } else { cols[0].len() };
    (0..nrows).map(|r| cols.iter().map(|c| c[r]).collect()).collect()
}

fn same_with_nan(a: &Vec<Vec<f64>>, b: &Vec<Vec<f64>>) -> bool {
    a.len() == b.len()
        && a.iter().zip(b).all(|(x, y)| {
            x.len() == y.len()
                && x.iter().zip(y).all(|(p, q)| (p.is_nan() && q.is_nan()) || p == q)
        })
}

#[test]
fn small_file_reads_as_f64() {
    let val = rows_of(&read_f64(&small_bed(), &Index::All, &Index::All, true));
    let nan = f64::NAN;
    let expected = vec![vec![1.0, 0.0, nan, 0.0], vec![2.0, 0.0, nan, 2.0], vec![0.0, 1.0, 2.0, 0.0]];
    assert!(same_with_nan(&val, &expected));
}

#[test]
fn small_file_counting_allele_2() {
    let val = rows_of(&read_f64(&small_bed(), &Index::All, &Index::All, false));
    let nan = f64::NAN;
    let expected = vec![vec![1.0, 2.0, nan, 2.0], vec![0.0, 2.0, nan, 0.0], vec![2.0, 1.0, 0.0, 2.0]];
    assert!(same_with_nan(&val, &expected));
}

#[test]
fn small_file_reads_as_i8_with_missing_value() {
    let val = rows_of(&read_i8(&small_bed(), &Index::All, &Index::All, true, -1).unwrap());
    assert_eq!(val, vec![vec![1, 0, -1, 0], vec![2, 0, -1, 2], vec![0, 1, 2, 0]]);
}

#[test]
fn negative_positions_select_from_end() {
    let val = read_f64(&small_bed(), &Index::Vec(vec![-1, -2]), &Index::One(-1), true);
    assert_eq!(rows_of(&val), vec![vec![0.0], vec![2.0]]);
}

#[test]
fn strided_rows_select_every_second() {
    let every_2nd = Index::NDSliceInfo(SliceInfo1 {
        elem: SliceInfoElem::Slice { start: 0, end: None, step: 2 },
    });
    let val = rows_of(&read_f64(&small_bed(), &every_2nd, &Index::All, true));
    let nan = f64::NAN;
    assert!(same_with_nan(&val, &vec![vec![1.0, 0.0, nan, 0.0], vec![0.0, 1.0, 2.0, 0.0]]));
}

#[test]
fn mask_from_chromosomes_selects_columns() {
    let chromosome = ["1", "1", "5", "Y"];
    let mask: Vec<bool> = chromosome.iter().map(|c| *c == "5").collect();
    let val = rows_of(&read_f64(&small_bed(), &Index::All, &Index::VecBool(mask), true));
    let nan = f64::NAN;
    assert!(same_with_nan(&val, &vec![vec![nan], vec![nan], vec![2.0]]));
}

#[test]
fn negative_indexing() {
    let file = small_bed();
    for index in [-4isize, 3] {
        match read_i8(&file, &Index::One(index), &Index::All, true, -127) {
            Err(BedErrorPlus::BedError(BedError::IidIndexTooBig(x))) => assert_eq!(x, index),
            _ => panic!("Expected specific error"),
        }
    }
    for index in [-3isize, 0] {
        let val = read_i8(&file, &Index::One(index), &Index::All, true, -127).unwrap();
        assert!(val[0][0] == 1);
    }
    for index in [-1isize, 2] {
        let val = read_i8(&file, &Index::One(index), &Index::All, true, -127).unwrap();
        assert!(val[0][0] == 0);
    }
    for index in [-5isize, 4] {
        match read_i8(&file, &Index::All, &Index::One(index), true, -127) {
            Err(BedErrorPlus::BedError(BedError::SidIndexTooBig(x))) => assert_eq!(x, index),
            _ => panic!("Expected specific error"),
        }
    }
    for index in [-4isize, 0] {
        let val = read_i8(&file, &Index::All, &Index::One(index), true, -127).unwrap();
        assert!(val[0][0] == 1);
    }
    for index in [-1isize, 3] {
        let val = read_i8(&file, &Index::All, &Index::One(index), true, -127).unwrap();
        assert!(val[0][0] == 0);
    }
}

#[test]
fn bad_magic_is_ill_formed() {
    let mut file = small_bed();
    file[0] = 0x6D;
    assert!(matches!(
        read_i8(&file, &Index::All, &Index::All, true, -127),
        Err(BedErrorPlus::BedError(BedError::IllFormed(_)))
    ));
    assert!(matches!(
        check_header(&path(), &[0x6C]),
        Err(BedErrorPlus::BedError(BedError::IllFormed(_)))
    ));
}

#[test]
fn bad_orientation_is_bad_mode() {
    let mut file = small_bed();
    file[2] = 2;
    assert!(matches!(
        read_i8(&file, &Index::All, &Index::All, true, -127),
        Err(BedErrorPlus::BedError(BedError::BadMode(_)))
    ));
}

#[test]
fn wrong_length_is_ill_formed() {
    let mut file = small_bed();
    file.push(0);
    assert!(matches!(
        read_i8(&file, &Index::All, &Index::All, true, -127),
        Err(BedErrorPlus::BedError(BedError::IllFormed(_)))
    ));
    file.truncate(6);
    assert!(matches!(
        read_i8(&file, &Index::All, &Index::All, true, -127),
        Err(BedErrorPlus::BedError(BedError::IllFormed(_)))
    ));
}

#[test]
fn row_major_file_reads_the_same() {
    // Orientation 0: one block per row, packing that row's four columns.
    let rows = vec![vec![1i8, 0, -127, 0], vec![2, 0, -127, 2], vec![0, 1, 2, 0]];
    let image = write_image(&path(), &rows, 4, true, -127).unwrap();
    let mut row_major = image.clone();
    row_major[2] = 0;
    let a = read_f64(&row_major, &Index::All, &Index::All, true);
    let b = read_f64(&small_bed(), &Index::All, &Index::All, true);
    assert!(same_with_nan(&a, &b));
    let a = read_i8(&row_major, &Index::Vec(vec![2, 0]), &Index::One(-1), false, -1).unwrap();
    let b = read_i8(&small_bed(), &Index::Vec(vec![2, 0]), &Index::One(-1), false, -1).unwrap();
    assert_eq!(a, b);
}

#[test]
fn writing_gives_the_small_file() {
    let cols = vec![vec![1i8, 2, 0], vec![0, 0, 1], vec![-127, -127, 2], vec![0, 2, 0]];
    assert_eq!(write_image(&path(), &cols, 3, true, -127).unwrap(), small_bed());
}

#[test]
fn write_then_read_round_trips() {
    let cols = vec![vec![0i8, 1, 2, -127, 1], vec![2, 2, -127, 0, 1]];
    for count_a1 in [true, false] {
        let image = write_image(&path(), &cols, 5, count_a1, -127).unwrap();
        assert_eq!(image.len(), 3 + 2 * 2);
        let iid: Vec<isize> = (0..5).collect();
        let sid: Vec<isize> = vec![0, 1];
        let table = set_up_two_bits_to_value(count_a1, -127i8, 0, 1, 2);
        let back = read_image(&path(), &image, 5, 2, &iid, &sid, &table).unwrap();
        assert_eq!(back, cols);
    }
}

#[test]
fn bad_value_is_rejected() {
    let cols = vec![vec![0i8, 3, 1]];
    assert!(matches!(
        write_image(&path(), &cols, 3, true, -127),
        Err(BedErrorPlus::BedError(BedError::BadValue(_)))
    ));
    assert!(matches!(encode_column(&path(), &[1, 2, 7], true, -127), Err(BedError::BadValue(_))));
}

#[test]
fn encode_column_packs_low_bits_first() {
    assert_eq!(encode_column(&path(), &[0, 1, 2, -127, 2], true, -127).unwrap(), vec![0x4B, 0x00]);
    assert_eq!(encode_column(&path(), &[0, 1, 2, -127, 2], false, -127).unwrap(), vec![0x78, 0x03]);
    assert_eq!(encode_column(&path(), &[], true, -127).unwrap(), Vec::<u8>::new());
}

#[test]
fn sizes_too_big_for_files() {
    assert!(matches!(
        try_div_4(usize::MAX, 5, 3),
        Err(BedErrorPlus::BedError(BedError::IndexesTooBigForFiles(_, 5)))
    ));
    assert_eq!(try_div_4(3, 4, 3).unwrap(), (1, 1));
    assert_eq!(try_div_4(5, 0, 3).unwrap(), (2, 2));
    assert_eq!(try_div_4(0, 7, 3).unwrap(), (0, 0));
    assert!(matches!(
        try_div_4(8, 64, u64::MAX - 100),
        Err(BedErrorPlus::BedError(BedError::IndexesTooBigForFiles(8, 64)))
    ));
}

#[test]
fn plan_names_the_blocks_to_fetch() {
    let plan = plan_read(&path(), &[0x6C, 0x1B, 0x01], 7, 3, 4, &[2, -3], &[-1, 1]).unwrap();
    assert!(!plan.transposed);
    assert_eq!(plan.block_len, 1);
    assert_eq!(plan.offsets, vec![6, 4]);
    assert_eq!(plan.div4, vec![0, 0]);
    assert_eq!(plan.shift, vec![4, 0]);
    let file = small_bed();
    let blocks: Vec<Vec<u8>> =
        plan.offsets.iter().map(|&o| vec![file[o as usize]]).collect();
    let table = set_up_two_bits_to_value(true, -1i8, 0, 1, 2);
    let val = decode_blocks(&plan, &blocks, &table);
    assert_eq!(val, vec![vec![0, 0], vec![1, 0]]);
}

#[test]
fn decode_table_follows_allele_convention() {
    assert_eq!(set_up_two_bits_to_value(true, -127i8, 0, 1, 2), [2, -127, 1, 0]);
    assert_eq!(set_up_two_bits_to_value(false, -127i8, 0, 1, 2), [0, -127, 1, 2]);
}

fn read_with(options: &bed_reader::options::ReadOptions<i8>) -> Result<Vec<Vec<i8>>, BedErrorPlus> {
    read_i8(&small_bed(), &options.iid_index, &options.sid_index, options.is_a1_counted, options.missing_value)
}

#[test]
fn bool_read() {
    let mut builder = bed_reader::options::ReadOptions::<i8>::builder();
    builder.iid_index(Index::VecBool(vec![false, false, true, false])).i8();
    match read_with(&builder.build()) {
        Err(BedErrorPlus::BedError(BedError::BoolArrayVectorWrongLength(_, _))) => {}
        _ => panic!("should be an error"),
    }
    let mut builder = bed_reader::options::ReadOptions::<i8>::builder();
    builder.iid_index(Index::VecBool(vec![false, false, true])).i8();
    let val = read_with(&builder.build()).unwrap();
    assert_eq!(rows_of(&val), vec![vec![0, 1, 2, 0]]);
}

#[test]
fn i8_etc() {
    let mut builder = bed_reader::options::ReadOptions::<i8>::builder();
    builder.f().i8().iid_index(Index::VecBool(vec![false, false, true]));
    let options = builder.build();
    assert!(options.is_f);
    assert_eq!(options.missing_value, -127);
    assert!(read_with(&options).is_ok());
}

#[test]
fn fill() {
    let mut builder = bed_reader::options::ReadOptions::<i8>::builder();
    builder.f().i8().iid_index(Index::VecBool(vec![false, false, true]));
    let options = builder.build();
    let iid = options.iid_index.to_vec(3).unwrap();
    let sid = options.sid_index.to_vec(4).unwrap();
    match bed_reader::options::check_shape(iid.len(), sid.len(), 3, 4) {
        Err(BedErrorPlus::BedError(BedError::InvalidShape(_, _, _, _))) => {}
        _ => panic!("should be an error"),
    }
    assert!(bed_reader::options::check_shape(iid.len(), sid.len(), 1, 4).is_ok());
}

#[test]
fn range() {
    let forms = [
        (RangeBound::Included(0), RangeBound::Excluded(2)),
        (RangeBound::Included(0), RangeBound::Included(2)),
        (RangeBound::Unbounded, RangeBound::Excluded(2)),
        (RangeBound::Unbounded, RangeBound::Included(2)),
        (RangeBound::Included(0), RangeBound::Unbounded),
        (RangeBound::Unbounded, RangeBound::Unbounded),
    ];
    for (start, end) in forms {
        let index = Index::RangeAny(to_range_any(start, end));
        assert!(read_i8(&small_bed(), &index, &Index::All, true, -127).is_ok());
    }
}

#[test]
fn nd_slice() {
    let s = |start: isize, end: Option<isize>, step: isize| {
        Index::NDSliceInfo(SliceInfo1 { elem: SliceInfoElem::Slice { start, end, step } })
    };
    assert_eq!(s(1, Some(3), 1).to_vec(4).unwrap(), vec![1, 2]);
    assert_eq!(s(1, Some(3), -1).to_vec(4).unwrap(), vec![2, 1]);
    assert_eq!(s(3, Some(1), -1).to_vec(4).unwrap(), Vec::<isize>::new());
    for index in [s(0, Some(2), 1), s(0, None, 1), s(-2, Some(-1), -1)] {
        assert!(read_i8(&small_bed(), &index, &Index::All, true, -127).is_ok());
    }
}

#[test]
fn struct_play() {
    let m = bed_reader::metadata::MetadataBuilder::new().build().unwrap().fill(100, 100).unwrap();
    assert_eq!(m.iid.unwrap()[99], "iid100");
}

#[test]
fn unused_slots_of_last_byte_are_zero() {
    // Five values: the second byte holds one code, its three high slots stay 0.
    let block = encode_column(&path(), &[1, 1, 1, 1, 1], true, -127).unwrap();
    assert_eq!(block, vec![0xAA, 0x02]);
    let image = write_image(&path(), &vec![vec![-127i8; 5], vec![-127i8; 5]], 5, true, -127).unwrap();
    assert_eq!(image, vec![0x6C, 0x1B, 0x01, 0x55, 0x01, 0x55, 0x01]);
}

#[test]
fn read_option_getters() {
    let mut builder = bed_reader::options::ReadOptions::<i8>::builder();
    builder.c().count_a2().num_threads(3).missing_value(-1);
    let options = builder.build();
    assert!(!options.is_f());
    assert!(!options.is_a1_counted());
    assert_eq!(options.num_threads(), Some(3));
    assert_eq!(options.missing_value(), -1);
    assert!(matches!(options.iid_index(), Index::All));
    assert!(matches!(options.sid_index(), Index::All));
}
