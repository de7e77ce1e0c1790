use bed_reader::codec::set_up_two_bits_to_value;
use bed_reader::engine::plan_read;
use bed_reader::error::{BedError, BedErrorPlus};
use bed_reader::matrix::{read_and_fill, GenotypeMatrix};

fn small_bed() -> Vec<u8> {
    vec![0x6C, 0x1B, 0x01, 0x32, 0x2F, 0x05, 0x33]
}

fn fetch(file: &[u8], offsets: &[u64], len: usize) -> Vec<Vec<u8>> {
    offsets.iter().map(|&o| file[o as usize..o as usize + len].to_vec()).collect()
}

#[test]
fn matrix_is_filled_in_place() {
    let file = small_bed();
    let plan = plan_read(&"small.bed".to_string(), &file[..3], 7, 3, 4, &[0, 1, 2], &[0, 1, 2, 3]).unwrap();
    let blocks = fetch(&file, &plan.offsets, plan.block_len);
    let table = set_up_two_bits_to_value(true, -127i8, 0, 1, 2);
    let mut val = GenotypeMatrix::filled(3, 4, 9, false);
    read_and_fill(&mut val, &plan, &blocks, &table).unwrap();
    assert_eq!(val.dim(), (3, 4));
    assert_eq!(val.columns()[3][1], 2);
    assert_eq!(
        val.columns(),
        vec![vec![1, 2, 0], vec![0, 0, 1], vec![-127, -127, 2], vec![0, 2, 0]]
    );
}

#[test]
fn matrix_of_wrong_shape_is_refused() {
    let file = small_bed();
    let plan = plan_read(&"small.bed".to_string(), &file[..3], 7, 3, 4, &[2], &[0, 1, 2, 3]).unwrap();
    let blocks = fetch(&file, &plan.offsets, plan.block_len);
    let table = set_up_two_bits_to_value(true, -127i8, 0, 1, 2);
    let mut val = GenotypeMatrix::filled(3, 4, 9, true);
    assert!(matches!(
        read_and_fill(&mut val, &plan, &blocks, &table),
        Err(BedErrorPlus::BedError(BedError::InvalidShape(1, 4, 3, 4)))
    ));
    assert_eq!(val.columns(), vec![vec![9, 9, 9]; 4]);
    let mut val = GenotypeMatrix::filled(1, 4, 9, true);
    read_and_fill(&mut val, &plan, &blocks, &table).unwrap();
    assert_eq!(val.columns(), vec![vec![0], vec![1], vec![2], vec![0]]);
}

#[test]
fn row_major_file_fills_the_same_matrix() {
    // Orientation 0: one block per row.
    let file = vec![0x6C, 0x1B, 0x00, 0xDE, 0x1C, 0xCB];
    let plan = plan_read(&"rows.bed".to_string(), &file[..3], 6, 3, 4, &[0, 1, 2], &[0, 1, 2, 3]).unwrap();
    assert!(plan.transposed);
    let blocks = fetch(&file, &plan.offsets, plan.block_len);
    let table = set_up_two_bits_to_value(true, -127i8, 0, 1, 2);
    let mut val = GenotypeMatrix::filled(3, 4, 9, true);
    read_and_fill(&mut val, &plan, &blocks, &table).unwrap();
    assert_eq!(
        val.columns(),
        vec![vec![1, 2, 0], vec![0, 0, 1], vec![-127, -127, 2], vec![0, 2, 0]]
    );
}
