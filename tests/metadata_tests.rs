use bed_reader::bed::{to_metadata_path, Bed};
use bed_reader::error::{BedError, BedErrorPlus};
use bed_reader::metadata::{check_counts, Metadata, MetadataBuilder, MetadataFields};
use bed_reader::options::{check_shape, compute_num_threads, encode_dataset, Missing, WriteOptions};
use bed_reader::text::split_whitespace;

fn lines(v: &[&str]) -> Vec<String> {
    v.iter().map(|s| s.to_string()).collect()
}

fn texts(v: &Option<Vec<String>>) -> Vec<&str> {
    v.as_ref().unwrap().iter().map(|s| s.as_str()).collect()
}

fn small_fam() -> Vec<String> {
    lines(&["fid1 iid1 father1 mother1 1 red", "fid2\tiid2  father2 mother2 2 blue", "fid3 iid3 0 0 0 -9"])
}

fn small_bim() -> Vec<String> {
    lines(&["1\tsnp1\t0.0\t100\tA\tC", "1 snp2 1.5 200 T G", "5 snp3 2 300 A G", "Y snp4 0 400 C T"])
}

#[test]
fn fields_split_on_spaces_and_tabs() {
    assert_eq!(split_whitespace("  a\tbb  c \r"), vec!["a", "bb", "c"]);
    assert_eq!(split_whitespace(""), Vec::<String>::new());
    assert_eq!(split_whitespace("\t \t"), Vec::<String>::new());
    assert_eq!(split_whitespace("a\u{00A0}b\u{3000}c\u{2003}d"), vec!["a", "b", "c", "d"]);
    assert_eq!(split_whitespace("a\u{200B}b"), vec!["a\u{200B}b"]);
}

#[test]
fn row_sidecar_parses_all_fields() {
    let (m, count) = Metadata::new().read_fam(&small_fam(), &"x.fam".to_string(), &vec![]).unwrap();
    assert_eq!(count, 3);
    assert_eq!(texts(&m.fid), vec!["fid1", "fid2", "fid3"]);
    assert_eq!(texts(&m.iid), vec!["iid1", "iid2", "iid3"]);
    assert_eq!(texts(&m.mother), vec!["mother1", "mother2", "0"]);
    assert_eq!(m.sex, Some(vec![1, 2, 0]));
    assert_eq!(texts(&m.pheno), vec!["red", "blue", "-9"]);
    assert!(m.chromosome.is_none());
}

#[test]
fn column_sidecar_parses_all_fields() {
    let (m, count) = Metadata::new().read_bim(&small_bim(), &"x.bim".to_string(), &vec![]).unwrap();
    assert_eq!(count, 4);
    assert_eq!(texts(&m.chromosome), vec!["1", "1", "5", "Y"]);
    assert_eq!(texts(&m.sid), vec!["snp1", "snp2", "snp3", "snp4"]);
    assert_eq!(texts(&m.cm_position), vec!["0.0", "1.5", "2", "0"]);
    assert_eq!(m.bp_position, Some(vec![100, 200, 300, 400]));
    assert_eq!(texts(&m.allele_2), vec!["C", "G", "G", "T"]);
    assert!(m.fid.is_none());
}

#[test]
fn skipped_and_present_fields_are_not_parsed() {
    let mut builder = MetadataBuilder::new();
    builder.iid(&["a", "b", "c"]);
    let seeded = builder.build().unwrap();
    let (m, _) = seeded
        .read_fam(&small_fam(), &"x.fam".to_string(), &vec![MetadataFields::Sex, MetadataFields::Fid])
        .unwrap();
    assert_eq!(texts(&m.iid), vec!["a", "b", "c"]);
    assert!(m.sex.is_none());
    assert!(m.fid.is_none());
    assert_eq!(texts(&m.father), vec!["father1", "father2", "0"]);
}

#[test]
fn line_without_six_fields_fails() {
    let bad = lines(&["a b c d e f", "a b c d e"]);
    match Metadata::new().read_fam(&bad, &"x.fam".to_string(), &vec![]) {
        Err(BedErrorPlus::BedError(BedError::MetadataFieldCount(6, 5, p))) => assert_eq!(p, "x.fam"),
        _ => panic!("test failure"),
    }
}

#[test]
fn sex_that_is_no_integer_fails() {
    let bad = lines(&["a b c d x f"]);
    assert!(matches!(
        Metadata::new().read_fam(&bad, &"x.fam".to_string(), &vec![]),
        Err(BedErrorPlus::ParseIntError(_))
    ));
    let ok = Metadata::new().read_fam(&bad, &"x.fam".to_string(), &vec![MetadataFields::Sex]);
    assert!(ok.is_ok());
    let signed = lines(&["a b c d +2 f", "a b c d -1 f"]);
    let (m, _) = Metadata::new().read_fam(&signed, &"x.fam".to_string(), &vec![]).unwrap();
    assert_eq!(m.sex, Some(vec![2, -1]));
}

#[test]
fn fill_gives_defaults() {
    let m = Metadata::new().fill(3, 4).unwrap();
    assert_eq!(texts(&m.fid), vec!["0", "0", "0"]);
    assert_eq!(texts(&m.iid), vec!["iid1", "iid2", "iid3"]);
    assert_eq!(m.sex, Some(vec![0, 0, 0]));
    assert_eq!(texts(&m.chromosome), vec!["0", "0", "0", "0"]);
    assert_eq!(texts(&m.sid), vec!["sid1", "sid2", "sid3", "sid4"]);
    assert_eq!(texts(&m.cm_position), vec!["0", "0", "0", "0"]);
    assert_eq!(m.bp_position, Some(vec![0, 0, 0, 0]));
    assert_eq!(texts(&m.allele_1), vec!["A1", "A1", "A1", "A1"]);
    assert_eq!(texts(&m.allele_2), vec!["A2", "A2", "A2", "A2"]);
    let m = Metadata::new().fill(12, 0).unwrap();
    assert_eq!(texts(&m.iid)[11], "iid12");
}

#[test]
fn fill_rejects_field_of_wrong_length() {
    let mut builder = MetadataBuilder::new();
    builder.sid(&["a", "b"]);
    let m = builder.build().unwrap();
    match m.fill(3, 4) {
        Err(BedErrorPlus::BedError(BedError::InconsistentCount(name, 2, 4))) => assert_eq!(name, "sid"),
        _ => panic!("test failure"),
    }
}

#[test]
fn builder_rejects_uneven_fields() {
    let mut builder = MetadataBuilder::new();
    builder.fid(&["a", "b"]);
    builder.pheno(&["a", "b", "c"]);
    match builder.build() {
        Err(BedErrorPlus::BedError(BedError::InconsistentCount(name, 2, 3))) => assert_eq!(name, "iid"),
        _ => panic!("test failure"),
    }
}

#[test]
fn counts_agree_or_fail() {
    let mut count = None;
    check_counts(vec![None, Some(3), None, Some(3)], &mut count, "iid").unwrap();
    assert_eq!(count, Some(3));
    let mut count = Some(4);
    match check_counts(vec![None, Some(3)], &mut count, "sid") {
        Err(BedErrorPlus::BedError(BedError::InconsistentCount(p, 4, 3))) => assert_eq!(p, "sid"),
        _ => panic!("test failure"),
    }
}

#[test]
fn sidecar_lines_are_tab_joined() {
    let m = Metadata::new().fill(2, 1).unwrap();
    assert_eq!(m.fam_lines().unwrap(), vec!["0\tiid1\t0\t0\t0\t0", "0\tiid2\t0\t0\t0\t0"]);
    assert_eq!(m.bim_lines().unwrap(), vec!["0\tsid1\t0\t0\tA1\tA2"]);
    let (m, _) = Metadata::new().read_bim(&small_bim(), &"x.bim".to_string(), &vec![]).unwrap();
    assert_eq!(m.bim_lines().unwrap()[0], "1\tsnp1\t0.0\t100\tA\tC");
    let (m, _) = Metadata::new().read_fam(&lines(&["a b c d -12 f"]), &"x.fam".to_string(), &vec![]).unwrap();
    assert_eq!(m.fam_lines().unwrap(), vec!["a\tb\tc\td\t-12\tf"]);
}

#[test]
fn emitting_with_a_skipped_field_fails() {
    let (m, _) = Metadata::new()
        .read_fam(&small_fam(), &"x.fam".to_string(), &vec![MetadataFields::Mother])
        .unwrap();
    match m.fam_lines() {
        Err(BedErrorPlus::BedError(BedError::CannotUseSkippedMetadata(name))) => assert_eq!(name, "mother"),
        _ => panic!("test failure"),
    }
}

#[test]
fn sidecar_paths_follow_the_matrix_file() {
    let p = "data/small.bed".to_string();
    assert_eq!(to_metadata_path(&p, &None, "fam"), "data/small.fam");
    assert_eq!(to_metadata_path(&p, &Some("other.mib".to_string()), "bim"), "other.mib");
    assert_eq!(to_metadata_path(&"data.d/small".to_string(), &None, "fam"), "data.d/small.fam");
    assert_eq!(to_metadata_path(&".hidden".to_string(), &None, "bim"), ".hidden.bim");
    assert_eq!(to_metadata_path(&"data/".to_string(), &None, "fam"), "data.fam");
    assert_eq!(to_metadata_path(&"data/small.bed/.".to_string(), &None, "fam"), "data/small.fam");
    assert_eq!(to_metadata_path(&"data/..".to_string(), &None, "fam"), "data/..");
    assert_eq!(to_metadata_path(&"/".to_string(), &None, "fam"), "/");
    assert_eq!(to_metadata_path(&"a/b.tar.gz".to_string(), &None, "bim"), "a/b.tar.bim");
}

#[test]
fn skip_coverage() {
    let bed = Bed::builder("small.bed")
        .skip_fid()
        .skip_iid()
        .skip_father()
        .skip_mother()
        .skip_sex()
        .skip_pheno()
        .skip_chromosome()
        .skip_sid()
        .skip_cm_position()
        .skip_bp_position()
        .skip_allele_1()
        .skip_allele_2()
        .build()
        .unwrap();
    assert!(bed.unlazy_fam(MetadataFields::Mother).is_err());
}

#[test]
fn skipped_field_fails_and_others_succeed() {
    let mut bed = Bed::builder("small.bed").skip_sid().build().unwrap();
    assert!(bed.unlazy_bim(MetadataFields::Chromosome).unwrap());
    bed.bim(&small_bim()).unwrap();
    assert!(!bed.unlazy_bim(MetadataFields::Chromosome).unwrap());
    assert_eq!(texts(&bed.metadata.chromosome), vec!["1", "1", "5", "Y"]);
    match bed.unlazy_bim(MetadataFields::Sid) {
        Err(BedErrorPlus::BedError(BedError::CannotUseSkippedMetadata(name))) => assert_eq!(name, "sid"),
        _ => panic!("test failure"),
    }
    assert!(bed.metadata.sid.is_none());
    assert_eq!(bed.sid_count, Some(4));
}

#[test]
fn declared_count_that_disagrees_fails() {
    let mut bed = Bed::builder("small.bed").iid_count(4).build().unwrap();
    match bed.fam(&small_fam()) {
        Err(BedErrorPlus::BedError(BedError::InconsistentCount(p, 4, 3))) => assert_eq!(p, "iid"),
        _ => panic!("test failure"),
    }
    let mut bed = Bed::builder("small.bed").iid_count(3).build().unwrap();
    bed.fam(&small_fam()).unwrap();
    assert_eq!(bed.fam_path, Some("small.fam".to_string()));
}

#[test]
fn bed_builder_checks_counts() {
    let r = Bed::builder("small.bed").iid_count(3).fid(&["a", "b"]).build();
    assert!(matches!(r, Err(BedErrorPlus::BedError(BedError::InconsistentCount(_, 3, 2)))));
    let bed = Bed::builder("small.bed").chromosome(&["1", "2"]).build().unwrap();
    assert_eq!(bed.sid_count, Some(2));
    assert_eq!(bed.iid_count, None);
}

#[test]
fn counts_from_lines_are_kept() {
    let mut bed = Bed::builder("small.bed").build().unwrap();
    assert_eq!(bed.iid_count_or(3), 3);
    assert_eq!(bed.iid_count_or(7), 3);
    assert_eq!(bed.sid_count_or(4), 4);
}

#[test]
fn default_write_round_trips_metadata() {
    let wo = WriteOptions::<i8>::builder("small.bed").build(3, 4).unwrap();
    let cols = vec![vec![1i8, 2, 0], vec![0, 0, 1], vec![-127, -127, 2], vec![0, 2, 0]];
    let out = encode_dataset(&cols, 3, &wo).unwrap();
    assert_eq!(out.bed, vec![0x6C, 0x1B, 0x01, 0x32, 0x2F, 0x05, 0x33]);
    assert_eq!(out.bim[1], "0\tsid2\t0\t0\tA1\tA2");
    let mut bed = Bed::builder("small.bed").build().unwrap();
    bed.bim(&out.bim).unwrap();
    bed.fam(&out.fam).unwrap();
    assert_eq!(texts(&bed.metadata.chromosome), vec!["0", "0", "0", "0"]);
    assert_eq!(texts(&bed.metadata.sid), vec!["sid1", "sid2", "sid3", "sid4"]);
    assert_eq!(texts(&bed.metadata.allele_1), vec!["A1", "A1", "A1", "A1"]);
    assert_eq!(texts(&bed.metadata.allele_2), vec!["A2", "A2", "A2", "A2"]);
    assert_eq!(texts(&bed.metadata.iid), vec!["iid1", "iid2", "iid3"]);
}

#[test]
fn writing_a_three_fails_with_bad_value() {
    let wo = WriteOptions::<i8>::builder("small.bed").build(3, 1).unwrap();
    let cols = vec![vec![1i8, 3, 0]];
    assert!(matches!(
        encode_dataset(&cols, 3, &wo),
        Err(BedErrorPlus::BedError(BedError::BadValue(_)))
    ));
}

#[test]
fn writing_checks_the_shape() {
    let wo = WriteOptions::<i8>::builder("small.bed").build(3, 1).unwrap();
    let cols = vec![vec![1i8, 1], vec![0, 0]];
    match encode_dataset(&cols, 2, &wo) {
        Err(BedErrorPlus::BedError(BedError::InconsistentCount(p, 3, 2))) => assert_eq!(p, "iid"),
        _ => panic!("test failure"),
    }
    let cols = vec![vec![1i8, 1, 1], vec![0, 0, 0]];
    match encode_dataset(&cols, 3, &wo) {
        Err(BedErrorPlus::BedError(BedError::InconsistentCount(p, 1, 2))) => assert_eq!(p, "sid"),
        _ => panic!("test failure"),
    }
}

#[test]
fn write_options_take_given_metadata() {
    let wo = WriteOptions::<i8>::builder("out/small.bed")
        .fid(&["fid1", "fid1", "fid2"])
        .sex(&[1, 2, 0])
        .bp_position(&[1, 2, 3, 4])
        .bim_path("out/small.mib")
        .build(3, 4)
        .unwrap();
    assert_eq!(wo.fam_path, "out/small.fam");
    assert_eq!(wo.bim_path, "out/small.mib");
    assert_eq!(wo.iid_count(), 3);
    assert_eq!(wo.sid_count(), 4);
    assert_eq!(wo.missing_value, -127);
    assert_eq!(wo.metadata.fam_lines().unwrap()[1], "fid1\tiid2\t0\t0\t2\t0");
    let r = WriteOptions::<i8>::builder("small.bed").fid(&["a"]).build(3, 4);
    assert!(matches!(r, Err(BedErrorPlus::BedError(BedError::InconsistentCount(_, 1, 3)))));
}

#[test]
fn thread_count_resolution() {
    assert_eq!(compute_num_threads(Some(5), Some("7".to_string()), None).unwrap(), 5);
    assert_eq!(compute_num_threads(None, Some("7".to_string()), Some("9".to_string())).unwrap(), 7);
    assert_eq!(compute_num_threads(None, None, Some("+9".to_string())).unwrap(), 9);
    assert_eq!(compute_num_threads(None, None, None).unwrap(), 0);
    assert!(matches!(
        compute_num_threads(None, Some("many".to_string()), None),
        Err(BedErrorPlus::ParseIntError(_))
    ));
}

#[test]
fn output_shape_is_checked() {
    assert!(check_shape(2, 3, 2, 3).is_ok());
    assert!(matches!(
        check_shape(2, 3, 3, 2),
        Err(BedErrorPlus::BedError(BedError::InvalidShape(2, 3, 3, 2)))
    ));
}

#[test]
fn missing_default_for_i8() {
    assert_eq!(<i8 as Missing>::missing(), -127);
}

#[test]
fn getters_read_the_fields() {
    let m = Metadata::new().fill(2, 3).unwrap();
    assert_eq!(m.iid().unwrap(), &vec!["iid1".to_string(), "iid2".to_string()]);
    assert_eq!(m.bp_position().unwrap(), &vec![0, 0, 0]);
    assert!(Metadata::new().sex().is_none());
    let wo = WriteOptions::<i8>::builder("x.bed").build(2, 3).unwrap();
    assert_eq!(wo.dim(), (2, 3));
    assert_eq!(wo.path(), "x.bed");
    assert_eq!(wo.bim_path(), "x.bim");
    assert_eq!(wo.sid(), &vec!["sid1".to_string(), "sid2".to_string(), "sid3".to_string()]);
    assert_eq!(wo.allele_1().len(), 3);
    assert!(wo.metadata().fid.is_some());
    let bed = Bed::builder("x.bed").build().unwrap();
    assert_eq!(bed.path(), "x.bed");
}
