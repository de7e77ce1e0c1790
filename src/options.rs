use vstd::prelude::*;
use crate::bed::{to_metadata_path, with_extension};
use crate::engine::{columns_view, matrix_writable, write_image, written};
use crate::codec::fits_in_file;
use crate::error::{BedError, BedErrorPlus};
use crate::index::Index;
use crate::metadata::{
    field_name_text, fam_fields, bim_fields, fam_line, bim_line,
    ints_of, opt_ints, opt_texts, strings_of, strs_view, Metadata, MetadataFields,
};
use crate::text::digits_value;

verus! {

/// The value that stands for a missing genotype when none is given.
pub trait Missing: Sized {
    fn missing() -> Self;
}

impl Missing for i8 {
    fn missing() -> i8 {
        -127i8
    }
}

/// A type that a matrix of genotypes can hold.
pub trait BedVal: Copy + Missing {

}

impl BedVal for i8 {

}

/// Whether two selections are the same.
pub open spec fn same_index(a: Index, b: Index) -> bool {
    match (a, b) {
        (Index::Vec(x), Index::Vec(y)) => x@ == y@,
        (Index::VecBool(x), Index::VecBool(y)) => x@ == y@,
        _ => a == b,
    }
}

/// A copy of a selection.
pub fn copy_index(index: &Index) -> (r: Index)
    ensures
        same_index(r, *index),
{
    match index {
        Index::All => Index::All,
        Index::One(k) => Index::One(*k),
        Index::Vec(v) => {
            let mut w: Vec<isize> = Vec::new();
            let mut i: usize = 0;
            while i < v.len()
                invariant
                    i <= v@.len(),
                    w@ =~= v@.subrange(0, i as int),
                decreases v@.len() - i,
            {
                w.push(v[i]);
                i = i + 1;
            }
            proof {
                assert(v@.subrange(0, v@.len() as int) =~= v@);
            }
            Index::Vec(w)
        },
        Index::VecBool(v) => {
            let mut w: Vec<bool> = Vec::new();
            let mut i: usize = 0;
            while i < v.len()
                invariant
                    i <= v@.len(),
                    w@ =~= v@.subrange(0, i as int),
                decreases v@.len() - i,
            {
                w.push(v[i]);
                i = i + 1;
            }
            proof {
                assert(v@.subrange(0, v@.len() as int) =~= v@);
            }
            Index::VecBool(w)
        },
        Index::NDSliceInfo(info) => Index::NDSliceInfo(*info),
        Index::RangeAny(r) => Index::RangeAny(crate::index::RangeAny { start: r.start, end: r.end }),
    }
}

/// How a read is to go: the missing value, the two selections, the output's
/// order (column-major when `is_f`), the allele convention, and the thread count.
pub struct ReadOptions<TVal> {
    pub missing_value: TVal,
    pub iid_index: Index,
    pub sid_index: Index,
    pub is_f: bool,
    pub is_a1_counted: bool,
    pub num_threads: Option<usize>,
}

/// Read options being put together; unset ones take their defaults.
pub struct ReadOptionsBuilder<TVal> {
    pub missing_value: Option<TVal>,
    pub iid_index: Option<Index>,
    pub sid_index: Option<Index>,
    pub is_f: Option<bool>,
    pub is_a1_counted: Option<bool>,
    pub num_threads: Option<usize>,
}

impl<TVal: Copy> ReadOptions<TVal> {
    pub fn builder() -> (r: ReadOptionsBuilder<TVal>)
        ensures
            r.missing_value is None,
            r.iid_index is None,
            r.sid_index is None,
            r.is_f is None,
            r.is_a1_counted is None,
            r.num_threads is None,
    {
        ReadOptionsBuilder {
            missing_value: None,
            iid_index: None,
            sid_index: None,
            is_f: None,
            is_a1_counted: None,
            num_threads: None,
        }
    }
}

impl<TVal: Copy> ReadOptionsBuilder<TVal> {
    /// The options, with `default_missing` where no missing value was set, all
    /// positions where no selection was set, column-major order and allele 1
    /// counted unless set otherwise.
    pub fn build_with_missing(&self, default_missing: TVal) -> (r: ReadOptions<TVal>)
        ensures
            r.missing_value == match self.missing_value {
                Some(v) => v,
                None => default_missing,
            },
            same_index(r.iid_index, match self.iid_index {
                Some(i) => i,
                None => Index::All,
            }),
            same_index(r.sid_index, match self.sid_index {
                Some(i) => i,
                None => Index::All,
            }),
            r.is_f == match self.is_f {
                Some(b) => b,
                None => true,
            },
            r.is_a1_counted == match self.is_a1_counted {
                Some(b) => b,
                None => true,
            },
            r.num_threads == self.num_threads,
    {
        ReadOptions {
            missing_value: match self.missing_value {
                Some(v) => v,
                None => default_missing,
            },
            iid_index: match &self.iid_index {
                Some(i) => copy_index(i),
                None => Index::All,
            },
            sid_index: match &self.sid_index {
                Some(i) => copy_index(i),
                None => Index::All,
            },
            is_f: match self.is_f {
                Some(b) => b,
                None => true,
            },
            is_a1_counted: match self.is_a1_counted {
                Some(b) => b,
                None => true,
            },
            num_threads: self.num_threads,
        }
    }

    /// Sets the missing value.
    pub fn missing_value(&mut self, v: TVal) -> (r: &mut Self)
        ensures
            *r == (ReadOptionsBuilder { missing_value: Some(v), ..*old(self) }),
            *final(self) == *final(r),
    {
        self.missing_value = Some(v);
        self
    }

    /// Selects rows.
    pub fn iid_index(&mut self, index: Index) -> (r: &mut Self)
        ensures
            *r == (ReadOptionsBuilder { iid_index: Some(index), ..*old(self) }),
            *final(self) == *final(r),
    {
        self.iid_index = Some(index);
        self
    }

    /// Selects columns.
    pub fn sid_index(&mut self, index: Index) -> (r: &mut Self)
        ensures
            *r == (ReadOptionsBuilder { sid_index: Some(index), ..*old(self) }),
            *final(self) == *final(r),
    {
        self.sid_index = Some(index);
        self
    }

    /// Sets the thread count.
    pub fn num_threads(&mut self, n: usize) -> (r: &mut Self)
        ensures
            *r == (ReadOptionsBuilder { num_threads: Some(n), ..*old(self) }),
            *final(self) == *final(r),
    {
        self.num_threads = Some(n);
        self
    }

    /// Sets the output's order: column-major when `is_f`.
    pub fn is_f(&mut self, is_f: bool) -> (r: &mut Self)
        ensures
            *r == (ReadOptionsBuilder { is_f: Some(is_f), ..*old(self) }),
            *final(self) == *final(r),
    {
        self.is_f = Some(is_f);
        self
    }

    /// Asks for column-major output.
    pub fn f(&mut self) -> (r: &mut Self)
        ensures
            *r == (ReadOptionsBuilder { is_f: Some(true), ..*old(self) }),
            *final(self) == *final(r),
    {
        self.is_f = Some(true);
        self
    }

    /// Asks for row-major output.
    pub fn c(&mut self) -> (r: &mut Self)
        ensures
            *r == (ReadOptionsBuilder { is_f: Some(false), ..*old(self) }),
            *final(self) == *final(r),
    {
        self.is_f = Some(false);
        self
    }

    /// Counts allele 1: code 0 decodes to 2 and code 3 to 0.
    pub fn count_a1(&mut self) -> (r: &mut Self)
        ensures
            *r == (ReadOptionsBuilder { is_a1_counted: Some(true), ..*old(self) }),
            *final(self) == *final(r),
    {
        self.is_a1_counted = Some(true);
        self
    }

    /// Counts allele 2: code 0 decodes to 0 and code 3 to 2.
    pub fn count_a2(&mut self) -> (r: &mut Self)
        ensures
            *r == (ReadOptionsBuilder { is_a1_counted: Some(false), ..*old(self) }),
            *final(self) == *final(r),
    {
        self.is_a1_counted = Some(false);
        self
    }
}

impl ReadOptionsBuilder<i8> {
    /// Reads into 8-bit integers.
    pub fn i8(&mut self) -> (r: &mut Self)
        ensures
            *r == *old(self),
            *final(self) == *final(r),
    {
        self
    }

    /// The options, with -127 as the missing value unless one was set.
    pub fn build(&self) -> (r: ReadOptions<i8>)
        ensures
            r.missing_value == match self.missing_value {
                Some(v) => v,
                None => -127i8,
            },
            same_index(r.iid_index, match self.iid_index {
                Some(i) => i,
                None => Index::All,
            }),
            same_index(r.sid_index, match self.sid_index {
                Some(i) => i,
                None => Index::All,
            }),
            r.is_f == match self.is_f {
                Some(b) => b,
                None => true,
            },
            r.is_a1_counted == match self.is_a1_counted {
                Some(b) => b,
                None => true,
            },
            r.num_threads == self.num_threads,
    {
        self.build_with_missing(-127i8)
    }
}

/// How a write is to go: the three paths, the metadata (every field present),
/// the allele convention, the thread count and the missing value.
pub struct WriteOptions<TVal> {
    pub path: String,
    pub fam_path: String,
    pub bim_path: String,
    pub metadata: Metadata,
    pub is_a1_counted: bool,
    pub num_threads: Option<usize>,
    pub missing_value: TVal,
}

/// Write options being put together; unset ones take their defaults.
pub struct WriteOptionsBuilder<TVal> {
    pub path: String,
    pub fam_path: Option<String>,
    pub bim_path: Option<String>,
    pub metadata: Metadata,
    pub is_a1_counted: Option<bool>,
    pub num_threads: Option<usize>,
    pub missing_value: Option<TVal>,
}

impl<TVal: Copy> WriteOptions<TVal> {
    /// Every row field holds `iid_count` values and every column field `sid_count`.
    pub open spec fn wf(&self, iid_count: int, sid_count: int) -> bool {
        forall|f: MetadataFields|
            #![trigger self.metadata.len_of(f)]
            self.metadata.len_of(f) == Some(
                if Metadata::is_row_field(f) {
                    iid_count
                } else {
                    sid_count
                },
            )
    }

    pub fn builder(path: &str) -> (r: WriteOptionsBuilder<TVal>)
        ensures
            r.path@ == path@,
            r.fam_path is None,
            r.bim_path is None,
            forall|f: MetadataFields| r.metadata.len_of(f) is None,
            r.is_a1_counted is None,
            r.num_threads is None,
            r.missing_value is None,
    {
        WriteOptionsBuilder::new(path)
    }

    /// The number of rows: the length of the individual ids.
    pub fn iid_count(&self) -> (r: usize)
        requires
            self.metadata.iid is Some,
        ensures
            Some(r as int) == self.metadata.len_of(MetadataFields::Iid),
    {
        match &self.metadata.iid {
            Some(v) => v.len(),
            None => 0,
        }
    }

    /// The number of columns: the length of the variant ids.
    pub fn sid_count(&self) -> (r: usize)
        requires
            self.metadata.sid is Some,
        ensures
            Some(r as int) == self.metadata.len_of(MetadataFields::Sid),
    {
        match &self.metadata.sid {
            Some(v) => v.len(),
            None => 0,
        }
    }
}

impl<TVal: Copy> WriteOptionsBuilder<TVal> {
    pub fn new(path: &str) -> (r: Self)
        ensures
            r.path@ == path@,
            r.fam_path is None,
            r.bim_path is None,
            forall|f: MetadataFields| r.metadata.len_of(f) is None,
            r.is_a1_counted is None,
            r.num_threads is None,
            r.missing_value is None,
    {
        WriteOptionsBuilder {
            path: path.to_owned(),
            fam_path: None,
            bim_path: None,
            metadata: Metadata::new(),
            is_a1_counted: None,
            num_threads: None,
            missing_value: None,
        }
    }

    /// The options for a matrix of `iid_count` rows and `sid_count` columns: the
    /// metadata filled with defaults (failing as `Metadata::fill` does), the
    /// sidecar paths derived from the matrix file's path unless given, allele 1
    /// counted unless set otherwise, `default_missing` unless a missing value was set.
    pub fn build_with_missing(&self, iid_count: usize, sid_count: usize, default_missing: TVal) -> (r: Result<
        WriteOptions<TVal>,
        BedErrorPlus,
    >)
        requires
            iid_count < usize::MAX,
            sid_count < usize::MAX,
            self.path@.len() < i64::MAX,
        ensures
            match self.metadata.first_mismatch(iid_count as int, sid_count as int) {
                None => r matches Ok(wo) && self.metadata.filled_as(
                    &wo.metadata,
                    iid_count as int,
                    sid_count as int,
                ) && wo.wf(iid_count as int, sid_count as int) && wo.path@ == self.path@
                    && wo.fam_path@ == match self.fam_path {
                    Some(p) => p@,
                    None => with_extension(self.path@, seq!['f', 'a', 'm']),
                } && wo.bim_path@ == match self.bim_path {
                    Some(p) => p@,
                    None => with_extension(self.path@, seq!['b', 'i', 'm']),
                } && wo.is_a1_counted == match self.is_a1_counted {
                    Some(b) => b,
                    None => true,
                } && wo.num_threads == self.num_threads && wo.missing_value == match self.missing_value {
                    Some(v) => v,
                    None => default_missing,
                },
                Some(f) => r matches Err(
                    BedErrorPlus::BedError(BedError::InconsistentCount(name, a, b)),
                ) && name@ == field_name_text(f) && Some(a as int) == self.metadata.len_of(f),
            },
    {
        proof {
            reveal_strlit("fam");
            reveal_strlit("bim");
            assert("fam"@ =~= seq!['f', 'a', 'm']);
            assert("bim"@ =~= seq!['b', 'i', 'm']);
        }
        let metadata = self.metadata.fill(iid_count, sid_count)?;
        let wo = WriteOptions {
            path: self.path.clone(),
            fam_path: to_metadata_path(&self.path, &self.fam_path, "fam"),
            bim_path: to_metadata_path(&self.path, &self.bim_path, "bim"),
            is_a1_counted: match self.is_a1_counted {
                Some(b) => b,
                None => true,
            },
            num_threads: self.num_threads,
            missing_value: match self.missing_value {
                Some(v) => v,
                None => default_missing,
            },
            metadata,
        };
        proof {
            assert forall|f: MetadataFields| #[trigger] wo.metadata.len_of(f) == Some(
                if Metadata::is_row_field(f) {
                    iid_count as int
                } else {
                    sid_count as int
                },
            ) by {
                crate::metadata::lemma_filled_len(self.metadata, wo.metadata, iid_count as int, sid_count as int, f);
            }
        }
        Ok(wo)
    }

    /// Sets the row sidecar's path.
    pub fn fam_path(self, path: &str) -> (r: Self)
        ensures
            r.fam_path matches Some(p) && p@ == path@,
            r.path == self.path,
            r.bim_path == self.bim_path,
            r.metadata == self.metadata,
            r.is_a1_counted == self.is_a1_counted,
            r.num_threads == self.num_threads,
            r.missing_value == self.missing_value,
    {
        let mut r = self;
        r.fam_path = Some(path.to_owned());
        r
    }

    /// Sets the column sidecar's path.
    pub fn bim_path(self, path: &str) -> (r: Self)
        ensures
            r.bim_path matches Some(p) && p@ == path@,
            r.path == self.path,
            r.fam_path == self.fam_path,
            r.metadata == self.metadata,
            r.is_a1_counted == self.is_a1_counted,
            r.num_threads == self.num_threads,
            r.missing_value == self.missing_value,
    {
        let mut r = self;
        r.bim_path = Some(path.to_owned());
        r
    }

    /// Takes every field of a bundle.
    pub fn metadata(self, metadata: &Metadata) -> (r: Self)
        ensures
            r.metadata.same_as(metadata),
            r.path == self.path,
            r.fam_path == self.fam_path,
            r.bim_path == self.bim_path,
            r.is_a1_counted == self.is_a1_counted,
            r.num_threads == self.num_threads,
            r.missing_value == self.missing_value,
    {
        let mut r = self;
        r.metadata = metadata.copy();
        r
    }

    /// Sets the missing value.
    pub fn missing_value(self, v: TVal) -> (r: Self)
        ensures
            r.missing_value == Some(v),
            r.path == self.path,
            r.fam_path == self.fam_path,
            r.bim_path == self.bim_path,
            r.metadata == self.metadata,
            r.is_a1_counted == self.is_a1_counted,
            r.num_threads == self.num_threads,
    {
        let mut r = self;
        r.missing_value = Some(v);
        r
    }

    /// Sets the thread count.
    pub fn num_threads(self, n: usize) -> (r: Self)
        ensures
            r.num_threads == Some(n),
            r.path == self.path,
            r.fam_path == self.fam_path,
            r.bim_path == self.bim_path,
            r.metadata == self.metadata,
            r.is_a1_counted == self.is_a1_counted,
            r.missing_value == self.missing_value,
    {
        let mut r = self;
        r.num_threads = Some(n);
        r
    }

    /// Counts allele 1: 0 is written as code 3 and 2 as code 0.
    pub fn count_a1(&mut self) -> (r: &mut Self)
        ensures
            *r == (WriteOptionsBuilder { is_a1_counted: Some(true), ..*old(self) }),
            *final(self) == *final(r),
    {
        self.is_a1_counted = Some(true);
        self
    }

    /// Counts allele 2: 0 is written as code 0 and 2 as code 3.
    pub fn count_a2(&mut self) -> (r: &mut Self)
        ensures
            *r == (WriteOptionsBuilder { is_a1_counted: Some(false), ..*old(self) }),
            *final(self) == *final(r),
    {
        self.is_a1_counted = Some(false);
        self
    }

    /// Sets the field's values.
    pub fn fid(self, fid: &[&str]) -> (r: Self)
        ensures
            opt_texts(r.metadata.fid) == Some(strs_view(fid@)),
            r.metadata.same_except(&self.metadata, MetadataFields::Fid),
            r.path == self.path,
            r.fam_path == self.fam_path,
            r.bim_path == self.bim_path,
            r.is_a1_counted == self.is_a1_counted,
            r.num_threads == self.num_threads,
            r.missing_value == self.missing_value,
    {
        let mut r = self;
        r.metadata.fid = Some(strings_of(fid));
        r
    }

    /// Sets the field's values.
    pub fn iid(self, iid: &[&str]) -> (r: Self)
        ensures
            opt_texts(r.metadata.iid) == Some(strs_view(iid@)),
            r.metadata.same_except(&self.metadata, MetadataFields::Iid),
            r.path == self.path,
            r.fam_path == self.fam_path,
            r.bim_path == self.bim_path,
            r.is_a1_counted == self.is_a1_counted,
            r.num_threads == self.num_threads,
            r.missing_value == self.missing_value,
    {
        let mut r = self;
        r.metadata.iid = Some(strings_of(iid));
        r
    }

    /// Sets the field's values.
    pub fn father(self, father: &[&str]) -> (r: Self)
        ensures
            opt_texts(r.metadata.father) == Some(strs_view(father@)),
            r.metadata.same_except(&self.metadata, MetadataFields::Father),
            r.path == self.path,
            r.fam_path == self.fam_path,
            r.bim_path == self.bim_path,
            r.is_a1_counted == self.is_a1_counted,
            r.num_threads == self.num_threads,
            r.missing_value == self.missing_value,
    {
        let mut r = self;
        r.metadata.father = Some(strings_of(father));
        r
    }

    /// Sets the field's values.
    pub fn mother(self, mother: &[&str]) -> (r: Self)
        ensures
            opt_texts(r.metadata.mother) == Some(strs_view(mother@)),
            r.metadata.same_except(&self.metadata, MetadataFields::Mother),
            r.path == self.path,
            r.fam_path == self.fam_path,
            r.bim_path == self.bim_path,
            r.is_a1_counted == self.is_a1_counted,
            r.num_threads == self.num_threads,
            r.missing_value == self.missing_value,
    {
        let mut r = self;
        r.metadata.mother = Some(strings_of(mother));
        r
    }

    /// Sets the field's values.
    pub fn sex(self, sex: &[i32]) -> (r: Self)
        ensures
            opt_ints(r.metadata.sex) == Some(sex@),
            r.metadata.same_except(&self.metadata, MetadataFields::Sex),
            r.path == self.path,
            r.fam_path == self.fam_path,
            r.bim_path == self.bim_path,
            r.is_a1_counted == self.is_a1_counted,
            r.num_threads == self.num_threads,
            r.missing_value == self.missing_value,
    {
        let mut r = self;
        r.metadata.sex = Some(ints_of(sex));
        r
    }

    /// Sets the field's values.
    pub fn pheno(self, pheno: &[&str]) -> (r: Self)
        ensures
            opt_texts(r.metadata.pheno) == Some(strs_view(pheno@)),
            r.metadata.same_except(&self.metadata, MetadataFields::Pheno),
            r.path == self.path,
            r.fam_path == self.fam_path,
            r.bim_path == self.bim_path,
            r.is_a1_counted == self.is_a1_counted,
            r.num_threads == self.num_threads,
            r.missing_value == self.missing_value,
    {
        let mut r = self;
        r.metadata.pheno = Some(strings_of(pheno));
        r
    }

    /// Sets the field's values.
    pub fn chromosome(self, chromosome: &[&str]) -> (r: Self)
        ensures
            opt_texts(r.metadata.chromosome) == Some(strs_view(chromosome@)),
            r.metadata.same_except(&self.metadata, MetadataFields::Chromosome),
            r.path == self.path,
            r.fam_path == self.fam_path,
            r.bim_path == self.bim_path,
            r.is_a1_counted == self.is_a1_counted,
            r.num_threads == self.num_threads,
            r.missing_value == self.missing_value,
    {
        let mut r = self;
        r.metadata.chromosome = Some(strings_of(chromosome));
        r
    }

    /// Sets the field's values.
    pub fn sid(self, sid: &[&str]) -> (r: Self)
        ensures
            opt_texts(r.metadata.sid) == Some(strs_view(sid@)),
            r.metadata.same_except(&self.metadata, MetadataFields::Sid),
            r.path == self.path,
            r.fam_path == self.fam_path,
            r.bim_path == self.bim_path,
            r.is_a1_counted == self.is_a1_counted,
            r.num_threads == self.num_threads,
            r.missing_value == self.missing_value,
    {
        let mut r = self;
        r.metadata.sid = Some(strings_of(sid));
        r
    }

    /// Sets the field's values.
    pub fn cm_position(self, cm_position: &[&str]) -> (r: Self)
        ensures
            opt_texts(r.metadata.cm_position) == Some(strs_view(cm_position@)),
            r.metadata.same_except(&self.metadata, MetadataFields::CmPosition),
            r.path == self.path,
            r.fam_path == self.fam_path,
            r.bim_path == self.bim_path,
            r.is_a1_counted == self.is_a1_counted,
            r.num_threads == self.num_threads,
            r.missing_value == self.missing_value,
    {
        let mut r = self;
        r.metadata.cm_position = Some(strings_of(cm_position));
        r
    }

    /// Sets the field's values.
    pub fn bp_position(self, bp_position: &[i32]) -> (r: Self)
        ensures
            opt_ints(r.metadata.bp_position) == Some(bp_position@),
            r.metadata.same_except(&self.metadata, MetadataFields::BpPosition),
            r.path == self.path,
            r.fam_path == self.fam_path,
            r.bim_path == self.bim_path,
            r.is_a1_counted == self.is_a1_counted,
            r.num_threads == self.num_threads,
            r.missing_value == self.missing_value,
    {
        let mut r = self;
        r.metadata.bp_position = Some(ints_of(bp_position));
        r
    }

    /// Sets the field's values.
    pub fn allele_1(self, allele_1: &[&str]) -> (r: Self)
        ensures
            opt_texts(r.metadata.allele_1) == Some(strs_view(allele_1@)),
            r.metadata.same_except(&self.metadata, MetadataFields::Allele1),
            r.path == self.path,
            r.fam_path == self.fam_path,
            r.bim_path == self.bim_path,
            r.is_a1_counted == self.is_a1_counted,
            r.num_threads == self.num_threads,
            r.missing_value == self.missing_value,
    {
        let mut r = self;
        r.metadata.allele_1 = Some(strings_of(allele_1));
        r
    }

    /// Sets the field's values.
    pub fn allele_2(self, allele_2: &[&str]) -> (r: Self)
        ensures
            opt_texts(r.metadata.allele_2) == Some(strs_view(allele_2@)),
            r.metadata.same_except(&self.metadata, MetadataFields::Allele2),
            r.path == self.path,
            r.fam_path == self.fam_path,
            r.bim_path == self.bim_path,
            r.is_a1_counted == self.is_a1_counted,
            r.num_threads == self.num_threads,
            r.missing_value == self.missing_value,
    {
        let mut r = self;
        r.metadata.allele_2 = Some(strings_of(allele_2));
        r
    }
}

impl WriteOptionsBuilder<i8> {
    /// Writes from 8-bit integers.
    pub fn i8(self) -> (r: Self)
        ensures
            r == self,
    {
        self
    }

    /// The options, with -127 as the missing value unless one was set.
    pub fn build(&self, iid_count: usize, sid_count: usize) -> (r: Result<WriteOptions<i8>, BedErrorPlus>)
        requires
            iid_count < usize::MAX,
            sid_count < usize::MAX,
            self.path@.len() < i64::MAX,
        ensures
            match self.metadata.first_mismatch(iid_count as int, sid_count as int) {
                None => r matches Ok(wo) && self.metadata.filled_as(
                    &wo.metadata,
                    iid_count as int,
                    sid_count as int,
                ) && wo.wf(iid_count as int, sid_count as int) && wo.path@ == self.path@
                    && wo.fam_path@ == match self.fam_path {
                    Some(p) => p@,
                    None => with_extension(self.path@, seq!['f', 'a', 'm']),
                } && wo.bim_path@ == match self.bim_path {
                    Some(p) => p@,
                    None => with_extension(self.path@, seq!['b', 'i', 'm']),
                } && wo.num_threads == self.num_threads && wo.missing_value == match self.missing_value {
                    Some(v) => v,
                    None => -127i8,
                } && wo.is_a1_counted == match self.is_a1_counted {
                    Some(b) => b,
                    None => true,
                },
                Some(f) => r matches Err(
                    BedErrorPlus::BedError(BedError::InconsistentCount(name, a, b)),
                ) && name@ == field_name_text(f) && Some(a as int) == self.metadata.len_of(f),
            },
    {
        self.build_with_missing(iid_count, sid_count, -127i8)
    }
}

/// The three outputs of a write: the matrix file's bytes and the lines of the
/// two sidecars.
pub struct EncodedDataset {
    pub bed: Vec<u8>,
    pub fam: Vec<String>,
    pub bim: Vec<String>,
}

/// Encodes a matrix, given as its `sid_count` columns of `iid_count` values, and
/// the sidecars of a write: fails when the matrix's shape disagrees with the
/// options' counts, when the size arithmetic overflows, or on a value that
/// is none of 0, 1, 2 and the missing value.
pub fn encode_dataset(
    columns: &Vec<Vec<i8>>,
    iid_count: usize,
    write_options: &WriteOptions<i8>,
) -> (r: Result<EncodedDataset, BedErrorPlus>)
    requires
        forall|c: int| 0 <= c < columns@.len() ==> (#[trigger] columns@[c])@.len() == iid_count,
        exists|ic: int, sc: int| write_options.wf(ic, sc),
    ensures
        match r {
            Ok(out) => {
                &&& write_options.metadata.len_of(MetadataFields::Iid) == Some(iid_count as int)
                &&& write_options.metadata.len_of(MetadataFields::Sid) == Some(
                    columns@.len() as int,
                )
                &&& matrix_writable(
                    columns_view(columns@),
                    write_options.is_a1_counted,
                    write_options.missing_value,
                )
                &&& written(
                    out.bed@,
                    columns_view(columns@),
                    iid_count as int,
                    write_options.is_a1_counted,
                    write_options.missing_value,
                )
                &&& out.fam@.len() == iid_count
                &&& forall|k: int|
                    0 <= k < out.fam@.len() ==> (#[trigger] out.fam@[k])@ == fam_line(
                        write_options.metadata,
                        k,
                    )
                &&& out.bim@.len() == columns@.len()
                &&& forall|k: int|
                    0 <= k < out.bim@.len() ==> (#[trigger] out.bim@[k])@ == bim_line(
                        write_options.metadata,
                        k,
                    )
            },
            Err(BedErrorPlus::BedError(BedError::InconsistentCount(p, a, b))) => (p@ == seq![
                'i',
                'i',
                'd',
            ] && write_options.metadata.len_of(MetadataFields::Iid) == Some(a as int) && b
                == iid_count && a != b) || (p@ == seq!['s', 'i', 'd']
                && write_options.metadata.len_of(MetadataFields::Iid) == Some(iid_count as int)
                && write_options.metadata.len_of(MetadataFields::Sid) == Some(a as int) && b
                == columns@.len() && a != b),
            Err(BedErrorPlus::BedError(BedError::BadValue(p))) => p@ == write_options.path@
                && !matrix_writable(
                columns_view(columns@),
                write_options.is_a1_counted,
                write_options.missing_value,
            ),
            Err(BedErrorPlus::BedError(BedError::IndexesTooBigForFiles(a, b))) => !fits_in_file(
                iid_count as int,
                columns@.len() as int,
                3,
            ) && a == iid_count && b == columns@.len(),
            Err(_) => false,
        },
{
    proof {
        reveal_strlit("iid");
        reveal_strlit("sid");
        assert("iid"@ =~= seq!['i', 'i', 'd']);
        assert("sid"@ =~= seq!['s', 'i', 'd']);
    }
    let ghost (ic, sc0) = choose|ic: int, sc: int| write_options.wf(ic, sc);
    proof {
        assert(write_options.metadata.len_of(MetadataFields::Iid) == Some(ic));
    }
    let wo_iid = match write_options.metadata.field_count(MetadataFields::Iid) {
        Some(n) => n,
        None => 0,
    };
    if wo_iid != iid_count {
        return Err(
            BedErrorPlus::BedError(BedError::InconsistentCount("iid".to_owned(), wo_iid, iid_count)),
        );
    }
    let wo_sid = match write_options.metadata.field_count(MetadataFields::Sid) {
        Some(n) => n,
        None => 0,
    };
    if wo_sid != columns.len() {
        return Err(
            BedErrorPlus::BedError(
                BedError::InconsistentCount("sid".to_owned(), wo_sid, columns.len()),
            ),
        );
    }
    let bed = write_image(
        &write_options.path,
        columns,
        iid_count,
        write_options.is_a1_counted,
        write_options.missing_value,
    )?;
    proof {
        let sc = sc0;
        let m = write_options.metadata;
        assert forall|i: int| 0 <= i < 6 implies m.len_of(#[trigger] fam_fields()[i]) == Some(
            ic,
        ) by {
            assert(m.len_of(fam_fields()[i]) == Some(
                if Metadata::is_row_field(fam_fields()[i]) { ic } else { sc },
            ));
        }
        assert forall|i: int| 0 <= i < 6 implies m.len_of(#[trigger] bim_fields()[i]) == Some(
            sc,
        ) by {
            assert(m.len_of(bim_fields()[i]) == Some(
                if Metadata::is_row_field(bim_fields()[i]) { ic } else { sc },
            ));
        }
        crate::metadata::lemma_emittable(m, fam_fields(), ic);
        crate::metadata::lemma_emittable(m, bim_fields(), sc);
        assert(m.len_of(MetadataFields::Chromosome) == Some(sc));
        assert(m.len_of(MetadataFields::Sid) == Some(sc));
    }
    let fam = write_options.metadata.fam_lines()?;
    let bim = write_options.metadata.bim_lines()?;
    Ok(EncodedDataset { bed, fam, bim })
}

/// The thread count: the option when given, else the first of the two
/// environment values that is set, parsed; else 0, which lets the pool choose.
pub fn compute_num_threads(
    option_num_threads: Option<usize>,
    bed_reader_num_threads: Option<String>,
    num_threads: Option<String>,
) -> (r: Result<usize, BedErrorPlus>)
    ensures
        match option_num_threads {
            Some(n) => r == Ok::<usize, BedErrorPlus>(n),
            None => match (bed_reader_num_threads, num_threads) {
                (Some(s), _) | (None, Some(s)) => match r {
                    Ok(n) => unsigned_value(s@) == Some(n as int),
                    Err(BedErrorPlus::ParseIntError(_)) => !(unsigned_value(s@) matches Some(v)
                        && v <= usize::MAX),
                    Err(_) => false,
                },
                (None, None) => r == Ok::<usize, BedErrorPlus>(0),
            },
        },
{
    match option_num_threads {
        Some(n) => Ok(n),
        None => {
            let text = match (bed_reader_num_threads, num_threads) {
                (Some(s), _) => s,
                (None, Some(s)) => s,
                (None, None) => {
                    return Ok(0);
                },
            };
            match parse_usize(text.as_str()) {
                Ok(n) => Ok(n),
                Err(e) => Err(BedErrorPlus::ParseIntError(e)),
            }
        },
    }
}

/// The value of an optional '+' followed by decimal digits, if the text is one.
pub open spec fn unsigned_value(s: Seq<char>) -> Option<int> {
    if s.len() > 0 && s[0] == '+' {
        digits_value(s.drop_first())
    } else {
        digits_value(s)
    }
}

/// Relies on `str::parse::<usize>`: an optional '+', then ASCII digits only, and
/// a value in range; anything else is an error.
#[verifier::external_body]
fn parse_usize(s: &str) -> (r: Result<usize, std::num::ParseIntError>)
    ensures
        match r {
            Ok(v) => unsigned_value(s@) == Some(v as int),
            Err(_) => !(unsigned_value(s@) matches Some(v) && v <= usize::MAX),
        },
{
    s.parse::<usize>()
}

/// Checks that an output matrix of `nrows` by `ncols` fits the selections.
pub fn check_shape(iid_len: usize, sid_len: usize, nrows: usize, ncols: usize) -> (r: Result<
    (),
    BedErrorPlus,
>)
    ensures
        (iid_len == nrows && sid_len == ncols) ==> r is Ok,
        !(iid_len == nrows && sid_len == ncols) ==> (r matches Err(
            BedErrorPlus::BedError(BedError::InvalidShape(a, b, c, d)),
        ) && a == iid_len && b == sid_len && c == nrows && d == ncols),
{
    if iid_len != nrows || sid_len != ncols {
        return Err(BedErrorPlus::BedError(BedError::InvalidShape(iid_len, sid_len, nrows, ncols)));
    }
    Ok(())
}

impl<TVal: Copy> WriteOptions<TVal> {
    pub fn path(&self) -> (r: &String)
        ensures
            r == &self.path,
    {
        &self.path
    }

    pub fn fam_path(&self) -> (r: &String)
        ensures
            r == &self.fam_path,
    {
        &self.fam_path
    }

    pub fn bim_path(&self) -> (r: &String)
        ensures
            r == &self.bim_path,
    {
        &self.bim_path
    }

    /// The field's values; every field is present once the options are built.
    pub fn fid(&self) -> (r: &Vec<String>)
        requires
            self.metadata.fid is Some,
        ensures
            Some(*r) == self.metadata.fid,
    {
        self.metadata.fid.as_ref().unwrap()
    }

    /// The field's values; every field is present once the options are built.
    pub fn iid(&self) -> (r: &Vec<String>)
        requires
            self.metadata.iid is Some,
        ensures
            Some(*r) == self.metadata.iid,
    {
        self.metadata.iid.as_ref().unwrap()
    }

    /// The field's values; every field is present once the options are built.
    pub fn father(&self) -> (r: &Vec<String>)
        requires
            self.metadata.father is Some,
        ensures
            Some(*r) == self.metadata.father,
    {
        self.metadata.father.as_ref().unwrap()
    }

    /// The field's values; every field is present once the options are built.
    pub fn mother(&self) -> (r: &Vec<String>)
        requires
            self.metadata.mother is Some,
        ensures
            Some(*r) == self.metadata.mother,
    {
        self.metadata.mother.as_ref().unwrap()
    }

    /// The field's values; every field is present once the options are built.
    pub fn sex(&self) -> (r: &Vec<i32>)
        requires
            self.metadata.sex is Some,
        ensures
            Some(*r) == self.metadata.sex,
    {
        self.metadata.sex.as_ref().unwrap()
    }

    /// The field's values; every field is present once the options are built.
    pub fn pheno(&self) -> (r: &Vec<String>)
        requires
            self.metadata.pheno is Some,
        ensures
            Some(*r) == self.metadata.pheno,
    {
        self.metadata.pheno.as_ref().unwrap()
    }

    /// The field's values; every field is present once the options are built.
    pub fn chromosome(&self) -> (r: &Vec<String>)
        requires
            self.metadata.chromosome is Some,
        ensures
            Some(*r) == self.metadata.chromosome,
    {
        self.metadata.chromosome.as_ref().unwrap()
    }

    /// The field's values; every field is present once the options are built.
    pub fn sid(&self) -> (r: &Vec<String>)
        requires
            self.metadata.sid is Some,
        ensures
            Some(*r) == self.metadata.sid,
    {
        self.metadata.sid.as_ref().unwrap()
    }

    /// The field's values; every field is present once the options are built.
    pub fn cm_position(&self) -> (r: &Vec<String>)
        requires
            self.metadata.cm_position is Some,
        ensures
            Some(*r) == self.metadata.cm_position,
    {
        self.metadata.cm_position.as_ref().unwrap()
    }

    /// The field's values; every field is present once the options are built.
    pub fn bp_position(&self) -> (r: &Vec<i32>)
        requires
            self.metadata.bp_position is Some,
        ensures
            Some(*r) == self.metadata.bp_position,
    {
        self.metadata.bp_position.as_ref().unwrap()
    }

    /// The field's values; every field is present once the options are built.
    pub fn allele_1(&self) -> (r: &Vec<String>)
        requires
            self.metadata.allele_1 is Some,
        ensures
            Some(*r) == self.metadata.allele_1,
    {
        self.metadata.allele_1.as_ref().unwrap()
    }

    /// The field's values; every field is present once the options are built.
    pub fn allele_2(&self) -> (r: &Vec<String>)
        requires
            self.metadata.allele_2 is Some,
        ensures
            Some(*r) == self.metadata.allele_2,
    {
        self.metadata.allele_2.as_ref().unwrap()
    }

    /// The number of rows and of columns.
    pub fn dim(&self) -> (r: (usize, usize))
        requires
            self.metadata.iid is Some,
            self.metadata.sid is Some,
        ensures
            Some(r.0 as int) == self.metadata.len_of(MetadataFields::Iid),
            Some(r.1 as int) == self.metadata.len_of(MetadataFields::Sid),
    {
        (self.iid_count(), self.sid_count())
    }

    /// A copy of the metadata.
    pub fn metadata(&self) -> (r: Metadata)
        ensures
            r.same_as(&self.metadata),
    {
        self.metadata.copy()
    }
}

impl<TVal: Copy> ReadOptions<TVal> {
    pub fn missing_value(&self) -> (r: TVal)
        ensures
            r == self.missing_value,
    {
        self.missing_value
    }

    pub fn iid_index(&self) -> (r: &Index)
        ensures
            r == &self.iid_index,
    {
        &self.iid_index
    }

    pub fn sid_index(&self) -> (r: &Index)
        ensures
            r == &self.sid_index,
    {
        &self.sid_index
    }

    pub fn is_f(&self) -> (r: bool)
        ensures
            r == self.is_f,
    {
        self.is_f
    }

    pub fn is_a1_counted(&self) -> (r: bool)
        ensures
            r == self.is_a1_counted,
    {
        self.is_a1_counted
    }

    pub fn num_threads(&self) -> (r: Option<usize>)
        ensures
            r == self.num_threads,
    {
        self.num_threads
    }
}

} // verus!
