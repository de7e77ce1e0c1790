use vstd::prelude::*;
use vstd::string::*;
use crate::error::{BedError, BedErrorPlus};
use crate::text::{
    decimal, is_i32_text, numbered, parse_i32, push_signed_decimal, signed_decimal, signed_value,
    split_whitespace, split_ws, texts,
};

verus! {

/// The twelve fields of the two sidecar files.
#[derive(Debug, PartialEq, Eq, Structural, Copy, Clone, Hash, PartialOrd, Ord)]
pub enum MetadataFields {
    Fid,
    Iid,
    Father,
    Mother,
    Sex,
    Pheno,
    Chromosome,
    Sid,
    CmPosition,
    BpPosition,
    Allele1,
    Allele2,
}

/// The name of a field, as error messages give it.
pub open spec fn field_name_text(f: MetadataFields) -> Seq<char> {
    match f {
        MetadataFields::Fid => seq!['f', 'i', 'd'],
        MetadataFields::Iid => seq!['i', 'i', 'd'],
        MetadataFields::Father => seq!['f', 'a', 't', 'h', 'e', 'r'],
        MetadataFields::Mother => seq!['m', 'o', 't', 'h', 'e', 'r'],
        MetadataFields::Sex => seq!['s', 'e', 'x'],
        MetadataFields::Pheno => seq!['p', 'h', 'e', 'n', 'o'],
        MetadataFields::Chromosome => seq!['c', 'h', 'r', 'o', 'm', 'o', 's', 'o', 'm', 'e'],
        MetadataFields::Sid => seq!['s', 'i', 'd'],
        MetadataFields::CmPosition => seq!['c', 'm', '_', 'p', 'o', 's', 'i', 't', 'i', 'o', 'n'],
        MetadataFields::BpPosition => seq!['b', 'p', '_', 'p', 'o', 's', 'i', 't', 'i', 'o', 'n'],
        MetadataFields::Allele1 => seq!['a', 'l', 'l', 'e', 'l', 'e', '_', '1'],
        MetadataFields::Allele2 => seq!['a', 'l', 'l', 'e', 'l', 'e', '_', '2'],
    }
}

/// The name of a field.
pub fn field_name(f: MetadataFields) -> (r: String)
    ensures
        r@ == field_name_text(f),
{
    let s = match f {
        MetadataFields::Fid => "fid",
        MetadataFields::Iid => "iid",
        MetadataFields::Father => "father",
        MetadataFields::Mother => "mother",
        MetadataFields::Sex => "sex",
        MetadataFields::Pheno => "pheno",
        MetadataFields::Chromosome => "chromosome",
        MetadataFields::Sid => "sid",
        MetadataFields::CmPosition => "cm_position",
        MetadataFields::BpPosition => "bp_position",
        MetadataFields::Allele1 => "allele_1",
        MetadataFields::Allele2 => "allele_2",
    };
    proof {
        reveal_strlit("fid");
        reveal_strlit("iid");
        reveal_strlit("father");
        reveal_strlit("mother");
        reveal_strlit("sex");
        reveal_strlit("pheno");
        reveal_strlit("chromosome");
        reveal_strlit("sid");
        reveal_strlit("cm_position");
        reveal_strlit("bp_position");
        reveal_strlit("allele_1");
        reveal_strlit("allele_2");
        assert(s@ =~= field_name_text(f));
    }
    s.to_owned()
}

/// The values of the sidecar fields; each is absent until read or set.
/// `cm_position` holds the text of each position.
#[derive(Debug, Clone)]
pub struct Metadata {
    pub fid: Option<Vec<String>>,
    pub iid: Option<Vec<String>>,
    pub father: Option<Vec<String>>,
    pub mother: Option<Vec<String>>,
    pub sex: Option<Vec<i32>>,
    pub pheno: Option<Vec<String>>,
    pub chromosome: Option<Vec<String>>,
    pub sid: Option<Vec<String>>,
    pub cm_position: Option<Vec<String>>,
    pub bp_position: Option<Vec<i32>>,
    pub allele_1: Option<Vec<String>>,
    pub allele_2: Option<Vec<String>>,
}

/// The texts of a field of strings, if present.
pub open spec fn opt_texts(o: Option<Vec<String>>) -> Option<Seq<Seq<char>>> {
    match o {
        Some(v) => Some(texts(v@)),
        None => None,
    }
}

/// The values of a field of integers, if present.
pub open spec fn opt_ints(o: Option<Vec<i32>>) -> Option<Seq<i32>> {
    match o {
        Some(v) => Some(v@),
        None => None,
    }
}

/// The length of a field, if present.
pub open spec fn opt_len<T>(o: Option<Vec<T>>) -> Option<int> {
    match o {
        Some(v) => Some(v@.len() as int),
        None => None,
    }
}

/// A copy of a list of strings.
pub fn copy_strings(v: &Vec<String>) -> (r: Vec<String>)
    ensures
        texts(r@) == texts(v@),
{
    let mut r: Vec<String> = Vec::new();
    let mut i: usize = 0;
    while i < v.len()
        invariant
            i <= v@.len(),
            texts(r@) == texts(v@.subrange(0, i as int)),
        decreases v@.len() - i,
    {
        let ghost old = r@;
        let s = v[i].clone();
        r.push(s);
        proof {
            assert(s@ == v@[i as int]@);
            assert(texts(r@) =~= texts(old).push(s@));
            assert(v@.subrange(0, i + 1) =~= v@.subrange(0, i as int).push(v@[i as int]));
            assert(texts(v@.subrange(0, i + 1)) =~= texts(v@.subrange(0, i as int)).push(
                v@[i as int]@,
            ));
        }
        i = i + 1;
    }
    proof {
        assert(v@.subrange(0, v@.len() as int) =~= v@);
    }
    r
}

/// A copy of a field of strings.
pub fn copy_opt_strings(o: &Option<Vec<String>>) -> (r: Option<Vec<String>>)
    ensures
        opt_texts(r) == opt_texts(*o),
{
    match o {
        Some(v) => Some(copy_strings(v)),
        None => None,
    }
}

/// A copy of a list of integers.
pub fn copy_ints(v: &Vec<i32>) -> (r: Vec<i32>)
    ensures
        r@ == v@,
{
    let mut r: Vec<i32> = Vec::new();
    let mut i: usize = 0;
    while i < v.len()
        invariant
            i <= v@.len(),
            r@ == v@.subrange(0, i as int),
        decreases v@.len() - i,
    {
        r.push(v[i]);
        proof {
            assert(r@ =~= v@.subrange(0, i + 1));
        }
        i = i + 1;
    }
    proof {
        assert(v@.subrange(0, v@.len() as int) =~= v@);
    }
    r
}

/// A copy of a field of integers.
pub fn copy_opt_ints(o: &Option<Vec<i32>>) -> (r: Option<Vec<i32>>)
    ensures
        opt_ints(r) == opt_ints(*o),
{
    match o {
        Some(v) => Some(copy_ints(v)),
        None => None,
    }
}

/// The number of values of a field, if present.
pub fn lazy_or_skip_count<T>(array: &Option<Vec<T>>) -> (r: Option<usize>)
    ensures
        match r {
            Some(n) => opt_len(*array) == Some(n as int),
            None => opt_len(*array) is None,
        },
{
    match array {
        Some(array) => Some(array.len()),
        None => None,
    }
}

/// Folds present counts into an expected count: the first present count sets it
/// when unknown; a present count that differs gives the pair that disagrees.
pub open spec fn fold_counts(counts: Seq<Option<usize>>, init: Option<usize>) -> Result<
    Option<usize>,
    (usize, usize),
>
    decreases counts.len(),
{
    if counts.len() == 0 {
        Ok(init)
    } else {
        match fold_counts(counts.drop_last(), init) {
            Err(e) => Err(e),
            Ok(cur) => match counts.last() {
                None => Ok(cur),
                Some(c) => match cur {
                    None => Ok(Some(c)),
                    Some(x) => if x == c {
                        Ok(Some(x))
                    } else {
                        Err((x, c))
                    },
                },
            },
        }
    }
}

/// Checks that every present count agrees with the expected count, setting the
/// expected count from the first present one when it is unknown.
pub fn check_counts(count_vec: Vec<Option<usize>>, option_xid_count: &mut Option<usize>, prefix: &str) -> (r: Result<(), BedErrorPlus>)
    ensures
        match fold_counts(count_vec@, *old(option_xid_count)) {
            Ok(v) => r is Ok && *final(option_xid_count) == v,
            Err((x, c)) => r matches Err(
                BedErrorPlus::BedError(BedError::InconsistentCount(p, a, b)),
            ) && p@ == prefix@ && a == x && b == c && *final(option_xid_count) == Some(x),
        },
{
    let ghost init = *option_xid_count;
    let mut i: usize = 0;
    while i < count_vec.len()
        invariant
            i <= count_vec@.len(),
            init == *old(option_xid_count),
            fold_counts(count_vec@.subrange(0, i as int), init) == Ok::<
                Option<usize>,
                (usize, usize),
            >(*option_xid_count),
        decreases count_vec@.len() - i,
    {
        proof {
            assert(count_vec@.subrange(0, i + 1).drop_last() =~= count_vec@.subrange(0, i as int));
        }
        if let Some(count) = count_vec[i] {
            match *option_xid_count {
                Some(xid_count) => {
                    if xid_count != count {
                        proof {
                            assert(count_vec@.subrange(0, i + 1).last() == count_vec@[i as int]);
                            assert(fold_counts(count_vec@.subrange(0, i + 1), init) == Err::<
                                Option<usize>,
                                (usize, usize),
                            >((xid_count, count)));
                            lemma_fold_counts_err_prefix(count_vec@, init, i as int, count_vec@.len() as int);
                            assert(count_vec@.subrange(0, count_vec@.len() as int) =~= count_vec@);
                            assert(fold_counts(count_vec@, init) == Err::<
                                Option<usize>,
                                (usize, usize),
                            >((xid_count, count)));
                            assert(init == *old(option_xid_count));
                        }
                        return Err(
                            BedErrorPlus::BedError(
                                BedError::InconsistentCount(prefix.to_owned(), xid_count, count),
                            ),
                        );
                    }
                },
                None => {
                    *option_xid_count = Some(count);
                },
            }
        }
        i = i + 1;
    }
    proof {
        assert(count_vec@.subrange(0, count_vec@.len() as int) =~= count_vec@);
    }
    Ok(())
}

proof fn lemma_fold_counts_err_prefix(counts: Seq<Option<usize>>, init: Option<usize>, i: int, n: int)
    requires
        0 <= i < n <= counts.len(),
        fold_counts(counts.subrange(0, i + 1), init) is Err,
    ensures
        fold_counts(counts.subrange(0, n), init) == fold_counts(counts.subrange(0, i + 1), init),
    decreases n,
{
    if n > i + 1 {
        lemma_fold_counts_err_prefix(counts, init, i, n - 1);
        assert(counts.subrange(0, n).drop_last() =~= counts.subrange(0, n - 1));
    }
}

/// `count` copies of one text.
pub open spec fn same_texts(count: int, t: Seq<char>) -> Seq<Seq<char>> {
    Seq::new(count as nat, |i: int| t)
}

/// `prefix1, prefix2, ...`, `count` of them.
pub open spec fn numbered_texts(count: int, prefix: Seq<char>) -> Seq<Seq<char>> {
    Seq::new(count as nat, |i: int| prefix + decimal((i + 1) as nat))
}

fn repeat_text(count: usize, t: &str) -> (r: Vec<String>)
    ensures
        texts(r@) == same_texts(count as int, t@),
{
    let mut r: Vec<String> = Vec::new();
    let mut i: usize = 0;
    while i < count
        invariant
            i <= count,
            texts(r@) =~= same_texts(i as int, t@),
        decreases count - i,
    {
        let ghost old = r@;
        r.push(t.to_owned());
        proof {
            assert(texts(r@) =~= texts(old).push(t@));
        }
        i = i + 1;
    }
    r
}

fn numbered_list(count: usize, prefix: &str) -> (r: Vec<String>)
    requires
        count < usize::MAX,
    ensures
        texts(r@) == numbered_texts(count as int, prefix@),
{
    let mut r: Vec<String> = Vec::new();
    let mut i: usize = 0;
    while i < count
        invariant
            i <= count < usize::MAX,
            texts(r@) =~= numbered_texts(i as int, prefix@),
        decreases count - i,
    {
        let ghost old = r@;
        let s = numbered(prefix, i + 1);
        r.push(s);
        proof {
            assert(texts(r@) =~= texts(old).push(s@));
        }
        i = i + 1;
    }
    r
}

fn zeros(count: usize) -> (r: Vec<i32>)
    ensures
        r@ == Seq::new(count as nat, |i: int| 0i32),
{
    let mut r: Vec<i32> = Vec::new();
    let mut i: usize = 0;
    while i < count
        invariant
            i <= count,
            r@ =~= Seq::new(i as nat, |k: int| 0i32),
        decreases count - i,
    {
        r.push(0);
        i = i + 1;
    }
    r
}

/// Whether a present field disagrees with `count`.
pub open spec fn disagrees(len: Option<int>, count: int) -> bool {
    len matches Some(n) && n != count
}

impl Metadata {
    /// The length of a field, if present.
    pub open spec fn len_of(&self, f: MetadataFields) -> Option<int> {
        match f {
            MetadataFields::Fid => opt_len(self.fid),
            MetadataFields::Iid => opt_len(self.iid),
            MetadataFields::Father => opt_len(self.father),
            MetadataFields::Mother => opt_len(self.mother),
            MetadataFields::Sex => opt_len(self.sex),
            MetadataFields::Pheno => opt_len(self.pheno),
            MetadataFields::Chromosome => opt_len(self.chromosome),
            MetadataFields::Sid => opt_len(self.sid),
            MetadataFields::CmPosition => opt_len(self.cm_position),
            MetadataFields::BpPosition => opt_len(self.bp_position),
            MetadataFields::Allele1 => opt_len(self.allele_1),
            MetadataFields::Allele2 => opt_len(self.allele_2),
        }
    }

    /// Whether a field belongs to the row sidecar.
    pub open spec fn is_row_field(f: MetadataFields) -> bool {
        f == MetadataFields::Fid || f == MetadataFields::Iid || f == MetadataFields::Father || f
            == MetadataFields::Mother || f == MetadataFields::Sex || f == MetadataFields::Pheno
    }

    /// The first field, in sidecar order, whose length disagrees with its count.
    pub open spec fn first_mismatch(&self, iid_count: int, sid_count: int) -> Option<MetadataFields> {
        if disagrees(self.len_of(MetadataFields::Fid), iid_count) {
            Some(MetadataFields::Fid)
        } else if disagrees(self.len_of(MetadataFields::Iid), iid_count) {
            Some(MetadataFields::Iid)
        } else if disagrees(self.len_of(MetadataFields::Father), iid_count) {
            Some(MetadataFields::Father)
        } else if disagrees(self.len_of(MetadataFields::Mother), iid_count) {
            Some(MetadataFields::Mother)
        } else if disagrees(self.len_of(MetadataFields::Sex), iid_count) {
            Some(MetadataFields::Sex)
        } else if disagrees(self.len_of(MetadataFields::Pheno), iid_count) {
            Some(MetadataFields::Pheno)
        } else if disagrees(self.len_of(MetadataFields::Chromosome), sid_count) {
            Some(MetadataFields::Chromosome)
        } else if disagrees(self.len_of(MetadataFields::Sid), sid_count) {
            Some(MetadataFields::Sid)
        } else if disagrees(self.len_of(MetadataFields::CmPosition), sid_count) {
            Some(MetadataFields::CmPosition)
        } else if disagrees(self.len_of(MetadataFields::BpPosition), sid_count) {
            Some(MetadataFields::BpPosition)
        } else if disagrees(self.len_of(MetadataFields::Allele1), sid_count) {
            Some(MetadataFields::Allele1)
        } else if disagrees(self.len_of(MetadataFields::Allele2), sid_count) {
            Some(MetadataFields::Allele2)
        } else {
            None
        }
    }

    /// Metadata with every field absent.
    pub fn new() -> (r: Metadata)
        ensures
            forall|f: MetadataFields| r.len_of(f) is None,
    {
        Metadata {
            fid: None,
            iid: None,
            father: None,
            mother: None,
            sex: None,
            pheno: None,
            chromosome: None,
            sid: None,
            cm_position: None,
            bp_position: None,
            allele_1: None,
            allele_2: None,
        }
    }

    /// A copy whose fields hold the same values.
    pub fn copy(&self) -> (r: Metadata)
        ensures
            r.same_as(self),
    {
        Metadata {
            fid: copy_opt_strings(&self.fid),
            iid: copy_opt_strings(&self.iid),
            father: copy_opt_strings(&self.father),
            mother: copy_opt_strings(&self.mother),
            sex: copy_opt_ints(&self.sex),
            pheno: copy_opt_strings(&self.pheno),
            chromosome: copy_opt_strings(&self.chromosome),
            sid: copy_opt_strings(&self.sid),
            cm_position: copy_opt_strings(&self.cm_position),
            bp_position: copy_opt_ints(&self.bp_position),
            allele_1: copy_opt_strings(&self.allele_1),
            allele_2: copy_opt_strings(&self.allele_2),
        }
    }

    /// Whether two bundles hold the same values in every field.
    pub open spec fn same_as(&self, o: &Metadata) -> bool {
        &&& opt_texts(self.fid) == opt_texts(o.fid)
        &&& opt_texts(self.iid) == opt_texts(o.iid)
        &&& opt_texts(self.father) == opt_texts(o.father)
        &&& opt_texts(self.mother) == opt_texts(o.mother)
        &&& opt_ints(self.sex) == opt_ints(o.sex)
        &&& opt_texts(self.pheno) == opt_texts(o.pheno)
        &&& opt_texts(self.chromosome) == opt_texts(o.chromosome)
        &&& opt_texts(self.sid) == opt_texts(o.sid)
        &&& opt_texts(self.cm_position) == opt_texts(o.cm_position)
        &&& opt_ints(self.bp_position) == opt_ints(o.bp_position)
        &&& opt_texts(self.allele_1) == opt_texts(o.allele_1)
        &&& opt_texts(self.allele_2) == opt_texts(o.allele_2)
    }

    /// What `fill` gives: each present field kept, each absent one given its
    /// conventional default.
    pub open spec fn filled_as(&self, m: &Metadata, iid_count: int, sid_count: int) -> bool {
        let zero = seq!['0'];
        &&& opt_texts(m.fid) == Some(
            if self.fid is Some { texts(self.fid->Some_0@) } else { same_texts(iid_count, zero) },
        )
        &&& opt_texts(m.iid) == Some(
            if self.iid is Some {
                texts(self.iid->Some_0@)
            } else {
                numbered_texts(iid_count, seq!['i', 'i', 'd'])
            },
        )
        &&& opt_texts(m.father) == Some(
            if self.father is Some {
                texts(self.father->Some_0@)
            } else {
                same_texts(iid_count, zero)
            },
        )
        &&& opt_texts(m.mother) == Some(
            if self.mother is Some {
                texts(self.mother->Some_0@)
            } else {
                same_texts(iid_count, zero)
            },
        )
        &&& opt_ints(m.sex) == Some(
            if self.sex is Some {
                self.sex->Some_0@
            } else {
                Seq::new(iid_count as nat, |i: int| 0i32)
            },
        )
        &&& opt_texts(m.pheno) == Some(
            if self.pheno is Some { texts(self.pheno->Some_0@) } else { same_texts(iid_count, zero) },
        )
        &&& opt_texts(m.chromosome) == Some(
            if self.chromosome is Some {
                texts(self.chromosome->Some_0@)
            } else {
                same_texts(sid_count, zero)
            },
        )
        &&& opt_texts(m.sid) == Some(
            if self.sid is Some {
                texts(self.sid->Some_0@)
            } else {
                numbered_texts(sid_count, seq!['s', 'i', 'd'])
            },
        )
        &&& opt_texts(m.cm_position) == Some(
            if self.cm_position is Some {
                texts(self.cm_position->Some_0@)
            } else {
                same_texts(sid_count, zero)
            },
        )
        &&& opt_ints(m.bp_position) == Some(
            if self.bp_position is Some {
                self.bp_position->Some_0@
            } else {
                Seq::new(sid_count as nat, |i: int| 0i32)
            },
        )
        &&& opt_texts(m.allele_1) == Some(
            if self.allele_1 is Some {
                texts(self.allele_1->Some_0@)
            } else {
                same_texts(sid_count, seq!['A', '1'])
            },
        )
        &&& opt_texts(m.allele_2) == Some(
            if self.allele_2 is Some {
                texts(self.allele_2->Some_0@)
            } else {
                same_texts(sid_count, seq!['A', '2'])
            },
        )
    }

    /// Gives every absent field its conventional default: "0" for the ids,
    /// sex, phenotype, chromosome and positions, "iid1", "iid2", ... for the
    /// individual ids, "sid1", "sid2", ... for the variant ids, "A1" and "A2" for
    /// the alleles. Fails on the first present field whose length disagrees with
    /// its count.
    pub fn fill(&self, iid_count: usize, sid_count: usize) -> (r: Result<Metadata, BedErrorPlus>)
        requires
            iid_count < usize::MAX,
            sid_count < usize::MAX,
        ensures
            match self.first_mismatch(iid_count as int, sid_count as int) {
                None => r matches Ok(m) && self.filled_as(&m, iid_count as int, sid_count as int),
                Some(f) => r matches Err(
                    BedErrorPlus::BedError(BedError::InconsistentCount(name, a, b)),
                ) && name@ == field_name_text(f) && Some(a as int) == self.len_of(f) && b == if Self::is_row_field(f) {
                    iid_count
                } else {
                    sid_count
                },
            },
    {
        proof {
            reveal_strlit("0");
            reveal_strlit("iid");
            reveal_strlit("sid");
            reveal_strlit("A1");
            reveal_strlit("A2");
        }
        let fid = fill_strings(&self.fid, MetadataFields::Fid, iid_count, "0", false)?;
        let iid = fill_strings(&self.iid, MetadataFields::Iid, iid_count, "iid", true)?;
        let father = fill_strings(&self.father, MetadataFields::Father, iid_count, "0", false)?;
        let mother = fill_strings(&self.mother, MetadataFields::Mother, iid_count, "0", false)?;
        let sex = fill_ints(&self.sex, MetadataFields::Sex, iid_count)?;
        let pheno = fill_strings(&self.pheno, MetadataFields::Pheno, iid_count, "0", false)?;
        let chromosome = fill_strings(
            &self.chromosome,
            MetadataFields::Chromosome,
            sid_count,
            "0",
            false,
        )?;
        let sid = fill_strings(&self.sid, MetadataFields::Sid, sid_count, "sid", true)?;
        let cm_position = fill_strings(
            &self.cm_position,
            MetadataFields::CmPosition,
            sid_count,
            "0",
            false,
        )?;
        let bp_position = fill_ints(&self.bp_position, MetadataFields::BpPosition, sid_count)?;
        let allele_1 = fill_strings(&self.allele_1, MetadataFields::Allele1, sid_count, "A1", false)?;
        let allele_2 = fill_strings(&self.allele_2, MetadataFields::Allele2, sid_count, "A2", false)?;
        proof {
            assert("0"@ =~= seq!['0']);
            assert("iid"@ =~= seq!['i', 'i', 'd']);
            assert("sid"@ =~= seq!['s', 'i', 'd']);
            assert("A1"@ =~= seq!['A', '1']);
            assert("A2"@ =~= seq!['A', '2']);
        }
        let m = Metadata {
            fid: Some(fid),
            iid: Some(iid),
            father: Some(father),
            mother: Some(mother),
            sex: Some(sex),
            pheno: Some(pheno),
            chromosome: Some(chromosome),
            sid: Some(sid),
            cm_position: Some(cm_position),
            bp_position: Some(bp_position),
            allele_1: Some(allele_1),
            allele_2: Some(allele_2),
        };
        Ok(m)
    }
}

/// A field of strings kept, or given its default when absent.
fn fill_strings(
    field: &Option<Vec<String>>,
    f: MetadataFields,
    count: usize,
    text: &str,
    is_numbered: bool,
) -> (r: Result<Vec<String>, BedErrorPlus>)
    requires
        count < usize::MAX,
    ensures
        match r {
            Ok(v) => !disagrees(opt_len(*field), count as int) && texts(v@) == match field {
                Some(w) => texts(w@),
                None => if is_numbered {
                    numbered_texts(count as int, text@)
                } else {
                    same_texts(count as int, text@)
                },
            },
            Err(BedErrorPlus::BedError(BedError::InconsistentCount(name, a, b))) => disagrees(
                opt_len(*field),
                count as int,
            ) && name@ == field_name_text(f) && opt_len(*field) == Some(a as int) && b == count,
            Err(_) => false,
        },
{
    match field {
        Some(v) => {
            if v.len() != count {
                return Err(
                    BedErrorPlus::BedError(BedError::InconsistentCount(field_name(f), v.len(), count)),
                );
            }
            Ok(copy_strings(v))
        },
        None => {
            if is_numbered {
                Ok(numbered_list(count, text))
            } else {
                Ok(repeat_text(count, text))
            }
        },
    }
}

/// A field of integers kept, or given zeros when absent.
fn fill_ints(field: &Option<Vec<i32>>, f: MetadataFields, count: usize) -> (r: Result<
    Vec<i32>,
    BedErrorPlus,
>)
    ensures
        match r {
            Ok(v) => !disagrees(opt_len(*field), count as int) && v@ == match field {
                Some(w) => w@,
                None => Seq::new(count as nat, |i: int| 0i32),
            },
            Err(BedErrorPlus::BedError(BedError::InconsistentCount(name, a, b))) => disagrees(
                opt_len(*field),
                count as int,
            ) && name@ == field_name_text(f) && opt_len(*field) == Some(a as int) && b == count,
            Err(_) => false,
        },
{
    match field {
        Some(v) => {
            if v.len() != count {
                return Err(
                    BedErrorPlus::BedError(BedError::InconsistentCount(field_name(f), v.len(), count)),
                );
            }
            Ok(copy_ints(v))
        },
        None => Ok(zeros(count)),
    }
}

/// The fields of each line.
pub open spec fn line_fields(lines: Seq<String>) -> Seq<Seq<Seq<char>>> {
    lines.map_values(|l: String| split_ws(l@))
}

/// The first line that does not hold exactly six fields.
pub open spec fn first_bad_line(rows: Seq<Seq<Seq<char>>>) -> Option<int>
    decreases rows.len(),
{
    if rows.len() == 0 {
        None
    } else {
        match first_bad_line(rows.drop_last()) {
            Some(k) => Some(k),
            None => if rows.last().len() == 6 {
                None
            } else {
                Some(rows.len() - 1)
            },
        }
    }
}

/// Field `i` of every line.
pub open spec fn column_of(rows: Seq<Seq<Seq<char>>>, i: int) -> Seq<Seq<char>> {
    Seq::new(rows.len(), |k: int| rows[k][i])
}

/// Whether every text of a column is a 32-bit integer.
pub open spec fn all_i32(col: Seq<Seq<char>>) -> bool {
    forall|k: int| 0 <= k < col.len() ==> is_i32_text(#[trigger] col[k])
}

/// A field of strings after a parse: the column when it was wanted, else as it was.
pub open spec fn parsed_strings(
    before: Option<Vec<String>>,
    after: Option<Vec<String>>,
    wanted: bool,
    col: Seq<Seq<char>>,
) -> bool {
    if wanted {
        opt_texts(after) == Some(col)
    } else {
        opt_texts(after) == opt_texts(before)
    }
}

/// A field of integers after a parse: the column's values when it was wanted,
/// else as it was.
pub open spec fn parsed_ints(
    before: Option<Vec<i32>>,
    after: Option<Vec<i32>>,
    wanted: bool,
    col: Seq<Seq<char>>,
) -> bool {
    if wanted {
        after matches Some(v) && v@.len() == col.len() && forall|k: int|
            0 <= k < col.len() ==> signed_value(#[trigger] col[k]) == Some(v@[k] as int)
    } else {
        opt_ints(after) == opt_ints(before)
    }
}

proof fn lemma_first_bad_line_step(rows: Seq<Seq<Seq<char>>>, i: int)
    requires
        0 <= i < rows.len(),
        first_bad_line(rows.subrange(0, i)) is None,
    ensures
        first_bad_line(rows.subrange(0, i + 1)) == if rows[i].len() == 6 {
            None::<int>
        } else {
            Some(i)
        },
{
    assert(rows.subrange(0, i + 1).drop_last() =~= rows.subrange(0, i));
}

proof fn lemma_first_bad_line_prefix(rows: Seq<Seq<Seq<char>>>, i: int, n: int)
    requires
        0 <= i < n <= rows.len(),
        first_bad_line(rows.subrange(0, i + 1)) == Some(i),
    ensures
        first_bad_line(rows.subrange(0, n)) == Some(i),
    decreases n,
{
    if n > i + 1 {
        lemma_first_bad_line_prefix(rows, i, n - 1);
        assert(rows.subrange(0, n).drop_last() =~= rows.subrange(0, n - 1));
    }
}

/// Splits each line into its fields; fails on the first line that does not hold
/// exactly six.
pub fn split_lines(lines: &Vec<String>, path: &String) -> (r: Result<Vec<Vec<String>>, BedErrorPlus>)
    ensures
        match first_bad_line(line_fields(lines@)) {
            Some(k) => r matches Err(
                BedErrorPlus::BedError(BedError::MetadataFieldCount(six, n, p)),
            ) && six == 6 && n == line_fields(lines@)[k].len() && p@ == path@,
            None => r matches Ok(rows) && rows@.len() == lines@.len() && forall|k: int|
                0 <= k < rows@.len() ==> texts(#[trigger] rows@[k]@) == line_fields(lines@)[k],
        },
{
    let ghost all = line_fields(lines@);
    let mut rows: Vec<Vec<String>> = Vec::new();
    let mut i: usize = 0;
    while i < lines.len()
        invariant
            i <= lines@.len(),
            all == line_fields(lines@),
            rows@.len() == i,
            first_bad_line(all.subrange(0, i as int)) is None,
            forall|k: int| 0 <= k < i ==> texts(#[trigger] rows@[k]@) == all[k],
        decreases lines@.len() - i,
    {
        let fields = split_whitespace(lines[i].as_str());
        proof {
            lemma_first_bad_line_step(all, i as int);
        }
        if fields.len() != 6 {
            proof {
                lemma_first_bad_line_prefix(all, i as int, all.len() as int);
                assert(all.subrange(0, all.len() as int) =~= all);
            }
            return Err(
                BedErrorPlus::BedError(BedError::MetadataFieldCount(6, fields.len(), path.clone())),
            );
        }
        rows.push(fields);
        i = i + 1;
    }
    proof {
        assert(all.subrange(0, all.len() as int) =~= all);
    }
    Ok(rows)
}

/// Field `i` of every row.
fn column(rows: &Vec<Vec<String>>, i: usize) -> (r: Vec<String>)
    requires
        i < 6,
        forall|k: int| 0 <= k < rows@.len() ==> (#[trigger] rows@[k])@.len() == 6,
    ensures
        texts(r@) == Seq::new(rows@.len(), |k: int| texts(rows@[k]@)[i as int]),
{
    let mut r: Vec<String> = Vec::new();
    let mut k: usize = 0;
    while k < rows.len()
        invariant
            i < 6,
            k <= rows@.len(),
            forall|j: int| 0 <= j < rows@.len() ==> (#[trigger] rows@[j])@.len() == 6,
            texts(r@) =~= Seq::new(k as nat, |j: int| texts(rows@[j]@)[i as int]),
        decreases rows@.len() - k,
    {
        let ghost old = r@;
        let s = rows[k][i].clone();
        r.push(s);
        proof {
            assert(texts(r@) =~= texts(old).push(s@));
        }
        k = k + 1;
    }
    r
}

/// The integers that a column of texts holds; fails on the first that is not one.
fn parse_column(col: &Vec<String>) -> (r: Result<Vec<i32>, BedErrorPlus>)
    ensures
        match r {
            Ok(v) => all_i32(texts(col@)) && v@.len() == col@.len() && forall|k: int|
                0 <= k < col@.len() ==> signed_value(#[trigger] texts(col@)[k]) == Some(
                    v@[k] as int,
                ),
            Err(BedErrorPlus::ParseIntError(_)) => !all_i32(texts(col@)),
            Err(_) => false,
        },
{
    let mut v: Vec<i32> = Vec::new();
    let mut k: usize = 0;
    while k < col.len()
        invariant
            k <= col@.len(),
            v@.len() == k,
            forall|j: int| 0 <= j < k ==> is_i32_text(#[trigger] texts(col@)[j]),
            forall|j: int|
                0 <= j < k ==> signed_value(#[trigger] texts(col@)[j]) == Some(v@[j] as int),
        decreases col@.len() - k,
    {
        match parse_i32(col[k].as_str()) {
            Ok(x) => {
                v.push(x);
            },
            Err(e) => {
                proof {
                    assert(!is_i32_text(texts(col@)[k as int]));
                }
                return Err(BedErrorPlus::ParseIntError(e));
            },
        }
        k = k + 1;
    }
    Ok(v)
}

/// Whether a field is in the skip set.
pub fn skips(skip_set: &Vec<MetadataFields>, f: MetadataFields) -> (r: bool)
    ensures
        r == skip_set@.contains(f),
{
    let mut i: usize = 0;
    while i < skip_set.len()
        invariant
            i <= skip_set@.len(),
            forall|j: int| 0 <= j < i ==> skip_set@[j] != f,
        decreases skip_set@.len() - i,
    {
        if skip_set[i] == f {
            return true;
        }
        i = i + 1;
    }
    false
}

impl Metadata {
    /// Whether a parse fills a field: it is absent and not skipped.
    pub open spec fn wants(&self, skip_set: Seq<MetadataFields>, f: MetadataFields) -> bool {
        self.len_of(f) is None && !skip_set.contains(f)
    }

    /// What parsing the lines of a row sidecar gives: each wanted row field
    /// holds its column of the lines, every other field is kept.
    pub open spec fn fam_parsed(&self, m: Metadata, lines: Seq<String>, skip_set: Seq<MetadataFields>) -> bool {
                    let rows = line_fields(lines);
                    let w = |f: MetadataFields| self.wants(skip_set, f);
                    parsed_strings(
                        self.fid,
                        m.fid,
                        w(MetadataFields::Fid),
                        column_of(rows, 0),
                    ) && parsed_strings(self.iid, m.iid, w(MetadataFields::Iid), column_of(rows, 1))
                        && parsed_strings(
                        self.father,
                        m.father,
                        w(MetadataFields::Father),
                        column_of(rows, 2),
                    ) && parsed_strings(
                        self.mother,
                        m.mother,
                        w(MetadataFields::Mother),
                        column_of(rows, 3),
                    ) && parsed_ints(self.sex, m.sex, w(MetadataFields::Sex), column_of(rows, 4))
                        && parsed_strings(
                        self.pheno,
                        m.pheno,
                        w(MetadataFields::Pheno),
                        column_of(rows, 5),
                    ) && opt_texts(m.chromosome) == opt_texts(self.chromosome) && opt_texts(m.sid)
                        == opt_texts(self.sid) && opt_texts(m.cm_position) == opt_texts(
                        self.cm_position,
                    ) && opt_ints(m.bp_position) == opt_ints(self.bp_position) && opt_texts(
                        m.allele_1,
                    ) == opt_texts(self.allele_1) && opt_texts(m.allele_2) == opt_texts(
                        self.allele_2,
                    )
    }

    /// What parsing the lines of a column sidecar gives: each wanted column
    /// field holds its column of the lines, every other field is kept.
    pub open spec fn bim_parsed(&self, m: Metadata, lines: Seq<String>, skip_set: Seq<MetadataFields>) -> bool {
                    let rows = line_fields(lines);
                    let w = |f: MetadataFields| self.wants(skip_set, f);
                    parsed_strings(
                        self.chromosome,
                        m.chromosome,
                        w(MetadataFields::Chromosome),
                        column_of(rows, 0),
                    ) && parsed_strings(self.sid, m.sid, w(MetadataFields::Sid), column_of(rows, 1))
                        && parsed_strings(
                        self.cm_position,
                        m.cm_position,
                        w(MetadataFields::CmPosition),
                        column_of(rows, 2),
                    ) && parsed_ints(
                        self.bp_position,
                        m.bp_position,
                        w(MetadataFields::BpPosition),
                        column_of(rows, 3),
                    ) && parsed_strings(
                        self.allele_1,
                        m.allele_1,
                        w(MetadataFields::Allele1),
                        column_of(rows, 4),
                    ) && parsed_strings(
                        self.allele_2,
                        m.allele_2,
                        w(MetadataFields::Allele2),
                        column_of(rows, 5),
                    ) && opt_texts(m.fid) == opt_texts(self.fid) && opt_texts(m.iid) == opt_texts(
                        self.iid,
                    ) && opt_texts(m.father) == opt_texts(self.father) && opt_texts(m.mother)
                        == opt_texts(self.mother) && opt_ints(m.sex) == opt_ints(self.sex)
                        && opt_texts(m.pheno) == opt_texts(self.pheno)
    }

    /// Whether parsing the lines of a row sidecar fails: a line without six
    /// fields, or a sex that is no integer when sex is wanted.
    pub open spec fn fam_parse_fails(&self, lines: Seq<String>, skip_set: Seq<MetadataFields>) -> bool {
        first_bad_line(line_fields(lines)) is Some || (self.wants(skip_set, MetadataFields::Sex)
            && !all_i32(column_of(line_fields(lines), 4)))
    }

    /// Whether parsing the lines of a column sidecar fails: a line without six
    /// fields, or a base-pair position that is no integer when it is wanted.
    pub open spec fn bim_parse_fails(&self, lines: Seq<String>, skip_set: Seq<MetadataFields>) -> bool {
        first_bad_line(line_fields(lines)) is Some || (self.wants(skip_set, MetadataFields::BpPosition)
            && !all_i32(column_of(line_fields(lines), 3)))
    }

    /// Parses the lines of a row sidecar (family id, individual id, father id,
    /// mother id, sex, phenotype) into the fields that are absent and not
    /// skipped; returns the new bundle and the number of lines.
    pub fn read_fam(&self, lines: &Vec<String>, path: &String, skip_set: &Vec<MetadataFields>) -> (r:
        Result<(Metadata, usize), BedErrorPlus>)
        ensures
            match first_bad_line(line_fields(lines@)) {
                Some(k) => r matches Err(
                    BedErrorPlus::BedError(BedError::MetadataFieldCount(six, n, p)),
                ) && six == 6 && n == line_fields(lines@)[k].len() && p@ == path@,
                None => if self.wants(skip_set@, MetadataFields::Sex) && !all_i32(
                    column_of(line_fields(lines@), 4),
                ) {
                    r matches Err(BedErrorPlus::ParseIntError(_))
                } else {
                    r matches Ok((m, count)) && count == lines@.len() && self.fam_parsed(
                        m,
                        lines@,
                        skip_set@,
                    )
                },
            },
    {
        let rows = split_lines(lines, path)?;
        let ghost all = line_fields(lines@);
        proof {
            assert forall|k: int| 0 <= k < rows@.len() implies (#[trigger] rows@[k])@.len() == 6 by {
                lemma_no_bad_line(all, k);
                assert(texts(rows@[k]@) == all[k]);
            }
        }
        let mut m = self.copy();
        if self.fid.is_none() && !skips(skip_set, MetadataFields::Fid) {
            m.fid = Some(column(&rows, 0));
        }
        if self.iid.is_none() && !skips(skip_set, MetadataFields::Iid) {
            m.iid = Some(column(&rows, 1));
        }
        if self.father.is_none() && !skips(skip_set, MetadataFields::Father) {
            m.father = Some(column(&rows, 2));
        }
        if self.mother.is_none() && !skips(skip_set, MetadataFields::Mother) {
            m.mother = Some(column(&rows, 3));
        }
        if self.sex.is_none() && !skips(skip_set, MetadataFields::Sex) {
            let col = column(&rows, 4);
            proof {
                assert(texts(col@) =~= column_of(all, 4));
            }
            m.sex = Some(parse_column(&col)?);
        }
        if self.pheno.is_none() && !skips(skip_set, MetadataFields::Pheno) {
            m.pheno = Some(column(&rows, 5));
        }
        proof {
            assert forall|i: int| 0 <= i < 6 implies Seq::new(
                rows@.len(),
                |k: int| texts(rows@[k]@)[i],
            ) =~= column_of(all, i) by {}
        }
        Ok((m, lines.len()))
    }

    /// Parses the lines of a column sidecar (chromosome, variant id, centimorgan
    /// position, base-pair position, allele 1, allele 2) into the fields that are
    /// absent and not skipped; returns the new bundle and the number of lines.
    pub fn read_bim(&self, lines: &Vec<String>, path: &String, skip_set: &Vec<MetadataFields>) -> (r:
        Result<(Metadata, usize), BedErrorPlus>)
        ensures
            match first_bad_line(line_fields(lines@)) {
                Some(k) => r matches Err(
                    BedErrorPlus::BedError(BedError::MetadataFieldCount(six, n, p)),
                ) && six == 6 && n == line_fields(lines@)[k].len() && p@ == path@,
                None => if self.wants(skip_set@, MetadataFields::BpPosition) && !all_i32(
                    column_of(line_fields(lines@), 3),
                ) {
                    r matches Err(BedErrorPlus::ParseIntError(_))
                } else {
                    r matches Ok((m, count)) && count == lines@.len() && self.bim_parsed(
                        m,
                        lines@,
                        skip_set@,
                    )
                },
            },
    {
        let rows = split_lines(lines, path)?;
        let ghost all = line_fields(lines@);
        proof {
            assert forall|k: int| 0 <= k < rows@.len() implies (#[trigger] rows@[k])@.len() == 6 by {
                lemma_no_bad_line(all, k);
                assert(texts(rows@[k]@) == all[k]);
            }
        }
        let mut m = self.copy();
        if self.chromosome.is_none() && !skips(skip_set, MetadataFields::Chromosome) {
            m.chromosome = Some(column(&rows, 0));
        }
        if self.sid.is_none() && !skips(skip_set, MetadataFields::Sid) {
            m.sid = Some(column(&rows, 1));
        }
        if self.cm_position.is_none() && !skips(skip_set, MetadataFields::CmPosition) {
            m.cm_position = Some(column(&rows, 2));
        }
        if self.bp_position.is_none() && !skips(skip_set, MetadataFields::BpPosition) {
            let col = column(&rows, 3);
            proof {
                assert(texts(col@) =~= column_of(all, 3));
            }
            m.bp_position = Some(parse_column(&col)?);
        }
        if self.allele_1.is_none() && !skips(skip_set, MetadataFields::Allele1) {
            m.allele_1 = Some(column(&rows, 4));
        }
        if self.allele_2.is_none() && !skips(skip_set, MetadataFields::Allele2) {
            m.allele_2 = Some(column(&rows, 5));
        }
        proof {
            assert forall|i: int| 0 <= i < 6 implies Seq::new(
                rows@.len(),
                |k: int| texts(rows@[k]@)[i],
            ) =~= column_of(all, i) by {}
        }
        Ok((m, lines.len()))
    }
}

proof fn lemma_no_bad_line(rows: Seq<Seq<Seq<char>>>, k: int)
    requires
        first_bad_line(rows) is None,
        0 <= k < rows.len(),
    ensures
        rows[k].len() == 6,
    decreases rows.len(),
{
    if k < rows.len() - 1 {
        lemma_no_bad_line(rows.drop_last(), k);
    }
}

/// Six fields joined by tabs.
pub open spec fn tab_join(
    a: Seq<char>,
    b: Seq<char>,
    c: Seq<char>,
    d: Seq<char>,
    e: Seq<char>,
    f: Seq<char>,
) -> Seq<char> {
    a + seq!['\t'] + b + seq!['\t'] + c + seq!['\t'] + d + seq!['\t'] + e + seq!['\t'] + f
}

fn join6(a: &String, b: &String, c: &String, d: &String, e: &String, f: &String) -> (r: String)
    ensures
        r@ == tab_join(a@, b@, c@, d@, e@, f@),
{
    proof {
        reveal_strlit("\t");
    }
    let mut s = a.clone();
    s.append("\t");
    s.append(b.as_str());
    s.append("\t");
    s.append(c.as_str());
    s.append("\t");
    s.append(d.as_str());
    s.append("\t");
    s.append(e.as_str());
    s.append("\t");
    s.append(f.as_str());
    proof {
        assert("\t"@ =~= seq!['\t']);
        assert(s@ =~= tab_join(a@, b@, c@, d@, e@, f@));
    }
    s
}

/// The decimal text of an integer.
pub fn int_text(v: i32) -> (r: String)
    ensures
        r@ == signed_decimal(v as int),
{
    let mut s = String::new();
    push_signed_decimal(&mut s, v);
    proof {
        assert(s@ =~= signed_decimal(v as int));
    }
    s
}

/// The line of a row sidecar for row `k`.
pub open spec fn fam_line(m: Metadata, k: int) -> Seq<char> {
    tab_join(
        m.fid->Some_0@[k]@,
        m.iid->Some_0@[k]@,
        m.father->Some_0@[k]@,
        m.mother->Some_0@[k]@,
        signed_decimal(m.sex->Some_0@[k] as int),
        m.pheno->Some_0@[k]@,
    )
}

/// The line of a column sidecar for column `k`.
pub open spec fn bim_line(m: Metadata, k: int) -> Seq<char> {
    tab_join(
        m.chromosome->Some_0@[k]@,
        m.sid->Some_0@[k]@,
        m.cm_position->Some_0@[k]@,
        signed_decimal(m.bp_position->Some_0@[k] as int),
        m.allele_1->Some_0@[k]@,
        m.allele_2->Some_0@[k]@,
    )
}

/// The first absent field among six, in order.
pub open spec fn first_absent(m: Metadata, fields: Seq<MetadataFields>) -> Option<MetadataFields>
    decreases fields.len(),
{
    if fields.len() == 0 {
        None
    } else {
        match first_absent(m, fields.drop_last()) {
            Some(f) => Some(f),
            None => if m.len_of(fields.last()) is None {
                Some(fields.last())
            } else {
                None
            },
        }
    }
}

/// The fields of the row sidecar, in order.
pub open spec fn fam_fields() -> Seq<MetadataFields> {
    seq![
        MetadataFields::Fid,
        MetadataFields::Iid,
        MetadataFields::Father,
        MetadataFields::Mother,
        MetadataFields::Sex,
        MetadataFields::Pheno,
    ]
}

/// The fields of the column sidecar, in order.
pub open spec fn bim_fields() -> Seq<MetadataFields> {
    seq![
        MetadataFields::Chromosome,
        MetadataFields::Sid,
        MetadataFields::CmPosition,
        MetadataFields::BpPosition,
        MetadataFields::Allele1,
        MetadataFields::Allele2,
    ]
}

/// The first of six fields whose length differs from the first's.
pub open spec fn first_uneven(m: Metadata, fields: Seq<MetadataFields>) -> Option<MetadataFields>
    decreases fields.len(),
{
    if fields.len() <= 1 {
        None
    } else {
        match first_uneven(m, fields.drop_last()) {
            Some(f) => Some(f),
            None => if m.len_of(fields.last()) != m.len_of(fields[0]) {
                Some(fields.last())
            } else {
                None
            },
        }
    }
}

/// Checks that every field of six is present and that all have one length.
fn check_emittable(m: &Metadata, fields: &[MetadataFields; 6]) -> (r: Result<usize, BedErrorPlus>)
    ensures
        match first_absent(*m, fields@) {
            Some(f) => r matches Err(
                BedErrorPlus::BedError(BedError::CannotUseSkippedMetadata(name)),
            ) && name@ == field_name_text(f),
            None => match first_uneven(*m, fields@) {
                Some(f) => r matches Err(
                    BedErrorPlus::BedError(BedError::InconsistentCount(name, a, b)),
                ) && name@ == field_name_text(f) && m.len_of(f) == Some(a as int) && m.len_of(
                    fields@[0],
                ) == Some(b as int),
                None => r matches Ok(n) && forall|j: int|
                    0 <= j < 6 ==> m.len_of(#[trigger] fields@[j]) == Some(n as int),
            },
        },
{
    let mut j: usize = 0;
    while j < 6
        invariant
            j <= 6,
            first_absent(*m, fields@.subrange(0, j as int)) is None,
        decreases 6 - j,
    {
        proof {
            assert(fields@.subrange(0, j + 1).drop_last() =~= fields@.subrange(0, j as int));
        }
        if m.field_count(fields[j]).is_none() {
            proof {
                lemma_first_absent_prefix(*m, fields@, j as int, 6);
                assert(fields@.subrange(0, 6) =~= fields@);
            }
            return Err(
                BedErrorPlus::BedError(BedError::CannotUseSkippedMetadata(field_name(fields[j]))),
            );
        }
        j = j + 1;
    }
    proof {
        assert(fields@.subrange(0, 6) =~= fields@);
        lemma_all_present(*m, fields@);
    }
    let n = match m.field_count(fields[0]) {
        Some(n) => n,
        None => 0,
    };
    let mut j: usize = 1;
    while j < 6
        invariant
            1 <= j <= 6,
            first_absent(*m, fields@) is None,
            m.len_of(fields@[0]) == Some(n as int),
            forall|i: int| 0 <= i < 6 ==> m.len_of(#[trigger] fields@[i]) is Some,
            first_uneven(*m, fields@.subrange(0, j as int)) is None,
            forall|i: int| 0 <= i < j ==> m.len_of(#[trigger] fields@[i]) == Some(n as int),
        decreases 6 - j,
    {
        proof {
            assert(fields@.subrange(0, j + 1).drop_last() =~= fields@.subrange(0, j as int));
            assert(fields@.subrange(0, j + 1)[0] == fields@[0]);
        }
        let c = match m.field_count(fields[j]) {
            Some(c) => c,
            None => 0,
        };
        if c != n {
            proof {
                lemma_first_uneven_prefix(*m, fields@, j as int, 6);
                assert(fields@.subrange(0, 6) =~= fields@);
            }
            return Err(
                BedErrorPlus::BedError(BedError::InconsistentCount(field_name(fields[j]), c, n)),
            );
        }
        j = j + 1;
    }
    proof {
        assert(fields@.subrange(0, 6) =~= fields@);
    }
    Ok(n)
}

proof fn lemma_first_absent_prefix(m: Metadata, fields: Seq<MetadataFields>, i: int, n: int)
    requires
        0 <= i < n <= fields.len(),
        first_absent(m, fields.subrange(0, i)) is None,
        m.len_of(fields[i]) is None,
    ensures
        first_absent(m, fields.subrange(0, n)) == Some(fields[i]),
    decreases n,
{
    if n > i + 1 {
        lemma_first_absent_prefix(m, fields, i, n - 1);
        assert(fields.subrange(0, n).drop_last() =~= fields.subrange(0, n - 1));
    } else {
        assert(fields.subrange(0, n).drop_last() =~= fields.subrange(0, i));
    }
}

proof fn lemma_all_present(m: Metadata, fields: Seq<MetadataFields>)
    requires
        first_absent(m, fields) is None,
    ensures
        forall|i: int| 0 <= i < fields.len() ==> m.len_of(#[trigger] fields[i]) is Some,
    decreases fields.len(),
{
    if fields.len() > 0 {
        lemma_all_present(m, fields.drop_last());
        assert forall|i: int| 0 <= i < fields.len() implies m.len_of(#[trigger] fields[i]) is Some by {
            if i < fields.len() - 1 {
                assert(fields.drop_last()[i] == fields[i]);
            }
        }
    }
}

proof fn lemma_first_uneven_prefix(m: Metadata, fields: Seq<MetadataFields>, i: int, n: int)
    requires
        1 <= i < n <= fields.len(),
        first_uneven(m, fields.subrange(0, i)) is None,
        m.len_of(fields[i]) != m.len_of(fields[0]),
    ensures
        first_uneven(m, fields.subrange(0, n)) == Some(fields[i]),
    decreases n,
{
    if n > i + 1 {
        lemma_first_uneven_prefix(m, fields, i, n - 1);
        assert(fields.subrange(0, n).drop_last() =~= fields.subrange(0, n - 1));
    } else {
        assert(fields.subrange(0, n).drop_last() =~= fields.subrange(0, i));
    }
}

impl Metadata {
    /// The number of values of a field, if present.
    pub fn field_count(&self, f: MetadataFields) -> (r: Option<usize>)
        ensures
            match r {
                Some(n) => self.len_of(f) == Some(n as int),
                None => self.len_of(f) is None,
            },
    {
        match f {
            MetadataFields::Fid => lazy_or_skip_count(&self.fid),
            MetadataFields::Iid => lazy_or_skip_count(&self.iid),
            MetadataFields::Father => lazy_or_skip_count(&self.father),
            MetadataFields::Mother => lazy_or_skip_count(&self.mother),
            MetadataFields::Sex => lazy_or_skip_count(&self.sex),
            MetadataFields::Pheno => lazy_or_skip_count(&self.pheno),
            MetadataFields::Chromosome => lazy_or_skip_count(&self.chromosome),
            MetadataFields::Sid => lazy_or_skip_count(&self.sid),
            MetadataFields::CmPosition => lazy_or_skip_count(&self.cm_position),
            MetadataFields::BpPosition => lazy_or_skip_count(&self.bp_position),
            MetadataFields::Allele1 => lazy_or_skip_count(&self.allele_1),
            MetadataFields::Allele2 => lazy_or_skip_count(&self.allele_2),
        }
    }

    /// The lines of the row sidecar, fields joined by tabs. Fails when a field is
    /// absent (skipped or never set) or when the fields' lengths differ.
    pub fn fam_lines(&self) -> (r: Result<Vec<String>, BedErrorPlus>)
        ensures
            match first_absent(*self, fam_fields()) {
                Some(f) => r matches Err(
                    BedErrorPlus::BedError(BedError::CannotUseSkippedMetadata(name)),
                ) && name@ == field_name_text(f),
                None => match first_uneven(*self, fam_fields()) {
                    Some(f) => r matches Err(
                        BedErrorPlus::BedError(BedError::InconsistentCount(name, a, b)),
                    ) && name@ == field_name_text(f) && self.len_of(f) == Some(a as int)
                        && self.len_of(MetadataFields::Fid) == Some(b as int),
                    None => r matches Ok(lines) && Some(lines@.len() as int) == self.len_of(
                        MetadataFields::Fid,
                    ) && forall|k: int|
                        0 <= k < lines@.len() ==> (#[trigger] lines@[k])@ == fam_line(*self, k),
                },
            },
    {
        let fields = [
            MetadataFields::Fid,
            MetadataFields::Iid,
            MetadataFields::Father,
            MetadataFields::Mother,
            MetadataFields::Sex,
            MetadataFields::Pheno,
        ];
        proof {
            assert(fields@ =~= fam_fields());
        }
        let n = check_emittable(self, &fields)?;
        proof {
            assert(self.len_of(fields@[1]) == Some(n as int));
            assert(self.len_of(fields@[2]) == Some(n as int));
            assert(self.len_of(fields@[3]) == Some(n as int));
            assert(self.len_of(fields@[4]) == Some(n as int));
            assert(self.len_of(fields@[5]) == Some(n as int));
        }
        match (&self.fid, &self.iid, &self.father, &self.mother, &self.sex, &self.pheno) {
            (Some(fid), Some(iid), Some(father), Some(mother), Some(sex), Some(pheno)) => {
                let mut lines: Vec<String> = Vec::new();
                let mut k: usize = 0;
                while k < n
                    invariant
                        k <= n,
                        self.fid == Some(*fid),
                        self.iid == Some(*iid),
                        self.father == Some(*father),
                        self.mother == Some(*mother),
                        self.sex == Some(*sex),
                        self.pheno == Some(*pheno),
                        fid@.len() == n && iid@.len() == n && father@.len() == n && mother@.len()
                            == n && sex@.len() == n && pheno@.len() == n,
                        lines@.len() == k,
                        forall|i: int| 0 <= i < k ==> (#[trigger] lines@[i])@ == fam_line(*self, i),
                    decreases n - k,
                {
                    let sx = int_text(sex[k]);
                    let line = join6(&fid[k], &iid[k], &father[k], &mother[k], &sx, &pheno[k]);
                    lines.push(line);
                    k = k + 1;
                }
                Ok(lines)
            },
            _ => Ok(Vec::new()),
        }
    }

    /// The lines of the column sidecar, fields joined by tabs. Fails when a field
    /// is absent (skipped or never set) or when the fields' lengths differ.
    pub fn bim_lines(&self) -> (r: Result<Vec<String>, BedErrorPlus>)
        ensures
            match first_absent(*self, bim_fields()) {
                Some(f) => r matches Err(
                    BedErrorPlus::BedError(BedError::CannotUseSkippedMetadata(name)),
                ) && name@ == field_name_text(f),
                None => match first_uneven(*self, bim_fields()) {
                    Some(f) => r matches Err(
                        BedErrorPlus::BedError(BedError::InconsistentCount(name, a, b)),
                    ) && name@ == field_name_text(f) && self.len_of(f) == Some(a as int)
                        && self.len_of(MetadataFields::Chromosome) == Some(b as int),
                    None => r matches Ok(lines) && Some(lines@.len() as int) == self.len_of(
                        MetadataFields::Chromosome,
                    ) && forall|k: int|
                        0 <= k < lines@.len() ==> (#[trigger] lines@[k])@ == bim_line(*self, k),
                },
            },
    {
        let fields = [
            MetadataFields::Chromosome,
            MetadataFields::Sid,
            MetadataFields::CmPosition,
            MetadataFields::BpPosition,
            MetadataFields::Allele1,
            MetadataFields::Allele2,
        ];
        proof {
            assert(fields@ =~= bim_fields());
        }
        let n = check_emittable(self, &fields)?;
        proof {
            assert(self.len_of(fields@[1]) == Some(n as int));
            assert(self.len_of(fields@[2]) == Some(n as int));
            assert(self.len_of(fields@[3]) == Some(n as int));
            assert(self.len_of(fields@[4]) == Some(n as int));
            assert(self.len_of(fields@[5]) == Some(n as int));
        }
        match (
            &self.chromosome,
            &self.sid,
            &self.cm_position,
            &self.bp_position,
            &self.allele_1,
            &self.allele_2,
        ) {
            (Some(chromosome), Some(sid), Some(cm), Some(bp), Some(a1), Some(a2)) => {
                let mut lines: Vec<String> = Vec::new();
                let mut k: usize = 0;
                while k < n
                    invariant
                        k <= n,
                        self.chromosome == Some(*chromosome),
                        self.sid == Some(*sid),
                        self.cm_position == Some(*cm),
                        self.bp_position == Some(*bp),
                        self.allele_1 == Some(*a1),
                        self.allele_2 == Some(*a2),
                        chromosome@.len() == n && sid@.len() == n && cm@.len() == n && bp@.len()
                            == n && a1@.len() == n && a2@.len() == n,
                        lines@.len() == k,
                        forall|i: int| 0 <= i < k ==> (#[trigger] lines@[i])@ == bim_line(*self, i),
                    decreases n - k,
                {
                    let bx = int_text(bp[k]);
                    let line = join6(&chromosome[k], &sid[k], &cm[k], &bx, &a1[k], &a2[k]);
                    lines.push(line);
                    k = k + 1;
                }
                Ok(lines)
            },
            _ => Ok(Vec::new()),
        }
    }
}

/// The texts of string slices.
pub open spec fn strs_view(v: Seq<&str>) -> Seq<Seq<char>> {
    v.map_values(|s: &str| s@)
}

/// Owned copies of string slices.
pub fn strings_of(v: &[&str]) -> (r: Vec<String>)
    ensures
        texts(r@) == strs_view(v@),
{
    let mut r: Vec<String> = Vec::new();
    let mut i: usize = 0;
    while i < v.len()
        invariant
            i <= v@.len(),
            texts(r@) =~= strs_view(v@.subrange(0, i as int)),
        decreases v@.len() - i,
    {
        let ghost old = r@;
        let s = v[i].to_owned();
        r.push(s);
        proof {
            assert(texts(r@) =~= texts(old).push(s@));
            assert(strs_view(v@.subrange(0, i + 1)) =~= strs_view(v@.subrange(0, i as int)).push(
                v@[i as int]@,
            ));
        }
        i = i + 1;
    }
    proof {
        assert(v@.subrange(0, v@.len() as int) =~= v@);
    }
    r
}

/// Owned copies of integers.
pub fn ints_of(v: &[i32]) -> (r: Vec<i32>)
    ensures
        r@ == v@,
{
    let mut r: Vec<i32> = Vec::new();
    let mut i: usize = 0;
    while i < v.len()
        invariant
            i <= v@.len(),
            r@ =~= v@.subrange(0, i as int),
        decreases v@.len() - i,
    {
        r.push(v[i]);
        i = i + 1;
    }
    proof {
        assert(v@.subrange(0, v@.len() as int) =~= v@);
    }
    r
}

impl Metadata {
    /// The lengths of the row fields, in order, absent ones as `None`.
    pub open spec fn row_counts(&self) -> Seq<Option<usize>> {
        seq![
            spec_count(self.len_of(MetadataFields::Fid)),
            spec_count(self.len_of(MetadataFields::Iid)),
            spec_count(self.len_of(MetadataFields::Father)),
            spec_count(self.len_of(MetadataFields::Mother)),
            spec_count(self.len_of(MetadataFields::Sex)),
            spec_count(self.len_of(MetadataFields::Pheno)),
        ]
    }

    /// The lengths of the column fields, in order, absent ones as `None`.
    pub open spec fn col_counts(&self) -> Seq<Option<usize>> {
        seq![
            spec_count(self.len_of(MetadataFields::Chromosome)),
            spec_count(self.len_of(MetadataFields::Sid)),
            spec_count(self.len_of(MetadataFields::CmPosition)),
            spec_count(self.len_of(MetadataFields::BpPosition)),
            spec_count(self.len_of(MetadataFields::Allele1)),
            spec_count(self.len_of(MetadataFields::Allele2)),
        ]
    }

    /// The present lengths of the row fields, in order.
    pub fn row_count_vec(&self) -> (r: Vec<Option<usize>>)
        ensures
            r@ == self.row_counts(),
    {
        let r = vec![
            lazy_or_skip_count(&self.fid),
            lazy_or_skip_count(&self.iid),
            lazy_or_skip_count(&self.father),
            lazy_or_skip_count(&self.mother),
            lazy_or_skip_count(&self.sex),
            lazy_or_skip_count(&self.pheno),
        ];
        proof {
            assert(r@ =~= self.row_counts());
        }
        r
    }

    /// The present lengths of the column fields, in order.
    pub fn col_count_vec(&self) -> (r: Vec<Option<usize>>)
        ensures
            r@ == self.col_counts(),
    {
        let r = vec![
            lazy_or_skip_count(&self.chromosome),
            lazy_or_skip_count(&self.sid),
            lazy_or_skip_count(&self.cm_position),
            lazy_or_skip_count(&self.bp_position),
            lazy_or_skip_count(&self.allele_1),
            lazy_or_skip_count(&self.allele_2),
        ];
        proof {
            assert(r@ =~= self.col_counts());
        }
        r
    }
}

/// A length as a count, when present.
pub open spec fn spec_count(len: Option<int>) -> Option<usize> {
    match len {
        Some(n) => Some(n as usize),
        None => None,
    }
}

/// Collects fields before checking, as a bundle, that their lengths agree.
pub struct MetadataBuilder {
    pub metadata: Metadata,
}

impl MetadataBuilder {
    /// A builder with every field absent.
    pub fn new() -> (r: MetadataBuilder)
        ensures
            forall|f: MetadataFields| r.metadata.len_of(f) is None,
    {
        MetadataBuilder { metadata: Metadata::new() }
    }

    /// The bundle, when all present row fields share one length and all present
    /// column fields another; else the first pair that disagrees.
    pub fn build(&self) -> (r: Result<Metadata, BedErrorPlus>)
        ensures
            match fold_counts(self.metadata.row_counts(), None) {
                Err((a, b)) => r matches Err(
                    BedErrorPlus::BedError(BedError::InconsistentCount(p, x, y)),
                ) && p@ == seq!['i', 'i', 'd'] && x == a && y == b,
                Ok(_) => match fold_counts(self.metadata.col_counts(), None) {
                    Err((a, b)) => r matches Err(
                        BedErrorPlus::BedError(BedError::InconsistentCount(p, x, y)),
                    ) && p@ == seq!['s', 'i', 'd'] && x == a && y == b,
                    Ok(_) => r matches Ok(m) && m.same_as(&self.metadata),
                },
            },
    {
        proof {
            reveal_strlit("iid");
            reveal_strlit("sid");
            assert("iid"@ =~= seq!['i', 'i', 'd']);
            assert("sid"@ =~= seq!['s', 'i', 'd']);
        }
        let mut iid_count: Option<usize> = None;
        let mut sid_count: Option<usize> = None;
        check_counts(self.metadata.row_count_vec(), &mut iid_count, "iid")?;
        check_counts(self.metadata.col_count_vec(), &mut sid_count, "sid")?;
        Ok(self.metadata.copy())
    }

    pub fn fid(&mut self, fid: &[&str])
        ensures
            opt_texts(final(self).metadata.fid) == Some(strs_view(fid@)),
            final(self).metadata.same_except(&old(self).metadata, MetadataFields::Fid),
    {
        self.metadata.fid = Some(strings_of(fid));
    }

    pub fn iid(&mut self, iid: &[&str])
        ensures
            opt_texts(final(self).metadata.iid) == Some(strs_view(iid@)),
            final(self).metadata.same_except(&old(self).metadata, MetadataFields::Iid),
    {
        self.metadata.iid = Some(strings_of(iid));
    }

    pub fn father(&mut self, father: &[&str])
        ensures
            opt_texts(final(self).metadata.father) == Some(strs_view(father@)),
            final(self).metadata.same_except(&old(self).metadata, MetadataFields::Father),
    {
        self.metadata.father = Some(strings_of(father));
    }

    pub fn mother(&mut self, mother: &[&str])
        ensures
            opt_texts(final(self).metadata.mother) == Some(strs_view(mother@)),
            final(self).metadata.same_except(&old(self).metadata, MetadataFields::Mother),
    {
        self.metadata.mother = Some(strings_of(mother));
    }

    pub fn sex(&mut self, sex: &[i32])
        ensures
            opt_ints(final(self).metadata.sex) == Some(sex@),
            final(self).metadata.same_except(&old(self).metadata, MetadataFields::Sex),
    {
        self.metadata.sex = Some(ints_of(sex));
    }

    pub fn pheno(&mut self, pheno: &[&str])
        ensures
            opt_texts(final(self).metadata.pheno) == Some(strs_view(pheno@)),
            final(self).metadata.same_except(&old(self).metadata, MetadataFields::Pheno),
    {
        self.metadata.pheno = Some(strings_of(pheno));
    }

    pub fn chromosome(&mut self, chromosome: &[&str])
        ensures
            opt_texts(final(self).metadata.chromosome) == Some(strs_view(chromosome@)),
            final(self).metadata.same_except(&old(self).metadata, MetadataFields::Chromosome),
    {
        self.metadata.chromosome = Some(strings_of(chromosome));
    }

    pub fn sid(&mut self, sid: &[&str])
        ensures
            opt_texts(final(self).metadata.sid) == Some(strs_view(sid@)),
            final(self).metadata.same_except(&old(self).metadata, MetadataFields::Sid),
    {
        self.metadata.sid = Some(strings_of(sid));
    }

    /// Sets the centimorgan positions, as their texts.
    pub fn cm_position(&mut self, cm_position: &[&str])
        ensures
            opt_texts(final(self).metadata.cm_position) == Some(strs_view(cm_position@)),
            final(self).metadata.same_except(&old(self).metadata, MetadataFields::CmPosition),
    {
        self.metadata.cm_position = Some(strings_of(cm_position));
    }

    pub fn bp_position(&mut self, bp_position: &[i32])
        ensures
            opt_ints(final(self).metadata.bp_position) == Some(bp_position@),
            final(self).metadata.same_except(&old(self).metadata, MetadataFields::BpPosition),
    {
        self.metadata.bp_position = Some(ints_of(bp_position));
    }

    pub fn allele_1(&mut self, allele_1: &[&str])
        ensures
            opt_texts(final(self).metadata.allele_1) == Some(strs_view(allele_1@)),
            final(self).metadata.same_except(&old(self).metadata, MetadataFields::Allele1),
    {
        self.metadata.allele_1 = Some(strings_of(allele_1));
    }

    pub fn allele_2(&mut self, allele_2: &[&str])
        ensures
            opt_texts(final(self).metadata.allele_2) == Some(strs_view(allele_2@)),
            final(self).metadata.same_except(&old(self).metadata, MetadataFields::Allele2),
    {
        self.metadata.allele_2 = Some(strings_of(allele_2));
    }
}

impl Metadata {
    /// Whether two bundles agree on every field but `f`.
    pub open spec fn same_except(&self, o: &Metadata, f: MetadataFields) -> bool {
        &&& f != MetadataFields::Fid ==> self.fid == o.fid
        &&& f != MetadataFields::Iid ==> self.iid == o.iid
        &&& f != MetadataFields::Father ==> self.father == o.father
        &&& f != MetadataFields::Mother ==> self.mother == o.mother
        &&& f != MetadataFields::Sex ==> self.sex == o.sex
        &&& f != MetadataFields::Pheno ==> self.pheno == o.pheno
        &&& f != MetadataFields::Chromosome ==> self.chromosome == o.chromosome
        &&& f != MetadataFields::Sid ==> self.sid == o.sid
        &&& f != MetadataFields::CmPosition ==> self.cm_position == o.cm_position
        &&& f != MetadataFields::BpPosition ==> self.bp_position == o.bp_position
        &&& f != MetadataFields::Allele1 ==> self.allele_1 == o.allele_1
        &&& f != MetadataFields::Allele2 ==> self.allele_2 == o.allele_2
    }
}

/// After a fill without mismatch, every field holds its count of values.
pub proof fn lemma_filled_len(before: Metadata, after: Metadata, iid_count: int, sid_count: int, f: MetadataFields)
    requires
        iid_count >= 0,
        sid_count >= 0,
        before.first_mismatch(iid_count, sid_count) is None,
        before.filled_as(&after, iid_count, sid_count),
    ensures
        after.len_of(f) == Some(if Metadata::is_row_field(f) { iid_count } else { sid_count }),
{
    let sfields = seq![
        after.fid,
        after.iid,
        after.father,
        after.mother,
        after.pheno,
        after.chromosome,
        after.sid,
        after.cm_position,
        after.allele_1,
        after.allele_2,
    ];
    assert forall|i: int| 0 <= i < sfields.len() && sfields[i] is Some implies texts(
        #[trigger] sfields[i]->Some_0@,
    ).len() == sfields[i]->Some_0@.len() by {}
    assert(sfields[0] == after.fid);
    assert(sfields[1] == after.iid);
    assert(sfields[2] == after.father);
    assert(sfields[3] == after.mother);
    assert(sfields[4] == after.pheno);
    assert(sfields[5] == after.chromosome);
    assert(sfields[6] == after.sid);
    assert(sfields[7] == after.cm_position);
    assert(sfields[8] == after.allele_1);
    assert(sfields[9] == after.allele_2);
    if before.fid is Some {
        assert(texts(before.fid->Some_0@).len() == before.fid->Some_0@.len());
    }
    if before.iid is Some {
        assert(texts(before.iid->Some_0@).len() == before.iid->Some_0@.len());
    }
    if before.father is Some {
        assert(texts(before.father->Some_0@).len() == before.father->Some_0@.len());
    }
    if before.mother is Some {
        assert(texts(before.mother->Some_0@).len() == before.mother->Some_0@.len());
    }
    if before.pheno is Some {
        assert(texts(before.pheno->Some_0@).len() == before.pheno->Some_0@.len());
    }
    if before.chromosome is Some {
        assert(texts(before.chromosome->Some_0@).len() == before.chromosome->Some_0@.len());
    }
    if before.sid is Some {
        assert(texts(before.sid->Some_0@).len() == before.sid->Some_0@.len());
    }
    if before.cm_position is Some {
        assert(texts(before.cm_position->Some_0@).len() == before.cm_position->Some_0@.len());
    }
    if before.allele_1 is Some {
        assert(texts(before.allele_1->Some_0@).len() == before.allele_1->Some_0@.len());
    }
    if before.allele_2 is Some {
        assert(texts(before.allele_2->Some_0@).len() == before.allele_2->Some_0@.len());
    }
}

/// Six fields that are all present with one length are ready to be emitted.
pub proof fn lemma_emittable(m: Metadata, fields: Seq<MetadataFields>, n: int)
    requires
        fields.len() >= 1,
        forall|i: int| 0 <= i < fields.len() ==> m.len_of(#[trigger] fields[i]) == Some(n),
    ensures
        first_absent(m, fields) is None,
        first_uneven(m, fields) is None,
    decreases fields.len(),
{
    if fields.len() > 1 {
        assert forall|i: int| 0 <= i < fields.len() - 1 implies m.len_of(
            #[trigger] fields.drop_last()[i],
        ) == Some(n) by {
            assert(fields.drop_last()[i] == fields[i]);
        }
        lemma_emittable(m, fields.drop_last(), n);
        assert(fields.drop_last()[0] == fields[0]);
        assert(fields.last() == fields[fields.len() - 1]);
    } else {
        assert(fields.drop_last().len() == 0);
        assert(first_absent(m, fields.drop_last()) is None);
        assert(fields.last() == fields[0]);
    }
}

proof fn lemma_fold_disagree(cs: Seq<Option<usize>>, init: Option<usize>, i: int, j: int)
    requires
        0 <= i < j < cs.len(),
        cs[i] is Some,
        cs[j] is Some,
        cs[i] != cs[j],
    ensures
        fold_counts(cs, init) is Err,
    decreases cs.len(),
{
    if j < cs.len() - 1 {
        lemma_fold_disagree(cs.drop_last(), init, i, j);
        assert(cs.drop_last()[i] == cs[i]);
        assert(cs.drop_last()[j] == cs[j]);
    } else {
        match fold_counts(cs.drop_last(), init) {
            Ok(Some(x)) => {
                assert(cs.drop_last()[i] == cs[i]);
                lemma_fold_some_match(cs.drop_last(), init, x, i);
            },
            Ok(None) => {
                assert(cs.drop_last()[i] == cs[i]);
                lemma_fold_none_all(cs.drop_last(), init, i);
            },
            Err(_) => {},
        }
    }
}

proof fn lemma_fold_some_match(cs: Seq<Option<usize>>, init: Option<usize>, x: usize, i: int)
    requires
        fold_counts(cs, init) == Ok::<Option<usize>, (usize, usize)>(Some(x)),
        0 <= i < cs.len(),
    ensures
        cs[i] matches Some(c) ==> c == x,
    decreases cs.len(),
{
    match fold_counts(cs.drop_last(), init) {
        Ok(Some(y)) => {
            if i < cs.len() - 1 {
                lemma_fold_some_match(cs.drop_last(), init, y, i);
                assert(cs.drop_last()[i] == cs[i]);
            }
        },
        Ok(None) => {
            if i < cs.len() - 1 {
                lemma_fold_none_all(cs.drop_last(), init, i);
                assert(cs.drop_last()[i] == cs[i]);
            }
        },
        Err(_) => {},
    }
}

proof fn lemma_fold_none_all(cs: Seq<Option<usize>>, init: Option<usize>, i: int)
    requires
        fold_counts(cs, init) == Ok::<Option<usize>, (usize, usize)>(None),
        0 <= i < cs.len(),
    ensures
        cs[i] is None,
    decreases cs.len(),
{
    if i < cs.len() - 1 {
        lemma_fold_none_all(cs.drop_last(), init, i);
        assert(cs.drop_last()[i] == cs[i]);
    }
}

/// The place of a field on its sidecar's lines.
pub open spec fn field_position(f: MetadataFields) -> int {
    match f {
        MetadataFields::Fid => 0,
        MetadataFields::Iid => 1,
        MetadataFields::Father => 2,
        MetadataFields::Mother => 3,
        MetadataFields::Sex => 4,
        MetadataFields::Pheno => 5,
        MetadataFields::Chromosome => 0,
        MetadataFields::Sid => 1,
        MetadataFields::CmPosition => 2,
        MetadataFields::BpPosition => 3,
        MetadataFields::Allele1 => 4,
        MetadataFields::Allele2 => 5,
    }
}

/// Two present row fields of different lengths make the row counts disagree,
/// whatever count is declared; so do two present column fields for the columns.
pub proof fn lemma_uneven_fields_disagree(m: Metadata, f: MetadataFields, g: MetadataFields, init: Option<usize>)
    requires
        Metadata::is_row_field(f) == Metadata::is_row_field(g),
        m.len_of(f) is Some,
        m.len_of(g) is Some,
        m.len_of(f) != m.len_of(g),
        m.len_of(f)->Some_0 <= usize::MAX,
        m.len_of(g)->Some_0 <= usize::MAX,
    ensures
        Metadata::is_row_field(f) ==> fold_counts(m.row_counts(), init) is Err,
        !Metadata::is_row_field(f) ==> fold_counts(m.col_counts(), init) is Err,
{
    let cs = if Metadata::is_row_field(f) { m.row_counts() } else { m.col_counts() };
    let (i, j) = (field_position(f), field_position(g));
    assert(cs[i] == spec_count(m.len_of(f)));
    assert(cs[j] == spec_count(m.len_of(g)));
    if i < j {
        lemma_fold_disagree(cs, init, i, j);
    } else {
        lemma_fold_disagree(cs, init, j, i);
    }
}

/// A skipped field that is absent stays absent when its sidecar is parsed, and
/// then the sidecar cannot be emitted.
pub proof fn lemma_skipped_field_stays_absent(
    before: Metadata,
    after: Metadata,
    lines: Seq<String>,
    skip_set: Seq<MetadataFields>,
    f: MetadataFields,
)
    requires
        skip_set.contains(f),
        before.len_of(f) is None,
        Metadata::is_row_field(f) ==> before.fam_parsed(after, lines, skip_set),
        !Metadata::is_row_field(f) ==> before.bim_parsed(after, lines, skip_set),
    ensures
        after.len_of(f) is None,
        Metadata::is_row_field(f) ==> first_absent(after, fam_fields()) is Some,
        !Metadata::is_row_field(f) ==> first_absent(after, bim_fields()) is Some,
{
    let fields = if Metadata::is_row_field(f) { fam_fields() } else { bim_fields() };
    let k = field_position(f);
    assert(fields[k] == f);
    lemma_absent_found(after, fields, k);
}

proof fn lemma_absent_found(m: Metadata, fields: Seq<MetadataFields>, k: int)
    requires
        0 <= k < fields.len(),
        m.len_of(fields[k]) is None,
    ensures
        first_absent(m, fields) is Some,
    decreases fields.len(),
{
    if k < fields.len() - 1 {
        assert(fields.drop_last()[k] == fields[k]);
        lemma_absent_found(m, fields.drop_last(), k);
    }
}

impl Metadata {
    /// The field's values, if present.
    pub fn fid(&self) -> (r: Option<&Vec<String>>)
        ensures
            r == match &self.fid {
                Some(v) => Some(v),
                None => None::<&Vec<String>>,
            },
    {
        match &self.fid {
            Some(v) => Some(v),
            None => None,
        }
    }

    /// The field's values, if present.
    pub fn iid(&self) -> (r: Option<&Vec<String>>)
        ensures
            r == match &self.iid {
                Some(v) => Some(v),
                None => None::<&Vec<String>>,
            },
    {
        match &self.iid {
            Some(v) => Some(v),
            None => None,
        }
    }

    /// The field's values, if present.
    pub fn father(&self) -> (r: Option<&Vec<String>>)
        ensures
            r == match &self.father {
                Some(v) => Some(v),
                None => None::<&Vec<String>>,
            },
    {
        match &self.father {
            Some(v) => Some(v),
            None => None,
        }
    }

    /// The field's values, if present.
    pub fn mother(&self) -> (r: Option<&Vec<String>>)
        ensures
            r == match &self.mother {
                Some(v) => Some(v),
                None => None::<&Vec<String>>,
            },
    {
        match &self.mother {
            Some(v) => Some(v),
            None => None,
        }
    }

    /// The field's values, if present.
    pub fn sex(&self) -> (r: Option<&Vec<i32>>)
        ensures
            r == match &self.sex {
                Some(v) => Some(v),
                None => None::<&Vec<i32>>,
            },
    {
        match &self.sex {
            Some(v) => Some(v),
            None => None,
        }
    }

    /// The field's values, if present.
    pub fn pheno(&self) -> (r: Option<&Vec<String>>)
        ensures
            r == match &self.pheno {
                Some(v) => Some(v),
                None => None::<&Vec<String>>,
            },
    {
        match &self.pheno {
            Some(v) => Some(v),
            None => None,
        }
    }

    /// The field's values, if present.
    pub fn chromosome(&self) -> (r: Option<&Vec<String>>)
        ensures
            r == match &self.chromosome {
                Some(v) => Some(v),
                None => None::<&Vec<String>>,
            },
    {
        match &self.chromosome {
            Some(v) => Some(v),
            None => None,
        }
    }

    /// The field's values, if present.
    pub fn sid(&self) -> (r: Option<&Vec<String>>)
        ensures
            r == match &self.sid {
                Some(v) => Some(v),
                None => None::<&Vec<String>>,
            },
    {
        match &self.sid {
            Some(v) => Some(v),
            None => None,
        }
    }

    /// The centimorgan positions' texts, if present.
    pub fn cm_position(&self) -> (r: Option<&Vec<String>>)
        ensures
            r == match &self.cm_position {
                Some(v) => Some(v),
                None => None::<&Vec<String>>,
            },
    {
        match &self.cm_position {
            Some(v) => Some(v),
            None => None,
        }
    }

    /// The field's values, if present.
    pub fn bp_position(&self) -> (r: Option<&Vec<i32>>)
        ensures
            r == match &self.bp_position {
                Some(v) => Some(v),
                None => None::<&Vec<i32>>,
            },
    {
        match &self.bp_position {
            Some(v) => Some(v),
            None => None,
        }
    }

    /// The field's values, if present.
    pub fn allele_1(&self) -> (r: Option<&Vec<String>>)
        ensures
            r == match &self.allele_1 {
                Some(v) => Some(v),
                None => None::<&Vec<String>>,
            },
    {
        match &self.allele_1 {
            Some(v) => Some(v),
            None => None,
        }
    }

    /// The field's values, if present.
    pub fn allele_2(&self) -> (r: Option<&Vec<String>>)
        ensures
            r == match &self.allele_2 {
                Some(v) => Some(v),
                None => None::<&Vec<String>>,
            },
    {
        match &self.allele_2 {
            Some(v) => Some(v),
            None => None,
        }
    }
}

} // verus!
