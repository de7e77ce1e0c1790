use vstd::prelude::*;
use vstd::string::*;
use crate::error::{BedError, BedErrorPlus};
use crate::metadata::{
    check_counts, first_bad_line, fold_counts, ints_of, line_fields, opt_ints, opt_texts, skips,
    strings_of, strs_view, Metadata, MetadataFields,
};

verus! {

/// The position of the last `c` in `s`, or -1.
pub open spec fn last_index_of(s: Seq<char>, c: char) -> int
    decreases s.len(),
{
    if s.len() == 0 {
        -1
    } else if s.last() == c {
        s.len() - 1
    } else {
        last_index_of(s.drop_last(), c)
    }
}

/// The path without its trailing slashes and trailing `.` components.
pub open spec fn trim_slashes(p: Seq<char>) -> Seq<char>
    decreases p.len(),
{
    if p.len() > 0 && p.last() == '/' {
        trim_slashes(p.drop_last())
    } else if p.len() >= 2 && p.last() == '.' && p[p.len() - 2] == '/' {
        trim_slashes(p.drop_last())
    } else {
        p
    }
}

/// The path with its file name's extension replaced by `ext`, or `ext` added
/// when the file name has none (a leading dot starts no extension). Trailing
/// slashes and `.` components are dropped; a path without a file name (empty,
/// all slashes, `.`, or ending in `..`) is left as it is.
pub open spec fn with_extension(p: Seq<char>, ext: Seq<char>) -> Seq<char> {
    let q = trim_slashes(p);
    let slash = last_index_of(q, '/');
    let name = q.subrange(slash + 1, q.len() as int);
    if q.len() == 0 || name == seq!['.'] || name == seq!['.', '.'] {
        p
    } else {
        let dot = last_index_of(q, '.');
        if dot > slash + 1 {
            q.subrange(0, dot) + seq!['.'] + ext
        } else {
            q + seq!['.'] + ext
        }
    }
}

proof fn lemma_last_index_bounds(s: Seq<char>, c: char)
    ensures
        -1 <= last_index_of(s, c) < s.len(),
    decreases s.len(),
{
    if s.len() > 0 {
        lemma_last_index_bounds(s.drop_last(), c);
    }
}

fn find_last(s: &str, c: char) -> (r: i64)
    requires
        s@.len() < i64::MAX,
    ensures
        r == last_index_of(s@, c),
        -1 <= r < s@.len(),
{
    proof {
        lemma_last_index_bounds(s@, c);
        assert(s@.subrange(0, s@.len() as int) =~= s@);
    }
    let n = s.unicode_len();
    let mut i: usize = n;
    while i > 0
        invariant
            i <= n == s@.len() < i64::MAX,
            -1 <= last_index_of(s@, c) < s@.len(),
            last_index_of(s@, c) == last_index_of(s@.subrange(0, i as int), c),
        decreases i,
    {
        proof {
            assert(s@.subrange(0, i as int).drop_last() =~= s@.subrange(0, i - 1));
        }
        if s.get_char(i - 1) == c {
            return (i - 1) as i64;
        }
        i = i - 1;
    }
    -1
}

/// The path of a sidecar: the one given, else the matrix file's path with the
/// sidecar's extension.
pub fn to_metadata_path(bed_path: &String, metadata_path: &Option<String>, extension: &str) -> (r: String)
    requires
        bed_path@.len() < i64::MAX,
    ensures
        r@ == match metadata_path {
            Some(p) => p@,
            None => with_extension(bed_path@, extension@),
        },
{
    match metadata_path {
        Some(p) => p.clone(),
        None => {
            let path: &str = bed_path.as_str();
            let n: usize = path.unicode_len();
            let mut e: usize = n;
            proof {
                assert(path@.subrange(0, n as int) =~= path@);
            }
            while e > 0 && (path.get_char(e - 1) == '/' || (e >= 2 && path.get_char(e - 1) == '.'
                && path.get_char(e - 2) == '/'))
                invariant
                    e <= n == path@.len(),
                    trim_slashes(path@.subrange(0, e as int)) == trim_slashes(path@),
                decreases e,
            {
                proof {
                    assert(path@.subrange(0, e as int).drop_last() =~= path@.subrange(0, e - 1));
                }
                e = e - 1;
            }
            proof {
                let t = path@.subrange(0, e as int);
                if e > 0 {
                    assert(t.last() == path@[e - 1]);
                }
                if e >= 2 {
                    assert(t[t.len() - 2] == path@[e - 2]);
                }
                assert(trim_slashes(t) == t);
            }
            let q: &str = path.substring_char(0, e);
            let slash = find_last(q, '/');
            let dot = find_last(q, '.');
            let name_len: usize = (e as i64 - slash - 1) as usize;
            let is_dots = (name_len == 1 && q.get_char(e - 1) == '.') || (name_len == 2
                && q.get_char(e - 1) == '.' && q.get_char(e - 2) == '.');
            proof {
                reveal_strlit(".");
                assert("."@ =~= seq!['.']);
                let name = q@.subrange(slash + 1, q@.len() as int);
                assert(name.len() == name_len);
                if name_len == 1 {
                    assert(name =~= seq![q@[e - 1]]);
                    if name == seq!['.'] {
                        assert(name[0] == '.');
                    }
                } else if name_len == 2 {
                    assert(name =~= seq![q@[e - 2], q@[e - 1]]);
                    if name == seq!['.', '.'] {
                        assert(name[0] == '.' && name[1] == '.');
                    }
                } else {
                    assert(name.len() != seq!['.'].len());
                    assert(name.len() != seq!['.', '.'].len());
                }
                assert(is_dots == (name == seq!['.'] || name == seq!['.', '.']));
            }
            if e == 0 || is_dots {
                return bed_path.clone();
            }
            let stem: &str = if dot > slash + 1 {
                q.substring_char(0, dot as usize)
            } else {
                q
            };
            let mut s = stem.to_owned();
            let ghost s0 = s@;
            s.append(".");
            let ghost s1 = s@;
            s.append(extension);
            proof {
                assert(s1 == s0 + seq!['.']);
                assert(s@ == s1 + extension@);
                assert(s@ =~= with_extension(bed_path@, extension@));
            }
            s
        },
    }
}

/// A dataset: the matrix file's path, the sidecars' paths once known, the counts
/// once known, the metadata read or set so far, and the fields never to read.
pub struct Bed {
    pub path: String,
    pub fam_path: Option<String>,
    pub bim_path: Option<String>,
    pub is_checked_early: bool,
    pub iid_count: Option<usize>,
    pub sid_count: Option<usize>,
    pub metadata: Metadata,
    pub skip_set: Vec<MetadataFields>,
}

/// The settings of a dataset before it is opened.
pub struct BedBuilder {
    pub path: String,
    pub fam_path: Option<String>,
    pub bim_path: Option<String>,
    pub is_checked_early: bool,
    pub iid_count: Option<usize>,
    pub sid_count: Option<usize>,
    pub metadata: Metadata,
    pub skip_set: Vec<MetadataFields>,
}

impl Bed {
    /// Every present row field has the row count, when known, and every present
    /// column field the column count.
    pub open spec fn wf(&self) -> bool {
        &&& fold_counts(self.metadata.row_counts(), self.iid_count) == Ok::<
            Option<usize>,
            (usize, usize),
        >(self.iid_count)
        &&& fold_counts(self.metadata.col_counts(), self.sid_count) == Ok::<
            Option<usize>,
            (usize, usize),
        >(self.sid_count)
    }

    pub fn builder(path: &str) -> (r: BedBuilder)
        ensures
            r.path@ == path@,
            r.fam_path is None,
            r.bim_path is None,
            r.is_checked_early,
            r.iid_count is None,
            r.sid_count is None,
            forall|f: MetadataFields| r.metadata.len_of(f) is None,
            r.skip_set@.len() == 0,
    {
        BedBuilder::new(path)
    }

    /// The matrix file's path.
    pub fn path(&self) -> (r: &String)
        ensures
            r == &self.path,
    {
        &self.path
    }

    /// The row sidecar's path, derived from the matrix file's path when not given.
    pub fn fam_path(&mut self) -> (r: String)
        requires
            old(self).path@.len() < i64::MAX,
        ensures
            r@ == match old(self).fam_path {
                Some(p) => p@,
                None => with_extension(old(self).path@, seq!['f', 'a', 'm']),
            },
            final(self).fam_path matches Some(p) && p@ == r@,
            final(self).path == old(self).path,
            final(self).bim_path == old(self).bim_path,
            final(self).iid_count == old(self).iid_count,
            final(self).sid_count == old(self).sid_count,
            final(self).metadata == old(self).metadata,
            final(self).skip_set == old(self).skip_set,
            final(self).is_checked_early == old(self).is_checked_early,
    {
        proof {
            reveal_strlit("fam");
            assert("fam"@ =~= seq!['f', 'a', 'm']);
        }
        let path = to_metadata_path(&self.path, &self.fam_path, "fam");
        self.fam_path = Some(path.clone());
        path
    }

    /// The column sidecar's path, derived from the matrix file's path when not given.
    pub fn bim_path(&mut self) -> (r: String)
        requires
            old(self).path@.len() < i64::MAX,
        ensures
            r@ == match old(self).bim_path {
                Some(p) => p@,
                None => with_extension(old(self).path@, seq!['b', 'i', 'm']),
            },
            final(self).bim_path matches Some(p) && p@ == r@,
            final(self).path == old(self).path,
            final(self).fam_path == old(self).fam_path,
            final(self).iid_count == old(self).iid_count,
            final(self).sid_count == old(self).sid_count,
            final(self).metadata == old(self).metadata,
            final(self).skip_set == old(self).skip_set,
            final(self).is_checked_early == old(self).is_checked_early,
    {
        proof {
            reveal_strlit("bim");
            assert("bim"@ =~= seq!['b', 'i', 'm']);
        }
        let path = to_metadata_path(&self.path, &self.bim_path, "bim");
        self.bim_path = Some(path.clone());
        path
    }

    /// Whether a row field must be parsed before it can be handed out: fails when
    /// it is skipped, else says whether it is still absent.
    pub fn unlazy_fam(&self, field: MetadataFields) -> (r: Result<bool, BedErrorPlus>)
        ensures
            match r {
                Ok(absent) => !self.skip_set@.contains(field) && absent == (
                self.metadata.len_of(field) is None),
                Err(BedErrorPlus::BedError(BedError::CannotUseSkippedMetadata(name))) => self.skip_set@.contains(field) && name@ == crate::metadata::field_name_text(field),
                Err(_) => false,
            },
    {
        if skips(&self.skip_set, field) {
            return Err(
                BedErrorPlus::BedError(
                    BedError::CannotUseSkippedMetadata(crate::metadata::field_name(field)),
                ),
            );
        }
        Ok(self.metadata.field_count(field).is_none())
    }

    /// Whether a column field must be parsed before it can be handed out: fails
    /// when it is skipped, else says whether it is still absent.
    pub fn unlazy_bim(&self, field: MetadataFields) -> (r: Result<bool, BedErrorPlus>)
        ensures
            match r {
                Ok(absent) => !self.skip_set@.contains(field) && absent == (
                self.metadata.len_of(field) is None),
                Err(BedErrorPlus::BedError(BedError::CannotUseSkippedMetadata(name))) => self.skip_set@.contains(field) && name@ == crate::metadata::field_name_text(field),
                Err(_) => false,
            },
    {
        self.unlazy_fam(field)
    }

    /// The row count: the one known, else `line_count`, the number of lines of
    /// the row sidecar, which is then kept.
    pub fn iid_count_or(&mut self, line_count: usize) -> (r: usize)
        ensures
            r == match old(self).iid_count {
                Some(n) => n,
                None => line_count,
            },
            final(self).iid_count == Some(r),
            final(self).sid_count == old(self).sid_count,
            final(self).metadata == old(self).metadata,
    {
        match self.iid_count {
            Some(n) => n,
            None => {
                self.iid_count = Some(line_count);
                line_count
            },
        }
    }

    /// The column count: the one known, else `line_count`, the number of lines
    /// of the column sidecar, which is then kept.
    pub fn sid_count_or(&mut self, line_count: usize) -> (r: usize)
        ensures
            r == match old(self).sid_count {
                Some(n) => n,
                None => line_count,
            },
            final(self).sid_count == Some(r),
            final(self).iid_count == old(self).iid_count,
            final(self).metadata == old(self).metadata,
    {
        match self.sid_count {
            Some(n) => n,
            None => {
                self.sid_count = Some(line_count);
                line_count
            },
        }
    }

    /// Takes in the lines of the row sidecar: parses every field that is absent
    /// and not skipped, and checks the number of lines against the row count,
    /// setting it when unknown. A declared row count that differs from the
    /// number of lines fails with `InconsistentCount`.
    pub fn fam(&mut self, lines: &Vec<String>) -> (r: Result<(), BedErrorPlus>)
        requires
            old(self).path@.len() < i64::MAX,
        ensures
            old(self).metadata.fam_parse_fails(lines@, old(self).skip_set@) ==> match first_bad_line(
                line_fields(lines@),
            ) {
                Some(k) => r matches Err(
                    BedErrorPlus::BedError(BedError::MetadataFieldCount(six, n, p)),
                ) && six == 6 && n == line_fields(lines@)[k].len() && p@ == match old(self).fam_path {
                    Some(q) => q@,
                    None => with_extension(old(self).path@, seq!['f', 'a', 'm']),
                },
                None => r matches Err(BedErrorPlus::ParseIntError(_)),
            },
            !old(self).metadata.fam_parse_fails(lines@, old(self).skip_set@) ==> {
                &&& old(self).metadata.fam_parsed(final(self).metadata, lines@, old(self).skip_set@)
                &&& match old(self).iid_count {
                    Some(n) => if n == lines@.len() {
                        r is Ok && final(self).iid_count == Some(n)
                    } else {
                        r matches Err(
                            BedErrorPlus::BedError(BedError::InconsistentCount(p, a, b)),
                        ) && p@ == seq!['i', 'i', 'd'] && a == n && b == lines@.len()
                    },
                    None => r is Ok && final(self).iid_count == Some(lines@.len() as usize),
                }
            },
            final(self).sid_count == old(self).sid_count,
            final(self).skip_set == old(self).skip_set,
            final(self).path == old(self).path,
    {
        let fam_path = self.fam_path();
        let (metadata, count) = self.metadata.read_fam(lines, &fam_path, &self.skip_set)?;
        self.metadata = metadata;
        match self.iid_count {
            Some(iid_count) => {
                if iid_count != count {
                    proof {
                        reveal_strlit("iid");
                        assert("iid"@ =~= seq!['i', 'i', 'd']);
                    }
                    return Err(
                        BedErrorPlus::BedError(
                            BedError::InconsistentCount("iid".to_owned(), iid_count, count),
                        ),
                    );
                }
            },
            None => {
                self.iid_count = Some(count);
            },
        }
        Ok(())
    }

    /// Takes in the lines of the column sidecar: parses every field that is
    /// absent and not skipped, and checks the number of lines against the column
    /// count, setting it when unknown. A declared column count that differs from
    /// the number of lines fails with `InconsistentCount`.
    pub fn bim(&mut self, lines: &Vec<String>) -> (r: Result<(), BedErrorPlus>)
        requires
            old(self).path@.len() < i64::MAX,
        ensures
            old(self).metadata.bim_parse_fails(lines@, old(self).skip_set@) ==> match first_bad_line(
                line_fields(lines@),
            ) {
                Some(k) => r matches Err(
                    BedErrorPlus::BedError(BedError::MetadataFieldCount(six, n, p)),
                ) && six == 6 && n == line_fields(lines@)[k].len() && p@ == match old(self).bim_path {
                    Some(q) => q@,
                    None => with_extension(old(self).path@, seq!['b', 'i', 'm']),
                },
                None => r matches Err(BedErrorPlus::ParseIntError(_)),
            },
            !old(self).metadata.bim_parse_fails(lines@, old(self).skip_set@) ==> {
                &&& old(self).metadata.bim_parsed(final(self).metadata, lines@, old(self).skip_set@)
                &&& match old(self).sid_count {
                    Some(n) => if n == lines@.len() {
                        r is Ok && final(self).sid_count == Some(n)
                    } else {
                        r matches Err(
                            BedErrorPlus::BedError(BedError::InconsistentCount(p, a, b)),
                        ) && p@ == seq!['s', 'i', 'd'] && a == n && b == lines@.len()
                    },
                    None => r is Ok && final(self).sid_count == Some(lines@.len() as usize),
                }
            },
            final(self).iid_count == old(self).iid_count,
            final(self).skip_set == old(self).skip_set,
            final(self).path == old(self).path,
    {
        let bim_path = self.bim_path();
        let (metadata, count) = self.metadata.read_bim(lines, &bim_path, &self.skip_set)?;
        self.metadata = metadata;
        match self.sid_count {
            Some(sid_count) => {
                if sid_count != count {
                    proof {
                        reveal_strlit("sid");
                        assert("sid"@ =~= seq!['s', 'i', 'd']);
                    }
                    return Err(
                        BedErrorPlus::BedError(
                            BedError::InconsistentCount("sid".to_owned(), sid_count, count),
                        ),
                    );
                }
            },
            None => {
                self.sid_count = Some(count);
            },
        }
        Ok(())
    }
}

/// Present counts agree with `x` wherever present.
pub open spec fn all_match(cs: Seq<Option<usize>>, x: usize) -> bool {
    forall|i: int| 0 <= i < cs.len() ==> (#[trigger] cs[i] matches Some(c) ==> c == x)
}

proof fn lemma_fold_some(cs: Seq<Option<usize>>, init: Option<usize>, x: usize)
    requires
        fold_counts(cs, init) == Ok::<Option<usize>, (usize, usize)>(Some(x)),
    ensures
        all_match(cs, x),
        init matches Some(y) ==> y == x,
    decreases cs.len(),
{
    if cs.len() > 0 {
        match fold_counts(cs.drop_last(), init) {
            Ok(Some(y)) => {
                lemma_fold_some(cs.drop_last(), init, y);
            },
            Ok(None) => {
                lemma_fold_none(cs.drop_last(), init);
            },
            Err(_) => {},
        }
        assert forall|i: int| 0 <= i < cs.len() implies (#[trigger] cs[i] matches Some(c) ==> c
            == x) by {
            if i < cs.len() - 1 {
                assert(cs.drop_last()[i] == cs[i]);
            }
        }
    }
}

proof fn lemma_fold_none(cs: Seq<Option<usize>>, init: Option<usize>)
    requires
        fold_counts(cs, init) == Ok::<Option<usize>, (usize, usize)>(None),
    ensures
        init is None,
        forall|i: int| 0 <= i < cs.len() ==> #[trigger] cs[i] is None,
    decreases cs.len(),
{
    if cs.len() > 0 {
        lemma_fold_none(cs.drop_last(), init);
        assert forall|i: int| 0 <= i < cs.len() implies #[trigger] cs[i] is None by {
            if i < cs.len() - 1 {
                assert(cs.drop_last()[i] == cs[i]);
            }
        }
    }
}

proof fn lemma_fold_fixed(cs: Seq<Option<usize>>, v: Option<usize>)
    requires
        match v {
            Some(x) => all_match(cs, x),
            None => forall|i: int| 0 <= i < cs.len() ==> #[trigger] cs[i] is None,
        },
    ensures
        fold_counts(cs, v) == Ok::<Option<usize>, (usize, usize)>(v),
    decreases cs.len(),
{
    if cs.len() > 0 {
        assert forall|i: int| 0 <= i < cs.len() - 1 implies #[trigger] cs.drop_last()[i] == cs[i] by {}
        lemma_fold_fixed(cs.drop_last(), v);
        assert(cs.last() == cs[cs.len() - 1]);
    }
}

/// A fold that succeeds is a fixed point: folding again from its result gives it back.
proof fn lemma_fold_again(cs: Seq<Option<usize>>, init: Option<usize>)
    requires
        fold_counts(cs, init) is Ok,
    ensures
        fold_counts(cs, fold_counts(cs, init)->Ok_0) == fold_counts(cs, init),
{
    match fold_counts(cs, init) {
        Ok(Some(x)) => {
            lemma_fold_some(cs, init, x);
            lemma_fold_fixed(cs, Some(x));
        },
        Ok(None) => {
            lemma_fold_none(cs, init);
            lemma_fold_fixed(cs, None);
        },
        Err(_) => {},
    }
}

impl BedBuilder {
    pub fn new(path: &str) -> (r: BedBuilder)
        ensures
            r.path@ == path@,
            r.fam_path is None,
            r.bim_path is None,
            r.is_checked_early,
            r.iid_count is None,
            r.sid_count is None,
            forall|f: MetadataFields| r.metadata.len_of(f) is None,
            r.skip_set@.len() == 0,
    {
        BedBuilder {
            path: path.to_owned(),
            fam_path: None,
            bim_path: None,
            is_checked_early: true,
            iid_count: None,
            sid_count: None,
            metadata: Metadata::new(),
            skip_set: Vec::new(),
        }
    }

    /// The dataset, when every present row field agrees with the others and with a
    /// given row count, and likewise for the columns; else the first pair that
    /// disagrees. Known counts are taken from the fields where not given.
    pub fn build(self) -> (r: Result<Bed, BedErrorPlus>)
        ensures
            match fold_counts(self.metadata.row_counts(), self.iid_count) {
                Err((a, b)) => r matches Err(
                    BedErrorPlus::BedError(BedError::InconsistentCount(p, x, y)),
                ) && p@ == seq!['i', 'i', 'd'] && x == a && y == b,
                Ok(ic) => match fold_counts(self.metadata.col_counts(), self.sid_count) {
                    Err((a, b)) => r matches Err(
                        BedErrorPlus::BedError(BedError::InconsistentCount(p, x, y)),
                    ) && p@ == seq!['s', 'i', 'd'] && x == a && y == b,
                    Ok(sc) => r matches Ok(bed) && bed.iid_count == ic && bed.sid_count == sc
                        && bed.path == self.path && bed.fam_path == self.fam_path && bed.bim_path
                        == self.bim_path && bed.is_checked_early == self.is_checked_early
                        && bed.metadata == self.metadata && bed.skip_set == self.skip_set
                        && bed.wf(),
                },
            },
    {
        proof {
            reveal_strlit("iid");
            reveal_strlit("sid");
            assert("iid"@ =~= seq!['i', 'i', 'd']);
            assert("sid"@ =~= seq!['s', 'i', 'd']);
        }
        let mut iid_count = self.iid_count;
        let mut sid_count = self.sid_count;
        check_counts(self.metadata.row_count_vec(), &mut iid_count, "iid")?;
        check_counts(self.metadata.col_count_vec(), &mut sid_count, "sid")?;
        proof {
            lemma_fold_again(self.metadata.row_counts(), self.iid_count);
            lemma_fold_again(self.metadata.col_counts(), self.sid_count);
        }
        Ok(
            Bed {
                path: self.path,
                fam_path: self.fam_path,
                bim_path: self.bim_path,
                is_checked_early: self.is_checked_early,
                iid_count,
                sid_count,
                metadata: self.metadata,
                skip_set: self.skip_set,
            },
        )
    }

    /// Sets the row sidecar's path.
    pub fn fam_path(self, path: &str) -> (r: Self)
        ensures
            r.fam_path matches Some(p) && p@ == path@,
            r.path == self.path,
            r.bim_path == self.bim_path,
            r.is_checked_early == self.is_checked_early,
            r.iid_count == self.iid_count,
            r.sid_count == self.sid_count,
            r.metadata == self.metadata,
            r.skip_set == self.skip_set,
    {
        let mut r = self;
        r.fam_path = Some(path.to_owned());
        r
    }

    /// Sets the column sidecar's path.
    pub fn bim_path(self, path: &str) -> (r: Self)
        ensures
            r.bim_path matches Some(p) && p@ == path@,
            r.path == self.path,
            r.fam_path == self.fam_path,
            r.is_checked_early == self.is_checked_early,
            r.iid_count == self.iid_count,
            r.sid_count == self.sid_count,
            r.metadata == self.metadata,
            r.skip_set == self.skip_set,
    {
        let mut r = self;
        r.bim_path = Some(path.to_owned());
        r
    }

    /// Leaves the header check to the first read.
    pub fn skip_early_check(self) -> (r: Self)
        ensures
            !r.is_checked_early,
            r.path == self.path,
            r.fam_path == self.fam_path,
            r.bim_path == self.bim_path,
            r.iid_count == self.iid_count,
            r.sid_count == self.sid_count,
            r.metadata == self.metadata,
            r.skip_set == self.skip_set,
    {
        let mut r = self;
        r.is_checked_early = false;
        r
    }

    /// Declares the row count.
    pub fn iid_count(self, count: usize) -> (r: Self)
        ensures
            r.iid_count == Some(count),
            r.path == self.path,
            r.fam_path == self.fam_path,
            r.bim_path == self.bim_path,
            r.is_checked_early == self.is_checked_early,
            r.sid_count == self.sid_count,
            r.metadata == self.metadata,
            r.skip_set == self.skip_set,
    {
        let mut r = self;
        r.iid_count = Some(count);
        r
    }

    /// Declares the column count.
    pub fn sid_count(self, count: usize) -> (r: Self)
        ensures
            r.sid_count == Some(count),
            r.path == self.path,
            r.fam_path == self.fam_path,
            r.bim_path == self.bim_path,
            r.is_checked_early == self.is_checked_early,
            r.iid_count == self.iid_count,
            r.metadata == self.metadata,
            r.skip_set == self.skip_set,
    {
        let mut r = self;
        r.sid_count = Some(count);
        r
    }

    /// Marks the field as never to be read.
    pub fn skip_fid(self) -> (r: Self)
        ensures
            r.skip_set@ == self.skip_set@.push(MetadataFields::Fid),
            r.path == self.path,
            r.fam_path == self.fam_path,
            r.bim_path == self.bim_path,
            r.is_checked_early == self.is_checked_early,
            r.iid_count == self.iid_count,
            r.sid_count == self.sid_count,
            r.metadata == self.metadata,
    {
        let mut r = self;
        r.skip_set.push(MetadataFields::Fid);
        r
    }

    /// Marks the field as never to be read.
    pub fn skip_iid(self) -> (r: Self)
        ensures
            r.skip_set@ == self.skip_set@.push(MetadataFields::Iid),
            r.path == self.path,
            r.fam_path == self.fam_path,
            r.bim_path == self.bim_path,
            r.is_checked_early == self.is_checked_early,
            r.iid_count == self.iid_count,
            r.sid_count == self.sid_count,
            r.metadata == self.metadata,
    {
        let mut r = self;
        r.skip_set.push(MetadataFields::Iid);
        r
    }

    /// Marks the field as never to be read.
    pub fn skip_father(self) -> (r: Self)
        ensures
            r.skip_set@ == self.skip_set@.push(MetadataFields::Father),
            r.path == self.path,
            r.fam_path == self.fam_path,
            r.bim_path == self.bim_path,
            r.is_checked_early == self.is_checked_early,
            r.iid_count == self.iid_count,
            r.sid_count == self.sid_count,
            r.metadata == self.metadata,
    {
        let mut r = self;
        r.skip_set.push(MetadataFields::Father);
        r
    }

    /// Marks the field as never to be read.
    pub fn skip_mother(self) -> (r: Self)
        ensures
            r.skip_set@ == self.skip_set@.push(MetadataFields::Mother),
            r.path == self.path,
            r.fam_path == self.fam_path,
            r.bim_path == self.bim_path,
            r.is_checked_early == self.is_checked_early,
            r.iid_count == self.iid_count,
            r.sid_count == self.sid_count,
            r.metadata == self.metadata,
    {
        let mut r = self;
        r.skip_set.push(MetadataFields::Mother);
        r
    }

    /// Marks the field as never to be read.
    pub fn skip_sex(self) -> (r: Self)
        ensures
            r.skip_set@ == self.skip_set@.push(MetadataFields::Sex),
            r.path == self.path,
            r.fam_path == self.fam_path,
            r.bim_path == self.bim_path,
            r.is_checked_early == self.is_checked_early,
            r.iid_count == self.iid_count,
            r.sid_count == self.sid_count,
            r.metadata == self.metadata,
    {
        let mut r = self;
        r.skip_set.push(MetadataFields::Sex);
        r
    }

    /// Marks the field as never to be read.
    pub fn skip_pheno(self) -> (r: Self)
        ensures
            r.skip_set@ == self.skip_set@.push(MetadataFields::Pheno),
            r.path == self.path,
            r.fam_path == self.fam_path,
            r.bim_path == self.bim_path,
            r.is_checked_early == self.is_checked_early,
            r.iid_count == self.iid_count,
            r.sid_count == self.sid_count,
            r.metadata == self.metadata,
    {
        let mut r = self;
        r.skip_set.push(MetadataFields::Pheno);
        r
    }

    /// Marks the field as never to be read.
    pub fn skip_chromosome(self) -> (r: Self)
        ensures
            r.skip_set@ == self.skip_set@.push(MetadataFields::Chromosome),
            r.path == self.path,
            r.fam_path == self.fam_path,
            r.bim_path == self.bim_path,
            r.is_checked_early == self.is_checked_early,
            r.iid_count == self.iid_count,
            r.sid_count == self.sid_count,
            r.metadata == self.metadata,
    {
        let mut r = self;
        r.skip_set.push(MetadataFields::Chromosome);
        r
    }

    /// Marks the field as never to be read.
    pub fn skip_sid(self) -> (r: Self)
        ensures
            r.skip_set@ == self.skip_set@.push(MetadataFields::Sid),
            r.path == self.path,
            r.fam_path == self.fam_path,
            r.bim_path == self.bim_path,
            r.is_checked_early == self.is_checked_early,
            r.iid_count == self.iid_count,
            r.sid_count == self.sid_count,
            r.metadata == self.metadata,
    {
        let mut r = self;
        r.skip_set.push(MetadataFields::Sid);
        r
    }

    /// Marks the field as never to be read.
    pub fn skip_cm_position(self) -> (r: Self)
        ensures
            r.skip_set@ == self.skip_set@.push(MetadataFields::CmPosition),
            r.path == self.path,
            r.fam_path == self.fam_path,
            r.bim_path == self.bim_path,
            r.is_checked_early == self.is_checked_early,
            r.iid_count == self.iid_count,
            r.sid_count == self.sid_count,
            r.metadata == self.metadata,
    {
        let mut r = self;
        r.skip_set.push(MetadataFields::CmPosition);
        r
    }

    /// Marks the field as never to be read.
    pub fn skip_bp_position(self) -> (r: Self)
        ensures
            r.skip_set@ == self.skip_set@.push(MetadataFields::BpPosition),
            r.path == self.path,
            r.fam_path == self.fam_path,
            r.bim_path == self.bim_path,
            r.is_checked_early == self.is_checked_early,
            r.iid_count == self.iid_count,
            r.sid_count == self.sid_count,
            r.metadata == self.metadata,
    {
        let mut r = self;
        r.skip_set.push(MetadataFields::BpPosition);
        r
    }

    /// Marks the field as never to be read.
    pub fn skip_allele_1(self) -> (r: Self)
        ensures
            r.skip_set@ == self.skip_set@.push(MetadataFields::Allele1),
            r.path == self.path,
            r.fam_path == self.fam_path,
            r.bim_path == self.bim_path,
            r.is_checked_early == self.is_checked_early,
            r.iid_count == self.iid_count,
            r.sid_count == self.sid_count,
            r.metadata == self.metadata,
    {
        let mut r = self;
        r.skip_set.push(MetadataFields::Allele1);
        r
    }

    /// Marks the field as never to be read.
    pub fn skip_allele_2(self) -> (r: Self)
        ensures
            r.skip_set@ == self.skip_set@.push(MetadataFields::Allele2),
            r.path == self.path,
            r.fam_path == self.fam_path,
            r.bim_path == self.bim_path,
            r.is_checked_early == self.is_checked_early,
            r.iid_count == self.iid_count,
            r.sid_count == self.sid_count,
            r.metadata == self.metadata,
    {
        let mut r = self;
        r.skip_set.push(MetadataFields::Allele2);
        r
    }

    /// Sets the field's values.
    pub fn fid(self, fid: &[&str]) -> (r: Self)
        ensures
            opt_texts(r.metadata.fid) == Some(strs_view(fid@)),
            r.metadata.same_except(&self.metadata, MetadataFields::Fid),
            r.path == self.path,
            r.fam_path == self.fam_path,
            r.bim_path == self.bim_path,
            r.is_checked_early == self.is_checked_early,
            r.iid_count == self.iid_count,
            r.sid_count == self.sid_count,
            r.skip_set == self.skip_set,
    {
        let mut r = self;
        r.metadata.fid = Some(strings_of(fid));
        r
    }

    /// Sets the field's values.
    pub fn iid(self, iid: &[&str]) -> (r: Self)
        ensures
            opt_texts(r.metadata.iid) == Some(strs_view(iid@)),
            r.metadata.same_except(&self.metadata, MetadataFields::Iid),
            r.path == self.path,
            r.fam_path == self.fam_path,
            r.bim_path == self.bim_path,
            r.is_checked_early == self.is_checked_early,
            r.iid_count == self.iid_count,
            r.sid_count == self.sid_count,
            r.skip_set == self.skip_set,
    {
        let mut r = self;
        r.metadata.iid = Some(strings_of(iid));
        r
    }

    /// Sets the field's values.
    pub fn father(self, father: &[&str]) -> (r: Self)
        ensures
            opt_texts(r.metadata.father) == Some(strs_view(father@)),
            r.metadata.same_except(&self.metadata, MetadataFields::Father),
            r.path == self.path,
            r.fam_path == self.fam_path,
            r.bim_path == self.bim_path,
            r.is_checked_early == self.is_checked_early,
            r.iid_count == self.iid_count,
            r.sid_count == self.sid_count,
            r.skip_set == self.skip_set,
    {
        let mut r = self;
        r.metadata.father = Some(strings_of(father));
        r
    }

    /// Sets the field's values.
    pub fn mother(self, mother: &[&str]) -> (r: Self)
        ensures
            opt_texts(r.metadata.mother) == Some(strs_view(mother@)),
            r.metadata.same_except(&self.metadata, MetadataFields::Mother),
            r.path == self.path,
            r.fam_path == self.fam_path,
            r.bim_path == self.bim_path,
            r.is_checked_early == self.is_checked_early,
            r.iid_count == self.iid_count,
            r.sid_count == self.sid_count,
            r.skip_set == self.skip_set,
    {
        let mut r = self;
        r.metadata.mother = Some(strings_of(mother));
        r
    }

    /// Sets the field's values.
    pub fn sex(self, sex: &[i32]) -> (r: Self)
        ensures
            opt_ints(r.metadata.sex) == Some(sex@),
            r.metadata.same_except(&self.metadata, MetadataFields::Sex),
            r.path == self.path,
            r.fam_path == self.fam_path,
            r.bim_path == self.bim_path,
            r.is_checked_early == self.is_checked_early,
            r.iid_count == self.iid_count,
            r.sid_count == self.sid_count,
            r.skip_set == self.skip_set,
    {
        let mut r = self;
        r.metadata.sex = Some(ints_of(sex));
        r
    }

    /// Sets the field's values.
    pub fn pheno(self, pheno: &[&str]) -> (r: Self)
        ensures
            opt_texts(r.metadata.pheno) == Some(strs_view(pheno@)),
            r.metadata.same_except(&self.metadata, MetadataFields::Pheno),
            r.path == self.path,
            r.fam_path == self.fam_path,
            r.bim_path == self.bim_path,
            r.is_checked_early == self.is_checked_early,
            r.iid_count == self.iid_count,
            r.sid_count == self.sid_count,
            r.skip_set == self.skip_set,
    {
        let mut r = self;
        r.metadata.pheno = Some(strings_of(pheno));
        r
    }

    /// Sets the field's values.
    pub fn chromosome(self, chromosome: &[&str]) -> (r: Self)
        ensures
            opt_texts(r.metadata.chromosome) == Some(strs_view(chromosome@)),
            r.metadata.same_except(&self.metadata, MetadataFields::Chromosome),
            r.path == self.path,
            r.fam_path == self.fam_path,
            r.bim_path == self.bim_path,
            r.is_checked_early == self.is_checked_early,
            r.iid_count == self.iid_count,
            r.sid_count == self.sid_count,
            r.skip_set == self.skip_set,
    {
        let mut r = self;
        r.metadata.chromosome = Some(strings_of(chromosome));
        r
    }

    /// Sets the field's values.
    pub fn sid(self, sid: &[&str]) -> (r: Self)
        ensures
            opt_texts(r.metadata.sid) == Some(strs_view(sid@)),
            r.metadata.same_except(&self.metadata, MetadataFields::Sid),
            r.path == self.path,
            r.fam_path == self.fam_path,
            r.bim_path == self.bim_path,
            r.is_checked_early == self.is_checked_early,
            r.iid_count == self.iid_count,
            r.sid_count == self.sid_count,
            r.skip_set == self.skip_set,
    {
        let mut r = self;
        r.metadata.sid = Some(strings_of(sid));
        r
    }

    /// Sets the field's values.
    pub fn cm_position(self, cm_position: &[&str]) -> (r: Self)
        ensures
            opt_texts(r.metadata.cm_position) == Some(strs_view(cm_position@)),
            r.metadata.same_except(&self.metadata, MetadataFields::CmPosition),
            r.path == self.path,
            r.fam_path == self.fam_path,
            r.bim_path == self.bim_path,
            r.is_checked_early == self.is_checked_early,
            r.iid_count == self.iid_count,
            r.sid_count == self.sid_count,
            r.skip_set == self.skip_set,
    {
        let mut r = self;
        r.metadata.cm_position = Some(strings_of(cm_position));
        r
    }

    /// Sets the field's values.
    pub fn bp_position(self, bp_position: &[i32]) -> (r: Self)
        ensures
            opt_ints(r.metadata.bp_position) == Some(bp_position@),
            r.metadata.same_except(&self.metadata, MetadataFields::BpPosition),
            r.path == self.path,
            r.fam_path == self.fam_path,
            r.bim_path == self.bim_path,
            r.is_checked_early == self.is_checked_early,
            r.iid_count == self.iid_count,
            r.sid_count == self.sid_count,
            r.skip_set == self.skip_set,
    {
        let mut r = self;
        r.metadata.bp_position = Some(ints_of(bp_position));
        r
    }

    /// Sets the field's values.
    pub fn allele_1(self, allele_1: &[&str]) -> (r: Self)
        ensures
            opt_texts(r.metadata.allele_1) == Some(strs_view(allele_1@)),
            r.metadata.same_except(&self.metadata, MetadataFields::Allele1),
            r.path == self.path,
            r.fam_path == self.fam_path,
            r.bim_path == self.bim_path,
            r.is_checked_early == self.is_checked_early,
            r.iid_count == self.iid_count,
            r.sid_count == self.sid_count,
            r.skip_set == self.skip_set,
    {
        let mut r = self;
        r.metadata.allele_1 = Some(strings_of(allele_1));
        r
    }

    /// Sets the field's values.
    pub fn allele_2(self, allele_2: &[&str]) -> (r: Self)
        ensures
            opt_texts(r.metadata.allele_2) == Some(strs_view(allele_2@)),
            r.metadata.same_except(&self.metadata, MetadataFields::Allele2),
            r.path == self.path,
            r.fam_path == self.fam_path,
            r.bim_path == self.bim_path,
            r.is_checked_early == self.is_checked_early,
            r.iid_count == self.iid_count,
            r.sid_count == self.sid_count,
            r.skip_set == self.skip_set,
    {
        let mut r = self;
        r.metadata.allele_2 = Some(strings_of(allele_2));
        r
    }
}

} // verus!
