use vstd::prelude::*;
use crate::codec::{
    check_and_precompute_iid_index, check_header, code_of, column_writable, decode_block,
    first_out_of_range, packed_code,
    packed_len, resolve_positions, try_div_4, value_table, fits_in_file, encode_column,
    CB_HEADER_U64,
};
use crate::error::{BedError, BedErrorPlus};
use crate::index::resolved;

verus! {

/// How a planned read turns out, before any block is fetched.
pub enum PlanOutcome {
    /// The magic bytes are wrong.
    BadHeader,
    /// The orientation byte is neither 0 nor 1.
    BadMode,
    /// The dimensions overflow the file-size arithmetic.
    TooBig,
    /// The file's length disagrees with the dimensions.
    BadLength,
    /// The row selection holds an out-of-range position, at this place.
    IidOut(int),
    /// The column selection holds an out-of-range position, at this place.
    SidOut(int),
    /// The read can go ahead.
    Ready,
}

/// Whether the header's magic bytes are right.
pub open spec fn good_magic(header: Seq<u8>) -> bool {
    header.len() >= 3 && header[0] == 0x6Cu8 && header[1] == 0x1Bu8
}

/// The counts along the packed axis and along the blocks, for an orientation byte.
pub open spec fn minor_major(mode: u8, iid_count: int, sid_count: int) -> (int, int) {
    if mode == 0 {
        (sid_count, iid_count)
    } else {
        (iid_count, sid_count)
    }
}

/// The count along the packed axis.
pub open spec fn minor_count(mode: u8, iid_count: int, sid_count: int) -> int {
    if mode == 0 { sid_count } else { iid_count }
}

/// The count along the blocks.
pub open spec fn major_count(mode: u8, iid_count: int, sid_count: int) -> int {
    if mode == 0 { iid_count } else { sid_count }
}

/// The selection along the packed axis.
pub open spec fn minor_sel(mode: u8, iid_index: Seq<isize>, sid_index: Seq<isize>) -> Seq<isize> {
    if mode == 0 { sid_index } else { iid_index }
}

/// The selection along the blocks.
pub open spec fn major_sel(mode: u8, iid_index: Seq<isize>, sid_index: Seq<isize>) -> Seq<isize> {
    if mode == 0 { iid_index } else { sid_index }
}

/// What a read of a file with this header and length comes to, checks taken in
/// order: header, size arithmetic, length, rows, columns.
pub open spec fn plan_outcome(
    header: Seq<u8>,
    file_len: int,
    iid_count: int,
    sid_count: int,
    iid_index: Seq<isize>,
    sid_index: Seq<isize>,
) -> PlanOutcome {
    if !good_magic(header) {
        PlanOutcome::BadHeader
    } else if header[2] != 0 && header[2] != 1 {
        PlanOutcome::BadMode
    } else {
        let (minor, major) = minor_major(header[2], iid_count, sid_count);
        if packed_len(minor) * major + 3 > u64::MAX {
            PlanOutcome::TooBig
        } else if file_len != 3 + packed_len(minor) * major {
            PlanOutcome::BadLength
        } else if first_out_of_range(iid_index, iid_count) is Some {
            PlanOutcome::IidOut(first_out_of_range(iid_index, iid_count)->Some_0)
        } else if first_out_of_range(sid_index, sid_count) is Some {
            PlanOutcome::SidOut(first_out_of_range(sid_index, sid_count)->Some_0)
        } else {
            PlanOutcome::Ready
        }
    }
}

/// A read, planned: the blocks to fetch, in output order, and where each
/// selected cell sits in a block.
pub struct ReadPlan {
    /// Each block is a row of the file (orientation byte 0) rather than a column.
    pub transposed: bool,
    /// Bytes of one block.
    pub block_len: usize,
    /// The file offset of each block to fetch.
    pub offsets: Vec<u64>,
    /// For each selected cell along a block, the byte that holds it.
    pub div4: Vec<usize>,
    /// For each selected cell along a block, the shift that brings its bits down.
    pub shift: Vec<u8>,
}

impl ReadPlan {
    pub open spec fn wf(&self) -> bool {
        &&& self.div4@.len() == self.shift@.len()
        &&& forall|j: int| 0 <= j < self.div4@.len() ==> #[trigger] self.div4@[j] < self.block_len
        &&& forall|j: int| 0 <= j < self.shift@.len() ==> #[trigger] self.shift@[j] < 8
    }

    /// The plan is the one for these dimensions and selections, with the
    /// orientation `mode`: blocks along the major axis, cells along the minor one.
    pub open spec fn describes(
        &self,
        mode: u8,
        iid_count: int,
        sid_count: int,
        iid_index: Seq<isize>,
        sid_index: Seq<isize>,
    ) -> bool {
        let minor = minor_count(mode, iid_count, sid_count);
        let major = major_count(mode, iid_count, sid_count);
        &&& self.wf()
        &&& self.transposed == (mode == 0)
        &&& self.block_len == packed_len(minor)
        &&& self.offsets@.len() == major_sel(mode, iid_index, sid_index).len()
        &&& forall|k: int|
            0 <= k < major_sel(mode, iid_index, sid_index).len() ==> {
                let p = resolved(#[trigger] major_sel(mode, iid_index, sid_index)[k] as int, major);
                &&& 0 <= p < major
                &&& self.offsets@[k] == 3 + p * packed_len(minor)
            }
        &&& self.div4@.len() == minor_sel(mode, iid_index, sid_index).len()
        &&& forall|j: int|
            0 <= j < minor_sel(mode, iid_index, sid_index).len() ==> {
                let p = resolved(#[trigger] minor_sel(mode, iid_index, sid_index)[j] as int, minor);
                &&& 0 <= p < minor
                &&& self.div4@[j] == p / 4
                &&& self.shift@[j] == 2 * (p % 4)
            }
    }
}

proof fn lemma_offset_fits(p: int, major: int, len: int)
    requires
        0 <= p < major,
        len >= 0,
        len * major + 3 <= u64::MAX,
    ensures
        3 + p * len + len <= u64::MAX,
        p * len + len <= len * major,
{
    assert(p * len + len <= len * major) by (nonlinear_arith)
        requires 0 <= p < major, len >= 0;
}

/// Checks a file's header and length against the dimensions, checks the
/// selections, and plans which blocks to fetch. `header` is the file's first
/// bytes, `file_len` its length in bytes.
pub fn plan_read(
    path: &String,
    header: &[u8],
    file_len: u64,
    iid_count: usize,
    sid_count: usize,
    iid_index: &[isize],
    sid_index: &[isize],
) -> (r: Result<ReadPlan, BedErrorPlus>)
    requires
        iid_count <= isize::MAX,
        sid_count <= isize::MAX,
    ensures
        match plan_outcome(
            header@,
            file_len as int,
            iid_count as int,
            sid_count as int,
            iid_index@,
            sid_index@,
        ) {
            PlanOutcome::BadHeader => r matches Err(BedErrorPlus::BedError(BedError::IllFormed(p)))
                && p@ == path@,
            PlanOutcome::BadMode => r matches Err(BedErrorPlus::BedError(BedError::BadMode(p)))
                && p@ == path@,
            PlanOutcome::TooBig => r matches Err(
                BedErrorPlus::BedError(BedError::IndexesTooBigForFiles(a, b)),
            ) && a == minor_count(header@[2], iid_count as int, sid_count as int) && b
                == major_count(header@[2], iid_count as int, sid_count as int),
            PlanOutcome::BadLength => r matches Err(BedErrorPlus::BedError(BedError::IllFormed(p)))
                && p@ == path@,
            PlanOutcome::IidOut(k) => r matches Err(
                BedErrorPlus::BedError(BedError::IidIndexTooBig(v)),
            ) && v == iid_index@[k],
            PlanOutcome::SidOut(k) => r matches Err(
                BedErrorPlus::BedError(BedError::SidIndexTooBig(v)),
            ) && v == sid_index@[k],
            PlanOutcome::Ready => r matches Ok(plan) && plan.describes(
                header@[2],
                iid_count as int,
                sid_count as int,
                iid_index@,
                sid_index@,
            ),
        },
{
    let mode = check_header(path, header)?;
    let transposed = mode == 0;
    let (minor, major) = if transposed {
        (sid_count, iid_count)
    } else {
        (iid_count, sid_count)
    };
    let (block_len, block_len_u64) = try_div_4(minor, major, CB_HEADER_U64)?;
    proof {
        assert(block_len * major + 3 <= u64::MAX) by (nonlinear_arith)
            requires
                major == 0 || packed_len(minor as int) * major + 3 <= u64::MAX,
                block_len == packed_len(minor as int),
        ;
    }
    let expected: u64 = block_len_u64 * (major as u64) + CB_HEADER_U64;
    if file_len != expected {
        return Err(BedErrorPlus::BedError(BedError::IllFormed(path.clone())));
    }
    // Rows are checked before columns, whichever axis the blocks run along.
    let iid_pos = match resolve_positions(iid_count, iid_index) {
        Ok(v) => v,
        Err(k) => {
            return Err(BedErrorPlus::BedError(BedError::IidIndexTooBig(iid_index[k])));
        },
    };
    let sid_pos = match resolve_positions(sid_count, sid_index) {
        Ok(v) => v,
        Err(k) => {
            return Err(BedErrorPlus::BedError(BedError::SidIndexTooBig(sid_index[k])));
        },
    };
    let (minor_index, major_pos) = if transposed {
        (sid_index, iid_pos)
    } else {
        (iid_index, sid_pos)
    };
    let (div4, shift) = match check_and_precompute_iid_index(minor, minor_index) {
        Ok(pair) => pair,
        Err(e) => {
            return Err(e);
        },
    };
    let mut offsets: Vec<u64> = Vec::new();
    let mut k: usize = 0;
    while k < major_pos.len()
        invariant
            k <= major_pos@.len(),
            offsets@.len() == k,
            forall|j: int| 0 <= j < major_pos@.len() ==> #[trigger] major_pos@[j] < major,
            block_len * major + 3 <= u64::MAX,
            block_len_u64 == block_len,
            forall|j: int|
                0 <= j < k ==> #[trigger] offsets@[j] == 3 + major_pos@[j] * block_len,
        decreases major_pos@.len() - k,
    {
        proof {
            lemma_offset_fits(major_pos@[k as int] as int, major as int, block_len as int);
        }
        offsets.push(CB_HEADER_U64 + (major_pos[k] as u64) * block_len_u64);
        k = k + 1;
    }
    proof {
        assert forall|j: int| 0 <= j < div4@.len() implies #[trigger] div4@[j] < block_len by {
            let p = resolved(minor_index@[j] as int, minor as int);
            assert(p / 4 < packed_len(minor as int)) by (nonlinear_arith)
                requires 0 <= p < minor, packed_len(minor as int) == (minor - 1) / 4 + 1;
        }
        assert forall|j: int| 0 <= j < shift@.len() implies #[trigger] shift@[j] < 8 by {
            let p = resolved(minor_index@[j] as int, minor as int);
            assert(p % 4 < 4);
        }
    }
    Ok(ReadPlan { transposed, block_len, offsets, div4, shift })
}

/// Decodes the fetched blocks into the output's columns: column `c`, row `r`.
/// Block `k` is the one at `plan.offsets[k]`.
pub fn decode_blocks<T: Copy>(plan: &ReadPlan, blocks: &Vec<Vec<u8>>, table: &[T; 4]) -> (r: Vec<
    Vec<T>,
>)
    requires
        plan.wf(),
        blocks@.len() == plan.offsets@.len(),
        forall|k: int| 0 <= k < blocks@.len() ==> #[trigger] blocks@[k]@.len() == plan.block_len,
    ensures
        r@.len() == if plan.transposed { plan.div4@.len() } else { blocks@.len() },
        forall|c: int|
            0 <= c < r@.len() ==> #[trigger] r@[c]@.len() == if plan.transposed {
                blocks@.len()
            } else {
                plan.div4@.len()
            },
        forall|c: int, row: int|
            0 <= c < r@.len() && 0 <= row < r@[c]@.len() ==> #[trigger] r@[c]@[row] == {
                let (k, j) = if plan.transposed { (row, c) } else { (c, row) };
                table@[((blocks@[k]@[plan.div4@[j] as int] >> plan.shift@[j]) & 3u8) as int]
            },
{
    let mut strips: Vec<Vec<T>> = Vec::new();
    let mut k: usize = 0;
    while k < blocks.len()
        invariant
            plan.wf(),
            k <= blocks@.len(),
            forall|i: int| 0 <= i < blocks@.len() ==> #[trigger] blocks@[i]@.len() == plan.block_len,
            strips@.len() == k,
            forall|i: int| 0 <= i < k ==> #[trigger] strips@[i]@.len() == plan.div4@.len(),
            forall|i: int, j: int|
                0 <= i < k && 0 <= j < plan.div4@.len() ==> #[trigger] strips@[i]@[j]
                    == table@[((blocks@[i]@[plan.div4@[j] as int] >> plan.shift@[j]) & 3u8) as int],
        decreases blocks@.len() - k,
    {
        let strip = decode_block(blocks[k].as_slice(), plan.div4.as_slice(), plan.shift.as_slice(), table);
        strips.push(strip);
        k = k + 1;
    }
    if !plan.transposed {
        return strips;
    }
    let mut cols: Vec<Vec<T>> = Vec::new();
    let mut c: usize = 0;
    while c < plan.div4.len()
        invariant
            c <= plan.div4@.len(),
            strips@.len() == blocks@.len(),
            forall|i: int| 0 <= i < strips@.len() ==> #[trigger] strips@[i]@.len() == plan.div4@.len(),
            cols@.len() == c,
            forall|i: int| 0 <= i < c ==> #[trigger] cols@[i]@.len() == strips@.len(),
            forall|i: int, row: int|
                0 <= i < c && 0 <= row < strips@.len() ==> #[trigger] cols@[i]@[row]
                    == strips@[row]@[i],
        decreases plan.div4@.len() - c,
    {
        let mut col: Vec<T> = Vec::new();
        let mut row: usize = 0;
        while row < strips.len()
            invariant
                c < plan.div4@.len(),
                row <= strips@.len(),
                forall|i: int| 0 <= i < strips@.len() ==> #[trigger] strips@[i]@.len() == plan.div4@.len(),
                col@.len() == row,
                forall|i: int| 0 <= i < row ==> #[trigger] col@[i] == strips@[i]@[c as int],
            decreases strips@.len() - row,
        {
            col.push(strips[row][c]);
            row = row + 1;
        }
        cols.push(col);
        c = c + 1;
    }
    cols
}

/// Block `k` of a file image whose blocks are `len` bytes long.
pub open spec fn block_at(file: Seq<u8>, k: int, len: int) -> Seq<u8> {
    file.subrange(3 + k * len, 3 + k * len + len)
}

/// The code of logical cell (row `r`, column `c`) of a file image with
/// orientation `mode`.
pub open spec fn file_code(file: Seq<u8>, mode: u8, iid_count: int, sid_count: int, r: int, c: int) -> u8 {
    let (minor, _) = minor_major(mode, iid_count, sid_count);
    if mode == 0 {
        packed_code(block_at(file, r, packed_len(minor)), c)
    } else {
        packed_code(block_at(file, c, packed_len(minor)), r)
    }
}

/// The matrix that a read of a file image gives: one sequence per selected
/// column, one value per selected row.
pub open spec fn decoded_matrix<T>(
    file: Seq<u8>,
    iid_count: int,
    sid_count: int,
    iid_index: Seq<isize>,
    sid_index: Seq<isize>,
    table: Seq<T>,
) -> Seq<Seq<T>> {
    Seq::new(
        sid_index.len(),
        |c: int|
            Seq::new(
                iid_index.len(),
                |r: int|
                    table[file_code(
                        file,
                        file[2],
                        iid_count,
                        sid_count,
                        resolved(iid_index[r] as int, iid_count),
                        resolved(sid_index[c] as int, sid_count),
                    ) as int],
            ),
    )
}

proof fn lemma_block_in_file(p: int, major: int, len: int, file_len: int)
    requires
        0 <= p < major,
        len >= 0,
        file_len == 3 + len * major,
    ensures
        3 + p * len + len <= file_len,
{
    assert(p * len + len <= len * major) by (nonlinear_arith)
        requires 0 <= p < major, len >= 0;
}

/// Reads the selected cells of an in-memory file image: checks as `plan_read`
/// does, then decodes each selected block.
pub fn read_image<T: Copy>(
    path: &String,
    file: &[u8],
    iid_count: usize,
    sid_count: usize,
    iid_index: &[isize],
    sid_index: &[isize],
    table: &[T; 4],
) -> (r: Result<Vec<Vec<T>>, BedErrorPlus>)
    requires
        iid_count <= isize::MAX,
        sid_count <= isize::MAX,
    ensures
        match plan_outcome(
            file@,
            file@.len() as int,
            iid_count as int,
            sid_count as int,
            iid_index@,
            sid_index@,
        ) {
            PlanOutcome::BadHeader => r matches Err(BedErrorPlus::BedError(BedError::IllFormed(p)))
                && p@ == path@,
            PlanOutcome::BadMode => r matches Err(BedErrorPlus::BedError(BedError::BadMode(p)))
                && p@ == path@,
            PlanOutcome::TooBig => r matches Err(
                BedErrorPlus::BedError(BedError::IndexesTooBigForFiles(a, b)),
            ) && a == minor_count(file@[2], iid_count as int, sid_count as int) && b
                == major_count(file@[2], iid_count as int, sid_count as int),
            PlanOutcome::BadLength => r matches Err(BedErrorPlus::BedError(BedError::IllFormed(p)))
                && p@ == path@,
            PlanOutcome::IidOut(k) => r matches Err(
                BedErrorPlus::BedError(BedError::IidIndexTooBig(v)),
            ) && v == iid_index@[k],
            PlanOutcome::SidOut(k) => r matches Err(
                BedErrorPlus::BedError(BedError::SidIndexTooBig(v)),
            ) && v == sid_index@[k],
            PlanOutcome::Ready => r matches Ok(out) && out@.len() == sid_index@.len() && forall|
                c: int,
            |
                0 <= c < out@.len() ==> #[trigger] out@[c]@ == decoded_matrix(
                    file@,
                    iid_count as int,
                    sid_count as int,
                    iid_index@,
                    sid_index@,
                    table@,
                )[c],
        },
{
    let plan = plan_read(path, file, file.len() as u64, iid_count, sid_count, iid_index, sid_index)?;
    let ghost mode = file@[2];
    let ghost minor = minor_count(mode, iid_count as int, sid_count as int);
    let ghost major = major_count(mode, iid_count as int, sid_count as int);
    let ghost major_index = major_sel(mode, iid_index@, sid_index@);
    let flen: usize = file.len();
    let mut blocks: Vec<Vec<u8>> = Vec::new();
    let mut k: usize = 0;
    while k < plan.offsets.len()
        invariant
            flen == file@.len(),
            plan.describes(mode, iid_count as int, sid_count as int, iid_index@, sid_index@),
            file@.len() == 3 + packed_len(minor) * major,
            minor == minor_count(mode, iid_count as int, sid_count as int),
            major == major_count(mode, iid_count as int, sid_count as int),
            major_index == major_sel(mode, iid_index@, sid_index@),
            k <= plan.offsets@.len(),
            blocks@.len() == k,
            forall|i: int| 0 <= i < k ==> #[trigger] blocks@[i]@.len() == plan.block_len,
            forall|i: int|
                0 <= i < k ==> #[trigger] blocks@[i]@ == file@.subrange(
                    plan.offsets@[i] as int,
                    plan.offsets@[i] + plan.block_len,
                ),
        decreases plan.offsets@.len() - k,
    {
        proof {
            let p = resolved(major_index[k as int] as int, major);
            lemma_block_in_file(p, major, packed_len(minor), file@.len() as int);
            assert(plan.offsets@[k as int] + plan.block_len <= file@.len());
        }
        let start = plan.offsets[k] as usize;
        let mut block: Vec<u8> = Vec::new();
        let mut i: usize = 0;
        while i < plan.block_len
            invariant
                flen == file@.len(),
                k < plan.offsets@.len(),
                start == plan.offsets@[k as int],
                start + plan.block_len <= file@.len(),
                i <= plan.block_len,
                block@ == file@.subrange(start as int, start + i),
            decreases plan.block_len - i,
        {
            block.push(file[start + i]);
            i = i + 1;
            proof {
                assert(block@ =~= file@.subrange(start as int, start + i));
            }
        }
        blocks.push(block);
        k = k + 1;
    }
    let out = decode_blocks(&plan, &blocks, table);
    proof {
        let dm = decoded_matrix(
            file@,
            iid_count as int,
            sid_count as int,
            iid_index@,
            sid_index@,
            table@,
        );
        assert forall|c: int| 0 <= c < out@.len() implies #[trigger] out@[c]@ == dm[c] by {
            assert forall|row: int| 0 <= row < iid_index@.len() implies out@[c]@[row]
                == dm[c][row] by {
                let (kk, j) = if plan.transposed { (row, c) } else { (c, row) };
                let p = resolved(major_index[kk] as int, major);
                let q = resolved(minor_sel(mode, iid_index@, sid_index@)[j] as int, minor);
                assert(blocks@[kk]@ == block_at(file@, p, packed_len(minor)));
                assert(plan.div4@[j] == q / 4);
                assert(plan.shift@[j] == ((2 * (q % 4)) as u8));
            }
            assert(out@[c]@ =~= dm[c]);
        }
    }
    Ok(out)
}

/// The columns of a matrix, as sequences.
pub open spec fn columns_view(m: Seq<Vec<i8>>) -> Seq<Seq<i8>> {
    m.map_values(|c: Vec<i8>| c@)
}

/// What writing `m` (one sequence per column, `iid_count` values each) with this
/// convention and missing value gives: a column-major image whose every cell holds
/// the code of its value.
pub open spec fn written(file: Seq<u8>, m: Seq<Seq<i8>>, iid_count: int, count_a1: bool, missing: i8) -> bool {
    &&& good_magic(file)
    &&& file[2] == 1
    &&& fits_in_file(iid_count, m.len() as int, 3)
    &&& file.len() == 3 + packed_len(iid_count) * m.len()
    &&& forall|r: int, c: int|
        0 <= r < iid_count && 0 <= c < m.len() ==> code_of(m[c][r], count_a1, missing) == Some(
            #[trigger] file_code(file, 1, iid_count, m.len() as int, r, c),
        )
    &&& forall|r: int, c: int|
        iid_count <= r < 4 * packed_len(iid_count) && 0 <= c < m.len() ==> #[trigger] file_code(
            file,
            1,
            iid_count,
            m.len() as int,
            r,
            c,
        ) == 0
}

/// Whether every value of the matrix may be written.
pub open spec fn matrix_writable(m: Seq<Seq<i8>>, count_a1: bool, missing: i8) -> bool {
    forall|c: int| 0 <= c < m.len() ==> column_writable(#[trigger] m[c], count_a1, missing)
}


proof fn lemma_prefix_block(old: Seq<u8>, new: Seq<u8>, cc: int, c: int, len: int)
    requires
        0 <= cc < c,
        len >= 0,
        old.len() == 3 + c * len,
        new.len() >= old.len(),
        old == new.subrange(0, old.len() as int),
    ensures
        block_at(new, cc, len) == block_at(old, cc, len),
{
    assert(cc * len + len <= c * len) by (nonlinear_arith)
        requires 0 <= cc < c, len >= 0;
    assert(block_at(new, cc, len) =~= block_at(old, cc, len));
}

/// Encodes a matrix, given as its columns of `iid_count` values each, into a
/// column-major file image: the header, then one packed block per column.
pub fn write_image(
    path: &String,
    columns: &Vec<Vec<i8>>,
    iid_count: usize,
    count_a1: bool,
    missing: i8,
) -> (r: Result<Vec<u8>, BedErrorPlus>)
    requires
        forall|c: int| 0 <= c < columns@.len() ==> (#[trigger] columns@[c])@.len() == iid_count,
    ensures
        match r {
            Ok(file) => matrix_writable(columns_view(columns@), count_a1, missing) && written(
                file@,
                columns_view(columns@),
                iid_count as int,
                count_a1,
                missing,
            ),
            Err(BedErrorPlus::BedError(BedError::BadValue(p))) => p@ == path@ && fits_in_file(
                iid_count as int,
                columns@.len() as int,
                3,
            ) && !matrix_writable(columns_view(columns@), count_a1, missing),
            Err(BedErrorPlus::BedError(BedError::IndexesTooBigForFiles(a, b))) => !fits_in_file(
                iid_count as int,
                columns@.len() as int,
                3,
            ) && a == iid_count && b == columns@.len(),
            Err(_) => false,
        },
{
    let ghost m = columns_view(columns@);
    let ncols = columns.len();
    let (len, _) = try_div_4(iid_count, ncols, CB_HEADER_U64)?;
    let mut file: Vec<u8> = vec![0x6Cu8, 0x1Bu8, 1u8];
    let mut c: usize = 0;
    while c < ncols
        invariant
            ncols == columns@.len(),
            m == columns_view(columns@),
            forall|j: int| 0 <= j < columns@.len() ==> (#[trigger] columns@[j])@.len() == iid_count,
            len == packed_len(iid_count as int),
            fits_in_file(iid_count as int, ncols as int, 3),
            m.len() == ncols,
            c <= ncols,
            file@.len() == 3 + c * len,
            good_magic(file@),
            file@[2] == 1,
            forall|j: int| 0 <= j < c ==> column_writable(#[trigger] m[j], count_a1, missing),
            forall|r: int, j: int|
                0 <= r < iid_count && 0 <= j < c ==> code_of(m[j][r], count_a1, missing) == Some(
                    #[trigger] file_code(file@, 1, iid_count as int, ncols as int, r, j),
                ),
            forall|r: int, j: int|
                iid_count <= r < 4 * len && 0 <= j < c ==> #[trigger] file_code(
                    file@,
                    1,
                    iid_count as int,
                    ncols as int,
                    r,
                    j,
                ) == 0,
        decreases ncols - c,
    {
        let block = match encode_column(path, columns[c].as_slice(), count_a1, missing) {
            Ok(b) => b,
            Err(e) => {
                proof {
                    assert(m[c as int] == columns@[c as int]@);
                }
                return Err(BedErrorPlus::BedError(e));
            },
        };
        let ghost old_file = file@;
        let mut i: usize = 0;
        while i < block.len()
            invariant
                i <= block@.len(),
                file@ == old_file + block@.subrange(0, i as int),
            decreases block@.len() - i,
        {
            file.push(block[i]);
            i = i + 1;
            proof {
                assert(file@ =~= old_file + block@.subrange(0, i as int));
            }
        }
        proof {
            assert(block@.subrange(0, block@.len() as int) =~= block@);
            assert(m[c as int] == columns@[c as int]@);
            assert(old_file =~= file@.subrange(0, old_file.len() as int));
            assert((c + 1) * len == c * len + len) by (nonlinear_arith);
            assert(block_at(file@, c as int, len as int) =~= block@);
            assert forall|r: int, j: int|
                0 <= r < iid_count && 0 <= j < c + 1 implies code_of(m[j][r], count_a1, missing)
                == Some(#[trigger] file_code(file@, 1, iid_count as int, ncols as int, r, j)) by {
                if j < c {
                    lemma_prefix_block(old_file, file@, j, c as int, len as int);
                    assert(file_code(file@, 1, iid_count as int, ncols as int, r, j) == file_code(
                        old_file,
                        1,
                        iid_count as int,
                        ncols as int,
                        r,
                        j,
                    ));
                }
            }
            assert forall|r: int, j: int|
                iid_count <= r < 4 * len && 0 <= j < c + 1 implies #[trigger] file_code(
                file@,
                1,
                iid_count as int,
                ncols as int,
                r,
                j,
            ) == 0 by {
                if j == c {
                    assert(columns@[c as int]@.len() == iid_count);
                    assert(block@.len() == len);
                    assert(packed_code(block@, r) == 0);
                }
                if j < c {
                    lemma_prefix_block(old_file, file@, j, c as int, len as int);
                    assert(file_code(file@, 1, iid_count as int, ncols as int, r, j) == file_code(
                        old_file,
                        1,
                        iid_count as int,
                        ncols as int,
                        r,
                        j,
                    ));
                }
            }
        }
        c = c + 1;
    }
    proof {
        assert(c * len == len * ncols) by (nonlinear_arith)
            requires c == ncols;
        assert forall|r: int, j: int|
            0 <= r < iid_count && 0 <= j < m.len() implies code_of(m[j][r], count_a1, missing)
            == Some(#[trigger] file_code(file@, 1, iid_count as int, m.len() as int, r, j)) by {
            assert(file_code(file@, 1, iid_count as int, ncols as int, r, j) == file_code(
                file@,
                1,
                iid_count as int,
                m.len() as int,
                r,
                j,
            ));
        }
        assert forall|r: int, j: int|
            iid_count <= r < 4 * packed_len(iid_count as int) && 0 <= j < m.len() implies #[trigger] file_code(
            file@,
            1,
            iid_count as int,
            m.len() as int,
            r,
            j,
        ) == 0 by {
            assert(file_code(file@, 1, iid_count as int, ncols as int, r, j) == file_code(
                file@,
                1,
                iid_count as int,
                m.len() as int,
                r,
                j,
            ));
        }
    }
    Ok(file)
}

/// The selection of every position below `count`, in order.
pub open spec fn all_positions(count: int) -> Seq<isize> {
    Seq::new(count as nat, |i: int| i as isize)
}

/// Writing a matrix of values in {0, 1, 2, missing} and reading every cell of
/// the image back, with the same allele convention and missing value, gives the
/// matrix again.
pub proof fn lemma_round_trip(
    file: Seq<u8>,
    m: Seq<Seq<i8>>,
    iid_count: int,
    count_a1: bool,
    missing: i8,
)
    requires
        0 <= iid_count <= isize::MAX,
        m.len() <= isize::MAX,
        forall|c: int| 0 <= c < m.len() ==> (#[trigger] m[c]).len() == iid_count,
        written(file, m, iid_count, count_a1, missing),
    ensures
        plan_outcome(
            file,
            file.len() as int,
            iid_count,
            m.len() as int,
            all_positions(iid_count),
            all_positions(m.len() as int),
        ) == PlanOutcome::Ready,
        decoded_matrix(
            file,
            iid_count,
            m.len() as int,
            all_positions(iid_count),
            all_positions(m.len() as int),
            value_table(count_a1, missing, 0i8, 1i8, 2i8),
        ) == m,
{
    let ncols = m.len() as int;
    crate::codec::lemma_all_in_range(all_positions(iid_count), iid_count);
    crate::codec::lemma_all_in_range(all_positions(ncols), ncols);
    let table = value_table(count_a1, missing, 0i8, 1i8, 2i8);
    let dm = decoded_matrix(
        file,
        iid_count,
        ncols,
        all_positions(iid_count),
        all_positions(ncols),
        table,
    );
    assert forall|c: int| 0 <= c < ncols implies #[trigger] dm[c] == m[c] by {
        assert forall|r: int| 0 <= r < iid_count implies dm[c][r] == m[c][r] by {
            let code = file_code(file, 1, iid_count, ncols, r, c);
            assert(code_of(m[c][r], count_a1, missing) == Some(code));
        }
        assert(dm[c] =~= m[c]);
    }
    assert(dm =~= m);
}

/// Two images that hold the same logical codes, one row-major (orientation byte
/// 0) and one column-major (orientation byte 1), read to the same matrix for
/// every in-range selection.
pub proof fn lemma_orientation_transparency<T>(
    row_major: Seq<u8>,
    col_major: Seq<u8>,
    iid_count: int,
    sid_count: int,
    iid_index: Seq<isize>,
    sid_index: Seq<isize>,
    table: Seq<T>,
)
    requires
        row_major.len() >= 3,
        col_major.len() >= 3,
        row_major[2] == 0,
        col_major[2] == 1,
        forall|r: int, c: int|
            0 <= r < iid_count && 0 <= c < sid_count ==> #[trigger] file_code(
                row_major,
                0,
                iid_count,
                sid_count,
                r,
                c,
            ) == file_code(col_major, 1, iid_count, sid_count, r, c),
        first_out_of_range(iid_index, iid_count) is None,
        first_out_of_range(sid_index, sid_count) is None,
    ensures
        decoded_matrix(row_major, iid_count, sid_count, iid_index, sid_index, table)
            == decoded_matrix(col_major, iid_count, sid_count, iid_index, sid_index, table),
{
    assert(iid_index.subrange(0, iid_index.len() as int) =~= iid_index);
    assert(sid_index.subrange(0, sid_index.len() as int) =~= sid_index);
    crate::codec::lemma_first_out_of_range_none(iid_index, iid_count, iid_index.len() as int);
    crate::codec::lemma_first_out_of_range_none(sid_index, sid_count, sid_index.len() as int);
    let a = decoded_matrix(row_major, iid_count, sid_count, iid_index, sid_index, table);
    let b = decoded_matrix(col_major, iid_count, sid_count, iid_index, sid_index, table);
    assert forall|c: int| 0 <= c < sid_index.len() implies #[trigger] a[c] == b[c] by {
        assert forall|r: int| 0 <= r < iid_index.len() implies a[c][r] == b[c][r] by {
            let rr = resolved(iid_index[r] as int, iid_count);
            let cc = resolved(sid_index[c] as int, sid_count);
            assert(file_code(row_major, 0, iid_count, sid_count, rr, cc) == file_code(
                col_major,
                1,
                iid_count,
                sid_count,
                rr,
                cc,
            ));
        }
        assert(a[c] =~= b[c]);
    }
    assert(a =~= b);
}

/// A file whose first two bytes are not the magic pair reads as ill-formed; one
/// with the magic pair and a third byte other than 0 and 1 has a bad mode; one
/// with a good header whose length is not `3 + ceil(R/4) * C` (with the counts
/// swapped for a row-major file) reads as ill-formed.
pub proof fn lemma_header_and_length(
    header: Seq<u8>,
    file_len: int,
    iid_count: int,
    sid_count: int,
    iid_index: Seq<isize>,
    sid_index: Seq<isize>,
)
    ensures
        !good_magic(header) ==> plan_outcome(
            header,
            file_len,
            iid_count,
            sid_count,
            iid_index,
            sid_index,
        ) == PlanOutcome::BadHeader,
        good_magic(header) && header[2] != 0 && header[2] != 1 ==> plan_outcome(
            header,
            file_len,
            iid_count,
            sid_count,
            iid_index,
            sid_index,
        ) == PlanOutcome::BadMode,
        good_magic(header) && header[2] == 1 && packed_len(iid_count) * sid_count + 3 <= u64::MAX
            && file_len != 3 + packed_len(iid_count) * sid_count ==> plan_outcome(
            header,
            file_len,
            iid_count,
            sid_count,
            iid_index,
            sid_index,
        ) == PlanOutcome::BadLength,
{
}

} // verus!
