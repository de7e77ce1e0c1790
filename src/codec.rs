use vstd::prelude::*;
use crate::error::{BedError, BedErrorPlus};
use crate::index::resolved;

verus! {

pub const BED_FILE_MAGIC1: u8 = 0x6C;

pub const BED_FILE_MAGIC2: u8 = 0x1B;

pub const CB_HEADER_U64: u64 = 3;

/// Bytes that pack `n` cells, four to a byte.
pub open spec fn packed_len(n: int) -> int {
    if n <= 0 { 0 } else { (n - 1) / 4 + 1 }
}

/// Whether a file of `major` blocks of `packed_len(minor)` bytes, after a header of
/// `header` bytes, has a length that 64 bits hold.
pub open spec fn fits_in_file(minor: int, major: int, header: int) -> bool {
    packed_len(minor) * major + header <= u64::MAX
}

/// The two-bit code of cell `i` in a packed block.
pub open spec fn packed_code(block: Seq<u8>, i: int) -> u8 {
    ((block[i / 4] >> ((2 * (i % 4)) as u8)) & 3u8) as u8
}

/// The code that a value is written as, if it may be written at all.
pub open spec fn code_of(v: i8, count_a1: bool, missing: i8) -> Option<u8> {
    if v == 0 {
        Some(if count_a1 { 3u8 } else { 0u8 })
    } else if v == 1 {
        Some(2u8)
    } else if v == 2 {
        Some(if count_a1 { 0u8 } else { 3u8 })
    } else if v == missing {
        Some(1u8)
    } else {
        None
    }
}

/// The four values that the codes 0 to 3 stand for.
pub open spec fn value_table<T>(count_a1: bool, missing: T, zero: T, one: T, two: T) -> Seq<T> {
    if count_a1 {
        seq![two, missing, one, zero]
    } else {
        seq![zero, missing, one, two]
    }
}

/// Checks that a file of `in_sid_count` blocks, each packing `in_iid_count` cells,
/// after a header of `cb_header` bytes, has a length that 64 bits hold; returns the
/// bytes of one block.
pub fn try_div_4(in_iid_count: usize, in_sid_count: usize, cb_header: u64) -> (r: Result<
    (usize, u64),
    BedErrorPlus,
>)
    ensures
        match r {
            Ok((d, d64)) => fits_in_file(in_iid_count as int, in_sid_count as int, cb_header as int)
                && d == packed_len(in_iid_count as int) && d64 == d,
            Err(BedErrorPlus::BedError(BedError::IndexesTooBigForFiles(a, b))) => !fits_in_file(
                in_iid_count as int,
                in_sid_count as int,
                cb_header as int,
            ) && a == in_iid_count && b == in_sid_count,
            Err(_) => false,
        },
{
    let in_iid_count_div4: usize = if in_iid_count > 0 {
        (in_iid_count - 1) / 4 + 1
    } else {
        0
    };
    let d64 = in_iid_count_div4 as u64;
    let s64 = in_sid_count as u64;
    if in_sid_count > 0 && (u64::MAX - cb_header) / s64 < d64 {
        proof {
            let x = (u64::MAX - cb_header) as int;
            assert(d64 * s64 > x) by (nonlinear_arith)
                requires
                    s64 > 0,
                    x / (s64 as int) < d64,
                    x >= 0,
            {
                vstd::arithmetic::div_mod::lemma_fundamental_div_mod(x, s64 as int);
            }
        }
        return Err(
            BedErrorPlus::BedError(BedError::IndexesTooBigForFiles(in_iid_count, in_sid_count)),
        );
    }
    proof {
        let x = (u64::MAX - cb_header) as int;
        if in_sid_count > 0 {
            assert(d64 * s64 <= x) by (nonlinear_arith)
                requires
                    s64 > 0,
                    x / (s64 as int) >= d64,
                    x >= 0,
            {
                vstd::arithmetic::div_mod::lemma_fundamental_div_mod(x, s64 as int);
            }
        }
    }
    Ok((in_iid_count_div4, d64))
}

/// Checks the three header bytes and returns the orientation byte: 1 when each
/// block is a column, 0 when each block is a row.
pub fn check_header(path: &String, header: &[u8]) -> (r: Result<u8, BedErrorPlus>)
    ensures
        match r {
            Ok(mode) => header@.len() >= 3 && header@[0] == BED_FILE_MAGIC1 && header@[1]
                == BED_FILE_MAGIC2 && (mode == 0 || mode == 1) && mode == header@[2],
            Err(BedErrorPlus::BedError(BedError::IllFormed(p))) => p@ == path@ && (header@.len()
                < 3 || header@[0] != BED_FILE_MAGIC1 || header@[1] != BED_FILE_MAGIC2),
            Err(BedErrorPlus::BedError(BedError::BadMode(p))) => p@ == path@ && header@.len() >= 3
                && header@[0] == BED_FILE_MAGIC1 && header@[1] == BED_FILE_MAGIC2 && header@[2]
                != 0 && header@[2] != 1,
            Err(_) => false,
        },
{
    if header.len() < 3 || header[0] != BED_FILE_MAGIC1 || header[1] != BED_FILE_MAGIC2 {
        return Err(BedErrorPlus::BedError(BedError::IllFormed(path.clone())));
    }
    let mode = header[2];
    if mode != 0 && mode != 1 {
        return Err(BedErrorPlus::BedError(BedError::BadMode(path.clone())));
    }
    Ok(mode)
}

/// The values that the codes 0 to 3 decode to. When allele 1 is counted, code 0
/// is the homozygous minor genotype and code 3 the homozygous major one; else the
/// other way round. Code 1 is missing, code 2 heterozygous.
pub fn set_up_two_bits_to_value<T: Copy>(
    count_a1: bool,
    missing_value: T,
    zero: T,
    one: T,
    two: T,
) -> (r: [T; 4])
    ensures
        r@ == value_table(count_a1, missing_value, zero, one, two),
{
    let r = if count_a1 {
        [two, missing_value, one, zero]
    } else {
        [zero, missing_value, one, two]
    };
    proof {
        assert(r@ =~= value_table(count_a1, missing_value, zero, one, two));
    }
    r
}

/// Resolves signed positions against `count`; on the first out of range,
/// returns it.
pub open spec fn first_out_of_range(index: Seq<isize>, count: int) -> Option<int>
    decreases index.len(),
{
    if index.len() == 0 {
        None
    } else {
        match first_out_of_range(index.drop_last(), count) {
            Some(k) => Some(k),
            None => if -count <= index.last() < count {
                None
            } else {
                Some(index.len() - 1)
            },
        }
    }
}

/// A selection whose every position lies in `[-count, count)` has none out of range.
pub proof fn lemma_all_in_range(index: Seq<isize>, count: int)
    requires
        forall|j: int| 0 <= j < index.len() ==> -count <= #[trigger] index[j] < count,
    ensures
        first_out_of_range(index, count) is None,
    decreases index.len(),
{
    if index.len() > 0 {
        lemma_all_in_range(index.drop_last(), count);
    }
}

proof fn lemma_first_out_of_range_step(index: Seq<isize>, count: int, i: int)
    requires
        0 <= i < index.len(),
        first_out_of_range(index.subrange(0, i), count) is None,
    ensures
        first_out_of_range(index.subrange(0, i + 1), count) == if -count <= index[i] < count {
            None::<int>
        } else {
            Some(i)
        },
{
    assert(index.subrange(0, i + 1).drop_last() =~= index.subrange(0, i));
}

pub proof fn lemma_first_out_of_range_none(index: Seq<isize>, count: int, n: int)
    requires
        0 <= n <= index.len(),
        first_out_of_range(index.subrange(0, n), count) is None,
    ensures
        forall|j: int| 0 <= j < n ==> -count <= #[trigger] index[j] < count,
    decreases n,
{
    if n > 0 {
        assert(index.subrange(0, n).drop_last() =~= index.subrange(0, n - 1));
        lemma_first_out_of_range_none(index, count, n - 1);
        assert(index.subrange(0, n).last() == index[n - 1]);
    }
}

/// Resolves each signed position against `count`, or gives the position of the
/// first that is out of range.
pub fn resolve_positions(count: usize, index: &[isize]) -> (r: Result<Vec<usize>, usize>)
    requires
        count <= isize::MAX,
    ensures
        match r {
            Ok(v) => first_out_of_range(index@, count as int) is None && v@.len() == index@.len()
                && forall|j: int|
                #![trigger v@[j]]
                #![trigger index@[j]]
                0 <= j < v@.len() ==> v@[j] == resolved(index@[j] as int, count as int) && v@[j]
                    < count,
            Err(k) => first_out_of_range(index@, count as int) == Some(k as int) && k < index@.len(),
        },
{
    let mut v: Vec<usize> = Vec::new();
    let upper: isize = count as isize;
    let mut i: usize = 0;
    while i < index.len()
        invariant
            i <= index@.len(),
            count <= isize::MAX,
            upper == count,
            v@.len() == i,
            first_out_of_range(index@.subrange(0, i as int), count as int) is None,
            forall|j: int|
                #![trigger v@[j]]
                #![trigger index@[j]]
                0 <= j < i ==> v@[j] == resolved(index@[j] as int, count as int) && v@[j] < count,
        decreases index@.len() - i,
    {
        proof {
            lemma_first_out_of_range_step(index@, count as int, i as int);
        }
        let p = index[i];
        if 0 <= p && p < upper {
            v.push(p as usize);
        } else if -upper <= p && p < 0 {
            v.push(count - ((-p) as usize));
        } else {
            proof {
                lemma_first_out_of_range_prefix(index@, count as int, i as int, index@.len() as int);
                assert(index@.subrange(0, index@.len() as int) =~= index@);
            }
            return Err(i);
        }
        i = i + 1;
    }
    proof {
        assert(index@.subrange(0, index@.len() as int) =~= index@);
    }
    Ok(v)
}

proof fn lemma_first_out_of_range_prefix(index: Seq<isize>, count: int, i: int, n: int)
    requires
        0 <= i < n <= index.len(),
        first_out_of_range(index.subrange(0, i + 1), count) == Some(i),
    ensures
        first_out_of_range(index.subrange(0, n), count) == Some(i),
    decreases n,
{
    if n > i + 1 {
        lemma_first_out_of_range_prefix(index, count, i, n - 1);
        assert(index.subrange(0, n).drop_last() =~= index.subrange(0, n - 1));
    }
}

/// For each selected row, the byte of the block that holds it and the shift that
/// brings its two bits down.
pub fn check_and_precompute_iid_index(in_iid_count: usize, iid_index: &[isize]) -> (r: Result<
    (Vec<usize>, Vec<u8>),
    BedErrorPlus,
>)
    requires
        in_iid_count <= isize::MAX,
    ensures
        match r {
            Ok((div4, shift)) => first_out_of_range(iid_index@, in_iid_count as int) is None
                && div4@.len() == iid_index@.len() && shift@.len() == iid_index@.len() && forall|
                j: int,
            |
                0 <= j < iid_index@.len() ==> {
                    let p = resolved(#[trigger] iid_index@[j] as int, in_iid_count as int);
                    &&& 0 <= p < in_iid_count
                    &&& div4@[j] == p / 4
                    &&& shift@[j] == 2 * (p % 4)
                },
            Err(BedErrorPlus::BedError(BedError::IidIndexTooBig(v))) => exists|k: int|
                first_out_of_range(iid_index@, in_iid_count as int) == Some(k) && v
                    == iid_index@[k],
            Err(_) => false,
        },
{
    match resolve_positions(in_iid_count, iid_index) {
        Err(k) => {
            proof {
                lemma_first_out_of_range_bound(iid_index@, in_iid_count as int);
            }
            Err(BedErrorPlus::BedError(BedError::IidIndexTooBig(iid_index[k])))
        },
        Ok(pos) => {
            let mut div4: Vec<usize> = Vec::new();
            let mut shift: Vec<u8> = Vec::new();
            let mut i: usize = 0;
            while i < pos.len()
                invariant
                    i <= pos@.len(),
                    div4@.len() == i,
                    shift@.len() == i,
                    forall|j: int| 0 <= j < i ==> div4@[j] == pos@[j] / 4,
                    forall|j: int| 0 <= j < i ==> shift@[j] == 2 * (pos@[j] % 4),
                decreases pos@.len() - i,
            {
                div4.push(pos[i] / 4);
                shift.push((pos[i] % 4 * 2) as u8);
                i = i + 1;
            }
            Ok((div4, shift))
        },
    }
}

proof fn lemma_first_out_of_range_bound(index: Seq<isize>, count: int)
    ensures
        first_out_of_range(index, count) matches Some(k) ==> 0 <= k < index.len(),
    decreases index.len(),
{
    if index.len() > 0 {
        lemma_first_out_of_range_bound(index.drop_last(), count);
    }
}

/// Packs four codes, lowest bits first.
pub open spec fn pack4(c0: u8, c1: u8, c2: u8, c3: u8) -> u8 {
    (c0 | (c1 << 2u8) | (c2 << 4u8) | (c3 << 6u8)) as u8
}

proof fn lemma_unpack4(c0: u8, c1: u8, c2: u8, c3: u8)
    requires
        c0 < 4,
        c1 < 4,
        c2 < 4,
        c3 < 4,
    ensures
        (pack4(c0, c1, c2, c3) >> 0u8) & 3u8 == c0,
        (pack4(c0, c1, c2, c3) >> 2u8) & 3u8 == c1,
        (pack4(c0, c1, c2, c3) >> 4u8) & 3u8 == c2,
        (pack4(c0, c1, c2, c3) >> 6u8) & 3u8 == c3,
{
    assert((((c0 | (c1 << 2u8) | (c2 << 4u8) | (c3 << 6u8)) as u8) >> 0u8) & 3u8 == c0)
        by (bit_vector)
        requires c0 < 4, c1 < 4, c2 < 4, c3 < 4;
    assert((((c0 | (c1 << 2u8) | (c2 << 4u8) | (c3 << 6u8)) as u8) >> 2u8) & 3u8 == c1)
        by (bit_vector)
        requires c0 < 4, c1 < 4, c2 < 4, c3 < 4;
    assert((((c0 | (c1 << 2u8) | (c2 << 4u8) | (c3 << 6u8)) as u8) >> 4u8) & 3u8 == c2)
        by (bit_vector)
        requires c0 < 4, c1 < 4, c2 < 4, c3 < 4;
    assert((((c0 | (c1 << 2u8) | (c2 << 4u8) | (c3 << 6u8)) as u8) >> 6u8) & 3u8 == c3)
        by (bit_vector)
        requires c0 < 4, c1 < 4, c2 < 4, c3 < 4;
}

/// The code of one value, or `None` when it may not be written.
pub fn value_to_code(v: i8, count_a1: bool, missing: i8) -> (r: Option<u8>)
    ensures
        r == code_of(v, count_a1, missing),
{
    if v == 0 {
        Some(if count_a1 { 3u8 } else { 0u8 })
    } else if v == 1 {
        Some(2u8)
    } else if v == 2 {
        Some(if count_a1 { 0u8 } else { 3u8 })
    } else if v == missing {
        Some(1u8)
    } else {
        None
    }
}

/// Whether every value of a column may be written.
pub open spec fn column_writable(col: Seq<i8>, count_a1: bool, missing: i8) -> bool {
    forall|i: int| 0 <= i < col.len() ==> (#[trigger] code_of(col[i], count_a1, missing)) is Some
}

/// Packs a column of values into one block, or fails with `BadValue` on the
/// first value that is none of 0, 1, 2 and `missing`.
pub fn encode_column(path: &String, col: &[i8], count_a1: bool, missing: i8) -> (r: Result<
    Vec<u8>,
    BedError,
>)
    ensures
        match r {
            Ok(block) => column_writable(col@, count_a1, missing) && block@.len() == packed_len(
                col@.len() as int,
            ) && (forall|i: int|
                0 <= i < col@.len() ==> packed_code(block@, i) == (#[trigger] code_of(
                    col@[i],
                    count_a1,
                    missing,
                ))->Some_0) && (forall|i: int|
                col@.len() <= i < 4 * block@.len() ==> #[trigger] packed_code(block@, i) == 0),
            Err(BedError::BadValue(p)) => p@ == path@ && !column_writable(col@, count_a1, missing),
            Err(_) => false,
        },
{
    let n = col.len();
    let nbytes: usize = if n == 0 {
        0
    } else {
        (n - 1) / 4 + 1
    };
    let mut block: Vec<u8> = Vec::new();
    let mut b: usize = 0;
    while b < nbytes
        invariant
            n == col@.len(),
            nbytes == packed_len(n as int),
            b <= nbytes,
            block@.len() == b,
            forall|i: int|
                0 <= i < 4 * b && i < n ==> (#[trigger] code_of(col@[i], count_a1, missing)) is Some,
            forall|i: int|
                0 <= i < 4 * b && i < n ==> packed_code(block@, i) == (#[trigger] code_of(
                    col@[i],
                    count_a1,
                    missing,
                ))->Some_0,
            forall|i: int| n <= i < 4 * b ==> #[trigger] packed_code(block@, i) == 0,
        decreases nbytes - b,
    {
        let mut codes: [u8; 4] = [0u8, 0u8, 0u8, 0u8];
        let mut k: usize = 0;
        while k < 4
            invariant
                n == col@.len(),
                b < nbytes,
                nbytes == packed_len(n as int),
                k <= 4,
                forall|j: int| 0 <= j < 4 ==> codes@[j] < 4,
                forall|j: int| 0 <= j < 4 && 4 * b + j >= n ==> codes@[j] == 0,
                forall|j: int|
                    0 <= j < k && 4 * b + j < n ==> (#[trigger] code_of(
                        col@[4 * b + j],
                        count_a1,
                        missing,
                    )) == Some(codes@[j]),
            decreases 4 - k,
        {
            let i = 4 * b + k;
            if i < n {
                match value_to_code(col[i], count_a1, missing) {
                    Some(c) => {
                        codes[k] = c;
                    },
                    None => {
                        return Err(BedError::BadValue(path.clone()));
                    },
                }
            }
            k = k + 1;
        }
        let byte = codes[0] | (codes[1] << 2u8) | (codes[2] << 4u8) | (codes[3] << 6u8);
        let ghost old_block = block@;
        block.push(byte);
        proof {
            lemma_unpack4(codes@[0], codes@[1], codes@[2], codes@[3]);
            assert forall|i: int|
                0 <= i < 4 * (b + 1) && i < n implies (#[trigger] code_of(
                col@[i],
                count_a1,
                missing,
            )) is Some && packed_code(block@, i) == code_of(col@[i], count_a1, missing)->Some_0 by {
                if i >= 4 * b {
                    let j = i - 4 * b;
                    assert(i / 4 == b as int);
                    assert(i % 4 == j);
                    assert(code_of(col@[4 * b + j], count_a1, missing) == Some(codes@[j]));
                } else {
                    assert(i / 4 < b);
                    assert(block@[i / 4] == old_block[i / 4]);
                }
            }
            assert forall|i: int| n <= i < 4 * (b + 1) implies #[trigger] packed_code(block@, i)
                == 0 by {
                if i >= 4 * b {
                    let j = i - 4 * b;
                    assert(i / 4 == b as int);
                    assert(i % 4 == j);
                } else {
                    assert(i / 4 < b);
                    assert(block@[i / 4] == old_block[i / 4]);
                }
            }
        }
        b = b + 1;
    }
    Ok(block)
}

/// Decodes the selected cells of one block: cell `j` of the result is the one
/// at byte `div4[j]`, shifted down by `shift[j]`.
pub fn decode_block<T: Copy>(block: &[u8], div4: &[usize], shift: &[u8], table: &[T; 4]) -> (r: Vec<T>)
    requires
        div4@.len() == shift@.len(),
        forall|j: int| 0 <= j < div4@.len() ==> #[trigger] div4@[j] < block@.len(),
        forall|j: int| 0 <= j < shift@.len() ==> #[trigger] shift@[j] < 8,
    ensures
        r@.len() == div4@.len(),
        forall|j: int|
            0 <= j < r@.len() ==> #[trigger] r@[j] == table@[((block@[div4@[j] as int] >> shift@[j])
                & 3u8) as int],
{
    let mut out: Vec<T> = Vec::new();
    let mut j: usize = 0;
    while j < div4.len()
        invariant
            j <= div4@.len() == shift@.len(),
            forall|k: int| 0 <= k < div4@.len() ==> #[trigger] div4@[k] < block@.len(),
            forall|k: int| 0 <= k < shift@.len() ==> #[trigger] shift@[k] < 8,
            out@.len() == j,
            forall|k: int|
                0 <= k < j ==> #[trigger] out@[k] == table@[((block@[div4@[k] as int] >> shift@[k])
                    & 3u8) as int],
        decreases div4@.len() - j,
    {
        let byte = block[div4[j]];
        let s = shift[j];
        let code = (byte >> s) & 3u8;
        proof {
            assert(((byte >> s) & 3u8) < 4) by (bit_vector);
        }
        out.push(table[code as usize]);
        j = j + 1;
    }
    out
}

} // verus!
