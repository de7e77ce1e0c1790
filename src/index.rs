use vstd::prelude::*;
use vstd::arithmetic::div_mod::lemma_div_plus_one;
use crate::error::{BedError, BedErrorPlus};

verus! {

/// The integers that a sequence of signed positions holds.
pub open spec fn ints(v: Seq<isize>) -> Seq<int> {
    v.map_values(|x: isize| x as int)
}

/// `start, start + 1, ..., end - 1`.
pub open spec fn range_seq(start: int, end: int) -> Seq<int> {
    Seq::new(if start <= end { (end - start) as nat } else { 0 }, |i: int| start + i)
}

/// `start, start + step, ...`, every one below `end`.
pub open spec fn stride_up(start: int, end: int, step: int) -> Seq<int>
    decreases if start < end { end - start } else { 0 },
{
    if step <= 0 || start >= end {
        Seq::empty()
    } else {
        seq![start] + stride_up(start + step, end, step)
    }
}

/// `end - 1, end - 1 - step, ...`, none below `start`.
pub open spec fn stride_down(start: int, end: int, step: int) -> Seq<int>
    decreases if start < end { end - start } else { 0 },
{
    if step <= 0 || start >= end {
        Seq::empty()
    } else {
        seq![end - 1] + stride_down(start, end - step, step)
    }
}

/// The indices of the true entries of a mask, in order.
pub open spec fn true_positions(mask: Seq<bool>) -> Seq<int>
    decreases mask.len(),
{
    if mask.len() == 0 {
        Seq::empty()
    } else {
        let rest = true_positions(mask.drop_last());
        if mask.last() {
            rest.push(mask.len() - 1)
        } else {
            rest
        }
    }
}

/// The number of positions `start, start + step, ...` below `end`.
pub open spec fn ceil_div(a: int, b: int) -> int {
    if a <= 0 { 0 } else { (a - 1) / b + 1 }
}

pub proof fn lemma_stride_up_len(start: int, end: int, step: int)
    requires
        step > 0,
    ensures
        stride_up(start, end, step).len() == ceil_div(end - start, step),
    decreases if start < end { end - start } else { 0 },
{
    if start < end {
        lemma_stride_up_len(start + step, end, step);
        if start + step < end {
            lemma_div_plus_one(end - start - step - 1, step);
        } else {
            assert((end - start - 1) / step == 0) by (nonlinear_arith)
                requires 0 <= end - start - 1 < step;
        }
    }
}

pub proof fn lemma_stride_down_len(start: int, end: int, step: int)
    requires
        step > 0,
    ensures
        stride_down(start, end, step).len() == ceil_div(end - start, step),
    decreases if start < end { end - start } else { 0 },
{
    if start < end {
        lemma_stride_down_len(start, end - step, step);
        if start < end - step {
            lemma_div_plus_one(end - step - start - 1, step);
        } else {
            assert((end - start - 1) / step == 0) by (nonlinear_arith)
                requires 0 <= end - start - 1 < step;
        }
    }
}

proof fn lemma_true_positions_step(mask: Seq<bool>, i: int)
    requires
        0 <= i < mask.len(),
    ensures
        true_positions(mask.subrange(0, i + 1)) == if mask[i] {
            true_positions(mask.subrange(0, i)).push(i)
        } else {
            true_positions(mask.subrange(0, i))
        },
{
    assert(mask.subrange(0, i + 1).drop_last() =~= mask.subrange(0, i));
}

/// `ceil(a / b)`, without overflow.
pub fn div_ceil(a: usize, b: usize) -> (r: usize)
    requires
        b > 0,
    ensures
        r == ceil_div(a as int, b as int),
{
    if a == 0 {
        0
    } else {
        (a - 1) / b + 1
    }
}

/// A range of unsigned positions; a missing start means 0, a missing end the count.
#[derive(Debug, Clone)]
pub struct RangeAny {
    pub start: Option<usize>,
    pub end: Option<usize>,
}

/// One end of a range, as a range expression gives it.
#[derive(Debug, Clone, Copy)]
pub enum RangeBound {
    Included(usize),
    Excluded(usize),
    Unbounded,
}

/// The range that the two ends describe, as an inclusive start and an exclusive end.
pub fn to_range_any(start_bound: RangeBound, end_bound: RangeBound) -> (r: RangeAny)
    requires
        start_bound matches RangeBound::Excluded(s) ==> s < usize::MAX,
        end_bound matches RangeBound::Included(e) ==> e < usize::MAX,
    ensures
        r.start == match start_bound {
            RangeBound::Included(s) => Some(s),
            RangeBound::Excluded(s) => Some((s + 1) as usize),
            RangeBound::Unbounded => None::<usize>,
        },
        r.end == match end_bound {
            RangeBound::Included(e) => Some((e + 1) as usize),
            RangeBound::Excluded(e) => Some(e),
            RangeBound::Unbounded => None::<usize>,
        },
{
    let start = match start_bound {
        RangeBound::Included(s) => Some(s),
        RangeBound::Excluded(s) => Some(s + 1),
        RangeBound::Unbounded => None,
    };
    let end = match end_bound {
        RangeBound::Included(e) => Some(e + 1),
        RangeBound::Excluded(e) => Some(e),
        RangeBound::Unbounded => None,
    };
    RangeAny { start, end }
}

impl RangeAny {
    pub open spec fn spec_start(&self) -> int {
        match self.start {
            Some(s) => s as int,
            None => 0,
        }
    }

    pub open spec fn spec_end(&self, count: int) -> int {
        match self.end {
            Some(e) => e as int,
            None => count,
        }
    }

    /// The bounds against `count`, or why there are none.
    pub open spec fn spec_range(&self, count: int) -> Result<(int, int), BedError> {
        let (s, e) = (self.spec_start(), self.spec_end(count));
        if s > e {
            Err(BedError::StartGreaterThanEnd(s as usize, e as usize))
        } else if e > count {
            Err(BedError::EndGreaterThanCount(e as usize, count as usize))
        } else {
            Ok((s, e))
        }
    }

    pub fn to_range(&self, count: usize) -> (r: Result<(usize, usize), BedErrorPlus>)
        ensures
            match r {
                Ok((s, e)) => self.spec_range(count as int) == Ok::<(int, int), BedError>(
                    (s as int, e as int),
                ),
                Err(BedErrorPlus::BedError(err)) => self.spec_range(count as int) == Err::<
                    (int, int),
                    BedError,
                >(err),
                Err(_) => false,
            },
    {
        let start = match self.start {
            Some(s) => s,
            None => 0,
        };
        let end = match self.end {
            Some(e) => e,
            None => count,
        };
        if start > end {
            Err(BedErrorPlus::BedError(BedError::StartGreaterThanEnd(start, end)))
        } else if end > count {
            Err(BedErrorPlus::BedError(BedError::EndGreaterThanCount(end, count)))
        } else {
            Ok((start, end))
        }
    }

    pub fn len(&self, count: usize) -> (r: Result<usize, BedErrorPlus>)
        ensures
            match r {
                Ok(n) => self.spec_range(count as int) matches Ok((s, e)) && n == e - s,
                Err(BedErrorPlus::BedError(err)) => self.spec_range(count as int) == Err::<
                    (int, int),
                    BedError,
                >(err),
                Err(_) => false,
            },
    {
        match self.to_range(count) {
            Ok((start, end)) => Ok(end - start),
            Err(e) => Err(e),
        }
    }
}

/// One element of a one-dimensional slice expression.
#[derive(Debug, Clone, Copy)]
pub enum SliceInfoElem {
    /// `start..end;step`; negative start and end count from the back.
    Slice { start: isize, end: Option<isize>, step: isize },
    /// A single position, which drops the axis.
    Index(isize),
    /// A new axis.
    NewAxis,
}

/// A slice expression over one axis.
#[derive(Debug, Clone, Copy)]
pub struct SliceInfo1 {
    pub elem: SliceInfoElem,
}

/// The magnitude of a signed integer.
pub open spec fn magnitude(x: isize) -> int {
    if x < 0 { -(x as int) } else { x as int }
}

fn unsigned_magnitude(x: isize) -> (r: usize)
    ensures
        r == magnitude(x),
{
    if x >= 0 {
        x as usize
    } else {
        (-(x + 1)) as usize + 1
    }
}

/// A resolved strided slice: positions in `[start, end)`, every `step`-th, in
/// increasing order or, when reversed, counted down from `end - 1`.
#[derive(Debug, Clone)]
pub struct RangeNdSlice {
    pub start: usize,
    pub end: usize,
    pub step: usize,
    pub is_reversed: bool,
}

/// Where a signed bound lands against `count`, if it lands at all.
pub open spec fn resolve_bound(b: isize, count: int) -> Option<int> {
    if magnitude(b) > count {
        None
    } else if b >= 0 {
        Some(b as int)
    } else {
        Some(count + b)
    }
}

impl SliceInfo1 {
    /// The resolved slice against `count`, or why there is none.
    pub open spec fn spec_resolve(&self, count: int) -> Result<RangeNdSlice, BedError> {
        match self.elem {
            SliceInfoElem::NewAxis => Err(BedError::NewAxis),
            SliceInfoElem::Index(_) => Err(BedError::NdSliceInfoNot1D),
            SliceInfoElem::Slice { start, end, step } => {
                if step == 0 {
                    Err(BedError::StepZero)
                } else if resolve_bound(start, count) is None {
                    Err(BedError::StartGreaterThanCount(magnitude(start) as usize, count as usize))
                } else if end matches Some(e) && resolve_bound(e, count) is None {
                    Err(BedError::EndGreaterThanCount(magnitude(end->Some_0) as usize, count as usize))
                } else {
                    Ok(
                        RangeNdSlice {
                            start: resolve_bound(start, count)->Some_0 as usize,
                            end: match end {
                                Some(e) => resolve_bound(e, count)->Some_0 as usize,
                                None => count as usize,
                            },
                            step: magnitude(step) as usize,
                            is_reversed: step < 0,
                        },
                    )
                }
            },
        }
    }
}

impl RangeNdSlice {
    pub open spec fn wf(&self) -> bool {
        self.step > 0 && self.end <= isize::MAX
    }

    /// The positions that the slice selects, in order.
    pub open spec fn spec_positions(&self) -> Seq<int> {
        if self.is_reversed {
            stride_down(self.start as int, self.end as int, self.step as int)
        } else {
            stride_up(self.start as int, self.end as int, self.step as int)
        }
    }

    pub fn len(&self) -> (r: usize)
        requires
            self.wf(),
        ensures
            r == self.spec_positions().len(),
    {
        proof {
            lemma_stride_up_len(self.start as int, self.end as int, self.step as int);
            lemma_stride_down_len(self.start as int, self.end as int, self.step as int);
        }
        if self.start > self.end {
            0
        } else {
            div_ceil(self.end - self.start, self.step)
        }
    }

    pub fn to_vec(&self) -> (r: Vec<isize>)
        requires
            self.wf(),
        ensures
            ints(r@) == self.spec_positions(),
    {
        let mut v: Vec<isize> = Vec::new();
        let start = self.start;
        let end = self.end;
        let step = self.step;
        if !self.is_reversed {
            let mut i: usize = start;
            while i < end
                invariant
                    step > 0,
                    end <= isize::MAX,
                    ints(v@) + stride_up(i as int, end as int, step as int) == stride_up(
                        start as int,
                        end as int,
                        step as int,
                    ),
                decreases end - i,
            {
                let ghost old_v = v@;
                v.push(i as isize);
                proof {
                    assert(ints(v@) =~= ints(old_v).push(i as int));
                    assert(stride_up(i as int, end as int, step as int) == seq![i as int]
                        + stride_up(i + step, end as int, step as int));
                    if end - i <= step {
                        assert(stride_up(i + step, end as int, step as int) =~= Seq::empty());
                        assert(stride_up(end as int, end as int, step as int) =~= Seq::empty());
                    }
                    assert(ints(old_v) + (seq![i as int] + stride_up(
                        i + step,
                        end as int,
                        step as int,
                    )) =~= ints(old_v).push(i as int) + stride_up(
                        i + step,
                        end as int,
                        step as int,
                    ));
                }
                if end - i <= step {
                    i = end;
                } else {
                    i = i + step;
                }
            }
            proof {
                assert(ints(v@) + stride_up(i as int, end as int, step as int) =~= ints(v@));
            }
        } else {
            let mut j: usize = end;
            while j > start
                invariant
                    step > 0,
                    j <= end <= isize::MAX,
                    ints(v@) + stride_down(start as int, j as int, step as int) == stride_down(
                        start as int,
                        end as int,
                        step as int,
                    ),
                decreases j,
            {
                let ghost old_v = v@;
                v.push((j - 1) as isize);
                proof {
                    assert(ints(v@) =~= ints(old_v).push(j - 1));
                    assert(stride_down(start as int, j as int, step as int) == seq![j - 1]
                        + stride_down(start as int, j - step, step as int));
                    if j - start <= step {
                        assert(stride_down(start as int, j - step, step as int) =~= Seq::empty());
                        assert(stride_down(start as int, start as int, step as int)
                            =~= Seq::empty());
                    }
                    assert(ints(old_v) + (seq![j - 1] + stride_down(
                        start as int,
                        j - step,
                        step as int,
                    )) =~= ints(old_v).push(j - 1) + stride_down(
                        start as int,
                        j - step,
                        step as int,
                    ));
                }
                if j - start <= step {
                    j = start;
                } else {
                    j = j - step;
                }
            }
            proof {
                assert(ints(v@) + stride_down(start as int, j as int, step as int) =~= ints(v@));
            }
        }
        v
    }

    /// Resolves a slice expression against `count`.
    pub fn new(nd_slice_info: &SliceInfo1, count: usize) -> (r: Result<RangeNdSlice, BedErrorPlus>)
        requires
            count <= isize::MAX,
        ensures
            match r {
                Ok(s) => nd_slice_info.spec_resolve(count as int) == Ok::<RangeNdSlice, BedError>(
                    s,
                ) && s.wf(),
                Err(BedErrorPlus::BedError(e)) => nd_slice_info.spec_resolve(count as int) == Err::<
                    RangeNdSlice,
                    BedError,
                >(e),
                Err(_) => false,
            },
    {
        match nd_slice_info.elem {
            SliceInfoElem::NewAxis => Err(BedErrorPlus::BedError(BedError::NewAxis)),
            SliceInfoElem::Index(_) => Err(BedErrorPlus::BedError(BedError::NdSliceInfoNot1D)),
            SliceInfoElem::Slice { start, end, step } => {
                if step == 0 {
                    return Err(BedErrorPlus::BedError(BedError::StepZero));
                }
                let start3 = unsigned_magnitude(start);
                if start3 > count {
                    return Err(
                        BedErrorPlus::BedError(BedError::StartGreaterThanCount(start3, count)),
                    );
                }
                let start2 = if start >= 0 {
                    start3
                } else {
                    count - start3
                };
                let end2 = match end {
                    Some(e) => {
                        let end3 = unsigned_magnitude(e);
                        if end3 > count {
                            return Err(
                                BedErrorPlus::BedError(BedError::EndGreaterThanCount(end3, count)),
                            );
                        }
                        if e >= 0 {
                            end3
                        } else {
                            count - end3
                        }
                    },
                    None => count,
                };
                Ok(
                    RangeNdSlice {
                        start: start2,
                        end: end2,
                        step: unsigned_magnitude(step),
                        is_reversed: step < 0,
                    },
                )
            },
        }
    }
}

/// A selection along one axis.
#[derive(Debug, Clone)]
pub enum Index {
    /// Every position, in order.
    All,
    /// One signed position; negative counts from the end.
    One(isize),
    /// Signed positions; negative ones count from the end.
    Vec(Vec<isize>),
    /// A mask with one entry per position.
    VecBool(Vec<bool>),
    /// A strided slice.
    NDSliceInfo(SliceInfo1),
    /// A range of unsigned positions.
    RangeAny(RangeAny),
}

impl Index {
    /// The positions that the selection names against `count`, or why there are none.
    /// Signed positions are kept as given: the reader resolves them.
    pub open spec fn spec_to_vec(&self, count: int) -> Result<Seq<int>, BedError> {
        match self {
            Index::All => Ok(range_seq(0, count)),
            Index::One(k) => Ok(seq![*k as int]),
            Index::Vec(v) => Ok(ints(v@)),
            Index::VecBool(m) => if m@.len() != count {
                Err(BedError::BoolArrayVectorWrongLength(count as usize, m@.len() as usize))
            } else {
                Ok(true_positions(m@))
            },
            Index::NDSliceInfo(info) => match info.spec_resolve(count) {
                Ok(s) => Ok(s.spec_positions()),
                Err(e) => Err(e),
            },
            Index::RangeAny(r) => match r.spec_range(count) {
                Ok((s, e)) => Ok(range_seq(s, e)),
                Err(e) => Err(e),
            },
        }
    }

    /// The number of positions, or why there are none.
    pub open spec fn spec_len(&self, count: int) -> Result<int, BedError> {
        match self {
            Index::All => Ok(count),
            Index::One(_) => Ok(1),
            Index::Vec(v) => Ok(v@.len() as int),
            Index::VecBool(m) => if m@.len() != count {
                Err(BedError::BoolArrayVectorWrongLength(count as usize, m@.len() as usize))
            } else {
                Ok(true_positions(m@).len() as int)
            },
            Index::NDSliceInfo(info) => match info.spec_resolve(count) {
                Ok(s) => Ok(ceil_div(s.end - s.start, s.step as int)),
                Err(e) => Err(e),
            },
            Index::RangeAny(r) => match r.spec_range(count) {
                Ok((s, e)) => Ok(e - s),
                Err(e) => Err(e),
            },
        }
    }

    pub fn to_vec(&self, count: usize) -> (r: Result<Vec<isize>, BedErrorPlus>)
        requires
            count <= isize::MAX,
        ensures
            match r {
                Ok(v) => self.spec_to_vec(count as int) == Ok::<Seq<int>, BedError>(ints(v@)),
                Err(BedErrorPlus::BedError(e)) => self.spec_to_vec(count as int) == Err::<
                    Seq<int>,
                    BedError,
                >(e),
                Err(_) => false,
            },
    {
        match self {
            Index::All => {
                let mut v: Vec<isize> = Vec::new();
                let mut i: usize = 0;
                while i < count
                    invariant
                        i <= count <= isize::MAX,
                        ints(v@) =~= range_seq(0, i as int),
                    decreases count - i,
                {
                    let ghost old_v = v@;
                    v.push(i as isize);
                    proof {
                        assert(ints(v@) =~= ints(old_v).push(i as int));
                    }
                    i = i + 1;
                }
                Ok(v)
            },
            Index::One(k) => {
                let v: Vec<isize> = vec![*k];
                proof {
                    assert(ints(v@) =~= seq![*k as int]);
                }
                Ok(v)
            },
            Index::Vec(vec) => Ok(vec.clone()),
            Index::VecBool(mask) => {
                if mask.len() != count {
                    return Err(
                        BedErrorPlus::BedError(
                            BedError::BoolArrayVectorWrongLength(count, mask.len()),
                        ),
                    );
                }
                let mut v: Vec<isize> = Vec::new();
                let mut i: usize = 0;
                while i < mask.len()
                    invariant
                        i <= mask@.len() == count <= isize::MAX,
                        ints(v@) == true_positions(mask@.subrange(0, i as int)),
                    decreases mask@.len() - i,
                {
                    proof {
                        lemma_true_positions_step(mask@, i as int);
                    }
                    if mask[i] {
                        let ghost old_v = v@;
                        v.push(i as isize);
                        proof {
                            assert(ints(v@) =~= ints(old_v).push(i as int));
                        }
                    }
                    i = i + 1;
                }
                proof {
                    assert(mask@.subrange(0, mask@.len() as int) =~= mask@);
                }
                Ok(v)
            },
            Index::NDSliceInfo(info) => {
                let s = RangeNdSlice::new(info, count)?;
                Ok(s.to_vec())
            },
            Index::RangeAny(range_any) => {
                let (start, end) = range_any.to_range(count)?;
                let mut v: Vec<isize> = Vec::new();
                let mut i: usize = start;
                while i < end
                    invariant
                        start <= i <= end <= count <= isize::MAX,
                        ints(v@) =~= range_seq(start as int, i as int),
                    decreases end - i,
                {
                    let ghost old_v = v@;
                    v.push(i as isize);
                    proof {
                        assert(ints(v@) =~= ints(old_v).push(i as int));
                    }
                    i = i + 1;
                }
                Ok(v)
            },
        }
    }

    pub fn len(&self, count: usize) -> (r: Result<usize, BedErrorPlus>)
        requires
            count <= isize::MAX,
        ensures
            match r {
                Ok(n) => self.spec_len(count as int) == Ok::<int, BedError>(n as int),
                Err(BedErrorPlus::BedError(e)) => self.spec_len(count as int) == Err::<int, BedError>(
                    e,
                ),
                Err(_) => false,
            },
    {
        match self {
            Index::All => Ok(count),
            Index::One(_) => Ok(1),
            Index::Vec(vec) => Ok(vec.len()),
            Index::VecBool(mask) => {
                if mask.len() != count {
                    return Err(
                        BedErrorPlus::BedError(
                            BedError::BoolArrayVectorWrongLength(count, mask.len()),
                        ),
                    );
                }
                let mut n: usize = 0;
                let mut i: usize = 0;
                while i < mask.len()
                    invariant
                        i <= mask@.len(),
                        n == true_positions(mask@.subrange(0, i as int)).len(),
                        n <= i,
                    decreases mask@.len() - i,
                {
                    proof {
                        lemma_true_positions_step(mask@, i as int);
                    }
                    if mask[i] {
                        n = n + 1;
                    }
                    i = i + 1;
                }
                proof {
                    assert(mask@.subrange(0, mask@.len() as int) =~= mask@);
                }
                Ok(n)
            },
            Index::NDSliceInfo(info) => {
                let s = RangeNdSlice::new(info, count)?;
                proof {
                    lemma_stride_up_len(s.start as int, s.end as int, s.step as int);
                    lemma_stride_down_len(s.start as int, s.end as int, s.step as int);
                }
                Ok(s.len())
            },
            Index::RangeAny(range_any) => range_any.len(count),
        }
    }
}


/// Where a signed position lands against `count`: itself when not negative,
/// counted from the end otherwise.
pub open spec fn resolved(p: int, count: int) -> int {
    if p >= 0 { p } else { count + p }
}

proof fn lemma_stride_up_closed(start: int, end: int, step: int)
    requires
        step > 0,
    ensures
        stride_up(start, end, step) =~= Seq::new(
            ceil_div(end - start, step) as nat,
            |i: int| start + i * step,
        ),
    decreases if start < end { end - start } else { 0 },
{
    lemma_stride_up_len(start, end, step);
    if start < end {
        lemma_stride_up_closed(start + step, end, step);
        lemma_stride_up_len(start + step, end, step);
        let s = stride_up(start, end, step);
        assert forall|i: int| 0 <= i < s.len() implies s[i] == start + i * step by {
            if i > 0 {
                assert(start + step + (i - 1) * step == start + i * step) by (nonlinear_arith);
            }
        }
    }
}

proof fn lemma_stride_down_closed(start: int, end: int, step: int)
    requires
        step > 0,
    ensures
        stride_down(start, end, step) =~= Seq::new(
            ceil_div(end - start, step) as nat,
            |i: int| end - 1 - i * step,
        ),
    decreases if start < end { end - start } else { 0 },
{
    lemma_stride_down_len(start, end, step);
    if start < end {
        lemma_stride_down_closed(start, end - step, step);
        lemma_stride_down_len(start, end - step, step);
        let s = stride_down(start, end, step);
        assert forall|i: int| 0 <= i < s.len() implies s[i] == end - 1 - i * step by {
            if i > 0 {
                assert(end - step - 1 - (i - 1) * step == end - 1 - i * step) by (nonlinear_arith);
            }
        }
    }
}

proof fn lemma_true_positions_filter(mask: Seq<bool>, n: int)
    requires
        0 <= n <= mask.len(),
    ensures
        true_positions(mask.subrange(0, n)) == range_seq(0, n).filter(|i: int| mask[i]),
    decreases n,
{
    let pred = |i: int| mask[i];
    if n == 0 {
        assert(mask.subrange(0, 0) =~= Seq::<bool>::empty());
        assert(range_seq(0, 0) =~= Seq::<int>::empty());
        assert(range_seq(0, 0).filter(pred) =~= Seq::<int>::empty());
    } else {
        lemma_true_positions_filter(mask, n - 1);
        lemma_true_positions_step(mask, n - 1);
        assert(range_seq(0, n).drop_last() =~= range_seq(0, n - 1));
        assert(range_seq(0, n).last() == n - 1);
        reveal(Seq::filter);
    }
}

/// For every selection and every count, the number of positions that `len`
/// gives is the length of what `to_vec` gives, and both fail alike.
pub proof fn lemma_len_is_positions_len(index: Index, count: int)
    requires
        count >= 0,
    ensures
        index.spec_len(count) == match index.spec_to_vec(count) {
            Ok(s) => Ok::<int, BedError>(s.len() as int),
            Err(e) => Err(e),
        },
{
    match index {
        Index::NDSliceInfo(info) => {
            if let Ok(s) = info.spec_resolve(count) {
                lemma_stride_up_len(s.start as int, s.end as int, s.step as int);
                lemma_stride_down_len(s.start as int, s.end as int, s.step as int);
            }
        },
        _ => {},
    }
}

/// A single position `k` with `-count <= k < count` selects exactly one
/// position, which resolves to `k`, or to `count + k` when `k` is negative.
pub proof fn lemma_single_position(k: isize, count: int)
    requires
        -count <= k < count,
    ensures
        Index::One(k).spec_to_vec(count) == Ok::<Seq<int>, BedError>(seq![k as int]),
        seq![k as int].map_values(|p: int| resolved(p, count)) =~= seq![
            if k >= 0 { k as int } else { count + k }
        ],
{
}

/// A mask of length `count` selects the indices of its true entries, in order.
pub proof fn lemma_mask_positions(mask: Vec<bool>, count: int)
    requires
        mask@.len() == count,
    ensures
        Index::VecBool(mask).spec_to_vec(count) == Ok::<Seq<int>, BedError>(
            range_seq(0, count).filter(|i: int| mask@[i]),
        ),
{
    lemma_true_positions_filter(mask@, count);
    assert(mask@.subrange(0, count) =~= mask@);
}

/// A slice `start..end` with a positive step and `0 <= start <= end <= count`
/// selects `start, start + step, ...` below `end`, as Python's `range` does.
pub proof fn lemma_positive_stride(start: isize, end: isize, step: isize, count: int)
    requires
        0 <= start <= end <= count,
        step > 0,
    ensures
        Index::NDSliceInfo(
            SliceInfo1 { elem: SliceInfoElem::Slice { start, end: Some(end), step } },
        ).spec_to_vec(count) == Ok::<Seq<int>, BedError>(
            Seq::new(ceil_div(end - start, step as int) as nat, |i: int| start + i * step),
        ),
{
    lemma_stride_up_closed(start as int, end as int, step as int);
}

/// A slice with a negative step selects the positions that the same bounds
/// select with the opposite step, in reverse order, whenever the last of those
/// is `end - 1` (always so for a step of -1).
pub proof fn lemma_negative_stride(start: isize, end: isize, step: isize, count: int)
    requires
        0 <= start <= end <= count,
        step < 0,
        step > isize::MIN,
        start == end || (end - 1 - start) % (-step) == 0,
    ensures
        Index::NDSliceInfo(
            SliceInfo1 { elem: SliceInfoElem::Slice { start, end: Some(end), step } },
        ).spec_to_vec(count) == match Index::NDSliceInfo(
            SliceInfo1 { elem: SliceInfoElem::Slice { start, end: Some(end), step: (-step) as isize } },
        ).spec_to_vec(count) {
            Ok(s) => Ok::<Seq<int>, BedError>(s.reverse()),
            Err(e) => Err(e),
        },
{
    let k = -step as int;
    let (s, e) = (start as int, end as int);
    lemma_stride_up_closed(s, e, k);
    lemma_stride_down_closed(s, e, k);
    let up = stride_up(s, e, k);
    let down = stride_down(s, e, k);
    let c = ceil_div(e - s, k);
    if s < e {
        let q = (e - 1 - s) / k;
        vstd::arithmetic::div_mod::lemma_fundamental_div_mod(e - 1 - s, k);
        assert(e - 1 - s == k * q);
        assert forall|i: int| 0 <= i < c implies down[i] == up.reverse()[i] by {
            assert(up.reverse()[i] == up[c - 1 - i]);
            assert(s + (q - i) * k == e - 1 - i * k) by (nonlinear_arith)
                requires e - 1 - s == k * q;
        }
    }
    assert(down =~= up.reverse());
}

} // verus!
