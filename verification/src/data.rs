use vstd::prelude::*;
use vstd::arithmetic::div_mod::{
    lemma_div_multiples_vanish, lemma_div_nonincreasing, lemma_div_pos_is_pos,
    lemma_multiply_divide_le,
};
use crate::errors::NetError;
use crate::fixed::{clamp_model, fx_ok, tdiv, FX_HALF, FX_LIMIT, FX_ONE};
use crate::random::shuffle_samples;

verus! {

/// Number of feature columns every sample carries.
pub const FEATURE_COUNT: usize = 14;

/// One field of a tabular data row: either a representable fixed-point number
/// or a value that could not be read as one (unreadable text, or a number
/// outside the representable range).
#[derive(Clone, Copy, Debug, PartialEq, Eq, Structural)]
pub enum Cell {
    Value(i64),
    Invalid,
}

/// One labelled example: 14 feature values and a label, in fixed-point units.
pub struct Sample {
    pub features: Vec<i64>,
    pub label: i64,
}

/// The mathematical content of a sample: its feature sequence and its label.
pub open spec fn sample_model(s: Sample) -> (Seq<i64>, i64) {
    (s.features@, s.label)
}

/// The mathematical content of a dataset, sample by sample, in order.
pub open spec fn dataset_model(d: Seq<Sample>) -> Seq<(Seq<i64>, i64)> {
    d.map_values(|s: Sample| sample_model(s))
}

/// A sample model is well formed when it has exactly 14 representable
/// features and a representable label.
pub open spec fn model_ok(m: (Seq<i64>, i64)) -> bool {
    &&& m.0.len() == FEATURE_COUNT
    &&& forall|i: int| 0 <= i < m.0.len() ==> fx_ok(m.0[i] as int)
    &&& fx_ok(m.1 as int)
}

pub open spec fn sample_ok(s: Sample) -> bool {
    model_ok(sample_model(s))
}

pub open spec fn dataset_ok(d: Seq<Sample>) -> bool {
    forall|k: int| 0 <= k < d.len() ==> sample_ok(#[trigger] d[k])
}

/// Labels that can act as targets of the loss: values inside [0, FX_ONE].
pub open spec fn labels_ok(d: Seq<Sample>) -> bool {
    forall|k: int| 0 <= k < d.len() ==> 0 <= (#[trigger] d[k]).label <= FX_ONE
}

/// A row is kept when it has at least 15 fields and the first 15 all hold
/// representable values: 14 features followed by the label.
pub open spec fn row_kept(row: Seq<Cell>) -> bool {
    &&& row.len() >= 15
    &&& forall|k: int|
        0 <= k < 15 ==> (#[trigger] row[k]) is Value && fx_ok(row[k]->Value_0 as int)
}

/// The sample a kept row denotes: the first 14 values, then the label.
pub open spec fn row_sample(row: Seq<Cell>) -> (Seq<i64>, i64) {
    (Seq::new(14, |i: int| row[i]->Value_0), row[14]->Value_0)
}

/// The dataset a table of rows denotes: the kept rows, in their order.
pub open spec fn rows_dataset(rows: Seq<Seq<Cell>>) -> Seq<(Seq<i64>, i64)>
    decreases rows.len(),
{
    if rows.len() == 0 {
        Seq::empty()
    } else {
        rows_dataset(rows.drop_last()) + if row_kept(rows.last()) {
            seq![row_sample(rows.last())]
        } else {
            Seq::empty()
        }
    }
}

pub open spec fn rows_view(rows: Vec<Vec<Cell>>) -> Seq<Seq<Cell>> {
    rows@.map_values(|r: Vec<Cell>| r@)
}

/// Read one parsed row; `Some` exactly for the rows that are kept.
fn read_row(row: &Vec<Cell>) -> (r: Option<Sample>)
    ensures
        match r {
            Some(s) => row_kept(row@) && sample_ok(s) && sample_model(s) == row_sample(row@),
            None => !row_kept(row@),
        },
{
    if row.len() < 15 {
        return None;
    }
    let mut feats: Vec<i64> = Vec::new();
    let mut k: usize = 0;
    while k < 14
        invariant
            row@.len() >= 15,
            k <= 14,
            feats@.len() == k,
            forall|j: int|
                0 <= j < k ==> (#[trigger] row@[j]) is Value && fx_ok(row@[j]->Value_0 as int)
                    && feats@[j] == row@[j]->Value_0,
        decreases 14 - k,
    {
        match row[k] {
            Cell::Value(v) => {
                if -FX_LIMIT <= v && v <= FX_LIMIT {
                    feats.push(v);
                } else {
                    return None;
                }
            },
            Cell::Invalid => {
                return None;
            },
        }
        k += 1;
    }
    let label = match row[14] {
        Cell::Value(v) => {
            if -FX_LIMIT <= v && v <= FX_LIMIT {
                v
            } else {
                return None;
            }
        },
        Cell::Invalid => {
            return None;
        },
    };
    let s = Sample { features: feats, label };
    proof {
        assert(s.features@ =~= Seq::new(14, |i: int| row@[i]->Value_0));
    }
    Some(s)
}

/// Build the dataset a table of parsed rows denotes: keep exactly the rows
/// whose first 15 fields are representable values, take the first 14 as the
/// features and the 15th as the label, and report a data error when nothing
/// is kept.
pub fn dataset_from_rows(rows: &Vec<Vec<Cell>>) -> (r: Result<Vec<Sample>, NetError>)
    ensures
        match r {
            Ok(d) => {
                &&& dataset_model(d@) == rows_dataset(rows_view(*rows))
                &&& d@.len() > 0
                &&& dataset_ok(d@)
            },
            Err(e) => {
                &&& e == NetError::DataError
                &&& rows_dataset(rows_view(*rows)).len() == 0
            },
        },
{
    let ghost rv = rows_view(*rows);
    let mut out: Vec<Sample> = Vec::new();
    let n = rows.len();
    let mut idx: usize = 0;
    while idx < n
        invariant
            n == rows@.len(),
            rv == rows_view(*rows),
            idx <= n,
            dataset_model(out@) == rows_dataset(rv.take(idx as int)),
            dataset_ok(out@),
        decreases n - idx,
    {
        let ghost prefix = rv.take(idx as int);
        let row_ref = &rows[idx];
        proof {
            assert(rv[idx as int] == row_ref@);
            assert(rv.take(idx as int + 1).drop_last() =~= prefix);
            assert(rv.take(idx as int + 1).last() == rv[idx as int]);
        }
        match read_row(row_ref) {
            Some(s) => {
                proof {
                    assert(dataset_model(out@.push(s)) =~= dataset_model(out@) + seq![
                        sample_model(s),
                    ]);
                    assert(rows_dataset(rv.take(idx as int + 1)) == rows_dataset(prefix) + seq![
                        row_sample(rv[idx as int]),
                    ]);
                }
                out.push(s);
            },
            None => {
                proof {
                    assert(rows_dataset(rv.take(idx as int + 1)) == rows_dataset(prefix)
                        + Seq::<(Seq<i64>, i64)>::empty());
                    assert(rows_dataset(prefix) + Seq::<(Seq<i64>, i64)>::empty() =~= rows_dataset(
                        prefix,
                    ));
                }
            },
        }
        idx += 1;
    }
    proof {
        assert(rv.take(n as int) =~= rv);
    }
    if out.len() == 0 {
        Err(NetError::DataError)
    } else {
        Ok(out)
    }
}

/// The shared rescaling rule: map a raw value into [0, FX_ONE] linearly
/// between the column minimum and maximum, or to exactly FX_HALF when the
/// column has zero range.
pub open spec fn scale_model(x: int, lo: int, hi: int) -> int {
    if hi > lo {
        clamp_model(tdiv((x - lo) * (FX_ONE as int), hi - lo))
    } else {
        FX_HALF as int
    }
}

/// Normalization invariant: a value between the column bounds rescales into
/// [0, FX_ONE]; the minimum rescales to 0 and the maximum to FX_ONE, unless
/// the column has zero range, in which case every value rescales to FX_HALF.
pub proof fn lemma_scale_bounds(x: int, lo: int, hi: int)
    requires
        lo <= x <= hi,
    ensures
        0 <= scale_model(x, lo, hi) <= FX_ONE,
        hi > lo && x == lo ==> scale_model(x, lo, hi) == 0,
        hi > lo && x == hi ==> scale_model(x, lo, hi) == FX_ONE,
        hi == lo ==> scale_model(x, lo, hi) == FX_HALF,
{
    if hi > lo {
        let d = hi - lo;
        let num = (x - lo) * (FX_ONE as int);
        assert(0 <= num <= d * (FX_ONE as int)) by (nonlinear_arith)
            requires
                0 <= x - lo <= d && num == (x - lo) * (FX_ONE as int),
        ;
        lemma_div_pos_is_pos(num, d);
        lemma_multiply_divide_le(num, d, FX_ONE as int);
        if x == lo {
            lemma_div_nonincreasing(0, d);
        }
        if x == hi {
            lemma_div_multiples_vanish(FX_ONE as int, d);
            assert(num == d * (FX_ONE as int)) by (nonlinear_arith)
                requires
                    x - lo == d && num == (x - lo) * (FX_ONE as int),
            ;
        }
    }
}

/// Rescale one raw value against one column's bounds.
pub fn scale_value(x: i64, lo: i64, hi: i64) -> (r: i64)
    requires
        fx_ok(x as int),
        fx_ok(lo as int),
        fx_ok(hi as int),
    ensures
        r as int == scale_model(x as int, lo as int, hi as int),
        fx_ok(r as int),
{
    if hi > lo {
        let num: i128 = ((x as i128) - (lo as i128)) * 65536;
        let d: i128 = (hi as i128) - (lo as i128);
        let q: i128 = if num >= 0 {
            proof {
                lemma_div_pos_is_pos(num as int, d as int);
                lemma_div_nonincreasing(num as int, d as int);
            }
            num / d
        } else {
            proof {
                lemma_div_pos_is_pos(-num as int, d as int);
                lemma_div_nonincreasing(-num as int, d as int);
            }
            -((-num) / d)
        };
        if q > FX_LIMIT as i128 {
            FX_LIMIT
        } else if q < -(FX_LIMIT as i128) {
            -FX_LIMIT
        } else {
            q as i64
        }
    } else {
        FX_HALF
    }
}

/// `m` is the least value of column `i`, and is attained.
pub open spec fn is_col_min(d: Seq<Sample>, i: int, m: int) -> bool {
    &&& forall|k: int| 0 <= k < d.len() ==> m <= (#[trigger] d[k]).features@[i]
    &&& exists|k: int| 0 <= k < d.len() && m == (#[trigger] d[k]).features@[i]
}

/// `m` is the greatest value of column `i`, and is attained.
pub open spec fn is_col_max(d: Seq<Sample>, i: int, m: int) -> bool {
    &&& forall|k: int| 0 <= k < d.len() ==> (#[trigger] d[k]).features@[i] <= m
    &&& exists|k: int| 0 <= k < d.len() && m == (#[trigger] d[k]).features@[i]
}

/// A normalized sample: each feature rescaled by its column's rule, the label
/// untouched.
pub open spec fn sample_scaled(orig: Sample, re: Sample, mins: Seq<i64>, maxs: Seq<i64>) -> bool {
    &&& re.features@.len() == FEATURE_COUNT
    &&& re.label == orig.label
    &&& forall|i: int|
        0 <= i < FEATURE_COUNT ==> (#[trigger] re.features@[i]) as int == scale_model(
            orig.features@[i] as int,
            mins[i] as int,
            maxs[i] as int,
        )
}

/// Find the attained minimum and maximum of every feature column.
fn column_bounds(data: &Vec<Sample>) -> (b: (Vec<i64>, Vec<i64>))
    requires
        data@.len() > 0,
        dataset_ok(data@),
    ensures
        b.0@.len() == FEATURE_COUNT,
        b.1@.len() == FEATURE_COUNT,
        forall|i: int| 0 <= i < FEATURE_COUNT ==> is_col_min(data@, i, b.0@[i] as int),
        forall|i: int| 0 <= i < FEATURE_COUNT ==> is_col_max(data@, i, b.1@[i] as int),
        forall|i: int|
            0 <= i < FEATURE_COUNT ==> fx_ok(b.0@[i] as int) && fx_ok(b.1@[i] as int) && b.0@[i]
                <= b.1@[i],
    {
    let mut mins: Vec<i64> = Vec::new();
    let mut maxs: Vec<i64> = Vec::new();
    let mut i: usize = 0;
    while i < 14
        invariant
            data@.len() > 0,
            dataset_ok(data@),
            i <= 14,
            mins@.len() == i,
            maxs@.len() == i,
            forall|t: int| 0 <= t < i ==> is_col_min(data@, t, mins@[t] as int),
            forall|t: int| 0 <= t < i ==> is_col_max(data@, t, maxs@[t] as int),
            forall|t: int|
                0 <= t < i ==> fx_ok(mins@[t] as int) && fx_ok(maxs@[t] as int) && mins@[t]
                    <= maxs@[t],
        decreases 14 - i,
    {
        let first = &data[0];
        let mut lo: i64 = first.features[i];
        let mut hi: i64 = lo;
        let n = data.len();
        let mut k: usize = 1;
        while k < n
            invariant
                data@.len() == n,
                data@.len() > 0,
                dataset_ok(data@),
                i < 14,
                1 <= k <= n,
                lo <= hi,
                forall|t: int|
                    0 <= t < k ==> lo <= (#[trigger] data@[t]).features@[i as int]
                        && data@[t].features@[i as int] <= hi,
                exists|t: int| 0 <= t < k && lo == (#[trigger] data@[t]).features@[i as int],
                exists|t: int| 0 <= t < k && hi == (#[trigger] data@[t]).features@[i as int],
            decreases n - k,
        {
            let s = &data[k];
            let x = s.features[i];
            if x < lo {
                lo = x;
            }
            if x > hi {
                hi = x;
            }
            k += 1;
        }
        mins.push(lo);
        maxs.push(hi);
        i += 1;
    }
    (mins, maxs)
}

/// Rescale every feature of every sample into [0, FX_ONE] by its column's
/// observed bounds, and return those bounds: the persisted scaler.
pub fn normalize_features(data: &mut Vec<Sample>) -> (bounds: (Vec<i64>, Vec<i64>))
    requires
        old(data)@.len() > 0,
        dataset_ok(old(data)@),
    ensures
        final(data)@.len() == old(data)@.len(),
        bounds.0@.len() == FEATURE_COUNT,
        bounds.1@.len() == FEATURE_COUNT,
        forall|i: int| 0 <= i < FEATURE_COUNT ==> is_col_min(old(data)@, i, bounds.0@[i] as int),
        forall|i: int| 0 <= i < FEATURE_COUNT ==> is_col_max(old(data)@, i, bounds.1@[i] as int),
        forall|k: int|
            0 <= k < final(data)@.len() ==> sample_scaled(
                old(data)@[k],
                #[trigger] final(data)@[k],
                bounds.0@,
                bounds.1@,
            ),
        dataset_ok(final(data)@),
        labels_ok(old(data)@) ==> labels_ok(final(data)@),
        forall|k: int, i: int|
            0 <= k < final(data)@.len() && 0 <= i < FEATURE_COUNT ==> 0 <= (
            #[trigger] final(data)@[k].features@[i]) <= FX_ONE,
{
    let (mins, maxs) = column_bounds(data);
    let n = data.len();
    let mut out: Vec<Sample> = Vec::new();
    let mut k: usize = 0;
    while k < n
        invariant
            n == data@.len(),
            data@.len() > 0,
            dataset_ok(data@),
            mins@.len() == FEATURE_COUNT,
            maxs@.len() == FEATURE_COUNT,
            forall|i: int| 0 <= i < FEATURE_COUNT ==> is_col_min(data@, i, mins@[i] as int),
            forall|i: int| 0 <= i < FEATURE_COUNT ==> is_col_max(data@, i, maxs@[i] as int),
            forall|i: int|
                0 <= i < FEATURE_COUNT ==> fx_ok(mins@[i] as int) && fx_ok(maxs@[i] as int),
            k <= n,
            out@.len() == k,
            forall|t: int|
                0 <= t < k ==> sample_scaled(data@[t], #[trigger] out@[t], mins@, maxs@),
            forall|t: int| 0 <= t < k ==> (#[trigger] out@[t]).label == data@[t].label,
            forall|t: int, i: int|
                0 <= t < k && 0 <= i < FEATURE_COUNT ==> 0 <= (#[trigger] out@[t].features@[i])
                    <= FX_ONE,
        decreases n - k,
    {
        let s = &data[k];
        let mut feats: Vec<i64> = Vec::new();
        let mut i: usize = 0;
        while i < 14
            invariant
                n == data@.len(),
                dataset_ok(data@),
                k < n,
                s == &data@[k as int],
                mins@.len() == FEATURE_COUNT,
                maxs@.len() == FEATURE_COUNT,
                forall|t: int| 0 <= t < FEATURE_COUNT ==> is_col_min(data@, t, mins@[t] as int),
                forall|t: int| 0 <= t < FEATURE_COUNT ==> is_col_max(data@, t, maxs@[t] as int),
                forall|t: int|
                    0 <= t < FEATURE_COUNT ==> fx_ok(mins@[t] as int) && fx_ok(maxs@[t] as int),
                i <= 14,
                feats@.len() == i,
                forall|t: int|
                    0 <= t < i ==> (#[trigger] feats@[t]) as int == scale_model(
                        s.features@[t] as int,
                        mins@[t] as int,
                        maxs@[t] as int,
                    ) && 0 <= feats@[t] <= FX_ONE,
            decreases 14 - i,
        {
            let x = s.features[i];
            let v = scale_value(x, mins[i], maxs[i]);
            proof {
                lemma_scale_bounds(x as int, mins@[i as int] as int, maxs@[i as int] as int);
            }
            feats.push(v);
            i += 1;
        }
        out.push(Sample { features: feats, label: s.label });
        k += 1;
    }
    *data = out;
    (mins, maxs)
}

/// Copy a dataset sample by sample; the copy denotes the same models.
pub(crate) fn copy_samples(data: &Vec<Sample>) -> (r: Vec<Sample>)
    ensures
        r@.len() == data@.len(),
        dataset_model(r@) == dataset_model(data@),
{
    let mut out: Vec<Sample> = Vec::new();
    let n = data.len();
    let mut k: usize = 0;
    while k < n
        invariant
            n == data@.len(),
            k <= n,
            out@.len() == k,
            forall|t: int|
                0 <= t < k ==> sample_model(#[trigger] out@[t]) == sample_model(data@[t]),
        decreases n - k,
    {
        let s = &data[k];
        out.push(Sample { features: s.features.clone(), label: s.label });
        k += 1;
    }
    proof {
        assert(dataset_model(out@) =~= dataset_model(data@));
    }
    out
}

/// Elementwise well-formedness carries over between datasets that denote the
/// same multiset of sample models.
pub proof fn lemma_ok_from_multiset(a: Seq<Sample>, b: Seq<Sample>)
    requires
        dataset_model(a).to_multiset() == dataset_model(b).to_multiset(),
    ensures
        dataset_ok(a) ==> dataset_ok(b),
        labels_ok(a) ==> labels_ok(b),
{
    broadcast use vstd::seq_lib::group_to_multiset_ensures;

    let ma = dataset_model(a);
    let mb = dataset_model(b);
    assert forall|k: int| 0 <= k < b.len() implies exists|j: int|
        0 <= j < a.len() && sample_model(a[j]) == sample_model(#[trigger] b[k]) by {
        assert(mb[k] == sample_model(b[k]));
        assert(mb.contains(mb[k]));
        assert(mb.to_multiset().contains(mb[k]));
        assert(ma.to_multiset().contains(mb[k]));
        assert(ma.contains(mb[k]));
        let j = choose|j: int| 0 <= j < ma.len() && ma[j] == mb[k];
        assert(sample_model(a[j]) == mb[k]);
    }
}

/// Split a dataset at the ratio `ratio_num / ratio_den`, after a fresh
/// uniformly random shuffle: the first part holds `floor(len * ratio)`
/// samples, and together the two parts hold exactly the input samples.
pub fn split_data(
    data: &Vec<Sample>,
    ratio_num: usize,
    ratio_den: usize,
    rng: &mut rand::rngs::StdRng,
) -> (parts: (Vec<Sample>, Vec<Sample>))
    requires
        0 < ratio_den,
        ratio_num <= ratio_den,
    ensures
        parts.0@.len() as int == (data@.len() as int * ratio_num as int) / (ratio_den as int),
        parts.0@.len() + parts.1@.len() == data@.len(),
        dataset_model(parts.0@ + parts.1@).to_multiset() == dataset_model(data@).to_multiset(),
        dataset_ok(data@) ==> dataset_ok(parts.0@) && dataset_ok(parts.1@),
        labels_ok(data@) ==> labels_ok(parts.0@) && labels_ok(parts.1@),
{
    let mut shuffled = copy_samples(data);
    shuffle_samples(rng, &mut shuffled);
    proof {
        lemma_ok_from_multiset(data@, shuffled@);
    }
    let ghost pre = shuffled@;
    let len = shuffled.len();
    proof {
        assert((len as int) * (ratio_num as int) < 0x1_0000_0000_0000_0000
            * 0x1_0000_0000_0000_0000) by (nonlinear_arith)
            requires
                (len as int) < 0x1_0000_0000_0000_0000,
                (ratio_num as int) < 0x1_0000_0000_0000_0000,
                0 <= (len as int),
                0 <= (ratio_num as int),
        ;
    }
    let big: u128 = (len as u128) * (ratio_num as u128) / (ratio_den as u128);
    proof {
        lemma_div_pos_is_pos(len as int * ratio_num as int, ratio_den as int);
        assert(len as int * ratio_num as int <= ratio_den as int * len as int) by (nonlinear_arith)
            requires
                ratio_num as int <= ratio_den as int && len as int >= 0,
        ;
        lemma_multiply_divide_le(len as int * ratio_num as int, ratio_den as int, len as int);
    }
    let idx: usize = big as usize;
    let tail = shuffled.split_off(idx);
    proof {
        assert(shuffled@ + tail@ =~= pre);
        assert(dataset_model(shuffled@ + tail@).to_multiset() == dataset_model(
            data@,
        ).to_multiset());
        assert(dataset_ok(pre) ==> dataset_ok(shuffled@) && dataset_ok(tail@));
        assert(labels_ok(pre) ==> labels_ok(shuffled@) && labels_ok(tail@));
    }
    (shuffled, tail)
}

/// Whether every sample has the right shape and representable values; outer
/// code checks this before asking for training or evaluation.
pub fn check_dataset(data: &Vec<Sample>) -> (r: bool)
    ensures
        r == dataset_ok(data@),
{
    let n = data.len();
    let mut k: usize = 0;
    while k < n
        invariant
            n == data@.len(),
            k <= n,
            forall|t: int| 0 <= t < k ==> sample_ok(#[trigger] data@[t]),
        decreases n - k,
    {
        let s = &data[k];
        if s.features.len() != 14 {
            return false;
        }
        let mut i: usize = 0;
        while i < 14
            invariant
                n == data@.len(),
                k < n,
                s == &data@[k as int],
                s.features@.len() == 14,
                i <= 14,
                forall|t: int| 0 <= t < i ==> fx_ok(s.features@[t] as int),
            decreases 14 - i,
        {
            let x = s.features[i];
            if x < -FX_LIMIT || x > FX_LIMIT {
                return false;
            }
            i += 1;
        }
        if s.label < -FX_LIMIT || s.label > FX_LIMIT {
            return false;
        }
        k += 1;
    }
    true
}

/// Whether every label lies in [0, FX_ONE]; outer code checks this before
/// asking for training.
pub fn check_labels(data: &Vec<Sample>) -> (r: bool)
    ensures
        r == labels_ok(data@),
{
    let n = data.len();
    let mut k: usize = 0;
    while k < n
        invariant
            n == data@.len(),
            k <= n,
            forall|t: int| 0 <= t < k ==> 0 <= (#[trigger] data@[t]).label <= FX_ONE,
        decreases n - k,
    {
        let s = &data[k];
        if s.label < 0 || s.label > FX_ONE {
            return false;
        }
        k += 1;
    }
    true
}

/// Rescale a raw feature vector with persisted column bounds, as done before
/// prediction; fails with a shape error exactly when any length is not the
/// fixed feature count.
pub fn apply_scaler(features: &Vec<i64>, mins: &Vec<i64>, maxs: &Vec<i64>) -> (r: Result<
    Vec<i64>,
    NetError,
>)
    requires
        forall|i: int| 0 <= i < features@.len() ==> fx_ok((#[trigger] features@[i]) as int),
        forall|i: int| 0 <= i < mins@.len() ==> fx_ok((#[trigger] mins@[i]) as int),
        forall|i: int| 0 <= i < maxs@.len() ==> fx_ok((#[trigger] maxs@[i]) as int),
    ensures
        match r {
            Ok(v) => {
                &&& features@.len() == FEATURE_COUNT
                &&& mins@.len() == FEATURE_COUNT
                &&& maxs@.len() == FEATURE_COUNT
                &&& v@.len() == FEATURE_COUNT
                &&& forall|i: int|
                    0 <= i < FEATURE_COUNT ==> (#[trigger] v@[i]) as int == scale_model(
                        features@[i] as int,
                        mins@[i] as int,
                        maxs@[i] as int,
                    )
                &&& forall|i: int| 0 <= i < FEATURE_COUNT ==> fx_ok((#[trigger] v@[i]) as int)
            },
            Err(e) => e == NetError::ShapeError && (features@.len() != FEATURE_COUNT
                || mins@.len() != FEATURE_COUNT || maxs@.len() != FEATURE_COUNT),
        },
{
    if features.len() != 14 || mins.len() != 14 || maxs.len() != 14 {
        return Err(NetError::ShapeError);
    }
    let mut out: Vec<i64> = Vec::new();
    let mut i: usize = 0;
    while i < 14
        invariant
            features@.len() == 14,
            mins@.len() == 14,
            maxs@.len() == 14,
            forall|t: int| 0 <= t < 14 ==> fx_ok((#[trigger] features@[t]) as int),
            forall|t: int| 0 <= t < 14 ==> fx_ok((#[trigger] mins@[t]) as int),
            forall|t: int| 0 <= t < 14 ==> fx_ok((#[trigger] maxs@[t]) as int),
            i <= 14,
            out@.len() == i,
            forall|t: int|
                0 <= t < i ==> (#[trigger] out@[t]) as int == scale_model(
                    features@[t] as int,
                    mins@[t] as int,
                    maxs@[t] as int,
                ),
            forall|t: int| 0 <= t < i ==> fx_ok((#[trigger] out@[t]) as int),
        decreases 14 - i,
    {
        out.push(scale_value(features[i], mins[i], maxs[i]));
        i += 1;
    }
    Ok(out)
}

}
