//! What the chart plots: which samples have a value on the current scale,
//! and the time labels with their repeated leading parts removed.
use vstd::prelude::*;
use vstd::string::StringSliceAdditionalSpecFns;
use vstd::utf8::{encode_utf8, is_char_boundary};

use crate::model::{Sample, ScaleMode, ValueConfig};
use crate::text::to_chars;

verus! {

/// The fraction whose quotient is plotted for `s`: the value's fraction,
/// where the value exists and, on the log scale, is positive.
pub open spec fn plot_fraction_spec(s: Sample, cfg: ValueConfig, scale: ScaleMode) -> Option<(u64, u64)> {
    match cfg.ratio_spec(s) {
        Some((n, d)) => match scale {
            ScaleMode::Linear => Some((n, d)),
            ScaleMode::Log10 => if n > 0 {
                Some((n, d))
            } else {
                None
            },
        },
        None => None,
    }
}

/// Where `s` has a point on the plot: the numerator and denominator of its
/// value. A value is missing where its denominator is 0, and on the log
/// scale where it is not positive, that is where its numerator is 0.
pub fn sample_fraction(s: &Sample, value_cfg: ValueConfig, scale: ScaleMode) -> (r: Option<
    (u64, u64),
>)
    ensures
        r == plot_fraction_spec(*s, value_cfg, scale),
{
    match value_cfg.value_ratio(s) {
        Some((n, d)) => match scale {
            ScaleMode::Linear => Some((n, d)),
            ScaleMode::Log10 => {
                if n > 0 {
                    Some((n, d))
                } else {
                    None
                }
            },
        },
        None => None,
    }
}

/// The number of leading characters that `a` and `b` share.
pub open spec fn common_prefix_len(a: Seq<char>, b: Seq<char>) -> nat
    decreases a.len(),
{
    if a.len() == 0 || b.len() == 0 || a[0] != b[0] {
        0
    } else {
        1 + common_prefix_len(a.drop_first(), b.drop_first())
    }
}

/// Where the shortened form of a label starts, given the length of the
/// part it shares with the label before it: eight characters before the
/// difference where the shared part is long, at the difference otherwise.
pub open spec fn cut_start(d: nat) -> nat {
    if d >= 20 {
        (d - 8) as nat
    } else {
        d
    }
}

/// Whether the shortened form of label `cur`, after `prev`, is cut.
pub open spec fn is_cut(prev: Seq<char>, cur: Seq<char>) -> bool {
    common_prefix_len(prev, cur) < encode_utf8(cur).len()
}

/// The labels can be cut where they are to be cut: the cut falls on a
/// character boundary.
pub open spec fn cuttable(times: Seq<String>) -> bool {
    forall|i: int|
        #![trigger times[i]]
        1 <= i < times.len() && is_cut(times[i - 1]@, times[i]@) ==> is_char_boundary(
            encode_utf8(times[i]@),
            cut_start(common_prefix_len(times[i - 1]@, times[i]@)) as int,
        )
}

fn common_prefix(a: &Vec<char>, b: &Vec<char>) -> (n: usize)
    ensures
        n == common_prefix_len(a@, b@),
        n <= a@.len(),
{
    let mut i: usize = 0;
    assert(a@.subrange(0, a@.len() as int) =~= a@);
    assert(b@.subrange(0, b@.len() as int) =~= b@);
    while i < a.len() && i < b.len() && a[i] == b[i]
        invariant
            i <= a@.len(),
            i <= b@.len(),
            common_prefix_len(a@, b@) == i + common_prefix_len(
                a@.subrange(i as int, a@.len() as int),
                b@.subrange(i as int, b@.len() as int),
            ),
        decreases a@.len() - i,
    {
        let ghost sa = a@.subrange(i as int, a@.len() as int);
        let ghost sb = b@.subrange(i as int, b@.len() as int);
        assert(sa.drop_first() =~= a@.subrange(i + 1, a@.len() as int));
        assert(sb.drop_first() =~= b@.subrange(i + 1, b@.len() as int));
        i += 1;
    }
    i
}

/// Shortens each label after the first to the part that differs from the
/// label before it, keeping eight characters of context before the
/// difference where the shared part is 20 characters or longer. Lengths
/// and cut positions are as the labels are measured: the shared part in
/// characters, the label and the cut in bytes.
pub fn strip_redundant_parts(times: &Vec<String>) -> (r: Vec<String>)
    requires
        cuttable(times@),
    ensures
        r@.len() == times@.len(),
        forall|i: int|
            #![trigger r@[i]]
            0 <= i < r@.len() ==> if i == 0 || !is_cut(times@[i - 1]@, times@[i]@) {
                r@[i]@ == times@[i]@
            } else {
                encode_utf8(r@[i]@) == encode_utf8(times@[i]@).skip(
                    cut_start(common_prefix_len(times@[i - 1]@, times@[i]@)) as int,
                )
            },
{
    let mut result: Vec<String> = Vec::new();
    let mut i: usize = 0;
    while i < times.len()
        invariant
            i <= times@.len(),
            cuttable(times@),
            result@.len() == i,
            forall|k: int|
                #![trigger result@[k]]
                0 <= k < i ==> if k == 0 || !is_cut(times@[k - 1]@, times@[k]@) {
                    result@[k]@ == times@[k]@
                } else {
                    encode_utf8(result@[k]@) == encode_utf8(times@[k]@).skip(
                        cut_start(common_prefix_len(times@[k - 1]@, times@[k]@)) as int,
                    )
                },
        decreases times@.len() - i,
    {
        if i == 0 {
            result.push(times[0].clone());
        } else {
            let prev = to_chars(times[i - 1].as_str());
            let cur = to_chars(times[i].as_str());
            let diff_index = common_prefix(&prev, &cur);
            let cur_str = times[i].as_str();
            let byte_len = cur_str.as_bytes().len();
            if diff_index < byte_len {
                let start = if diff_index >= 20 {
                    diff_index - 8
                } else {
                    diff_index
                };
                assert(times@[i as int] == times@[i as int]);
                assert(start as int <= cur_str.spec_bytes().len()) by {
                    assert(start <= diff_index);
                }
                let (_, tail) = cur_str.split_at(start);
                let piece = tail.to_owned();
                assert(encode_utf8(piece@) == tail.spec_bytes());
                assert(encode_utf8(piece@) =~= encode_utf8(times@[i as int]@).skip(start as int));
                result.push(piece);
            } else {
                result.push(times[i].clone());
            }
            assert(prev@ == times@[i - 1]@ && cur@ == times@[i as int]@);
        }
        i += 1;
    }
    result
}


/// Whether every cut that `strip_redundant_parts` makes in `times` falls
/// on a character boundary, so that it can be called on them.
pub fn can_strip(times: &Vec<String>) -> (b: bool)
    ensures
        b == cuttable(times@),
{
    let mut i: usize = 1;
    while i < times.len()
        invariant
            1 <= i,
            forall|k: int|
                #![trigger times@[k]]
                1 <= k < i && k < times@.len() && is_cut(times@[k - 1]@, times@[k]@)
                    ==> is_char_boundary(
                    encode_utf8(times@[k]@),
                    cut_start(common_prefix_len(times@[k - 1]@, times@[k]@)) as int,
                ),
        decreases times@.len() - i,
    {
        let prev = to_chars(times[i - 1].as_str());
        let cur = to_chars(times[i].as_str());
        let d = common_prefix(&prev, &cur);
        let cur_str = times[i].as_str();
        let byte_len = cur_str.as_bytes().len();
        if d < byte_len {
            let start = if d >= 20 {
                d - 8
            } else {
                d
            };
            if !cur_str.is_char_boundary(start) {
                assert(!cuttable(times@)) by {
                    assert(times@[i as int] == times@[i as int]);
                }
                return false;
            }
        }
        assert(prev@ == times@[i - 1]@ && cur@ == times@[i as int]@);
        i += 1;
    }
    true
}

/// The points of a step plot: the first point, then for each next point a
/// corner at its `x` with the `y` before it, then the point itself.
pub open spec fn steps<X, Y>(base: Seq<(X, Y)>) -> Seq<(X, Y)>
    decreases base.len(),
{
    if base.len() <= 1 {
        base
    } else {
        let b = base.drop_last();
        steps(b) + seq![(base.last().0, b.last().1), base.last()]
    }
}

/// The points of a series drawn as steps.
pub fn step_points<X: Copy, Y: Copy>(base: &Vec<(X, Y)>) -> (r: Vec<(X, Y)>)
    ensures
        r@ == steps(base@),
{
    let mut out: Vec<(X, Y)> = Vec::new();
    if base.len() == 0 {
        assert(out@ =~= base@);
        return out;
    }
    out.push(base[0]);
    assert(base@.take(1) =~= seq![base@[0]]);
    let mut i: usize = 1;
    while i < base.len()
        invariant
            1 <= i <= base@.len(),
            out@ == steps(base@.take(i as int)),
        decreases base@.len() - i,
    {
        let (x1, y1) = base[i];
        let (_, y0) = base[i - 1];
        out.push((x1, y0));
        out.push((x1, y1));
        proof {
            let t = base@.take(i + 1);
            assert(t.drop_last() =~= base@.take(i as int));
            assert(t.last() == base@[i as int]);
            assert(t.drop_last().last() == base@[i - 1]);
            assert(out@ =~= steps(base@.take(i as int)) + seq![(x1, y0), (x1, y1)]);
        }
        i += 1;
    }
    assert(base@.take(base@.len() as int) =~= base@);
    out
}

/// Where a ratio sample is plotted: on the linear scale wherever its
/// denominator is not 0, at `num/den`; on the log scale only where, in
/// addition, its numerator is positive.
pub proof fn lemma_ratio_plotted(s: Sample, cfg: ValueConfig)
    requires
        cfg.mode == crate::model::ValueMode::Ratio,
    ensures
        s.den != 0 ==> plot_fraction_spec(s, cfg, ScaleMode::Linear) == Some((s.num, s.den)),
        s.den != 0 && s.num > 0 ==> plot_fraction_spec(s, cfg, ScaleMode::Log10) == Some(
            (s.num, s.den),
        ),
        s.num == 0 ==> plot_fraction_spec(s, cfg, ScaleMode::Log10) is None,
        s.den == 0 ==> plot_fraction_spec(s, cfg, ScaleMode::Linear) is None,
{
}

/// A step plot of `n` points has `2n - 1` points: the given ones at the
/// even places, and before each later one a corner at its `x` with the `y`
/// of the one before it.
pub proof fn lemma_steps_shape<X, Y>(base: Seq<(X, Y)>)
    requires
        base.len() > 0,
    ensures
        steps(base).len() == 2 * base.len() - 1,
        forall|i: int| 0 <= i < base.len() ==> #[trigger] steps(base)[2 * i] == base[i],
        forall|i: int|
            1 <= i < base.len() ==> #[trigger] steps(base)[2 * i - 1] == (base[i].0, base[i - 1].1),
    decreases base.len(),
{
    if base.len() > 1 {
        let b = base.drop_last();
        lemma_steps_shape(b);
        let sb = steps(b);
        let n = base.len() as int;
        assert(steps(base) == sb + seq![(base.last().0, b.last().1), base.last()]);
        assert forall|i: int| 0 <= i < base.len() implies #[trigger] steps(base)[2 * i]
            == base[i] by {
            if i < n - 1 {
                assert(sb[2 * i] == b[i]);
            }
        }
        assert forall|i: int| 1 <= i < base.len() implies #[trigger] steps(base)[2 * i - 1] == (
            base[i].0,
            base[i - 1].1,
        ) by {
            if i < n - 1 {
                assert(sb[2 * i - 1] == (b[i].0, b[i - 1].1));
            }
        }
    }
}

} // verus!
