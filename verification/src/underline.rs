//! Gapping an underline around descenders.
//!
//! The glyphs of a run leave intervals behind in which their ink reaches
//! below the underline. The underline is drawn in the gaps between those
//! intervals, each first widened by one unit on either side.

use vstd::prelude::*;
use crate::fixed::Fixed;

verus! {

/// An interval, one unit wider on either side.
pub open spec fn widened(r: (Fixed, Fixed)) -> (Fixed, Fixed) {
    (r.0.minus(Fixed::of_int(1)), r.1.plus(Fixed::of_int(1)))
}

/// Every interval of `s`, widened.
pub open spec fn all_widened(s: Seq<(Fixed, Fixed)>) -> Seq<(Fixed, Fixed)> {
    Seq::new(s.len(), |i: int| widened(s[i]))
}

/// The stretches of underline between `from` and `end`, left to right, as
/// pairs of a start and a stop. The sweep starts at `from`; before each
/// interval it leaves a stretch from where it stands to the start of the
/// interval, if that is to the right, and goes on at the end of the interval;
/// after the last interval it leaves what is left up to `end`.
pub open spec fn underline_segments(ranges: Seq<(Fixed, Fixed)>, from: Fixed, end: Fixed) -> Seq<
    (Fixed, Fixed),
>
    decreases ranges.len(),
{
    if ranges.len() == 0 {
        if from.raw < end.raw {
            seq![(from, end)]
        } else {
            Seq::empty()
        }
    } else {
        let rest = underline_segments(ranges.drop_first(), ranges[0].1, end);
        if from.raw < ranges[0].0.raw {
            seq![(from, ranges[0].0)] + rest
        } else {
            rest
        }
    }
}

/// Every stretch of underline starts left of where it stops, so none has a
/// width of zero or below.
pub proof fn lemma_segments_have_extent(ranges: Seq<(Fixed, Fixed)>, from: Fixed, end: Fixed)
    ensures
        forall|i: int|
            0 <= i < underline_segments(ranges, from, end).len() ==> {
                let seg = #[trigger] underline_segments(ranges, from, end)[i];
                seg.0.raw < seg.1.raw && seg.1.minus(seg.0).raw > 0
            },
    decreases ranges.len(),
{
    let all = underline_segments(ranges, from, end);
    if ranges.len() > 0 {
        let rest = underline_segments(ranges.drop_first(), ranges[0].1, end);
        lemma_segments_have_extent(ranges.drop_first(), ranges[0].1, end);
        assert forall|i: int| 0 <= i < all.len() implies ({
            let seg = #[trigger] all[i];
            seg.0.raw < seg.1.raw && seg.1.minus(seg.0).raw > 0
        }) by {
            if from.raw < ranges[0].0.raw {
                if i > 0 {
                    assert(all[i] == rest[i - 1]);
                }
            } else {
                assert(all[i] == rest[i]);
            }
        }
    }
}

/// The intervals come left to right: none ends before it starts, and none
/// starts before an earlier one has ended.
pub open spec fn left_to_right(ranges: Seq<(Fixed, Fixed)>) -> bool {
    &&& forall|i: int| 0 <= i < ranges.len() ==> (#[trigger] ranges[i]).0.raw <= ranges[i].1.raw
    &&& forall|i: int, j: int|
        0 <= i < j < ranges.len() ==> (#[trigger] ranges[i]).1.raw <= (#[trigger] ranges[j]).0.raw
}

/// Where the intervals come left to right and none ends left of `from`, no
/// stretch of underline starts left of `from`.
pub proof fn lemma_segments_start_at_or_after(
    ranges: Seq<(Fixed, Fixed)>,
    from: Fixed,
    end: Fixed,
)
    requires
        left_to_right(ranges),
        forall|j: int| 0 <= j < ranges.len() ==> from.raw <= (#[trigger] ranges[j]).1.raw,
    ensures
        forall|i: int|
            0 <= i < underline_segments(ranges, from, end).len() ==> from.raw <= (
            #[trigger] underline_segments(ranges, from, end)[i]).0.raw,
    decreases ranges.len(),
{
    let all = underline_segments(ranges, from, end);
    if ranges.len() > 0 {
        let rest_ranges = ranges.drop_first();
        let rest = underline_segments(rest_ranges, ranges[0].1, end);
        assert forall|j: int| 0 <= j < rest_ranges.len() implies ranges[0].1.raw <= (
        #[trigger] rest_ranges[j]).1.raw by {
            assert(rest_ranges[j] == ranges[j + 1]);
        }
        lemma_left_to_right_rest(ranges);
        lemma_segments_start_at_or_after(rest_ranges, ranges[0].1, end);
        assert forall|i: int| 0 <= i < all.len() implies from.raw <= (#[trigger] all[i]).0.raw by {
            if from.raw < ranges[0].0.raw {
                if i > 0 {
                    assert(all[i] == rest[i - 1]);
                }
            } else {
                assert(all[i] == rest[i]);
            }
        }
    }
}

/// What is left of intervals that come left to right, once the first is
/// taken away, comes left to right.
pub proof fn lemma_left_to_right_rest(ranges: Seq<(Fixed, Fixed)>)
    requires
        left_to_right(ranges),
        ranges.len() > 0,
    ensures
        left_to_right(ranges.drop_first()),
{
    let rest = ranges.drop_first();
    assert forall|i: int| 0 <= i < rest.len() implies (#[trigger] rest[i]).0.raw
        <= rest[i].1.raw by {
        assert(rest[i] == ranges[i + 1]);
    }
    assert forall|i: int, j: int| 0 <= i < j < rest.len() implies (#[trigger] rest[i]).1.raw <= (
    #[trigger] rest[j]).0.raw by {
        assert(rest[i] == ranges[i + 1]);
        assert(rest[j] == ranges[j + 1]);
    }
}

/// Where the intervals come left to right, the underline keeps clear of
/// them: every stretch ends before an interval starts or starts after it
/// has ended.
pub proof fn lemma_segments_avoid_intercepts(
    ranges: Seq<(Fixed, Fixed)>,
    from: Fixed,
    end: Fixed,
)
    requires
        left_to_right(ranges),
    ensures
        forall|i: int, j: int|
            0 <= i < underline_segments(ranges, from, end).len() && 0 <= j < ranges.len() ==> {
                let seg = #[trigger] underline_segments(ranges, from, end)[i];
                let range = #[trigger] ranges[j];
                seg.1.raw <= range.0.raw || range.1.raw <= seg.0.raw
            },
    decreases ranges.len(),
{
    let all = underline_segments(ranges, from, end);
    if ranges.len() > 0 {
        let rest_ranges = ranges.drop_first();
        let rest = underline_segments(rest_ranges, ranges[0].1, end);
        lemma_left_to_right_rest(ranges);
        lemma_segments_avoid_intercepts(rest_ranges, ranges[0].1, end);
        assert forall|j: int| 0 <= j < rest_ranges.len() implies ranges[0].1.raw <= (
        #[trigger] rest_ranges[j]).1.raw by {
            assert(rest_ranges[j] == ranges[j + 1]);
        }
        lemma_segments_start_at_or_after(rest_ranges, ranges[0].1, end);
        assert forall|i: int, j: int| 0 <= i < all.len() && 0 <= j < ranges.len() implies ({
            let seg = #[trigger] all[i];
            let range = #[trigger] ranges[j];
            seg.1.raw <= range.0.raw || range.1.raw <= seg.0.raw
        }) by {
            let first = from.raw < ranges[0].0.raw;
            if first && i == 0 {
                assert(all[0] == (from, ranges[0].0));
                if j > 0 {
                    assert(ranges[0].1.raw <= ranges[j].0.raw);
                }
            } else {
                let k = if first {
                    i - 1
                } else {
                    i
                };
                assert(all[i] == rest[k]);
                if j > 0 {
                    assert(rest_ranges[j - 1] == ranges[j]);
                } else {
                    assert(ranges[0].1.raw <= rest[k].0.raw);
                }
            }
        }
    }
}

/// Widens every interval by one unit on either side.
pub fn expand_intercepts(intercepts: &mut Vec<(Fixed, Fixed)>)
    ensures
        final(intercepts)@ == all_widened(old(intercepts)@),
{
    let n: usize = intercepts.len();
    let mut j: usize = 0;
    while j < n
        invariant
            j <= n,
            intercepts@.len() == n,
            old(intercepts)@.len() == n,
            forall|k: int| 0 <= k < j ==> intercepts@[k] == widened(old(intercepts)@[k]),
            forall|k: int| j <= k < n ==> intercepts@[k] == old(intercepts)@[k],
        decreases n - j,
    {
        let range: (Fixed, Fixed) = intercepts[j];
        intercepts[j] = (range.0.saturating_sub(Fixed::one()), range.1.saturating_add(Fixed::one()));
        j += 1;
    }
    assert(intercepts@ =~= all_widened(old(intercepts)@));
}

/// The stretches of underline between `from` and `end` that the intervals
/// leave free.
pub fn sweep(intercepts: &Vec<(Fixed, Fixed)>, from: Fixed, end: Fixed) -> (segments: Vec<
    (Fixed, Fixed),
>)
    ensures
        segments@ == underline_segments(intercepts@, from, end),
{
    let mut segments: Vec<(Fixed, Fixed)> = Vec::new();
    let mut ux: Fixed = from;
    let mut i: usize = 0;
    assert(intercepts@.skip(0) == intercepts@);
    assert(segments@ + underline_segments(intercepts@, from, end) == underline_segments(
        intercepts@,
        from,
        end,
    ));
    while i < intercepts.len()
        invariant
            i <= intercepts.len(),
            segments@ + underline_segments(intercepts@.skip(i as int), ux, end)
                == underline_segments(intercepts@, from, end),
        decreases intercepts.len() - i,
    {
        let range: (Fixed, Fixed) = intercepts[i];
        proof {
            let here = intercepts@.skip(i as int);
            assert(here[0] == range);
            assert(here.drop_first() == intercepts@.skip(i + 1));
        }
        let ghost before = segments@;
        if ux.lt(range.0) {
            segments.push((ux, range.0));
            assert(before.push((ux, range.0)) + underline_segments(
                intercepts@.skip(i + 1),
                range.1,
                end,
            ) == before + (seq![(ux, range.0)] + underline_segments(
                intercepts@.skip(i + 1),
                range.1,
                end,
            )));
        }
        ux = range.1;
        i += 1;
    }
    let ghost before = segments@;
    assert(intercepts@.skip(i as int).len() == 0);
    if ux.lt(end) {
        segments.push((ux, end));
        assert(before.push((ux, end)) == before + seq![(ux, end)]);
    } else {
        assert(before + Seq::<(Fixed, Fixed)>::empty() == before);
    }
    segments
}

} // verus!
