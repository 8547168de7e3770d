//! The minimum-duration policy: short segments are either dropped or merged
//! into the segment that follows them.
use crate::models::chapters::{
    absorb, absorb_fits, extended_length, flat_views, merged_views, pass_through, FlatView, FlattenedChapter,
    MergedChapter, MergedView,
};
use vstd::prelude::*;

verus! {

/// The result of the merge sweep over `s` with threshold `min`.
pub open spec fn merge_spec(s: Seq<FlatView>, min: int) -> Seq<MergedView>
    decreases s.len(),
{
    if s.len() == 0 {
        Seq::empty()
    } else if s[0].length_ms >= min {
        seq![pass_through(s[0])] + merge_spec(s.skip(1), min)
    } else if s[0].length_ms > 0 && s.len() > 1 {
        seq![absorb(pass_through(s[1]), s[0])] + merge_spec(s.skip(2), min)
    } else if s[0].length_ms > 0 {
        seq![pass_through(s[0])]
    } else {
        merge_spec(s.skip(1), min)
    }
}

/// Every merge that the sweep over `s` makes stays within `i64`.
pub open spec fn merge_fits(s: Seq<FlatView>, min: int) -> bool
    decreases s.len(),
{
    if s.len() == 0 {
        true
    } else if s[0].length_ms >= min {
        merge_fits(s.skip(1), min)
    } else if s[0].length_ms > 0 && s.len() > 1 {
        absorb_fits(pass_through(s[1]), s[0]) && merge_fits(s.skip(2), min)
    } else if s[0].length_ms > 0 {
        true
    } else {
        merge_fits(s.skip(1), min)
    }
}

/// The segments of `s` at least `min` long, in order, as pass-through segments.
pub open spec fn filter_spec(s: Seq<FlatView>, min: int) -> Seq<MergedView>
    decreases s.len(),
{
    if s.len() == 0 {
        Seq::empty()
    } else {
        let r = filter_spec(s.drop_last(), min);
        if s.last().length_ms >= min {
            r.push(pass_through(s.last()))
        } else {
            r
        }
    }
}

/// The sum of the lengths of the segments.
pub open spec fn total_length(s: Seq<MergedView>) -> int
    decreases s.len(),
{
    if s.len() == 0 {
        0
    } else {
        s[0].length_ms + total_length(s.skip(1))
    }
}

/// The sum of the lengths of the segments that carry audio.
pub open spec fn audio_length(s: Seq<FlatView>) -> int
    decreases s.len(),
{
    if s.len() == 0 {
        0
    } else {
        (if s[0].length_ms > 0 {
            s[0].length_ms as int
        } else {
            0
        }) + audio_length(s.skip(1))
    }
}

/// Each segment that the sweep over `s` absorbs starts at or after the end of
/// the segment that absorbs it.
pub open spec fn absorbed_after_base(s: Seq<FlatView>, min: int) -> bool
    decreases s.len(),
{
    if s.len() == 0 {
        true
    } else if s[0].length_ms >= min {
        absorbed_after_base(s.skip(1), min)
    } else if s[0].length_ms > 0 && s.len() > 1 {
        s[0].start_offset_ms >= s[1].start_offset_ms + s[1].length_ms && absorbed_after_base(
            s.skip(2),
            min,
        )
    } else {
        s[0].length_ms > 0 || absorbed_after_base(s.skip(1), min)
    }
}

proof fn lemma_total_length_cons(x: MergedView, rest: Seq<MergedView>)
    ensures
        total_length(seq![x] + rest) == x.length_ms + total_length(rest),
{
    assert((seq![x] + rest).skip(1) =~= rest);
}

/// Merging keeps at least as much audio as the segments it starts from carry,
/// where every absorbed segment lies at or after the end of the segment that
/// absorbs it (the extended length then covers both).
pub proof fn lemma_merge_keeps_audio(s: Seq<FlatView>, min: int)
    requires
        forall|i: int| 0 <= i < s.len() ==> (#[trigger] s[i]).length_ms >= 0,
        merge_fits(s, min),
        absorbed_after_base(s, min),
    ensures
        total_length(merge_spec(s, min)) >= audio_length(s),
    decreases s.len(),
{
    if s.len() > 0 {
        let t1 = s.skip(1);
        assert forall|i: int| 0 <= i < t1.len() implies (#[trigger] t1[i]).length_ms >= 0 by {
            assert(t1[i] == s[i + 1]);
        }
        if s[0].length_ms >= min {
            lemma_merge_keeps_audio(t1, min);
            lemma_total_length_cons(pass_through(s[0]), merge_spec(t1, min));
            assert(total_length(merge_spec(s, min)) >= audio_length(s));
        } else if s[0].length_ms > 0 && s.len() > 1 {
            let t2 = s.skip(2);
            assert(t1.skip(1) =~= t2);
            assert forall|i: int| 0 <= i < t2.len() implies (#[trigger] t2[i]).length_ms >= 0 by {
                assert(t2[i] == s[i + 2]);
            }
            lemma_merge_keeps_audio(t2, min);
            assert(s[1].length_ms >= 0);
            assert(t1[0] == s[1]);
            assert(audio_length(t1) == s[1].length_ms + audio_length(t2));
            assert(absorb_fits(pass_through(s[1]), s[0]));
            assert(extended_length(pass_through(s[1]), s[0]) >= s[0].length_ms + s[1].length_ms);
            assert(absorb(pass_through(s[1]), s[0]).length_ms >= s[0].length_ms + s[1].length_ms);
            lemma_total_length_cons(absorb(pass_through(s[1]), s[0]), merge_spec(t2, min));
            assert(total_length(merge_spec(s, min)) >= audio_length(s));
        } else if s[0].length_ms > 0 {
            assert(t1.len() == 0);
            assert(audio_length(t1) == 0);
            assert(total_length(Seq::<MergedView>::empty()) == 0);
            lemma_total_length_cons(pass_through(s[0]), Seq::empty());
            assert(merge_spec(s, min) =~= seq![pass_through(s[0])] + Seq::<MergedView>::empty());
        } else {
            lemma_merge_keeps_audio(t1, min);
        }
    }
}

/// Filtering with a minimum duration of zero keeps every segment, unchanged and
/// in order, each as a pass-through segment.
pub proof fn lemma_filter_zero_keeps_all(s: Seq<FlatView>)
    requires
        forall|i: int| 0 <= i < s.len() ==> (#[trigger] s[i]).length_ms >= 0,
    ensures
        filter_spec(s, 0) == s.map_values(|c: FlatView| pass_through(c)),
    decreases s.len(),
{
    if s.len() > 0 {
        let d = s.drop_last();
        assert forall|i: int| 0 <= i < d.len() implies (#[trigger] d[i]).length_ms >= 0 by {
            assert(d[i] == s[i]);
        }
        lemma_filter_zero_keeps_all(d);
        assert(s.last().length_ms >= 0);
        assert(s.map_values(|c: FlatView| pass_through(c)) =~= d.map_values(|c: FlatView| pass_through(c)).push(pass_through(s.last())));
    } else {
        assert(s.map_values(|c: FlatView| pass_through(c)) =~= Seq::<MergedView>::empty());
    }
}

/// Merges each segment shorter than `min_duration_ms` (but not empty) into the
/// segment that follows it; a short last segment is kept as it is, and segments
/// without audio are skipped.
pub fn merge_short_chapters(chapters: &Vec<FlattenedChapter>, min_duration_ms: i64) -> (r: Vec<MergedChapter>)
    requires
        merge_fits(flat_views(chapters@), min_duration_ms as int),
    ensures
        merged_views(r@) == merge_spec(flat_views(chapters@), min_duration_ms as int),
{
    let ghost s = flat_views(chapters@);
    let ghost min = min_duration_ms as int;
    let mut merged: Vec<MergedChapter> = Vec::new();
    let mut i: usize = 0;
    assert(s.skip(0) =~= s);
    while i < chapters.len()
        invariant
            s == flat_views(chapters@),
            min == min_duration_ms as int,
            i <= chapters@.len(),
            merge_fits(s.skip(i as int), min),
            merged_views(merged@) + merge_spec(s.skip(i as int), min) == merge_spec(s, min),
        decreases chapters.len() - i,
    {
        let ghost rest = s.skip(i as int);
        let ghost before = merged@;
        assert(rest[0] == chapters@[i as int]@);
        if chapters[i].should_include(min_duration_ms) {
            merged.push(MergedChapter::from_flattened(&chapters[i]));
            assert(rest.skip(1) =~= s.skip(i + 1));
            i = i + 1;
            assert(merged_views(merged@) =~= merged_views(before) + seq![pass_through(rest[0])]);
        } else if chapters[i].should_merge_with_next(min_duration_ms) {
            if i + 1 < chapters.len() {
                assert(rest[1] == chapters@[i + 1]@);
                let mut m = MergedChapter::from_flattened(&chapters[i + 1]);
                m.merge_with(&chapters[i]);
                merged.push(m);
                assert(rest.skip(2) =~= s.skip(i + 2));
                i = i + 2;
                assert(merged_views(merged@) =~= merged_views(before) + seq![absorb(pass_through(rest[1]), rest[0])]);
            } else {
                merged.push(MergedChapter::from_flattened(&chapters[i]));
                i = i + 1;
                assert(merged_views(merged@) =~= merged_views(before) + seq![pass_through(rest[0])]);
                assert(s.skip(i as int) =~= Seq::<FlatView>::empty());
            }
        } else {
            assert(rest.skip(1) =~= s.skip(i + 1));
            i = i + 1;
        }
        assert(merged_views(merged@) + merge_spec(s.skip(i as int), min) =~= merge_spec(s, min));
    }
    assert(s.skip(i as int) =~= Seq::<FlatView>::empty());
    assert(merged_views(merged@) =~= merge_spec(s, min));
    merged
}

#[derive(Debug, Clone, PartialEq)]
/// Why the duration policy could not produce any segment.
pub enum PolicyError {
    /// Every segment was shorter than the minimum duration.
    NothingSurvived { dropped: usize },
    /// The merge sweep left no segment with audio.
    NothingLeft,
    /// A merged segment's end lies beyond what an `i64` holds.
    OutOfRange,
}

/// Whether every merge that the sweep makes stays within `i64` (see [`merge_fits`]).
pub fn merges_fit(chapters: &Vec<FlattenedChapter>, min_duration_ms: i64) -> (r: bool)
    ensures
        r == merge_fits(flat_views(chapters@), min_duration_ms as int),
{
    let ghost s = flat_views(chapters@);
    let ghost min = min_duration_ms as int;
    let mut i: usize = 0;
    assert(s.skip(0) =~= s);
    while i < chapters.len()
        invariant
            s == flat_views(chapters@),
            min == min_duration_ms as int,
            i <= chapters@.len(),
            merge_fits(s, min) == merge_fits(s.skip(i as int), min),
        decreases chapters.len() - i,
    {
        let ghost rest = s.skip(i as int);
        assert(rest[0] == chapters@[i as int]@);
        let c = &chapters[i];
        if c.length_ms >= min_duration_ms {
            assert(rest.skip(1) =~= s.skip(i + 1));
            i = i + 1;
        } else if c.length_ms > 0 && i + 1 < chapters.len() {
            assert(rest[1] == chapters@[i + 1]@);
            let base = &chapters[i + 1];
            let end = c.start_offset_ms as i128 + c.length_ms as i128;
            let ext = end - base.start_offset_ms as i128;
            if end < i64::MIN as i128 || end > i64::MAX as i128 || ext < i64::MIN as i128 || ext > i64::MAX as i128 {
                return false;
            }
            assert(rest.skip(2) =~= s.skip(i + 2));
            i = i + 2;
        } else if c.length_ms > 0 {
            return true;
        } else {
            assert(rest.skip(1) =~= s.skip(i + 1));
            i = i + 1;
        }
    }
    assert(s.skip(i as int) =~= Seq::<FlatView>::empty());
    true
}

/// Applies the duration policy: merges short segments into the next one when
/// `merge` is set, drops them otherwise. Fails when nothing is left, or when a
/// merge would go past what an `i64` holds.
pub fn apply_duration_policy(chapters: &Vec<FlattenedChapter>, min_duration_ms: i64, merge: bool) -> (r: Result<PolicyOutcome, PolicyError>)
    ensures
        !merge ==> match r {
            Ok(o) => {
                &&& filter_spec(flat_views(chapters@), min_duration_ms as int).len() > 0
                &&& merged_views(o.chapters@) == filter_spec(flat_views(chapters@), min_duration_ms as int)
                &&& o.dropped == chapters@.len() - o.chapters@.len()
            },
            Err(e) => {
                &&& filter_spec(flat_views(chapters@), min_duration_ms as int).len() == 0
                &&& e == PolicyError::NothingSurvived { dropped: chapters@.len() as usize }
            },
        },
        merge ==> match r {
            Ok(o) => {
                &&& merge_fits(flat_views(chapters@), min_duration_ms as int)
                &&& merge_spec(flat_views(chapters@), min_duration_ms as int).len() > 0
                &&& merged_views(o.chapters@) == merge_spec(flat_views(chapters@), min_duration_ms as int)
                &&& o.dropped == 0
            },
            Err(e) => if merge_fits(flat_views(chapters@), min_duration_ms as int) {
                merge_spec(flat_views(chapters@), min_duration_ms as int).len() == 0 && e == PolicyError::NothingLeft
            } else {
                e == PolicyError::OutOfRange
            },
        },
{
    if merge {
        if !merges_fit(chapters, min_duration_ms) {
            return Err(PolicyError::OutOfRange);
        }
        let merged = merge_short_chapters(chapters, min_duration_ms);
        if merged.len() == 0 {
            Err(PolicyError::NothingLeft)
        } else {
            Ok(PolicyOutcome { chapters: merged, dropped: 0 })
        }
    } else {
        filter_short_chapters(chapters, min_duration_ms)
    }
}

#[derive(Debug, Clone, PartialEq)]
/// The segments that survive the duration policy, and how many were dropped.
pub struct PolicyOutcome {
    pub chapters: Vec<MergedChapter>,
    /// The number of segments dropped; a non-zero count leaves gaps in the timeline.
    pub dropped: usize,
}

/// Keeps the segments at least `min_duration_ms` long, in order. Fails when none is.
pub fn filter_short_chapters(chapters: &Vec<FlattenedChapter>, min_duration_ms: i64) -> (r: Result<PolicyOutcome, PolicyError>)
    ensures
        match r {
            Ok(o) => {
                &&& filter_spec(flat_views(chapters@), min_duration_ms as int).len() > 0
                &&& merged_views(o.chapters@) == filter_spec(flat_views(chapters@), min_duration_ms as int)
                &&& o.dropped == chapters@.len() - o.chapters@.len()
            },
            Err(e) => {
                &&& filter_spec(flat_views(chapters@), min_duration_ms as int).len() == 0
                &&& e == PolicyError::NothingSurvived { dropped: chapters@.len() as usize }
            },
        },
{
    let ghost s = flat_views(chapters@);
    let ghost min = min_duration_ms as int;
    let mut kept: Vec<MergedChapter> = Vec::new();
    let mut i: usize = 0;
    while i < chapters.len()
        invariant
            s == flat_views(chapters@),
            min == min_duration_ms as int,
            i <= chapters@.len(),
            kept@.len() <= i,
            merged_views(kept@) == filter_spec(s.take(i as int), min),
        decreases chapters.len() - i,
    {
        let ghost before = kept@;
        assert(s.take(i + 1).drop_last() =~= s.take(i as int));
        assert(s.take(i + 1).last() == chapters@[i as int]@);
        if chapters[i].should_include(min_duration_ms) {
            kept.push(MergedChapter::from_flattened(&chapters[i]));
            assert(merged_views(kept@) =~= merged_views(before).push(pass_through(chapters@[i as int]@)));
        }
        i = i + 1;
    }
    assert(s.take(i as int) =~= s);
    if kept.len() == 0 {
        Err(PolicyError::NothingSurvived { dropped: chapters.len() })
    } else {
        let dropped = chapters.len() - kept.len();
        Ok(PolicyOutcome { chapters: kept, dropped })
    }
}

} // verus!
