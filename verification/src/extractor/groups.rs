//! The classes that a match in the class text captured.

use crate::extractor::complement;
use crate::extractor::object_plan;
use crate::regex;
use crate::regex::GroupSpan;
use crate::tel::{CompiledClassSegment, CompiledClassSegmentView, TokenKind};
use crate::text;
use vstd::prelude::*;

verus! {

/// The texts of the groups of a match, without that of the whole match.
pub open spec fn raw_groups(s: Seq<char>, groups: Seq<GroupSpan>) -> Seq<Option<Seq<char>>> {
    let inner = complement::inner_groups(groups);
    Seq::new(inner.len(), |i: int| regex::group_text(s, inner[i]))
}

/// Whether the groups of a segment are among those that plans take classes from.
pub open spec fn keeps_groups(segment: CompiledClassSegmentView) -> bool {
    object_plan::takes_captured_class(segment.segment.token_info.flags)
        || segment.segment.token_info.kind == TokenKind::Vanishing
}

/// The groups of the segments that keep theirs, and those that belong to no segment. Segments take
/// their groups in order, until one needs more than there are.
pub open spec fn kept_groups(
    raw: Seq<Option<Seq<char>>>,
    segments: Seq<CompiledClassSegmentView>,
) -> Seq<Option<Seq<char>>>
    decreases segments.len(),
{
    if segments.len() == 0 {
        raw
    } else {
        let n = segments[0].capturing_group_count as int;
        if n == 0 {
            kept_groups(raw, segments.skip(1))
        } else if n > raw.len() {
            raw
        } else if keeps_groups(segments[0]) {
            raw.take(n) + kept_groups(raw.skip(n), segments.skip(1))
        } else {
            kept_groups(raw.skip(n), segments.skip(1))
        }
    }
}

/// The texts of the groups of a match, without that of the whole match.
#[must_use]
pub fn capture_groups(text: &str, groups: &Vec<GroupSpan>) -> (r: Vec<Option<String>>)
    ensures
        object_plan::captured_view(r@) == raw_groups(text@, groups@),
{
    let mut found: Vec<Option<String>> = Vec::new();
    let mut i: usize = 1;
    while i < groups.len()
        invariant
            1 <= i,
            i <= groups.len() || i == 1,
            found.len() == i - 1,
            forall|j: int|
                0 <= j < found.len() ==> (#[trigger] found@[j]).deep_view() == regex::group_text(
                    text@,
                    groups@[j + 1],
                ),
        decreases groups.len() - i,
    {
        found.push(text::owned(regex::group_of(text, groups[i])));
        i = i + 1;
    }
    assert(object_plan::captured_view(found@) =~= raw_groups(text@, groups@));
    found
}

/// Whether some group captured nothing but one space.
#[must_use]
pub fn has_space_group(groups: &Vec<Option<String>>) -> (r: bool)
    ensures
        r == object_plan::captured_view(groups@).contains(Some(" "@)),
{
    let ghost all = object_plan::captured_view(groups@);
    let mut i: usize = 0;
    while i < groups.len()
        invariant
            all == object_plan::captured_view(groups@),
            i <= groups.len(),
            forall|j: int| 0 <= j < i ==> all[j] != Some(" "@),
        decreases groups.len() - i,
    {
        assert(all[i as int] == groups@[i as int].deep_view());
        if let Some(group) = &groups[i] {
            if text::same_text(group.as_str(), " ") {
                assert(all[i as int] == Some(" "@));
                return true;
            }
        }
        i = i + 1;
    }
    false
}

/// The groups that plans take classes from; `None` where there are none.
#[must_use]
pub fn filter_class_groups(raw: &[Option<String>], segments: &[CompiledClassSegment]) -> (r: Option<
    Vec<Option<String>>,
>)
    ensures
        match r {
            Some(kept) => object_plan::captured_view(kept@) == kept_groups(
                object_plan::captured_view(raw@),
                segments.deep_view(),
            ) && kept.len() > 0,
            None => kept_groups(object_plan::captured_view(raw@), segments.deep_view()).len() == 0,
        },
{
    let ghost given = object_plan::captured_view(raw@);
    let ghost all = segments.deep_view();
    let mut kept: Vec<Option<String>> = Vec::new();
    let mut group_index: usize = 0;
    let mut i: usize = 0;
    let mut full = true;
    proof {
        assert(given.skip(0) == given);
        assert(all.skip(0) == all);
        assert(object_plan::captured_view(kept@) + kept_groups(given, all) == kept_groups(
            given,
            all,
        ));
    }
    while i < segments.len() && full
        invariant
            given == object_plan::captured_view(raw@),
            all == segments.deep_view(),
            i <= segments.len(),
            group_index <= raw.len(),
            object_plan::captured_view(kept@) + (if full {
                kept_groups(given.skip(group_index as int), all.skip(i as int))
            } else {
                given.skip(group_index as int)
            }) == kept_groups(given, all),
        decreases segments.len() - i,
    {
        let segment = &segments[i];
        let group_count = segment.capturing_group_count;
        let ghost rest = given.skip(group_index as int);
        let ghost before = object_plan::captured_view(kept@);
        proof {
            assert(all.skip(i as int)[0] == segment@);
            assert(all.skip(i as int).skip(1) == all.skip(i + 1));
        }
        if group_count > raw.len() - group_index {
            full = false;
        } else if group_count > 0 {
            let next_index = group_index + group_count;
            let flags = segment.segment.token_info.flags;
            assert(rest.skip(group_count as int) == given.skip(next_index as int));
            if flags.multi_group || flags.optional || !flags.strict_class
                || segment.segment.token_info.is_vanishing_group() {
                push_groups(&mut kept, raw, group_index, next_index);
                proof {
                    let more = kept_groups(given.skip(next_index as int), all.skip(i + 1));
                    assert(rest.take(group_count as int) == given.subrange(
                        group_index as int,
                        next_index as int,
                    ));
                    assert(before + (rest.take(group_count as int) + more)
                        == object_plan::captured_view(kept@) + more);
                }
            }
            group_index = next_index;
        }
        i = i + 1;
    }
    let ghost before = object_plan::captured_view(kept@);
    push_groups(&mut kept, raw, group_index, raw.len());
    proof {
        assert(given.skip(group_index as int) == given.subrange(
            group_index as int,
            given.len() as int,
        ));
        assert(object_plan::captured_view(kept@).len() == kept.len());
    }
    if kept.len() == 0 {
        None
    } else {
        Some(kept)
    }
}

fn push_groups(kept: &mut Vec<Option<String>>, raw: &[Option<String>], from: usize, to: usize)
    requires
        from <= to <= raw.len(),
    ensures
        object_plan::captured_view(final(kept)@) == object_plan::captured_view(old(kept)@)
            + object_plan::captured_view(raw@).subrange(from as int, to as int),
{
    let ghost before = object_plan::captured_view(kept@);
    let ghost given = object_plan::captured_view(raw@);
    let mut i: usize = from;
    assert(before + given.subrange(from as int, from as int) == before);
    while i < to
        invariant
            given == object_plan::captured_view(raw@),
            from <= i <= to <= raw.len(),
            object_plan::captured_view(kept@) == before + given.subrange(from as int, i as int),
        decreases to - i,
    {
        let ghost now = kept@;
        let group = text::clone_text(&raw[i]);
        kept.push(group);
        proof {
            assert(object_plan::captured_view(kept@) =~= object_plan::captured_view(now).push(
                group.deep_view(),
            ));
            assert(given.subrange(from as int, i + 1) == given.subrange(from as int, i as int).push(
                given[i as int],
            ));
        }
        i = i + 1;
    }
}

} // verus!
