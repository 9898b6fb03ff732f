//! What a match in the class text tells of the object text.

use crate::extractor::fields;
use crate::extractor::fields::FieldMap;
use crate::extractor::groups;
use crate::extractor::object_plan;
use crate::extractor::spans;
use crate::offsets;
use crate::regex;
use crate::regex::GroupSpan;
use crate::tel::{CompiledClassSegment, CompiledClassSegmentView, MatchMode};
use crate::text;
use crate::text::CharClass;
use vstd::prelude::*;

verus! {

/// Whether the object text and the class text both begin with a blank token.
pub open spec fn leads_blank(objects: Seq<Seq<char>>, classes: Seq<Seq<char>>) -> bool {
    objects.len() > 0 && classes.len() > 0 && spans::is_blank(objects[0]) && spans::is_blank(
        classes[0],
    )
}

/// Whether the object text and the class text both end with a blank token.
pub open spec fn trails_blank(objects: Seq<Seq<char>>, classes: Seq<Seq<char>>) -> bool {
    objects.len() > 0 && classes.len() > 0 && spans::is_blank(objects.last()) && spans::is_blank(
        classes.last(),
    )
}

/// A text without white space at the ends that are switched on.
pub open spec fn trimmed_text(s: Seq<char>, leading: bool, trailing: bool) -> Seq<char> {
    let rest = if leading {
        text::trim_start(s)
    } else {
        s
    };
    if trailing {
        text::trim_end(rest)
    } else {
        rest
    }
}

/// The class text: the classes one after another, without white space at an end at which the object
/// text has a blank token too.
pub open spec fn class_text(objects: Seq<Seq<char>>, classes: Seq<Seq<char>>) -> Seq<char> {
    trimmed_text(
        text::concat(classes),
        leads_blank(objects, classes),
        trails_blank(objects, classes),
    )
}

/// The object text: the tokens one after another, without white space at an end at which the class
/// text has a blank token too.
pub open spec fn object_text(objects: Seq<Seq<char>>, classes: Seq<Seq<char>>) -> Seq<char> {
    trimmed_text(
        text::concat(objects),
        leads_blank(objects, classes),
        trails_blank(objects, classes),
    )
}

/// The number of bytes that the class text lacks at its start.
pub open spec fn left_trim(objects: Seq<Seq<char>>, classes: Seq<Seq<char>>) -> int {
    if leads_blank(objects, classes) {
        offsets::byte_len(classes[0]) as int
    } else {
        0
    }
}

/// The span of the whole match.
pub open spec fn whole_span(groups: Seq<GroupSpan>) -> GroupSpan {
    if groups.len() == 0 {
        None
    } else {
        groups[0]
    }
}

/// The value of a [`ClassReading`].
#[verifier::ext_equal]
pub struct ClassReadingView {
    pub captured: Seq<Option<Seq<char>>>,
    pub prefix: Option<usize>,
    pub has_whole_match: bool,
    pub range: Option<(int, int)>,
}

/// What the groups of a match in the class text tell; `None` where one of them is one space.
pub open spec fn class_reading(
    objects: Seq<Seq<char>>,
    classes: Seq<Seq<char>>,
    segments: Seq<CompiledClassSegmentView>,
    mode: MatchMode,
    found: Seq<GroupSpan>,
) -> Option<ClassReadingView> {
    let raw = groups::raw_groups(class_text(objects, classes), found);
    if raw.contains(Some(" "@)) {
        None
    } else {
        let left = left_trim(objects, classes);
        let captured = groups::kept_groups(raw, segments);
        match whole_span(found) {
            Some((from, to)) => Some(
                ClassReadingView {
                    captured,
                    prefix: match spans::aligned_start(classes, objects, left + from, left + to) {
                        Some(at) => if mode == MatchMode::Any {
                            Some(at as usize)
                        } else {
                            None
                        },
                        None => None,
                    },
                    has_whole_match: true,
                    range: spans::token_range(classes, left + from, left + to),
                },
            ),
            None => Some(
                ClassReadingView { captured, prefix: None, has_whole_match: false, range: None },
            ),
        }
    }
}

/// What a match in the class text tells: the classes that it captured, where in the object text it
/// starts when that is of use, and the tokens that it reaches into.
#[derive(Debug)]
pub struct ClassReading {
    pub captured: Vec<Option<String>>,
    pub prefix: Option<usize>,
    pub has_whole_match: bool,
    pub range: Option<(usize, usize)>,
}

impl View for ClassReading {
    type V = ClassReadingView;

    open spec fn view(&self) -> ClassReadingView {
        ClassReadingView {
            captured: object_plan::captured_view(self.captured@),
            prefix: self.prefix,
            has_whole_match: self.has_whole_match,
            range: match self.range {
                Some((first, end)) => Some((first as int, end as int)),
                None => None,
            },
        }
    }
}

/// Whether both lists begin with a blank token.
#[must_use]
pub fn starts_with_space_pair(object_list: &[&str], class_list: &[&str]) -> (r: bool)
    ensures
        r == leads_blank(object_list.deep_view(), class_list.deep_view()),
{
    if object_list.len() == 0 || class_list.len() == 0 {
        return false;
    }
    assert(object_list.deep_view()[0] == object_list@[0]@);
    assert(class_list.deep_view()[0] == class_list@[0]@);
    text::all_chars_in(object_list[0], CharClass::White) && text::all_chars_in(
        class_list[0],
        CharClass::White,
    )
}

/// Whether both lists end with a blank token.
#[must_use]
pub fn ends_with_space_pair(object_list: &[&str], class_list: &[&str]) -> (r: bool)
    ensures
        r == trails_blank(object_list.deep_view(), class_list.deep_view()),
{
    if object_list.len() == 0 || class_list.len() == 0 {
        return false;
    }
    let last = object_list.len() - 1;
    let last_class = class_list.len() - 1;
    assert(object_list.deep_view().last() == object_list@[last as int]@);
    assert(class_list.deep_view().last() == class_list@[last_class as int]@);
    text::all_chars_in(object_list[last], CharClass::White) && text::all_chars_in(
        class_list[last_class],
        CharClass::White,
    )
}

/// A text without white space at the ends that are switched on.
#[must_use]
pub fn trim_with_space_flags(text: &str, leading: bool, trailing: bool) -> (r: &str)
    ensures
        r@ == trimmed_text(text@, leading, trailing),
{
    let rest = if leading {
        text::trimmed_start(text)
    } else {
        text
    };
    if trailing {
        text::trimmed_end(rest)
    } else {
        rest
    }
}

/// What the groups of a match in the class text tell; `None` where one of them is one space.
#[must_use]
pub fn read_class_match(
    object_list: &[&str],
    class_list: &[&str],
    segments: &[CompiledClassSegment],
    mode: MatchMode,
    found: &Vec<GroupSpan>,
) -> (r: Option<ClassReading>)
    ensures
        match (
            r,
            class_reading(
                object_list.deep_view(),
                class_list.deep_view(),
                segments.deep_view(),
                mode,
                found@,
            ),
        ) {
            (Some(reading), Some(view)) => reading@ == view && (reading.range matches Some(range)
                ==> range.0 < range.1 <= class_list.len()),
            (None, None) => true,
            _ => false,
        },
{
    let ghost objects = object_list.deep_view();
    let ghost classes = class_list.deep_view();
    let leading = starts_with_space_pair(object_list, class_list);
    let trailing = ends_with_space_pair(object_list, class_list);
    let joined_classes = text::concat_texts(class_list);
    let joined_objects = text::concat_texts(object_list);
    let class_text = trim_with_space_flags(joined_classes.as_str(), leading, trailing);
    let raw = groups::capture_groups(class_text, found);
    if groups::has_space_group(&raw) {
        return None;
    }
    let class_offsets = spans::token_offsets(class_list, joined_classes.as_str());
    let object_offsets = spans::token_offsets(object_list, joined_objects.as_str());
    let left_trim = if leading {
        assert(classes[0] == class_list@[0]@);
        offsets::len_of(class_list[0])
    } else {
        0
    };
    let captured = match groups::filter_class_groups(raw.as_slice(), segments) {
        Some(captured) => captured,
        None => Vec::new(),
    };
    proof {
        assert(object_plan::captured_view(captured@) =~= groups::kept_groups(
            groups::raw_groups(class_text@, found@),
            segments.deep_view(),
        ));
    }
    let whole = if found.len() == 0 {
        None
    } else {
        found[0]
    };
    match whole {
        Some((from, to)) => {
            let prefix = if mode == MatchMode::Any {
                spans::align_any_match(
                    &class_offsets,
                    &object_offsets,
                    class_list,
                    left_trim,
                    from,
                    to,
                    Ghost(objects),
                )
            } else {
                None
            };
            let range = spans::match_token_index_range(
                &class_offsets,
                left_trim,
                from,
                to,
                Ghost(classes),
            );
            Some(ClassReading { captured, prefix, has_whole_match: true, range })
        },
        None => Some(
            ClassReading { captured, prefix: None, has_whole_match: false, range: None },
        ),
    }
}

/// The fields that the groups of a match in the object text fill: the group after the whole match
/// fills the first field, and so on.
pub open spec fn fields_of(
    object: Seq<char>,
    names: Seq<Seq<char>>,
    found: Seq<GroupSpan>,
) -> Map<Seq<char>, Seq<char>>
    decreases names.len(),
{
    if names.len() == 0 {
        Map::empty()
    } else {
        let before = fields_of(object, names.drop_last(), found);
        let span = if names.len() < found.len() {
            found[names.len() as int]
        } else {
            None
        };
        match regex::group_text(object, span) {
            Some(value) => fields::with_value(before, names.last(), text::trim(value)),
            None => before,
        }
    }
}

/// The fields that the groups of a match in the object text fill.
#[must_use]
pub fn read_fields(object: &str, names: &Vec<String>, found: &Vec<GroupSpan>) -> (r: FieldMap)
    ensures
        r@ == fields_of(object@, names.deep_view(), found@),
{
    let ghost all = names.deep_view();
    let mut filled = FieldMap::new();
    let mut i: usize = 0;
    while i < names.len()
        invariant
            all == names.deep_view(),
            i <= names.len(),
            filled@ == fields_of(object@, all.take(i as int), found@),
        decreases names.len() - i,
    {
        proof {
            let next = all.take(i + 1);
            assert(next.drop_last() == all.take(i as int));
            assert(next.last() == names@[i as int]@);
        }
        let span = if i < found.len() && i + 1 < found.len() {
            found[i + 1]
        } else {
            None
        };
        if let Some(value) = regex::group_of(object, span) {
            filled.append(names[i].as_str(), text::trimmed(value));
        }
        i = i + 1;
    }
    assert(all.take(i as int) == all);
    filled
}

} // verus!
