//! The managed block: the lines between the two marker comments.
//!
//! The block starts behind the first comment ` hostman:start` and ends before
//! the first comment ` hostman:end`. Each marker is looked for from the top
//! of the document. Where one of them is missing, or the end marker does not
//! come after the start marker, the document has no managed block.

use std::ops::Range;
use vstd::prelude::*;
use crate::parsing::{Line, LineView, Lines};

verus! {

/// The text of the comment that opens the managed block.
pub const START_MARKER: &'static str = " hostman:start";

/// The text of the comment that closes the managed block.
pub const END_MARKER: &'static str = " hostman:end";

/// The comment that opens the managed block.
pub open spec fn start_marker() -> LineView {
    LineView::Comment(START_MARKER@)
}

/// The comment that closes the managed block.
pub open spec fn end_marker() -> LineView {
    LineView::Comment(END_MARKER@)
}

/// `i` is the first place of `doc` at which `marker` stands.
pub open spec fn first_at(doc: Seq<LineView>, marker: LineView, i: int) -> bool {
    &&& 0 <= i < doc.len()
    &&& doc[i] == marker
    &&& forall|j: int| 0 <= j < i ==> doc[j] != marker
}

/// The first place of `doc` at which `marker` stands, if it stands anywhere.
pub open spec fn first_index(doc: Seq<LineView>, marker: LineView) -> Option<int> {
    if exists|i: int| first_at(doc, marker, i) {
        Some(choose|i: int| first_at(doc, marker, i))
    } else {
        None
    }
}

/// The managed block of `doc` as the half-open range of its lines.
pub open spec fn region_of(doc: Seq<LineView>) -> Option<(int, int)> {
    match (first_index(doc, start_marker()), first_index(doc, end_marker())) {
        (Some(start), Some(end)) => if start < end {
            Some((start + 1, end))
        } else {
            None
        },
        _ => None,
    }
}

/// A first place is the only first place.
pub proof fn lemma_first_index(doc: Seq<LineView>, marker: LineView, i: int)
    requires
        first_at(doc, marker, i),
    ensures
        first_index(doc, marker) == Some(i),
{
}

/// A marker without a first place stands nowhere.
pub proof fn lemma_absent(doc: Seq<LineView>, marker: LineView, i: int)
    requires
        first_index(doc, marker) is None,
        0 <= i < doc.len(),
    ensures
        doc[i] != marker,
    decreases i,
{
    if doc[i] == marker {
        if exists|j: int| 0 <= j < i && doc[j] == marker {
            let j = choose|j: int| 0 <= j < i && doc[j] == marker;
            lemma_absent(doc, marker, j);
        } else {
            assert(first_at(doc, marker, i));
        }
    }
}

/// What [`region_of`] says of the markers: the start marker stands first
/// directly before the block, the end marker stands first directly behind it.
pub proof fn lemma_region(doc: Seq<LineView>)
    ensures
        match region_of(doc) {
            Some((start, end)) => {
                &&& first_at(doc, start_marker(), start - 1)
                &&& first_at(doc, end_marker(), end)
                &&& 1 <= start <= end < doc.len()
            },
            None => forall|s: int, e: int|
                !(first_at(doc, start_marker(), s) && first_at(doc, end_marker(), e) && s < e),
        },
{
    if region_of(doc) is None {
        assert forall|s: int, e: int|
            !(first_at(doc, start_marker(), s) && first_at(doc, end_marker(), e) && s < e) by {
            if first_at(doc, start_marker(), s) && first_at(doc, end_marker(), e) {
                lemma_first_index(doc, start_marker(), s);
                lemma_first_index(doc, end_marker(), e);
            }
        }
    }
}

/// Markers that stand first at `start - 1` and at `end`, in this order,
/// enclose the managed block.
pub proof fn lemma_region_at(doc: Seq<LineView>, start: int, end: int)
    requires
        first_at(doc, start_marker(), start - 1),
        first_at(doc, end_marker(), end),
        start <= end,
    ensures
        region_of(doc) == Some((start, end)),
{
    lemma_first_index(doc, start_marker(), start - 1);
    lemma_first_index(doc, end_marker(), end);
}

/// Finds the first comment of `lines` whose text is `text`.
fn find_comment(lines: &Lines, text: &str) -> (r: Option<usize>)
    ensures
        r matches Some(i) ==> first_index(lines.deep_view(), LineView::Comment(text@)) == Some(
            i as int,
        ),
        r is None ==> first_index(lines.deep_view(), LineView::Comment(text@)) is None,
{
    let wanted = text.to_owned();
    let mut i: usize = 0;
    while i < lines.len()
        invariant
            i <= lines.len(),
            wanted@ == text@,
            forall|j: int| 0 <= j < i ==> lines.deep_view()[j] != LineView::Comment(text@),
        decreases lines.len() - i,
    {
        match &lines[i] {
            Line::Comment(found) => {
                if *found == wanted {
                    proof {
                        lemma_first_index(
                            lines.deep_view(),
                            LineView::Comment(text@),
                            i as int,
                        );
                    }
                    return Some(i);
                }
            },
            _ => {},
        }
        i += 1;
    }
    None
}

/// Locates the managed block of a document: the range of the lines between
/// the two markers.
pub fn splice_hostman_lines(lines: &Lines) -> (r: Option<Range<usize>>)
    ensures
        match r {
            Some(range) => region_of(lines.deep_view()) == Some(
                (range.start as int, range.end as int),
            ) && 1 <= range.start <= range.end < lines.len(),
            None => region_of(lines.deep_view()) is None,
        },
{
    proof {
        lemma_region(lines.deep_view());
    }
    let start_idx = match find_comment(lines, START_MARKER) {
        Some(i) => i,
        None => {
            return None;
        },
    };
    let end_idx = match find_comment(lines, END_MARKER) {
        Some(i) => i,
        None => {
            return None;
        },
    };
    if start_idx < end_idx {
        Some(start_idx + 1..end_idx)
    } else {
        None
    }
}

} // verus!
