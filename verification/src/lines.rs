//! Splitting a text into lines and joining lines into a text: what each
//! does to what the other made.

use vstd::prelude::*;
use crate::chars::{in_class, CharClass};
use crate::parsing::{
    content_end, lemma_run_end, lemma_run_unique, line_content, lines_from, lines_of, run_end,
};
use crate::render::join_lines;

verus! {

/// A line as the library splits them off: it holds no line feed and does not
/// end in a carriage return.
pub open spec fn is_clean(line: Seq<char>) -> bool {
    &&& forall|i: int| 0 <= i < line.len() ==> line[i] != '\n'
    &&& line.len() > 0 ==> line.last() != '\r'
}

/// Every line of `lines` is clean.
pub open spec fn all_clean(lines: Seq<Seq<char>>) -> bool {
    forall|i: int| 0 <= i < lines.len() ==> is_clean(#[trigger] lines[i])
}

/// A run in the tail of a text ends where it ends in the tail alone.
pub proof fn lemma_run_end_shift(head: Seq<char>, tail: Seq<char>, from: int, class: CharClass)
    requires
        0 <= from <= tail.len(),
    ensures
        run_end(head + tail, head.len() + from, class) == head.len() + run_end(tail, from, class),
{
    let end = run_end(tail, from, class);
    lemma_run_end(tail, from, class);
    lemma_run_unique(head + tail, head.len() + from, head.len() + end, class);
}

/// The content of a line in the tail of a text ends where it ends in the
/// tail alone.
pub proof fn lemma_content_end_shift(head: Seq<char>, tail: Seq<char>, from: int, end: int)
    requires
        0 <= from <= end <= tail.len(),
    ensures
        content_end(head + tail, head.len() + from, head.len() + end) == head.len() + content_end(
            tail,
            from,
            end,
        ),
    decreases end - from,
{
    if from < end && tail[end - 1] == '\r' {
        lemma_content_end_shift(head, tail, from, end - 1);
    }
}

/// The content of a line lies within the line.
pub proof fn lemma_content_end_bounds(s: Seq<char>, from: int, end: int)
    requires
        0 <= from <= end <= s.len(),
    ensures
        from <= content_end(s, from, end) <= end,
        content_end(s, from, end) > from ==> s[content_end(s, from, end) - 1] != '\r',
    decreases end - from,
{
    if from < end && s[end - 1] == '\r' {
        lemma_content_end_bounds(s, from, end - 1);
    }
}

/// The lines of the tail of a text are the lines of the tail alone.
pub proof fn lemma_lines_from_shift(head: Seq<char>, tail: Seq<char>, from: int)
    requires
        0 <= from <= tail.len(),
    ensures
        lines_from(head + tail, head.len() + from) == lines_from(tail, from),
    decreases tail.len() - from,
{
    let text = head + tail;
    if from < tail.len() {
        let end = run_end(tail, from, CharClass::Inline);
        lemma_run_end(tail, from, CharClass::Inline);
        lemma_run_end_shift(head, tail, from, CharClass::Inline);
        lemma_content_end_shift(head, tail, from, end);
        lemma_content_end_bounds(tail, from, end);
        assert(line_content(text, head.len() + from, head.len() + end) =~= line_content(
            tail,
            from,
            end,
        ));
        if end < tail.len() {
            lemma_lines_from_shift(head, tail, end + 1);
        }
    }
}

/// The lines of a text are clean.
pub proof fn lemma_lines_from_clean(s: Seq<char>, from: int)
    requires
        0 <= from <= s.len(),
    ensures
        all_clean(lines_from(s, from)),
    decreases s.len() - from,
{
    if from < s.len() {
        let end = run_end(s, from, CharClass::Inline);
        lemma_run_end(s, from, CharClass::Inline);
        lemma_content_end_bounds(s, from, end);
        assert(is_clean(line_content(s, from, end)));
        if end < s.len() {
            lemma_lines_from_clean(s, end + 1);
        }
    }
}

/// The text of lines put together is the text of the first part followed by
/// the text of the second.
pub proof fn lemma_join_concat(first: Seq<Seq<char>>, second: Seq<Seq<char>>)
    ensures
        join_lines(first + second) == join_lines(first) + join_lines(second),
    decreases second.len(),
{
    if second.len() > 0 {
        lemma_join_concat(first, second.drop_last());
        assert((first + second).drop_last() =~= first + second.drop_last());
    }
}

/// A clean line and its line feed, put before a text, come off it as the
/// first line.
pub proof fn lemma_first_line(line: Seq<char>, rest: Seq<char>)
    requires
        is_clean(line),
    ensures
        lines_of(line + seq!['\n'] + rest) == seq![line] + lines_of(rest),
{
    let head = line + seq!['\n'];
    let text = head + rest;
    let n = line.len() as int;
    lemma_run_unique(text, 0, n, CharClass::Inline);
    assert(line_content(text, 0, n) =~= line);
    lemma_lines_from_shift(head, rest, 0);
}

/// Splitting undoes joining: clean lines put together with line feeds come
/// apart as the same lines.
pub proof fn lemma_lines_of_join(lines: Seq<Seq<char>>)
    requires
        all_clean(lines),
    ensures
        lines_of(join_lines(lines)) == lines,
    decreases lines.len(),
{
    if lines.len() > 0 {
        let first = lines[0];
        let rest = lines.skip(1);
        assert(lines =~= seq![first] + rest);
        lemma_join_concat(seq![first], rest);
        assert(join_lines(seq![first].drop_last()) =~= Seq::<char>::empty());
        lemma_lines_of_join(rest);
        lemma_first_line(first, join_lines(rest));
    }
}

/// A text is made of whole lines in the library's own form: it is empty or
/// ends in a line feed, and no carriage return stands before a line feed.
pub open spec fn is_normal(text: Seq<char>) -> bool {
    &&& text.len() > 0 ==> text.last() == '\n'
    &&& forall|i: int| 0 < i < text.len() && #[trigger] text[i] == '\n' ==> text[i - 1] != '\r'
}

/// The lines of a normal text from `from` on, put together again, are the
/// text from `from` on.
proof fn lemma_join_of_lines_from(text: Seq<char>, from: int)
    requires
        is_normal(text),
        0 <= from <= text.len(),
    ensures
        join_lines(lines_from(text, from)) == text.subrange(from, text.len() as int),
    decreases text.len() - from,
{
    let n = text.len() as int;
    if from < n {
        let end = run_end(text, from, CharClass::Inline);
        lemma_run_end(text, from, CharClass::Inline);
        let line = text.subrange(from, end);
        let rest = lines_from(text, end + 1);
        lemma_join_of_lines_from(text, end + 1);
        lemma_join_concat(seq![line], rest);
        assert(join_lines(seq![line].drop_last()) =~= Seq::<char>::empty());
    }
}

/// Joining undoes splitting: the lines of a normal text, each followed by a
/// line feed, are the text itself.
pub proof fn lemma_join_of_lines(text: Seq<char>)
    requires
        is_normal(text),
    ensures
        join_lines(lines_of(text)) == text,
{
    lemma_join_of_lines_from(text, 0);
}

/// Lines put together with line feeds make a normal text.
pub proof fn lemma_join_is_normal(lines: Seq<Seq<char>>)
    requires
        all_clean(lines),
    ensures
        is_normal(join_lines(lines)),
    decreases lines.len(),
{
    if lines.len() > 0 {
        lemma_join_is_normal(lines.drop_last());
    }
}

} // verus!
