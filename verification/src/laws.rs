//! What holds of parsing, rendering and extraction taken together.

use vstd::prelude::*;
use crate::chars::{in_class, is_space, is_v4_char, CharClass};
use crate::lines::{
    all_clean, is_clean, is_normal, lemma_join_is_normal, lemma_join_of_lines,
    lemma_lines_from_clean, lemma_lines_of_join,
};
use crate::parsing::{
    address_end, aliases_end, aliases_from, all_parse, comment_of, domain_of, is_alias,
    lemma_run_end, lemma_run_unique, line_of, lines_of, parsed, run_end, well_formed, LineView,
    MalformedLine,
};
use crate::render::{
    block_lines, comment_line, document_text, entry_line, entry_of, join_aliases, line_text,
    rendered, rendered_lines,
};
use crate::agent::{doc_pairs, line_pairs, mapping_of};
use crate::region::{
    end_marker, first_index, lemma_absent, lemma_region, lemma_region_at, region_of,
    start_marker, END_MARKER, START_MARKER,
};
use crate::table::{lemma_pairs_map_from_pair, lemma_sorted_unique, pairs_map, sorted, Pair};

verus! {

/// Aliases put together with single spaces behind `head` come apart as the
/// same aliases, and nothing is left over behind them.
pub proof fn lemma_aliases_of_join(head: Seq<char>, aliases: Seq<Seq<char>>)
    requires
        aliases.len() > 0,
        forall|i: int| 0 <= i < aliases.len() ==> is_alias(#[trigger] aliases[i]),
    ensures
        aliases_from(head + join_aliases(aliases), head.len() as int) == aliases,
        aliases_end(head + join_aliases(aliases), head.len() as int) == (head + join_aliases(
            aliases,
        )).len(),
    decreases aliases.len(),
{
    let first = aliases[0];
    let text = head + join_aliases(aliases);
    let from = head.len() as int;
    let end = from + first.len();
    if aliases.len() == 1 {
        lemma_run_unique(text, from, end, CharClass::Token);
        lemma_run_unique(text, end, end, CharClass::Blank);
        lemma_run_unique(text, end, end, CharClass::Token);
        assert(text.subrange(from, end) =~= first);
        assert(aliases_from(text, end) =~= Seq::<Seq<char>>::empty());
        assert(aliases_end(text, end) == end);
    } else {
        let rest = aliases.skip(1);
        let longer = head + first + seq![' '];
        assert(text =~= longer + join_aliases(rest));
        lemma_aliases_of_join(longer, rest);
        lemma_run_unique(text, from, end, CharClass::Token);
        lemma_run_unique(text, end, end + 1, CharClass::Blank);
        assert(text.subrange(from, end) =~= first);
    }
}

/// A well-formed line comes back from its text: parsing undoes rendering.
pub proof fn lemma_line_round_trip(line: LineView)
    requires
        well_formed(line),
    ensures
        line_of(line_text(line)) == Ok::<LineView, MalformedLine>(line),
{
    match line {
        LineView::Comment(text) => {
            assert(line_text(line).skip(1) =~= text);
        },
        LineView::Domain { ip, aliases } => {
            let text = line_text(line);
            let a = ip.len() as int;
            let head = ip + seq!['\t'];
            if is_v4_char(ip[0]) {
                lemma_run_unique(text, 0, a, CharClass::V4);
            } else {
                lemma_run_unique(text, 0, a, CharClass::V6);
            }
            lemma_run_unique(text, a, a + 1, CharClass::Space);
            lemma_aliases_of_join(head, aliases);
            assert(text.subrange(0, a) =~= ip);
        },
    }
}

/// The aliases that a text holds are alias tokens.
pub proof fn lemma_aliases_are_tokens(s: Seq<char>, from: int)
    requires
        0 <= from <= s.len(),
    ensures
        forall|i: int|
            0 <= i < aliases_from(s, from).len() ==> is_alias(#[trigger] aliases_from(s, from)[i]),
    decreases s.len() - from,
{
    let end = run_end(s, from, CharClass::Token);
    let next = run_end(s, end, CharClass::Blank);
    lemma_run_end(s, from, CharClass::Token);
    lemma_run_end(s, end, CharClass::Blank);
    if from < end {
        lemma_aliases_are_tokens(s, next);
        assert(aliases_from(s, from) == seq![s.subrange(from, end)] + aliases_from(s, next));
    }
}

/// Whatever parses is well formed.
pub proof fn lemma_parsed_well_formed(s: Seq<char>)
    ensures
        line_of(s) matches Ok(line) ==> well_formed(line),
{
    if comment_of(s) is None && domain_of(s) is Ok {
        let a = address_end(s);
        let b = run_end(s, a, CharClass::Space);
        if s.len() > 0 && is_v4_char(s[0]) {
            lemma_run_end(s, 0, CharClass::V4);
        } else {
            lemma_run_end(s, 0, CharClass::V6);
        }
        lemma_run_end(s, a, CharClass::Space);
        lemma_run_end(s, b, CharClass::Token);
        lemma_aliases_are_tokens(s, b);
    }
}

/// A line whose text is a line of its own: a well-formed mapping, or a
/// comment whose text is clean.
pub open spec fn writable(line: LineView) -> bool {
    match line {
        LineView::Comment(text) => is_clean(text),
        LineView::Domain { .. } => well_formed(line),
    }
}

/// Aliases put together hold no white space but single spaces, and end in
/// none.
pub proof fn lemma_join_aliases_chars(aliases: Seq<Seq<char>>)
    requires
        aliases.len() > 0,
        forall|i: int| 0 <= i < aliases.len() ==> is_alias(#[trigger] aliases[i]),
    ensures
        join_aliases(aliases).len() > 0,
        !is_space(join_aliases(aliases).last()),
        forall|i: int|
            0 <= i < join_aliases(aliases).len() ==> {
                let c = #[trigger] join_aliases(aliases)[i];
                c == ' ' || !is_space(c)
            },
    decreases aliases.len(),
{
    if aliases.len() > 1 {
        lemma_join_aliases_chars(aliases.skip(1));
    }
}

/// The text of a writable line is clean.
pub proof fn lemma_writable_clean(line: LineView)
    requires
        writable(line),
    ensures
        is_clean(line_text(line)),
{
    match line {
        LineView::Comment(_) => {},
        LineView::Domain { ip, aliases } => {
            lemma_join_aliases_chars(aliases);
        },
    }
}

/// Parsing undoes rendering: the text of a document of writable lines parses
/// to that document.
pub proof fn lemma_document_round_trip(doc: Seq<LineView>)
    requires
        forall|i: int| 0 <= i < doc.len() ==> writable(#[trigger] doc[i]),
    ensures
        all_parse(lines_of(document_text(doc))),
        parsed(lines_of(document_text(doc))) == doc,
        document_text(parsed(lines_of(document_text(doc)))) == document_text(doc),
{
    let lines = Seq::new(doc.len(), |i: int| line_text(doc[i]));
    assert forall|i: int| 0 <= i < lines.len() implies is_clean(#[trigger] lines[i]) by {
        lemma_writable_clean(doc[i]);
    }
    lemma_lines_of_join(lines);
    assert forall|i: int| 0 <= i < lines.len() implies line_of(#[trigger] lines[i]) == Ok::<
        LineView,
        MalformedLine,
    >(doc[i]) by {
        lemma_line_round_trip(doc[i]);
    }
}

/// Rendering loses nothing that parsing sees: the document of a text that
/// parses, written out line by line, parses to the same document.
pub proof fn lemma_render_parse(text: Seq<char>)
    requires
        all_parse(lines_of(text)),
    ensures
        all_parse(lines_of(document_text(parsed(lines_of(text))))),
        parsed(lines_of(document_text(parsed(lines_of(text))))) == parsed(lines_of(text)),
{
    let lines = lines_of(text);
    let doc = parsed(lines);
    lemma_lines_from_clean(text, 0);
    assert forall|i: int| 0 <= i < doc.len() implies writable(#[trigger] doc[i]) by {
        lemma_parsed_well_formed(lines[i]);
    }
    lemma_document_round_trip(doc);
}

/// Every entry is one that a mapping line can state: an alias token with an
/// address token.
pub open spec fn entries_well_formed(pairs: Seq<Pair>) -> bool {
    forall|i: int| 0 <= i < pairs.len() ==> well_formed(entry_of(#[trigger] pairs[i]))
}

/// The document has a managed block, or neither of the two markers.
pub open spec fn markers_agree(doc: Seq<LineView>) -> bool {
    ||| region_of(doc) is Some
    ||| (first_index(doc, start_marker()) is None && first_index(doc, end_marker()) is None)
}

/// The mapping lines that state the entries `pairs`, one for each.
pub open spec fn block_doc(pairs: Seq<Pair>) -> Seq<LineView> {
    Seq::new(pairs.len(), |i: int| entry_of(pairs[i]))
}

/// The document after the entries `pairs` were written into it.
pub open spec fn rewritten(doc: Seq<LineView>, pairs: Seq<Pair>) -> Seq<LineView> {
    match region_of(doc) {
        Some((start, end)) => doc.subrange(0, start) + block_doc(pairs) + doc.subrange(
            end,
            doc.len() as int,
        ),
        None => doc + seq![start_marker()] + block_doc(pairs) + seq![end_marker()],
    }
}

/// Where the managed block starts once a table was written: where it started
/// before, or behind a new start marker at the end.
pub open spec fn block_start_of(doc: Seq<LineView>) -> int {
    match region_of(doc) {
        Some((start, _)) => start,
        None => doc.len() as int + 1,
    }
}

/// The two markers are different comments, and their lines are clean.
pub proof fn lemma_markers()
    ensures
        start_marker() != end_marker(),
        is_clean(comment_line(START_MARKER@)),
        is_clean(comment_line(END_MARKER@)),
{
    reveal_strlit(" hostman:start");
    reveal_strlit(" hostman:end");
    assert(comment_line(START_MARKER@).len() == 15);
    assert(comment_line(END_MARKER@).len() == 13);
}

/// The lines that state a line of entries are those entries.
pub proof fn lemma_block_pairs(pairs: Seq<Pair>)
    ensures
        doc_pairs(block_doc(pairs)) == pairs,
    decreases pairs.len(),
{
    if pairs.len() > 0 {
        lemma_block_pairs(pairs.drop_last());
        assert(block_doc(pairs).drop_last() =~= block_doc(pairs.drop_last()));
    }
}

/// The lines of the new file parse to the rewritten document.
pub proof fn lemma_rendered_lines_parse(raw: Seq<Seq<char>>, pairs: Seq<Pair>)
    requires
        all_parse(raw),
        entries_well_formed(pairs),
    ensures
        all_parse(rendered_lines(raw, region_of(parsed(raw)), pairs)),
        parsed(rendered_lines(raw, region_of(parsed(raw)), pairs)) == rewritten(parsed(raw), pairs),
{
    let doc = parsed(raw);
    let lines = rendered_lines(raw, region_of(doc), pairs);
    let target = rewritten(doc, pairs);
    lemma_region(doc);
    assert forall|i: int| 0 <= i < lines.len() implies line_of(#[trigger] lines[i]) == Ok::<
        LineView,
        MalformedLine,
    >(target[i]) by {
        let n = pairs.len() as int;
        let block_start = block_start_of(doc);
        if block_start <= i < block_start + n {
            lemma_line_round_trip(entry_of(pairs[i - block_start]));
        } else if region_of(doc) is None && i == raw.len() {
            assert(lines[i].skip(1) =~= START_MARKER@);
        } else if region_of(doc) is None && i == raw.len() + 1 + n {
            assert(lines[i].skip(1) =~= END_MARKER@);
        }
    }
}

/// The lines of the new file are clean where the old ones were.
pub proof fn lemma_rendered_lines_clean(raw: Seq<Seq<char>>, pairs: Seq<Pair>)
    requires
        all_clean(raw),
        entries_well_formed(pairs),
    ensures
        all_clean(rendered_lines(raw, region_of(parsed(raw)), pairs)),
{
    let doc = parsed(raw);
    let lines = rendered_lines(raw, region_of(doc), pairs);
    lemma_region(doc);
    lemma_markers();
    assert forall|i: int| 0 <= i < lines.len() implies is_clean(#[trigger] lines[i]) by {
        let block_start = block_start_of(doc);
        if block_start <= i < block_start + pairs.len() {
            lemma_writable_clean(entry_of(pairs[i - block_start]));
        }
    }
}

/// In the rewritten document the managed block is the written entries.
pub proof fn lemma_rewritten_region(doc: Seq<LineView>, pairs: Seq<Pair>)
    requires
        markers_agree(doc),
    ensures
        ({
            let start = block_start_of(doc);
            &&& region_of(rewritten(doc, pairs)) == Some((start, start + pairs.len()))
            &&& rewritten(doc, pairs).subrange(start, start + pairs.len()) == block_doc(pairs)
        }),
{
    let after = rewritten(doc, pairs);
    let n = pairs.len() as int;
    lemma_region(doc);
    lemma_markers();
    match region_of(doc) {
        Some((start, end)) => {
            lemma_region_at(after, start, start + n);
        },
        None => {
            let start = block_start_of(doc);
            assert forall|j: int| 0 <= j < doc.len() implies doc[j] != start_marker() && doc[j]
                != end_marker() by {
                lemma_absent(doc, start_marker(), j);
                lemma_absent(doc, end_marker(), j);
            }
            lemma_region_at(after, start, start + n);
        },
    }
}

/// Writing a table and reading the file again gives the table back, and
/// writing the same table once more changes nothing.
///
/// This holds of a text that parses and whose markers agree, and of entries
/// that a mapping line can state.
pub proof fn lemma_write_then_read(text: Seq<char>, pairs: Seq<Pair>)
    requires
        all_parse(lines_of(text)),
        markers_agree(parsed(lines_of(text))),
        entries_well_formed(pairs),
    ensures
        ({
            let written = rendered(lines_of(text), pairs);
            &&& all_parse(lines_of(written))
            &&& mapping_of(parsed(lines_of(written))) == pairs_map(pairs)
            &&& rendered(lines_of(written), pairs) == written
        }),
{
    let raw = lines_of(text);
    let doc = parsed(raw);
    let lines = rendered_lines(raw, region_of(doc), pairs);
    lemma_lines_from_clean(text, 0);
    lemma_rendered_lines_clean(raw, pairs);
    lemma_lines_of_join(lines);
    lemma_rendered_lines_parse(raw, pairs);
    lemma_rewritten_region(doc, pairs);
    lemma_block_pairs(pairs);
    let start = block_start_of(doc);
    lemma_region(doc);
    assert(lines.subrange(0, start) + block_lines(pairs) + lines.subrange(
        start + pairs.len(),
        lines.len() as int,
    ) =~= lines);
}

/// Writing the table that the block already holds gives a normal text back
/// as it is.
pub proof fn lemma_write_same_block(text: Seq<char>, pairs: Seq<Pair>)
    requires
        is_normal(text),
        all_parse(lines_of(text)),
        region_of(parsed(lines_of(text))) matches Some((start, end)) && lines_of(text).subrange(
            start,
            end,
        ) == block_lines(pairs),
    ensures
        rendered(lines_of(text), pairs) == text,
{
    let raw = lines_of(text);
    lemma_region(parsed(raw));
    lemma_join_of_lines(text);
    match region_of(parsed(raw)) {
        Some((start, end)) => {
            assert(raw.subrange(0, start) + raw.subrange(start, end) + raw.subrange(
                end,
                raw.len() as int,
            ) =~= raw);
        },
        None => {},
    }
}

/// The line `line` gives `host` the address `ip`.
pub open spec fn states(line: LineView, host: Seq<char>, ip: Seq<char>) -> bool {
    line matches LineView::Domain { ip: address, aliases } && address == ip && aliases.contains(
        host,
    )
}

/// Each pair that lines state is stated by one of the lines.
pub proof fn lemma_doc_pairs_stated(lines: Seq<LineView>, j: int)
    requires
        0 <= j < doc_pairs(lines).len(),
    ensures
        exists|i: int|
            0 <= i < lines.len() && states(
                #[trigger] lines[i],
                doc_pairs(lines)[j].0,
                doc_pairs(lines)[j].1,
            ),
    decreases lines.len(),
{
    if lines.len() > 0 {
        let front = lines.drop_last();
        let k = j - doc_pairs(front).len();
        if k < 0 {
            lemma_doc_pairs_stated(front, j);
        } else {
            assert(doc_pairs(lines)[j] == line_pairs(lines.last())[k]);
            assert(states(lines[lines.len() - 1], doc_pairs(lines)[j].0, doc_pairs(lines)[j].1));
        }
    }
}

/// Region isolation: every entry of the mapping that a document holds is
/// stated by a line inside its managed block. What stands outside the
/// block, whatever it is, gives the mapping nothing.
pub proof fn lemma_mapping_from_block(doc: Seq<LineView>, host: Seq<char>)
    requires
        mapping_of(doc).contains_key(host),
    ensures
        region_of(doc) matches Some((start, end)) && exists|i: int|
            start <= i < end && states(#[trigger] doc[i], host, mapping_of(doc)[host]),
{
    lemma_region(doc);
    match region_of(doc) {
        Some((start, end)) => {
            let block = doc.subrange(start, end);
            let pairs = doc_pairs(block);
            lemma_pairs_map_from_pair(pairs, host);
            let j = choose|j: int|
                0 <= j < pairs.len() && #[trigger] pairs[j] == (host, pairs_map(pairs)[host]);
            lemma_doc_pairs_stated(block, j);
        },
        None => {},
    }
}

/// Region isolation: two documents with the same managed block, at the same
/// place, hold the same mapping, however they differ outside the block.
pub proof fn lemma_mapping_of_block_alone(first: Seq<LineView>, second: Seq<LineView>)
    requires
        region_of(first) == region_of(second),
        region_of(first) matches Some((start, end)) ==> first.subrange(start, end)
            == second.subrange(start, end),
    ensures
        mapping_of(first) == mapping_of(second),
{
}

/// Every line of a written file ends in a single line feed: the text is
/// empty or ends in a line feed, and no carriage return stands before one.
pub proof fn lemma_written_is_normal(text: Seq<char>, pairs: Seq<Pair>)
    requires
        entries_well_formed(pairs),
    ensures
        is_normal(rendered(lines_of(text), pairs)),
{
    let raw = lines_of(text);
    lemma_lines_from_clean(text, 0);
    lemma_rendered_lines_clean(raw, pairs);
    lemma_join_is_normal(rendered_lines(raw, region_of(parsed(raw)), pairs));
}

/// Writing is reproducible: two tables that hold the same mapping, each
/// walked in the order of its host names, are written as the same text.
pub proof fn lemma_written_alike(raw: Seq<Seq<char>>, first: Seq<Pair>, second: Seq<Pair>)
    requires
        sorted(first),
        sorted(second),
        pairs_map(first) == pairs_map(second),
    ensures
        rendered(raw, first) == rendered(raw, second),
{
    lemma_sorted_unique(first, second);
}

} // verus!
