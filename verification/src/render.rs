//! Writing a table into the text of a hosts file.
//!
//! The text is taken line by line. Every line outside the managed block is
//! given back as it stands, the block's lines are replaced by one line for
//! each entry of the table, and a file without a block gets one at its end.
//! Every line of the result ends in a single line feed, whatever ended it
//! before.

use vstd::prelude::*;
use crate::parsing::{
    all_parse, fails_at, lines_of, parse_each, parsed, split_lines, LineView, ParseError,
};
use crate::region::{region_of, splice_hostman_lines, END_MARKER, START_MARKER};
use crate::table::{HostMap, Pair, Table};

verus! {

/// The text of `lines`, each followed by a line feed.
pub open spec fn join_lines(lines: Seq<Seq<char>>) -> Seq<char>
    decreases lines.len(),
{
    if lines.len() == 0 {
        Seq::empty()
    } else {
        join_lines(lines.drop_last()) + lines.last() + seq!['\n']
    }
}

/// The aliases of a line, a single space between two of them.
pub open spec fn join_aliases(aliases: Seq<Seq<char>>) -> Seq<char>
    decreases aliases.len(),
{
    if aliases.len() == 0 {
        Seq::empty()
    } else if aliases.len() == 1 {
        aliases[0]
    } else {
        aliases[0] + seq![' '] + join_aliases(aliases.skip(1))
    }
}

/// The text of a line: `#` and the text of a comment; the address, a tab and
/// the aliases of a mapping.
pub open spec fn line_text(line: LineView) -> Seq<char> {
    match line {
        LineView::Comment(text) => seq!['#'] + text,
        LineView::Domain { ip, aliases } => ip + seq!['\t'] + join_aliases(aliases),
    }
}

/// The text of a document: the text of each line, each followed by a line
/// feed.
pub open spec fn document_text(doc: Seq<LineView>) -> Seq<char> {
    join_lines(Seq::new(doc.len(), |i: int| line_text(doc[i])))
}

/// The mapping line that states the entry `pair` and nothing else.
pub open spec fn entry_of(pair: Pair) -> LineView {
    LineView::Domain { ip: pair.1, aliases: seq![pair.0] }
}

/// The line of an entry: the address, a tab, and the host name.
pub open spec fn entry_line(pair: Pair) -> Seq<char> {
    line_text(entry_of(pair))
}

/// The lines of the entries `pairs`, one for each and in their order.
pub open spec fn block_lines(pairs: Seq<Pair>) -> Seq<Seq<char>> {
    Seq::new(pairs.len(), |i: int| entry_line(pairs[i]))
}

/// The line of the comment `text`: `#` and the text.
pub open spec fn comment_line(text: Seq<char>) -> Seq<char> {
    line_text(LineView::Comment(text))
}

/// The lines of a file with the lines `raw` after the entries `pairs` were
/// written into it, where `region` is its managed block.
pub open spec fn rendered_lines(
    raw: Seq<Seq<char>>,
    region: Option<(int, int)>,
    pairs: Seq<Pair>,
) -> Seq<Seq<char>> {
    match region {
        Some((start, end)) => raw.subrange(0, start) + block_lines(pairs) + raw.subrange(
            end,
            raw.len() as int,
        ),
        None => raw + seq![comment_line(START_MARKER@)] + block_lines(pairs)
            + seq![comment_line(END_MARKER@)],
    }
}

/// The text of a file with the lines `raw` after the entries `pairs` were
/// written into it.
pub open spec fn rendered(raw: Seq<Seq<char>>, pairs: Seq<Pair>) -> Seq<char> {
    join_lines(rendered_lines(raw, region_of(parsed(raw)), pairs))
}

/// Appends `line` and a line feed to `out`.
fn emit_line(out: &mut String, line: &str, Ghost(done): Ghost<Seq<Seq<char>>>)
    requires
        old(out)@ == join_lines(done),
    ensures
        final(out)@ == join_lines(done.push(line@)),
{
    assert(done.push(line@).drop_last() =~= done);
    out.append(line);
    out.push('\n');
}

/// Appends the lines `raw[from..to]` to `out`.
fn emit_lines(
    out: &mut String,
    raw: &Vec<String>,
    from: usize,
    to: usize,
    Ghost(done): Ghost<Seq<Seq<char>>>,
)
    requires
        from <= to <= raw.len(),
        old(out)@ == join_lines(done),
    ensures
        final(out)@ == join_lines(done + raw.deep_view().subrange(from as int, to as int)),
{
    let mut i: usize = from;
    while i < to
        invariant
            from <= i <= to <= raw.len(),
            out@ == join_lines(done + raw.deep_view().subrange(from as int, i as int)),
        decreases to - i,
    {
        let ghost so_far = done + raw.deep_view().subrange(from as int, i as int);
        assert(so_far.push(raw[i as int]@) =~= done + raw.deep_view().subrange(
            from as int,
            i + 1,
        ));
        emit_line(out, raw[i].as_str(), Ghost(so_far));
        i += 1;
    }
}

/// Appends one line for each entry of `mapping` to `out`.
fn emit_entries(out: &mut String, mapping: &HostMap, Ghost(done): Ghost<Seq<Seq<char>>>)
    requires
        old(out)@ == join_lines(done),
    ensures
        final(out)@ == join_lines(done + block_lines(mapping.pairs())),
{
    let n = mapping.len();
    let mut i: usize = 0;
    while i < n
        invariant
            i <= n,
            n == mapping.pairs().len(),
            out@ == join_lines(done + block_lines(mapping.pairs()).take(i as int)),
        decreases n - i,
    {
        let ghost so_far = done + block_lines(mapping.pairs()).take(i as int);
        match mapping.entry(i) {
            Some(entry) => {
                let mut line = String::new();
                line.append(entry.ip.as_str());
                line.push('\t');
                line.append(entry.host.as_str());
                assert(line@ =~= entry_line(mapping.pairs()[i as int]));
                assert(so_far.push(line@) =~= done + block_lines(mapping.pairs()).take(i + 1));
                emit_line(out, line.as_str(), Ghost(so_far));
            },
            None => {},
        }
        i += 1;
    }
    assert(block_lines(mapping.pairs()).take(i as int) =~= block_lines(mapping.pairs()));
}

/// Appends the line of the comment `text` to `out`.
fn emit_comment(out: &mut String, text: &str, Ghost(done): Ghost<Seq<Seq<char>>>)
    requires
        old(out)@ == join_lines(done),
    ensures
        final(out)@ == join_lines(done.push(comment_line(text@))),
{
    let mut line = String::new();
    line.push('#');
    line.append(text);
    emit_line(out, line.as_str(), Ghost(done));
}

/// Writes `table` into the text of a hosts file and returns the new text.
///
/// A text that does not parse is not rewritten: the first malformed line is
/// the error. Otherwise the lines before the managed block, the start marker
/// among them, stay as they are, one line for each entry of the table
/// follows in the order of the host names, and the end marker and all lines
/// behind it stay as they are. A text without a block keeps all its lines and
/// gets a block at its end.
pub fn write_table(table: &Table, file_contents: &str) -> (r: Result<String, ParseError>)
    ensures
        match r {
            Ok(text) => all_parse(lines_of(file_contents@)) && text@ == rendered(
                lines_of(file_contents@),
                table.host_mapping.pairs(),
            ),
            Err(e) => fails_at(lines_of(file_contents@), e),
        },
{
    let raw = split_lines(file_contents);
    let lines = match parse_each(&raw) {
        Ok(lines) => lines,
        Err(e) => {
            return Err(e);
        },
    };
    let ghost pairs = table.host_mapping.pairs();
    let mut out = String::new();
    match splice_hostman_lines(&lines) {
        Some(range) => {
            let ghost head = raw.deep_view().subrange(0, range.start as int);
            emit_lines(&mut out, &raw, 0, range.start, Ghost(Seq::empty()));
            emit_entries(&mut out, &table.host_mapping, Ghost(head));
            emit_lines(&mut out, &raw, range.end, raw.len(), Ghost(head + block_lines(pairs)));
        },
        None => {
            let ghost all = raw.deep_view();
            emit_lines(&mut out, &raw, 0, raw.len(), Ghost(Seq::empty()));
            assert(Seq::<Seq<char>>::empty() + all.subrange(0, all.len() as int) =~= all);
            emit_comment(&mut out, START_MARKER, Ghost(all));
            let ghost opened = all.push(comment_line(START_MARKER@));
            emit_entries(&mut out, &table.host_mapping, Ghost(opened));
            emit_comment(&mut out, END_MARKER, Ghost(opened + block_lines(pairs)));
            assert((opened + block_lines(pairs)).push(comment_line(END_MARKER@)) =~= all
                + seq![comment_line(START_MARKER@)] + block_lines(pairs) + seq![
                comment_line(END_MARKER@),
            ]);
        },
    }
    Ok(out)
}

} // verus!
