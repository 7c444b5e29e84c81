//! The grammar of a hosts file: comment lines and mapping lines.
//!
//! A text is a sequence of lines. A line feed ends a line; carriage returns
//! directly before it, or at the very end of the text, belong to the
//! terminator, so a line never holds its terminator. A comment line is `#`
//! and any text. A mapping line is an address token, white space, and one or
//! more aliases that spaces and tabs separate. Anything else, a blank line
//! too, is malformed.

use vstd::prelude::*;
use crate::chars::{belongs, in_class, is_v4_char, string_from, to_chars, CharClass};

verus! {

/// One line of a hosts file.
#[derive(Debug, PartialEq, Eq)]
pub enum Line {
    /// The text that follows the `#`, kept as it stands.
    Comment(String),
    /// An address and the aliases that the line gives it, in the line's order.
    Domain { ip: String, aliases: Vec<String> },
}

/// A document: the lines of a hosts file in their order.
pub type Lines = Vec<Line>;

/// What a [`Line`] holds, as sequences of characters.
pub enum LineView {
    Comment(Seq<char>),
    Domain { ip: Seq<char>, aliases: Seq<Seq<char>> },
}

impl View for Line {
    type V = LineView;

    open spec fn view(&self) -> LineView {
        match *self {
            Line::Comment(text) => LineView::Comment(text@),
            Line::Domain { ip, aliases } => LineView::Domain {
                ip: ip@,
                aliases: aliases.deep_view(),
            },
        }
    }
}

impl DeepView for Line {
    type V = LineView;

    open spec fn deep_view(&self) -> LineView {
        self@
    }
}

impl Clone for Line {
    fn clone(&self) -> (copy: Line)
        ensures
            copy@ == self@,
    {
        match self {
            Line::Comment(text) => Line::Comment(text.clone()),
            Line::Domain { ip, aliases } => {
                let mut copies: Vec<String> = Vec::new();
                let mut i: usize = 0;
                while i < aliases.len()
                    invariant
                        i <= aliases.len(),
                        copies.deep_view() == aliases.deep_view().take(i as int),
                    decreases aliases.len() - i,
                {
                    let ghost before = copies.deep_view();
                    let alias = aliases[i].clone();
                    copies.push(alias);
                    assert(copies.deep_view() =~= before.push(alias@));
                    i += 1;
                }
                assert(copies.deep_view() =~= aliases.deep_view());
                Line::Domain { ip: ip.clone(), aliases: copies }
            },
        }
    }
}

impl Line {
    /// Tells whether the line is a comment.
    pub fn is_comment(&self) -> (r: bool)
        ensures
            r == (self@ is Comment),
    {
        match self {
            Self::Comment(_) => true,
            _ => false,
        }
    }

    /// Tells whether the line maps an address to aliases.
    pub fn is_domain(&self) -> (r: bool)
        ensures
            r == (self@ is Domain),
    {
        match self {
            Self::Domain { .. } => true,
            _ => false,
        }
    }
}

/// Why a line is neither a comment nor a mapping.
#[derive(Debug, PartialEq, Eq, Clone, Copy, Structural)]
pub enum MalformedLine {
    /// The line starts with no character of an address. A blank line is of
    /// this kind.
    MissingAddress,
    /// Nothing but white space follows the address.
    MissingAlias,
    /// White space other than a space or a tab follows an alias.
    BadSeparator,
}

/// The end of the longest run of characters of `class` in `s` that starts at
/// `from`.
pub open spec fn run_end(s: Seq<char>, from: int, class: CharClass) -> int
    decreases s.len() - from,
{
    if 0 <= from < s.len() && in_class(s[from], class) {
        run_end(s, from + 1, class)
    } else {
        from
    }
}

/// `end` closes a run of characters of `class` that starts at `from` and
/// cannot be made longer.
pub open spec fn is_run(s: Seq<char>, from: int, end: int, class: CharClass) -> bool {
    &&& 0 <= from <= end <= s.len()
    &&& forall|i: int| from <= i < end ==> in_class(#[trigger] s[i], class)
    &&& end < s.len() ==> !in_class(s[end], class)
}

/// [`run_end`] closes a run that cannot be made longer.
pub proof fn lemma_run_end(s: Seq<char>, from: int, class: CharClass)
    requires
        0 <= from <= s.len(),
    ensures
        is_run(s, from, run_end(s, from, class), class),
    decreases s.len() - from,
{
    if from < s.len() && in_class(s[from], class) {
        lemma_run_end(s, from + 1, class);
    }
}

/// A run that cannot be made longer ends where [`run_end`] says.
pub proof fn lemma_run_unique(s: Seq<char>, from: int, end: int, class: CharClass)
    requires
        is_run(s, from, end, class),
    ensures
        run_end(s, from, class) == end,
    decreases end - from,
{
    if from < end {
        lemma_run_unique(s, from + 1, end, class);
    }
}

/// Finds the end of the run of `class` that starts at `from`.
pub(crate) fn scan(chars: &Vec<char>, from: usize, class: CharClass) -> (end: usize)
    requires
        from <= chars.len(),
    ensures
        end == run_end(chars@, from as int, class),
        from <= end <= chars.len(),
{
    let mut i: usize = from;
    while i < chars.len() && belongs(chars[i], class)
        invariant
            from <= i <= chars.len(),
            run_end(chars@, i as int, class) == run_end(chars@, from as int, class),
        decreases chars.len() - i,
    {
        i += 1;
    }
    i
}

/// Where the address token of `s` ends. The token is a run of IPv4
/// characters if `s` starts with one, and a run of IPv6 characters otherwise;
/// it is empty where `s` starts with neither.
pub open spec fn address_end(s: Seq<char>) -> int {
    if s.len() > 0 && is_v4_char(s[0]) {
        run_end(s, 0, CharClass::V4)
    } else {
        run_end(s, 0, CharClass::V6)
    }
}

/// The aliases that `s` holds from `from` on: each a run of characters that
/// are no white space, each followed by a run of blanks.
pub open spec fn aliases_from(s: Seq<char>, from: int) -> Seq<Seq<char>>
    decreases s.len() - from,
{
    let end = run_end(s, from, CharClass::Token);
    let next = run_end(s, end, CharClass::Blank);
    if 0 <= from < end {
        proof {
            lemma_run_end(s, from, CharClass::Token);
            lemma_run_end(s, end, CharClass::Blank);
        }
        seq![s.subrange(from, end)] + aliases_from(s, next)
    } else {
        Seq::empty()
    }
}

/// Where the aliases that start at `from` end: the first place behind an
/// alias and its blanks at which no further alias starts.
pub open spec fn aliases_end(s: Seq<char>, from: int) -> int
    decreases s.len() - from,
{
    let end = run_end(s, from, CharClass::Token);
    let next = run_end(s, end, CharClass::Blank);
    if 0 <= from < end {
        proof {
            lemma_run_end(s, from, CharClass::Token);
            lemma_run_end(s, end, CharClass::Blank);
        }
        aliases_end(s, next)
    } else {
        from
    }
}

/// The mapping that the line `s` states, or why it states none.
pub open spec fn domain_of(s: Seq<char>) -> Result<LineView, MalformedLine> {
    let a = address_end(s);
    let b = run_end(s, a, CharClass::Space);
    if a == 0 {
        Err(MalformedLine::MissingAddress)
    } else if b == s.len() {
        Err(MalformedLine::MissingAlias)
    } else if aliases_end(s, b) != s.len() {
        Err(MalformedLine::BadSeparator)
    } else {
        Ok(LineView::Domain { ip: s.subrange(0, a), aliases: aliases_from(s, b) })
    }
}

/// `ip` is an address token: a run of IPv4 characters, or a run of IPv6
/// characters that does not start with an IPv4 character.
pub open spec fn is_address(ip: Seq<char>) -> bool {
    &&& ip.len() > 0
    &&& if is_v4_char(ip[0]) {
        forall|i: int| 0 <= i < ip.len() ==> in_class(#[trigger] ip[i], CharClass::V4)
    } else {
        forall|i: int| 0 <= i < ip.len() ==> in_class(#[trigger] ip[i], CharClass::V6)
    }
}

/// `alias` is an alias token: one character or more, none of them white
/// space.
pub open spec fn is_alias(alias: Seq<char>) -> bool {
    &&& alias.len() > 0
    &&& forall|i: int| 0 <= i < alias.len() ==> in_class(#[trigger] alias[i], CharClass::Token)
}

/// What every parsed line is: a comment, or an address token with one alias
/// token or more.
pub open spec fn well_formed(line: LineView) -> bool {
    match line {
        LineView::Comment(_) => true,
        LineView::Domain { ip, aliases } => {
            &&& is_address(ip)
            &&& aliases.len() > 0
            &&& forall|i: int| 0 <= i < aliases.len() ==> is_alias(#[trigger] aliases[i])
        },
    }
}

/// The comment that the line `s` holds, if it starts with `#`.
pub open spec fn comment_of(s: Seq<char>) -> Option<LineView> {
    if s.len() > 0 && s[0] == '#' {
        Some(LineView::Comment(s.skip(1)))
    } else {
        None
    }
}

/// What the line `s` parses to. A comment is tried first, then a mapping.
pub open spec fn line_of(s: Seq<char>) -> Result<LineView, MalformedLine> {
    match comment_of(s) {
        Some(comment) => Ok(comment),
        None => domain_of(s),
    }
}

/// Parses the characters of one line as a comment.
fn comment_from_chars(chars: &Vec<char>) -> (r: Option<Line>)
    ensures
        r.deep_view() == comment_of(chars@),
{
    if chars.len() > 0 && chars[0] == '#' {
        Some(Line::Comment(string_from(chars, 1, chars.len())))
    } else {
        None
    }
}

/// Parses the characters of one line as a mapping.
fn domain_from_chars(chars: &Vec<char>) -> (r: Result<Line, MalformedLine>)
    ensures
        match r {
            Ok(line) => domain_of(chars@) == Ok::<LineView, MalformedLine>(line@),
            Err(e) => domain_of(chars@) == Err::<LineView, MalformedLine>(e),
        },
{
    let a = if chars.len() > 0 && belongs(chars[0], CharClass::V4) {
        scan(chars, 0, CharClass::V4)
    } else {
        scan(chars, 0, CharClass::V6)
    };
    if a == 0 {
        return Err(MalformedLine::MissingAddress);
    }
    let b = scan(chars, a, CharClass::Space);
    if b == chars.len() {
        return Err(MalformedLine::MissingAlias);
    }
    let mut aliases: Vec<String> = Vec::new();
    let mut pos: usize = b;
    loop
        invariant
            b <= pos <= chars.len(),
            aliases_from(chars@, b as int) == aliases.deep_view() + aliases_from(
                chars@,
                pos as int,
            ),
            aliases_end(chars@, b as int) == aliases_end(chars@, pos as int),
        ensures
            aliases_from(chars@, b as int) == aliases.deep_view(),
            aliases_end(chars@, b as int) == pos,
        decreases chars.len() - pos,
    {
        let end = scan(chars, pos, CharClass::Token);
        if end == pos {
            break;
        }
        aliases.push(string_from(chars, pos, end));
        pos = scan(chars, end, CharClass::Blank);
    }
    if pos != chars.len() {
        return Err(MalformedLine::BadSeparator);
    }
    Ok(Line::Domain { ip: string_from(chars, 0, a), aliases })
}

/// Parses one line as a comment: `Some` exactly when the line starts with `#`.
pub fn parse_comment(line: &str) -> (r: Option<Line>)
    ensures
        r.deep_view() == comment_of(line@),
{
    let chars = to_chars(line);
    comment_from_chars(&chars)
}

/// Parses one line as a mapping of an address to its aliases.
pub fn parse_domain(line: &str) -> (r: Result<Line, MalformedLine>)
    ensures
        match r {
            Ok(parsed) => domain_of(line@) == Ok::<LineView, MalformedLine>(parsed@),
            Err(e) => domain_of(line@) == Err::<LineView, MalformedLine>(e),
        },
{
    let chars = to_chars(line);
    domain_from_chars(&chars)
}

/// Parses the characters of one line.
fn line_from_chars(chars: &Vec<char>) -> (r: Result<Line, MalformedLine>)
    ensures
        match r {
            Ok(line) => line_of(chars@) == Ok::<LineView, MalformedLine>(line@),
            Err(e) => line_of(chars@) == Err::<LineView, MalformedLine>(e),
        },
{
    match comment_from_chars(chars) {
        Some(comment) => Ok(comment),
        None => domain_from_chars(chars),
    }
}

/// Parses one line of a hosts file. The line is taken as it stands: a line
/// feed in it is white space like any other.
pub fn parse_line(line: &str) -> (r: Result<Line, MalformedLine>)
    ensures
        match r {
            Ok(parsed) => line_of(line@) == Ok::<LineView, MalformedLine>(parsed@),
            Err(e) => line_of(line@) == Err::<LineView, MalformedLine>(e),
        },
{
    let chars = to_chars(line);
    line_from_chars(&chars)
}

/// Where the content of a line ends that starts at `from` and is terminated
/// at `end`: before the carriage returns that stand directly before `end`.
pub open spec fn content_end(s: Seq<char>, from: int, end: int) -> int
    decreases end - from,
{
    if from < end <= s.len() && s[end - 1] == '\r' {
        content_end(s, from, end - 1)
    } else {
        end
    }
}

/// The line of `s` that starts at `from` and is terminated at `end`, the
/// place of its line feed or the end of `s`. Carriage returns directly
/// before `end` belong to the terminator, not to the line.
pub open spec fn line_content(s: Seq<char>, from: int, end: int) -> Seq<char> {
    s.subrange(from, content_end(s, from, end))
}

/// The lines of `s` from `from` on.
pub open spec fn lines_from(s: Seq<char>, from: int) -> Seq<Seq<char>>
    decreases s.len() - from,
{
    if 0 <= from < s.len() {
        let end = run_end(s, from, CharClass::Inline);
        let line = line_content(s, from, end);
        if from <= end < s.len() {
            seq![line] + lines_from(s, end + 1)
        } else {
            seq![line]
        }
    } else {
        Seq::empty()
    }
}

/// The lines of a text. Each line feed ends a line; what follows the last
/// line feed is a line of its own unless it is empty.
pub open spec fn lines_of(s: Seq<char>) -> Seq<Seq<char>> {
    lines_from(s, 0)
}

/// Splits a text into its lines, without their terminators.
pub fn split_lines(text: &str) -> (lines: Vec<String>)
    ensures
        lines.deep_view() == lines_of(text@),
{
    let chars = to_chars(text);
    let mut lines: Vec<String> = Vec::new();
    let mut pos: usize = 0;
    while pos < chars.len()
        invariant
            pos <= chars.len(),
            lines_of(chars@) == lines.deep_view() + lines_from(chars@, pos as int),
        decreases chars.len() - pos,
    {
        let end = scan(&chars, pos, CharClass::Inline);
        let mut stop: usize = end;
        while pos < stop && chars[stop - 1] == '\r'
            invariant
                pos <= stop <= end <= chars.len(),
                content_end(chars@, pos as int, stop as int) == content_end(
                    chars@,
                    pos as int,
                    end as int,
                ),
            decreases stop,
        {
            stop -= 1;
        }
        lines.push(string_from(&chars, pos, stop));
        if end < chars.len() {
            assert(lines_from(chars@, pos as int) == seq![
                line_content(chars@, pos as int, end as int),
            ] + lines_from(chars@, end + 1));
            pos = end + 1;
        } else {
            pos = end;
        }
    }
    lines
}

/// The first line that does not parse, with its number and the reason.
#[derive(Debug, PartialEq, Eq, Clone, Copy, Structural)]
pub struct ParseError {
    /// The number of the line, counted from 1.
    pub line: usize,
    /// What is wrong with it.
    pub reason: MalformedLine,
}

/// Every line parses.
pub open spec fn all_parse(lines: Seq<Seq<char>>) -> bool {
    forall|i: int| 0 <= i < lines.len() ==> (#[trigger] line_of(lines[i])) is Ok
}

/// What the lines parse to, where every line parses.
pub open spec fn parsed(lines: Seq<Seq<char>>) -> Seq<LineView> {
    Seq::new(lines.len(), |i: int| line_of(lines[i])->Ok_0)
}

/// `e` names the first of the lines that does not parse, and why it does not.
pub open spec fn fails_at(lines: Seq<Seq<char>>, e: ParseError) -> bool {
    &&& 1 <= e.line <= lines.len()
    &&& line_of(lines[e.line - 1]) == Err::<LineView, MalformedLine>(e.reason)
    &&& forall|i: int| 0 <= i < e.line - 1 ==> (#[trigger] line_of(lines[i])) is Ok
}

/// Parses lines one by one and stops at the first that is malformed.
pub(crate) fn parse_each(raw: &Vec<String>) -> (r: Result<Lines, ParseError>)
    ensures
        match r {
            Ok(doc) => all_parse(raw.deep_view()) && doc.deep_view() == parsed(raw.deep_view()),
            Err(e) => fails_at(raw.deep_view(), e),
        },
{
    let mut doc: Vec<Line> = Vec::new();
    let mut i: usize = 0;
    while i < raw.len()
        invariant
            i <= raw.len(),
            doc.len() == i,
            forall|j: int| 0 <= j < i ==> line_of(#[trigger] raw.deep_view()[j]) == Ok::<
                LineView,
                MalformedLine,
            >(doc[j]@),
        decreases raw.len() - i,
    {
        match parse_line(raw[i].as_str()) {
            Ok(line) => {
                doc.push(line);
            },
            Err(reason) => {
                return Err(ParseError { line: i + 1, reason });
            },
        }
        i += 1;
    }
    Ok(doc)
}

/// Parses a whole hosts file: its lines in order, or the first line that is
/// malformed.
pub fn parse_lines(text: &str) -> (r: Result<Lines, ParseError>)
    ensures
        match r {
            Ok(doc) => all_parse(lines_of(text@)) && doc.deep_view() == parsed(lines_of(text@)),
            Err(e) => fails_at(lines_of(text@), e),
        },
{
    let raw = split_lines(text);
    parse_each(&raw)
}

} // verus!
