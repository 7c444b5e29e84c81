//! Character classes of the hosts-file grammar, and the small text helpers
//! that the rest of the library builds on.

use vstd::prelude::*;

verus! {

/// The classes of characters that the line grammar tells apart.
#[derive(Clone, Copy, Debug, PartialEq, Eq, Structural)]
pub enum CharClass {
    /// A decimal digit or a dot: the characters of an IPv4-shaped address.
    V4,
    /// A hexadecimal digit or a colon: the characters of an IPv6-shaped address.
    V6,
    /// White space in the sense of Unicode's `White_Space` property.
    Space,
    /// A space or a tab: what may separate two aliases.
    Blank,
    /// Anything but white space: the characters of an alias.
    Token,
    /// Anything but a line feed: the characters of a line.
    Inline,
}

/// A decimal digit or a dot.
pub open spec fn is_v4_char(c: char) -> bool {
    ('0' <= c && c <= '9') || c == '.'
}

/// A hexadecimal digit, in either case, or a colon.
pub open spec fn is_v6_char(c: char) -> bool {
    ('0' <= c && c <= '9') || ('a' <= c && c <= 'f') || ('A' <= c && c <= 'F') || c == ':'
}

/// The code points that carry Unicode's `White_Space` property.
pub open spec fn is_space(c: char) -> bool {
    let n = c as u32;
    (0x09 <= n && n <= 0x0D) || n == 0x20 || n == 0x85 || n == 0xA0 || n == 0x1680
        || (0x2000 <= n && n <= 0x200A) || n == 0x2028 || n == 0x2029 || n == 0x202F
        || n == 0x205F || n == 0x3000
}

/// A space or a horizontal tab.
pub open spec fn is_blank(c: char) -> bool {
    c == ' ' || c == '\t'
}

/// Membership of `c` in `class`.
pub open spec fn in_class(c: char, class: CharClass) -> bool {
    match class {
        CharClass::V4 => is_v4_char(c),
        CharClass::V6 => is_v6_char(c),
        CharClass::Space => is_space(c),
        CharClass::Blank => is_blank(c),
        CharClass::Token => !is_space(c),
        CharClass::Inline => c != '\n',
    }
}

/// Tells whether `c` is white space.
pub fn space(c: char) -> (r: bool)
    ensures
        r == is_space(c),
{
    let n: u32 = c as u32;
    (0x09 <= n && n <= 0x0D) || n == 0x20 || n == 0x85 || n == 0xA0 || n == 0x1680
        || (0x2000 <= n && n <= 0x200A) || n == 0x2028 || n == 0x2029 || n == 0x202F
        || n == 0x205F || n == 0x3000
}

/// Tells whether `c` belongs to `class`.
pub fn belongs(c: char, class: CharClass) -> (r: bool)
    ensures
        r == in_class(c, class),
{
    match class {
        CharClass::V4 => ('0' <= c && c <= '9') || c == '.',
        CharClass::V6 => ('0' <= c && c <= '9') || ('a' <= c && c <= 'f') || ('A' <= c && c <= 'F')
            || c == ':',
        CharClass::Space => space(c),
        CharClass::Blank => c == ' ' || c == '\t',
        CharClass::Token => !space(c),
        CharClass::Inline => c != '\n',
    }
}

/// `String::push` appends one character to the string and changes nothing else.
pub assume_specification[ String::push ](s: &mut String, c: char)
    ensures
        final(s)@ == old(s)@.push(c),
;

/// Collects the characters of `s`.
pub fn to_chars(s: &str) -> (v: Vec<char>)
    ensures
        v@ == s@,
{
    let mut v: Vec<char> = Vec::new();
    for c in it: s.chars()
        invariant
            v@ == it.seq().take(it.index()),
    {
        v.push(c);
    }
    v
}

/// Appends the characters `chars[from..to]` to `out`.
pub(crate) fn push_chars(out: &mut String, chars: &Vec<char>, from: usize, to: usize)
    requires
        from <= to <= chars.len(),
    ensures
        final(out)@ == old(out)@ + chars@.subrange(from as int, to as int),
{
    let mut i: usize = from;
    while i < to
        invariant
            from <= i <= to <= chars.len(),
            out@ == old(out)@ + chars@.subrange(from as int, i as int),
        decreases to - i,
    {
        out.push(chars[i]);
        i += 1;
    }
}

/// The text `chars[from..to]` as a string of its own.
pub(crate) fn string_from(chars: &Vec<char>, from: usize, to: usize) -> (s: String)
    requires
        from <= to <= chars.len(),
    ensures
        s@ == chars@.subrange(from as int, to as int),
{
    let mut s = String::new();
    push_chars(&mut s, chars, from, to);
    s
}

} // verus!
