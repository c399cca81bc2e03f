//! Dictionary files: one token per line, between double quotes.

use vstd::prelude::*;
use vstd::string::StrSliceExecFns;

verus! {

/// The bytes that an item of a dictionary file stands for once its escapes
/// are resolved, or `None` where an escape is malformed.
pub uninterp spec fn decoded(item: Seq<char>) -> Option<Seq<u8>>;

/// A line with the white space at both ends taken off.
pub uninterp spec fn trimmed(line: Seq<char>) -> Seq<char>;

/// `str_decode` of libafl: resolves the escapes of a dictionary item, `\\`,
/// `\"` and `\x` with two hexadecimal digits. An error of libafl becomes
/// `None`.
#[verifier::external_body]
fn decode_item(item: &str) -> (bytes: Option<Vec<u8>>)
    ensures
        match decoded(item@) {
            Some(v) => bytes matches Some(b) && b@ == v,
            None => bytes.is_none(),
        },
{
    libafl::mutators::str_decode(item).ok()
}

/// `str::trim` of the standard library.
#[verifier::external_body]
fn trim(line: &str) -> (short: &str)
    ensures
        short@ == trimmed(line@),
{
    line.trim()
}

/// What a line of a dictionary file holds.
#[derive(Debug, PartialEq, Eq)]
pub enum TokenLine {
    /// Nothing: the line is empty, a comment, or names an empty item.
    Skip,
    /// A token.
    Token(Vec<u8>),
    /// The line is malformed.
    Illegal,
}

/// What a line of a dictionary file holds, as plain values.
pub enum LineModel {
    Skip,
    Token(Seq<u8>),
    Illegal,
}

/// The position of the first `c` in `t` from `i` on, or the length of `t` if
/// there is none.
pub open spec fn find_from(t: Seq<char>, c: char, i: int) -> int
    decreases t.len() - i,
{
    if i < 0 || i >= t.len() {
        t.len() as int
    } else if t[i] == c {
        i
    } else {
        find_from(t, c, i + 1)
    }
}

/// What a trimmed line holds. An empty line and one that starts with `#` are
/// skipped. Any other line must end in a double quote; the item is what
/// stands between the first double quote and that last one, and a line with
/// one double quote only is malformed. An empty item is skipped; any other
/// is decoded.
pub open spec fn line_model(t: Seq<char>) -> LineModel {
    if t.len() == 0 || t[0] == '#' {
        LineModel::Skip
    } else if t.last() != '"' {
        LineModel::Illegal
    } else {
        let open = find_from(t, '"', 0);
        if open >= t.len() - 1 {
            LineModel::Illegal
        } else if open + 1 == t.len() - 1 {
            LineModel::Skip
        } else {
            match decoded(t.subrange(open + 1, t.len() - 1)) {
                Some(v) => LineModel::Token(v),
                None => LineModel::Illegal,
            }
        }
    }
}

impl View for TokenLine {
    type V = LineModel;

    open spec fn view(&self) -> LineModel {
        match self {
            TokenLine::Skip => LineModel::Skip,
            TokenLine::Token(v) => LineModel::Token(v@),
            TokenLine::Illegal => LineModel::Illegal,
        }
    }
}

/// Reads one line of a dictionary file: the white space at its ends is
/// taken off, and the rest is read as `parse_trimmed_line` reads it.
pub fn parse_token_line(line: &str) -> (parsed: TokenLine)
    ensures
        parsed@ == line_model(trimmed(line@)),
{
    parse_trimmed_line(trim(line))
}

/// Reads one line of a dictionary file that has no white space at its ends.
pub fn parse_trimmed_line(t: &str) -> (parsed: TokenLine)
    ensures
        parsed@ == line_model(t@),
{
    let n: usize = t.unicode_len();
    if n == 0 || t.get_char(0) == '#' {
        return TokenLine::Skip;
    }
    if t.get_char(n - 1) != '"' {
        return TokenLine::Illegal;
    }
    let mut open: usize = 0;
    while open < n && t.get_char(open) != '"'
        invariant
            open <= n,
            n == t@.len(),
            find_from(t@, '"', 0) == find_from(t@, '"', open as int),
        decreases n - open,
    {
        open = open + 1;
    }
    if open >= n - 1 {
        return TokenLine::Illegal;
    }
    if open + 1 == n - 1 {
        return TokenLine::Skip;
    }
    let item: &str = t.substring_char(open + 1, n - 1);
    match decode_item(item) {
        Some(v) => TokenLine::Token(v),
        None => TokenLine::Illegal,
    }
}

/// The tokens of the first `n` lines in order, or the number of the first
/// malformed line among them, counted from 0.
pub open spec fn tokens_of(lines: Seq<String>, n: int) -> Result<Seq<Seq<u8>>, usize>
    decreases n,
{
    if n <= 0 {
        Ok(Seq::empty())
    } else {
        match tokens_of(lines, n - 1) {
            Err(at) => Err(at),
            Ok(before) => match line_model(trimmed(lines[n - 1]@)) {
                LineModel::Skip => Ok(before),
                LineModel::Token(v) => Ok(before.push(v)),
                LineModel::Illegal => Err((n - 1) as usize),
            },
        }
    }
}

/// The byte strings of `tokens` as sequences.
pub open spec fn contents(tokens: Seq<Vec<u8>>) -> Seq<Seq<u8>> {
    Seq::new(tokens.len(), |i: int| tokens[i]@)
}

/// Reads the lines of a dictionary file: the tokens in the order of their
/// lines, or the number of the first malformed line.
pub fn parse_dictionary(lines: &Vec<String>) -> (parsed: Result<Vec<Vec<u8>>, usize>)
    ensures
        match tokens_of(lines@, lines@.len() as int) {
            Ok(tokens) => parsed matches Ok(found) && contents(found@) == tokens,
            Err(at) => parsed == Err::<Vec<Vec<u8>>, usize>(at),
        },
{
    let mut found: Vec<Vec<u8>> = Vec::new();
    let mut i: usize = 0;
    assert(contents(found@) =~= Seq::<Seq<u8>>::empty());
    while i < lines.len()
        invariant
            i <= lines@.len(),
            tokens_of(lines@, i as int) == Ok::<Seq<Seq<u8>>, usize>(contents(found@)),
        decreases lines@.len() - i,
    {
        let ghost before = contents(found@);
        match parse_token_line(lines[i].as_str()) {
            TokenLine::Skip => {},
            TokenLine::Token(v) => {
                found.push(v);
                assert(contents(found@) =~= before.push(v@));
            },
            TokenLine::Illegal => {
                proof {
                    lemma_error_stays(lines@, i as int + 1, lines@.len() as int);
                }
                return Err(i);
            },
        }
        i = i + 1;
    }
    Ok(found)
}

/// Once a line is malformed, reading on does not change the result.
proof fn lemma_error_stays(lines: Seq<String>, n: int, m: int)
    requires
        0 <= n <= m,
        tokens_of(lines, n).is_err(),
    ensures
        tokens_of(lines, m) == tokens_of(lines, n),
    decreases m - n,
{
    if n < m {
        lemma_error_stays(lines, n, m - 1);
    }
}

} // verus!
