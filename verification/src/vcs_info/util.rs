//! The output of a command and the content of a file, cut into lines and
//! freed of the white space around it.

use crate::text::{split, split_str, to_chars, views};
use vstd::prelude::*;
use vstd::string::StrSliceExecFns;

verus! {

/// The character that ends a line.
pub const EOL: char = '\n';

/// The character is white space: a tab, a line feed, a vertical tab, a
/// form feed, a carriage return, a space, a next-line character, or one of
/// the spaces and separators beyond ASCII.
pub open spec fn is_whitespace(c: char) -> bool {
    let n: u32 = c as u32;
    ||| 0x9 <= n <= 0xd
    ||| n == 0x20
    ||| n == 0x85
    ||| n == 0xa0
    ||| n == 0x1680
    ||| 0x2000 <= n <= 0x200a
    ||| n == 0x2028
    ||| n == 0x2029
    ||| n == 0x202f
    ||| n == 0x205f
    ||| n == 0x3000
}

/// Every character of `s` is white space.
pub open spec fn is_blank(s: Seq<char>) -> bool {
    forall|i: int| 0 <= i < s.len() ==> is_whitespace(#[trigger] s[i])
}

/// `s` from its first character on that is no white space.
pub open spec fn trim_start_of(s: Seq<char>) -> Seq<char>
    decreases s.len(),
{
    if s.len() > 0 && is_whitespace(s[0]) {
        trim_start_of(s.skip(1))
    } else {
        s
    }
}

/// `s` up to its last character that is no white space.
pub open spec fn trim_end_of(s: Seq<char>) -> Seq<char>
    decreases s.len(),
{
    if s.len() > 0 && is_whitespace(s.last()) {
        trim_end_of(s.drop_last())
    } else {
        s
    }
}

/// `s` without the white space at its beginning and at its end.
pub open spec fn trimmed(s: Seq<char>) -> Seq<char> {
    trim_end_of(trim_start_of(s))
}

/// The lines of `s`: none where `s` holds nothing but white space, else
/// the pieces between its line ends.
pub open spec fn eol_lines(s: Seq<char>) -> Seq<Seq<char>> {
    if is_blank(s) {
        Seq::empty()
    } else {
        split(s, EOL)
    }
}

/// Whether the character is white space.
pub fn is_space(c: char) -> (space: bool)
    ensures
        space == is_whitespace(c),
{
    let n: u32 = c as u32;
    (0x9 <= n && n <= 0xd) || n == 0x20 || n == 0x85 || n == 0xa0 || n == 0x1680 || (0x2000 <= n
        && n <= 0x200a) || n == 0x2028 || n == 0x2029 || n == 0x202f || n == 0x205f || n
        == 0x3000
}

/// Whether `s` holds nothing but white space.
pub fn blank(s: &str) -> (all: bool)
    ensures
        all == is_blank(s@),
{
    let chars = to_chars(s);
    let mut i: usize = 0;
    while i < chars.len()
        invariant
            chars@ == s@,
            i <= chars.len(),
            forall|k: int| 0 <= k < i ==> is_whitespace(#[trigger] s@[k]),
        decreases chars.len() - i,
    {
        if !is_space(chars[i]) {
            return false;
        }
        i = i + 1;
    }
    true
}

/// `s` without the white space at its beginning and at its end.
pub fn trim(s: &str) -> (t: String)
    ensures
        t@ == trimmed(s@),
{
    let chars = to_chars(s);
    let n: usize = chars.len();
    let mut start: usize = 0;
    proof {
        assert(s@.skip(0) == s@);
    }
    while start < n && is_space(chars[start])
        invariant
            chars@ == s@,
            n == chars.len(),
            start <= n,
            trim_start_of(s@) == trim_start_of(s@.skip(start as int)),
        decreases n - start,
    {
        proof {
            assert(s@.skip(start as int)[0] == s@[start as int]);
            assert(s@.skip(start as int).skip(1) == s@.skip(start + 1));
        }
        start = start + 1;
    }
    proof {
        if start < n {
            assert(s@.skip(start as int)[0] == s@[start as int]);
        }
        assert(trim_start_of(s@) == s@.skip(start as int));
        assert(s@.skip(start as int) == s@.subrange(start as int, n as int));
    }
    let mut end: usize = n;
    while end > start && is_space(chars[end - 1])
        invariant
            chars@ == s@,
            n == chars.len(),
            start <= end <= n,
            trimmed(s@) == trim_end_of(s@.subrange(start as int, end as int)),
        decreases end,
    {
        proof {
            let piece = s@.subrange(start as int, end as int);
            assert(piece.last() == s@[end - 1]);
            assert(piece.drop_last() == s@.subrange(start as int, end - 1));
        }
        end = end - 1;
    }
    proof {
        let piece = s@.subrange(start as int, end as int);
        if end > start {
            assert(piece.last() == s@[end - 1]);
        }
    }
    s.substring_char(start, end).to_owned()
}

/// Text that can be cut into lines.
pub trait SplitEOL {
    /// The lines of this text.
    spec fn eol_split(&self) -> Seq<Seq<char>>;

    /// The lines of this text.
    fn split_eol(&self) -> (lines: Vec<String>)
        ensures
            views(lines@) == self.eol_split(),
    ;
}

impl SplitEOL for String {
    open spec fn eol_split(&self) -> Seq<Seq<char>> {
        eol_lines(self@)
    }

    fn split_eol(&self) -> (lines: Vec<String>) {
        if blank(self.as_str()) {
            let none: Vec<String> = Vec::new();
            proof {
                assert(views(none@) == Seq::<Seq<char>>::empty());
            }
            none
        } else {
            split_str(self.as_str(), EOL)
        }
    }
}

/// Why a command gave no result.
#[derive(Debug, Clone, Copy, PartialEq, Eq, Structural)]
pub enum ProcessError {
    /// The process was ended by a signal and left no exit code.
    Signalled,
}

/// What a finished command gave: what it wrote to its output and to its
/// error stream, and its exit code. A command that a signal ended has no
/// exit code and gives an error.
pub fn communicate(stdout: String, stderr: String, code: Option<i32>) -> (r: Result<
    (String, String, i32),
    ProcessError,
>)
    ensures
        match code {
            Some(status) => r == Ok::<(String, String, i32), ProcessError>(
                (stdout, stderr, status),
            ),
            None => r == Err::<(String, String, i32), ProcessError>(ProcessError::Signalled),
        },
{
    match code {
        Some(status) => Ok((stdout, stderr, status)),
        None => Err(ProcessError::Signalled),
    }
}

/// The lines that a command wrote to its output, where it gave any
/// result; else its error.
pub fn get_lines<E>(output: Result<(String, String, i32), E>) -> (r: Result<Vec<String>, E>)
    ensures
        match output {
            Ok(out) => r matches Ok(lines) && views(lines@) == eol_lines(out.0@),
            Err(e) => r == Err::<Vec<String>, E>(e),
        },
{
    match output {
        Ok(out) => Ok(out.0.split_eol()),
        Err(e) => Err(e),
    }
}

/// What was read from a file, without the white space around it, where
/// anything was read; else the error.
pub fn read_content<E>(content: Result<String, E>) -> (r: Result<String, E>)
    ensures
        match content {
            Ok(text) => r matches Ok(t) && t@ == trimmed(text@),
            Err(e) => r == Err::<String, E>(e),
        },
{
    match content {
        Ok(text) => Ok(trim(text.as_str())),
        Err(e) => Err(e),
    }
}

} // verus!
