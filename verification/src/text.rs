//! Strings as sequences of characters: splitting, joining, prefixes and
//! suffixes.

use vstd::prelude::*;
use vstd::string::StrSliceExecFns;
use vstd::string::StringExecFns;

verus! {

/// The separator between the segments of a path and of a short token.
pub const SEPARATOR: char = '/';

/// The views of a sequence of strings.
pub open spec fn views(v: Seq<String>) -> Seq<Seq<char>> {
    v.map_values(|s: String| s@)
}

/// The pieces of `s` between the occurrences of `sep`, in order. There is
/// always at least one piece; a piece is empty where two separators touch or
/// where `s` begins or ends with one.
pub open spec fn split(s: Seq<char>, sep: char) -> Seq<Seq<char>>
    decreases s.len(),
{
    if s.len() == 0 {
        seq![Seq::<char>::empty()]
    } else {
        let before = split(s.drop_last(), sep);
        if s.last() == sep {
            before.push(Seq::<char>::empty())
        } else {
            before.drop_last().push(before.last().push(s.last()))
        }
    }
}

/// The pieces put together again, with `sep` between neighbours.
pub open spec fn join(parts: Seq<Seq<char>>, sep: Seq<char>) -> Seq<char>
    decreases parts.len(),
{
    if parts.len() == 0 {
        Seq::<char>::empty()
    } else if parts.len() == 1 {
        parts[0]
    } else {
        join(parts.drop_last(), sep) + sep + parts.last()
    }
}

/// `s` begins with `prefix`.
pub open spec fn starts_with(s: Seq<char>, prefix: Seq<char>) -> bool {
    prefix.len() <= s.len() && s.subrange(0, prefix.len() as int) == prefix
}

/// `s` ends with `suffix`.
pub open spec fn ends_with(s: Seq<char>, suffix: Seq<char>) -> bool {
    suffix.len() <= s.len() && s.subrange(s.len() - suffix.len(), s.len() as int) == suffix
}

/// `needle` occurs in `s` as a run of neighbouring characters.
pub open spec fn contains(s: Seq<char>, needle: Seq<char>) -> bool {
    exists|i: int| occurs_at(s, needle, i)
}

/// `needle` occurs in `s` at index `i`.
pub open spec fn occurs_at(s: Seq<char>, needle: Seq<char>, i: int) -> bool {
    0 <= i && i + needle.len() <= s.len() && s.subrange(i, i + needle.len()) == needle
}

/// `s` without every trailing repetition of `suffix`.
pub open spec fn trim_suffix(s: Seq<char>, suffix: Seq<char>) -> Seq<char>
    decreases s.len(),
{
    if suffix.len() > 0 && ends_with(s, suffix) {
        trim_suffix(s.subrange(0, s.len() - suffix.len()), suffix)
    } else {
        s
    }
}

/// Splitting always yields at least one piece.
pub proof fn lemma_split_len(s: Seq<char>, sep: char)
    ensures
        split(s, sep).len() >= 1,
    decreases s.len(),
{
    if s.len() > 0 {
        lemma_split_len(s.drop_last(), sep);
    }
}

/// Appending text without a separator lengthens the last piece and leaves
/// the others as they are.
pub proof fn lemma_split_append(s: Seq<char>, t: Seq<char>, sep: char)
    requires
        !t.contains(sep),
    ensures
        split(s + t, sep) == split(s, sep).drop_last().push(split(s, sep).last() + t),
    decreases t.len(),
{
    lemma_split_len(s, sep);
    let pieces = split(s, sep);
    if t.len() == 0 {
        assert(s + t == s);
        assert(pieces.last() + t == pieces.last());
        assert(pieces.drop_last().push(pieces.last()) == pieces);
    } else {
        let shorter = t.drop_last();
        assert(t.contains(t.last()));
        assert forall|c: char| shorter.contains(c) implies t.contains(c) by {
            let i = choose|i: int| 0 <= i < shorter.len() && shorter[i] == c;
            assert(t[i] == c);
        }
        lemma_split_append(s, shorter, sep);
        assert((s + t).drop_last() == s + shorter);
        assert((s + t).last() == t.last());
        assert((pieces.last() + shorter).push(t.last()) == pieces.last() + t);
        let before = split(s + shorter, sep);
        assert(before.drop_last() == pieces.drop_last());
    }
}

/// Text without a separator is one piece.
pub proof fn lemma_split_plain(s: Seq<char>, sep: char)
    requires
        !s.contains(sep),
    ensures
        split(s, sep) == seq![s],
{
    let nothing = Seq::<char>::empty();
    lemma_split_append(nothing, s, sep);
    assert(nothing + s == s);
    assert(split(nothing, sep).drop_last().push(nothing + s) == seq![s]);
}

/// The pieces of two texts joined by a separator are the pieces of the
/// first followed by the pieces of the second.
pub proof fn lemma_split_concat(a: Seq<char>, b: Seq<char>, sep: char)
    ensures
        split(a + seq![sep] + b, sep) == split(a, sep) + split(b, sep),
    decreases b.len(),
{
    let whole = a + seq![sep] + b;
    lemma_split_len(a, sep);
    if b.len() == 0 {
        assert(whole.drop_last() == a);
        assert(whole.last() == sep);
        assert(split(a, sep) + split(b, sep) == split(a, sep).push(Seq::<char>::empty()));
    } else {
        let shorter = b.drop_last();
        lemma_split_concat(a, shorter, sep);
        lemma_split_len(shorter, sep);
        assert(whole.drop_last() == a + seq![sep] + shorter);
        assert(whole.last() == b.last());
        let before = split(a, sep) + split(shorter, sep);
        if b.last() == sep {
            assert(before.push(Seq::<char>::empty()) == split(a, sep) + split(b, sep));
        } else {
            assert(before.drop_last() == split(a, sep) + split(shorter, sep).drop_last());
            assert(before.last() == split(shorter, sep).last());
            assert(before.drop_last().push(before.last().push(b.last())) == split(a, sep)
                + split(b, sep));
        }
    }
}

/// Joining the pieces of a text gives the text back.
pub proof fn lemma_join_split(s: Seq<char>, sep: char)
    ensures
        join(split(s, sep), seq![sep]) == s,
    decreases s.len(),
{
    if s.len() > 0 {
        let before = split(s.drop_last(), sep);
        lemma_join_split(s.drop_last(), sep);
        lemma_split_len(s.drop_last(), sep);
        assert(s.drop_last().push(s.last()) == s);
        if s.last() == sep {
            let pieces = before.push(Seq::<char>::empty());
            assert(pieces.drop_last() == before);
            assert(join(before, seq![sep]) + seq![sep] + Seq::<char>::empty() == s);
        } else {
            let grown = before.last().push(s.last());
            let pieces = before.drop_last().push(grown);
            if before.len() == 1 {
                assert(pieces[0] == s);
            } else {
                assert(pieces.drop_last() == before.drop_last());
                assert(join(before.drop_last(), seq![sep]) + seq![sep] + grown == (join(
                    before.drop_last(),
                    seq![sep],
                ) + seq![sep] + before.last()).push(s.last()));
            }
        }
    }
}

/// No piece holds a separator.
pub proof fn lemma_pieces_plain(s: Seq<char>, sep: char)
    ensures
        forall|i: int| 0 <= i < split(s, sep).len() ==> !(#[trigger] split(s, sep)[i]).contains(sep),
    decreases s.len(),
{
    if s.len() > 0 {
        lemma_pieces_plain(s.drop_last(), sep);
        lemma_split_len(s.drop_last(), sep);
    }
}

/// Splitting what was joined from pieces without a separator gives the
/// pieces back.
pub proof fn lemma_split_join(parts: Seq<Seq<char>>, sep: char)
    requires
        parts.len() >= 1,
        forall|i: int| 0 <= i < parts.len() ==> !(#[trigger] parts[i]).contains(sep),
    ensures
        split(join(parts, seq![sep]), sep) == parts,
    decreases parts.len(),
{
    if parts.len() == 1 {
        lemma_split_plain(parts[0], sep);
    } else {
        let front = parts.drop_last();
        lemma_split_join(front, sep);
        lemma_split_concat(join(front, seq![sep]), parts.last(), sep);
        lemma_split_plain(parts.last(), sep);
        assert(front + seq![parts.last()] == parts);
    }
}

/// A joined text ends with its last piece.
pub proof fn lemma_join_ends_with_last(parts: Seq<Seq<char>>, sep: Seq<char>)
    requires
        parts.len() >= 1,
    ensures
        ends_with(join(parts, sep), parts.last()),
{
    let whole = join(parts, sep);
    let last = parts.last();
    if parts.len() == 1 {
        assert(whole.subrange(0, whole.len() as int) == whole);
    } else {
        assert(whole.subrange(whole.len() - last.len(), whole.len() as int) == last);
    }
}

/// What `trim_suffix` returns does not end with the suffix.
pub proof fn lemma_trim_suffix_done(s: Seq<char>, suffix: Seq<char>)
    requires
        suffix.len() > 0,
    ensures
        !ends_with(trim_suffix(s, suffix), suffix),
    decreases s.len(),
{
    if ends_with(s, suffix) {
        lemma_trim_suffix_done(s.subrange(0, s.len() - suffix.len()), suffix);
    }
}

/// One more repetition of the suffix is trimmed with the others.
pub proof fn lemma_trim_suffix_appended(s: Seq<char>, suffix: Seq<char>)
    requires
        suffix.len() > 0,
    ensures
        trim_suffix(s + suffix, suffix) == trim_suffix(s, suffix),
{
    let longer = s + suffix;
    assert(longer.subrange(longer.len() - suffix.len(), longer.len() as int) == suffix);
    assert(longer.subrange(0, longer.len() - suffix.len()) == s);
}

/// What `trim_suffix` returns is the beginning of the text.
pub proof fn lemma_trim_suffix_prefix(s: Seq<char>, suffix: Seq<char>)
    ensures
        starts_with(s, trim_suffix(s, suffix)),
    decreases s.len(),
{
    if suffix.len() > 0 && ends_with(s, suffix) {
        let shorter = s.subrange(0, s.len() - suffix.len());
        lemma_trim_suffix_prefix(shorter, suffix);
        let trimmed = trim_suffix(shorter, suffix);
        assert(s.subrange(0, trimmed.len() as int) == shorter.subrange(0, trimmed.len() as int));
    } else {
        assert(s.subrange(0, s.len() as int) == s);
    }
}

/// The separator as text is the one separator character.
pub proof fn lemma_separator()
    ensures
        "/"@ == seq![SEPARATOR],
{
    reveal_strlit("/");
    assert("/"@ =~= seq![SEPARATOR]);
}

/// The characters of a string slice, one by one.
pub fn to_chars(s: &str) -> (chars: Vec<char>)
    ensures
        chars@ == s@,
{
    broadcast use vstd::string::group_string_axioms;

    let mut chars: Vec<char> = Vec::new();
    for c in it: s.chars()
        invariant
            it.seq() == s@,
            chars@ == it.seq().take(it.index()),
    {
        chars.push(c);
    }
    chars
}

/// Splits `s` at every `sep`.
pub fn split_str(s: &str, sep: char) -> (parts: Vec<String>)
    ensures
        views(parts@) == split(s@, sep),
{
    let chars = to_chars(s);
    let n: usize = chars.len();
    let mut parts: Vec<String> = Vec::new();
    let mut start: usize = 0;
    let mut i: usize = 0;
    proof {
        assert(s@.subrange(0, 0) == Seq::<char>::empty());
        assert(views(parts@).push(s@.subrange(0, 0)) == seq![Seq::<char>::empty()]);
    }
    while i < n
        invariant
            chars@ == s@,
            n == chars@.len(),
            start <= i <= n,
            views(parts@).push(s@.subrange(start as int, i as int)) == split(
                s@.subrange(0, i as int),
                sep,
            ),
        decreases n - i,
    {
        proof {
            let head = s@.subrange(0, i as int);
            let next = s@.subrange(0, i + 1);
            assert(next.drop_last() == head);
            assert(next.last() == s@[i as int]);
            lemma_split_len(head, sep);
        }
        if chars[i] == sep {
            let piece = s.substring_char(start, i).to_owned();
            proof {
                assert(views(parts@.push(piece)) == views(parts@).push(piece@));
            }
            parts.push(piece);
            start = i + 1;
            proof {
                assert(s@.subrange(start as int, i + 1) == Seq::<char>::empty());
            }
        } else {
            proof {
                assert(s@.subrange(start as int, i + 1) == s@.subrange(start as int, i as int).push(
                    s@[i as int],
                ));
                let before = split(s@.subrange(0, i as int), sep);
                assert(before.drop_last() == views(parts@));
            }
        }
        i = i + 1;
    }
    let piece = s.substring_char(start, n).to_owned();
    proof {
        assert(views(parts@.push(piece)) == views(parts@).push(piece@));
        assert(s@.subrange(0, n as int) == s@);
    }
    parts.push(piece);
    parts
}

/// Whether `needle` stands in `hay` at index `at`.
pub fn matches_at(hay: &Vec<char>, needle: &Vec<char>, at: usize) -> (found: bool)
    ensures
        found == occurs_at(hay@, needle@, at as int),
{
    let m: usize = needle.len();
    if m > hay.len() || at > hay.len() - m {
        return false;
    }
    let mut j: usize = 0;
    while j < m
        invariant
            m == needle.len(),
            at + m <= hay.len(),
            j <= m,
            forall|k: int| 0 <= k < j ==> hay@[at + k] == needle@[k],
        decreases m - j,
    {
        if hay[at + j] != needle[j] {
            proof {
                assert(hay@.subrange(at as int, at + m)[j as int] == hay@[at + j]);
            }
            return false;
        }
        j = j + 1;
    }
    proof {
        assert(hay@.subrange(at as int, at + m) =~= needle@);
    }
    true
}

/// Whether two string slices hold the same characters.
pub fn same(a: &str, b: &str) -> (equal: bool)
    ensures
        equal == (a@ == b@),
{
    let x = to_chars(a);
    let y = to_chars(b);
    if x.len() != y.len() {
        return false;
    }
    let found = matches_at(&x, &y, 0);
    proof {
        assert(x@.subrange(0, x@.len() as int) == x@);
    }
    found
}

/// Whether `s` begins with `prefix`.
pub fn has_prefix(s: &str, prefix: &str) -> (found: bool)
    ensures
        found == starts_with(s@, prefix@),
{
    let hay = to_chars(s);
    let needle = to_chars(prefix);
    matches_at(&hay, &needle, 0)
}

/// Whether `s` ends with `suffix`.
pub fn has_suffix(s: &str, suffix: &str) -> (found: bool)
    ensures
        found == ends_with(s@, suffix@),
{
    let hay = to_chars(s);
    let needle = to_chars(suffix);
    if needle.len() > hay.len() {
        return false;
    }
    matches_at(&hay, &needle, hay.len() - needle.len())
}

/// Whether `needle` occurs somewhere in `s`.
pub fn has_substring(s: &str, needle: &str) -> (found: bool)
    ensures
        found == contains(s@, needle@),
{
    let hay = to_chars(s);
    let pat = to_chars(needle);
    if pat.len() > hay.len() {
        return false;
    }
    let last: usize = hay.len() - pat.len();
    let mut i: usize = 0;
    loop
        invariant
            hay@ == s@,
            pat@ == needle@,
            last + pat.len() == hay.len(),
            i <= last,
            forall|k: int| 0 <= k < i ==> !occurs_at(s@, needle@, k),
        decreases last - i,
    {
        if matches_at(&hay, &pat, i) {
            return true;
        }
        if i == last {
            return false;
        }
        i = i + 1;
    }
}

/// `s` without every trailing repetition of `suffix`.
pub fn without_suffix(s: &str, suffix: &str) -> (trimmed: String)
    ensures
        trimmed@ == trim_suffix(s@, suffix@),
{
    let hay = to_chars(s);
    let needle = to_chars(suffix);
    let m: usize = needle.len();
    let mut end: usize = hay.len();
    proof {
        assert(s@.subrange(0, end as int) == s@);
    }
    while m > 0 && end >= m && matches_at(&hay, &needle, end - m)
        invariant
            hay@ == s@,
            needle@ == suffix@,
            m == needle@.len(),
            end <= hay@.len(),
            trim_suffix(s@, suffix@) == trim_suffix(s@.subrange(0, end as int), suffix@),
        decreases end,
    {
        proof {
            let head = s@.subrange(0, end as int);
            assert(head.subrange(end - m, end as int) == s@.subrange(end - m, end as int));
            assert(head.subrange(0, end - m) == s@.subrange(0, end - m));
        }
        end = end - m;
    }
    proof {
        let head = s@.subrange(0, end as int);
        if m > 0 && end >= m {
            assert(head.subrange(end - m, end as int) == s@.subrange(end - m, end as int));
        }
    }
    s.substring_char(0, end).to_owned()
}

/// Puts `parts` together with `sep` between neighbours.
pub fn join_strs(parts: &Vec<String>, sep: &str) -> (joined: String)
    ensures
        joined@ == join(views(parts@), sep@),
{
    let mut joined = String::new();
    let mut i: usize = 0;
    while i < parts.len()
        invariant
            i <= parts.len(),
            joined@ == join(views(parts@).subrange(0, i as int), sep@),
        decreases parts.len() - i,
    {
        proof {
            let next = views(parts@).subrange(0, i + 1);
            assert(next.drop_last() == views(parts@).subrange(0, i as int));
            assert(next.last() == parts@[i as int]@);
        }
        if i > 0 {
            joined.append(sep);
        }
        joined.append(parts[i].as_str());
        i = i + 1;
    }
    proof {
        assert(views(parts@).subrange(0, parts@.len() as int) == views(parts@));
    }
    joined
}

/// Whether the character `c` occurs in `s`.
pub fn has_char(s: &str, c: char) -> (found: bool)
    ensures
        found == s@.contains(c),
{
    let chars = to_chars(s);
    let mut i: usize = 0;
    while i < chars.len()
        invariant
            chars@ == s@,
            i <= chars.len(),
            forall|k: int| 0 <= k < i ==> s@[k] != c,
        decreases chars.len() - i,
    {
        if chars[i] == c {
            return true;
        }
        i = i + 1;
    }
    false
}

/// `s` from its character at index `from` on.
pub fn tail(s: &str, from: usize) -> (rest: String)
    requires
        from <= s@.len(),
    ensures
        rest@ == s@.skip(from as int),
{
    let n: usize = s.unicode_len();
    s.substring_char(from, n).to_owned()
}

} // verus!
