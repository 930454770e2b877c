//! The line classifier: tags every line of a file as blank, code or comment,
//! carrying one bit of state across lines — whether the scan is inside a
//! triple-quote block comment.
//!
//! A line is blank only when it is completely empty. A line whose first
//! non-blank character is `#`, or that is a one-line `"""..."""` block, is a
//! comment. A line that opens a triple-quote block is a comment, and so is
//! every following line up to and including the one that ends with the
//! closing `"""`. Anything else — including a non-empty line of nothing but
//! spaces — is code.

use crate::count::{tally_nonneg, tally_zero, Count, Tally};
use vstd::prelude::*;

verus! {

/// Classification of one line. `CommentMulti` is the comment state that
/// persists across lines: the scan is inside a triple-quote block.
#[derive(Debug, Clone, Copy, PartialEq, Eq, Structural)]
pub enum LineType {
    Blank,
    Code,
    Comment,
    CommentMulti,
}

/// The characters accepted as leading blanks before a comment marker: the
/// Unicode white-space characters.
pub open spec fn is_space_char(c: char) -> bool {
    let u = c as u32;
    (0x09 <= u && u <= 0x0D) || u == 0x20 || u == 0x85 || u == 0xA0 || u == 0x1680 || (0x2000 <= u
        && u <= 0x200A) || u == 0x2028 || u == 0x2029 || u == 0x202F || u == 0x205F || u == 0x3000
}

/// Every character of `s` before position `n` is white space.
pub open spec fn all_spaces_before(s: Seq<char>, n: int) -> bool {
    forall|k: int| 0 <= k < n ==> is_space_char(#[trigger] s[k])
}

/// Position `n` holds a `#` and only blanks stand before it.
pub open spec fn hash_at(s: Seq<char>, n: int) -> bool {
    0 <= n < s.len() && s[n] == '#' && all_spaces_before(s, n)
}

/// The line starts with optional blanks and then a `#`.
pub open spec fn hash_comment(s: Seq<char>) -> bool {
    exists|n: int| hash_at(s, n)
}

/// Positions `n`, `n + 1` and `n + 2` hold `"` characters.
pub open spec fn triple_quote_at(s: Seq<char>, n: int) -> bool {
    0 <= n && n + 3 <= s.len() && s[n] == '"' && s[n + 1] == '"' && s[n + 2] == '"'
}

/// A `"""` stands at position `n` with only blanks before it.
pub open spec fn triple_quote_open_at(s: Seq<char>, n: int) -> bool {
    triple_quote_at(s, n) && all_spaces_before(s, n)
}

/// The line starts with optional blanks and then a `"""`.
pub open spec fn opens_triple_quote(s: Seq<char>) -> bool {
    exists|n: int| triple_quote_open_at(s, n)
}

/// The line ends with a `"""`.
pub open spec fn closes_triple_quote(s: Seq<char>) -> bool {
    s.len() >= 3 && triple_quote_at(s, s.len() - 3)
}

/// A one-line block comment: a `"""` after optional blanks, at least three
/// further characters, and a closing `"""` at the very end. Such a line never
/// opens a persistent block.
pub open spec fn self_contained_triple_quote(s: Seq<char>) -> bool {
    closes_triple_quote(s) && exists|n: int| triple_quote_open_at(s, n) && n + 6 <= s.len()
}

/// The classification of one line, given the state left by the previous line.
/// Inside a block comment only the closing test applies; elsewhere the checks
/// run in priority order: empty, `#` comment or one-line block, block opener,
/// code.
pub open spec fn classify(prev: LineType, s: Seq<char>) -> LineType {
    match prev {
        LineType::CommentMulti => if closes_triple_quote(s) {
            LineType::Comment
        } else {
            LineType::CommentMulti
        },
        _ => {
            if s.len() == 0 {
                LineType::Blank
            } else if hash_comment(s) || self_contained_triple_quote(s) {
                LineType::Comment
            } else if opens_triple_quote(s) {
                LineType::CommentMulti
            } else {
                LineType::Code
            }
        },
    }
}

/// The bucket a classified line falls into: both comment states count as
/// comment lines.
pub open spec fn tally_line(t: Tally, ty: LineType) -> Tally {
    match ty {
        LineType::Blank => Tally { code: t.code, comment: t.comment, blank: t.blank + 1 },
        LineType::Code => Tally { code: t.code + 1, comment: t.comment, blank: t.blank },
        LineType::Comment => Tally { code: t.code, comment: t.comment + 1, blank: t.blank },
        LineType::CommentMulti => Tally { code: t.code, comment: t.comment + 1, blank: t.blank },
    }
}

/// The tally of a run of lines classified in order, starting from `state`.
pub open spec fn count_from(state: LineType, lines: Seq<Seq<char>>) -> Tally
    decreases lines.len(),
{
    if lines.len() == 0 {
        tally_zero()
    } else {
        let st = classify(state, lines[0]);
        tally_line(count_from(st, lines.drop_first()), st)
    }
}

/// The tally of one whole file: its lines classified in order, starting
/// outside any block comment.
pub open spec fn file_tally(lines: Seq<Seq<char>>) -> Tally {
    count_from(LineType::Blank, lines)
}

/// Whichever state a run of lines starts in, its tally is non-negative and
/// the three buckets together count every line exactly once.
pub proof fn lemma_count_from_conservation(state: LineType, lines: Seq<Seq<char>>)
    ensures
        tally_nonneg(count_from(state, lines)),
        count_from(state, lines).code + count_from(state, lines).comment + count_from(
            state,
            lines,
        ).blank == lines.len(),
    decreases lines.len(),
{
    if lines.len() > 0 {
        lemma_count_from_conservation(classify(state, lines[0]), lines.drop_first());
    }
}

/// Law: every line of a file lands in exactly one bucket, so the code,
/// comment and blank tallies of a file sum to its number of lines.
pub proof fn lemma_line_conservation(lines: Seq<Seq<char>>)
    ensures
        file_tally(lines).code + file_tally(lines).comment + file_tally(lines).blank
            == lines.len(),
{
    lemma_count_from_conservation(LineType::Blank, lines);
}

/// Law: inside a block comment, while no line ends with a closing `"""`,
/// every line counts as a comment line — an unterminated block consumes the
/// rest of the file as comments.
pub proof fn lemma_unclosed_block_all_comment(lines: Seq<Seq<char>>)
    requires
        forall|i: int| 0 <= i < lines.len() ==> !closes_triple_quote(#[trigger] lines[i]),
    ensures
        count_from(LineType::CommentMulti, lines) == (Tally {
            code: 0,
            comment: lines.len() as int,
            blank: 0,
        }),
    decreases lines.len(),
{
    if lines.len() > 0 {
        assert(classify(LineType::CommentMulti, lines[0]) == LineType::CommentMulti);
        assert(forall|i: int|
            0 <= i < lines.drop_first().len() ==> !closes_triple_quote(
                #[trigger] lines.drop_first()[i],
            ));
        lemma_unclosed_block_all_comment(lines.drop_first());
    }
}

/// The first non-blank position pins each marker test down: a `#` comment or
/// a `"""` opener can only stand exactly there.
proof fn lemma_first_marker(s: Seq<char>, i: int)
    requires
        0 <= i <= s.len(),
        all_spaces_before(s, i),
        i < s.len() ==> !is_space_char(s[i]),
    ensures
        hash_comment(s) ==> (i < s.len() && s[i] == '#'),
        opens_triple_quote(s) ==> triple_quote_at(s, i),
        self_contained_triple_quote(s) ==> (triple_quote_at(s, i) && i + 6 <= s.len()),
{
    if hash_comment(s) {
        let n = choose|n: int| hash_at(s, n);
        assert(s[n] == '#');
        if n < i {
            assert(is_space_char(s[n]));
            assert(false);
        }
        if n > i {
            assert(is_space_char(s[i]));
            assert(false);
        }
    }
    if opens_triple_quote(s) {
        let n = choose|n: int| triple_quote_open_at(s, n);
        assert(s[n] == '"');
        if n < i {
            assert(is_space_char(s[n]));
            assert(false);
        }
        if n > i {
            assert(is_space_char(s[i]));
            assert(false);
        }
    }
    if self_contained_triple_quote(s) {
        let n = choose|n: int| triple_quote_open_at(s, n) && n + 6 <= s.len();
        assert(s[n] == '"');
        if n < i {
            assert(is_space_char(s[n]));
            assert(false);
        }
        if n > i {
            assert(is_space_char(s[i]));
            assert(false);
        }
    }
}

/// Whether `c` counts as a leading blank.
fn is_space(c: char) -> (r: bool)
    ensures
        r == is_space_char(c),
{
    let u = c as u32;
    (0x09 <= u && u <= 0x0D) || u == 0x20 || u == 0x85 || u == 0xA0 || u == 0x1680 || (0x2000 <= u
        && u <= 0x200A) || u == 0x2028 || u == 0x2029 || u == 0x202F || u == 0x205F || u == 0x3000
}

/// The position of the first character of `line` that is not a space or tab,
/// or the line's length if there is none.
fn first_non_space(line: &str) -> (i: usize)
    ensures
        i <= line@.len(),
        all_spaces_before(line@, i as int),
        i < line@.len() ==> !is_space_char(line@[i as int]),
{
    let n = line.unicode_len();
    let mut i: usize = 0;
    while i < n && is_space(line.get_char(i))
        invariant
            i <= n,
            n == line@.len(),
            all_spaces_before(line@, i as int),
        decreases n - i,
    {
        i = i + 1;
    }
    i
}

/// Whether `line` ends with a `"""`.
fn line_closes_triple_quote(line: &str) -> (r: bool)
    ensures
        r == closes_triple_quote(line@),
{
    let n = line.unicode_len();
    n >= 3 && line.get_char(n - 3) == '"' && line.get_char(n - 2) == '"' && line.get_char(n - 1)
        == '"'
}

/// Classifies one line, given the state the previous line left behind.
pub fn classify_line(prev: LineType, line: &str) -> (next: LineType)
    ensures
        next == classify(prev, line@),
{
    match prev {
        LineType::CommentMulti => {
            if line_closes_triple_quote(line) {
                LineType::Comment
            } else {
                LineType::CommentMulti
            }
        },
        _ => {
            let n = line.unicode_len();
            if n == 0 {
                LineType::Blank
            } else {
                let i = first_non_space(line);
                proof {
                    lemma_first_marker(line@, i as int);
                }
                if i < n && line.get_char(i) == '#' {
                    proof {
                        assert(hash_at(line@, i as int));
                    }
                    LineType::Comment
                } else if n - i >= 3 && line.get_char(i) == '"' && line.get_char(i + 1) == '"'
                    && line.get_char(i + 2) == '"' {
                    proof {
                        assert(triple_quote_open_at(line@, i as int));
                    }
                    if n - i >= 6 && line_closes_triple_quote(line) {
                        LineType::Comment
                    } else {
                        LineType::CommentMulti
                    }
                } else {
                    LineType::Code
                }
            }
        },
    }
}

/// Classifies every line of one file, in order, and returns the file's tally.
/// The scan starts outside any block comment and the state carries from line
/// to line within the file only.
pub fn count_lines(lines: &Vec<String>) -> (local: Count)
    requires
        lines@.len() <= u32::MAX,
    ensures
        local@ == file_tally(lines.deep_view()),
{
    let ghost all = lines.deep_view();
    proof {
        assert(all.skip(0) =~= all);
    }
    let mut local = Count::new();
    let mut state = LineType::Blank;
    let mut idx: usize = 0;
    let n = lines.len();
    while idx < n
        invariant
            idx <= n,
            n == lines@.len(),
            n <= u32::MAX,
            all == lines.deep_view(),
            local@.code + local@.comment + local@.blank == idx,
            crate::count::tally_add(local@, count_from(state, all.skip(idx as int))) == file_tally(
                all,
            ),
        decreases n - idx,
    {
        proof {
            assert(all[idx as int] == lines@[idx as int]@);
            assert(all.skip(idx as int)[0] == all[idx as int]);
            assert(all.skip(idx as int).drop_first() =~= all.skip(idx as int + 1));
        }
        let next = classify_line(state, lines[idx].as_str());
        state = next;
        match next {
            LineType::Blank => {
                local.blank = local.blank + 1;
            },
            LineType::Code => {
                local.code = local.code + 1;
            },
            _ => {
                local.comment = local.comment + 1;
            },
        }
        idx = idx + 1;
    }
    proof {
        assert(all.skip(n as int) =~= Seq::<Seq<char>>::empty());
    }
    local
}

} // verus!
