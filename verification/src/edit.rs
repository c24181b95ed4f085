//! Incremental edits: mapping editor positions to offsets in the
//! decoded text, and splicing replacement text in.
//!
//! Positions count rows and columns in characters; offsets here are
//! character offsets into the decoded stream.

use vstd::prelude::*;

use vstd::string::StrSliceExecFns;

use crate::range::Point;
use crate::range::Range;

verus! {

/// The offset reached by walking the text from offset `i` at
/// position (`row`, `col`) until `p`; the end of the text when `p`
/// is never reached.
pub open spec fn offset_from(s: Seq<char>, i: int, row: int, col: int, p: Point) -> int
    decreases s.len() - i,
{
    if row == p.row && col == p.column {
        i
    } else if i < 0 || i >= s.len() {
        s.len() as int
    } else if s[i] == '\n' {
        offset_from(s, i + 1, row + 1, 0, p)
    } else {
        offset_from(s, i + 1, row, col + 1, p)
    }
}

/// The character offset of position `p` in `s`.
pub open spec fn offset_of(s: Seq<char>, p: Point) -> int {
    offset_from(s, 0, 0, 0, p)
}

impl Range {
    /// Maps this range's endpoints to character offsets in
    /// `contents`, walking the decoded stream one character at a
    /// time; an endpoint past the end maps to the text's end.
    pub fn find_bytes(&self, contents: &str) -> (r: (usize, usize))
        ensures
            r.0 == offset_of(contents@, self.start),
            r.1 == offset_of(contents@, self.end),
            r.0 <= contents@.len(),
            r.1 <= contents@.len(),
    {
        let a = find_offset(contents, self.start);
        let b = find_offset(contents, self.end);
        (a, b)
    }
}

/// Walks `contents` to the offset of `p`.
fn find_offset(contents: &str, p: Point) -> (r: usize)
    ensures
        r == offset_of(contents@, p),
        r <= contents@.len(),
{
    let ghost s = contents@;
    let n = contents.unicode_len();
    let mut i: usize = 0;
    let mut row: usize = 0;
    let mut col: usize = 0;
    loop
        invariant
            s == contents@,
            n == s.len(),
            i <= n,
            row <= i,
            col <= i,
            offset_of(s, p) == offset_from(s, i as int, row as int, col as int, p),
        decreases n - i,
    {
        if row == p.row && col == p.column {
            return i;
        }
        if i >= n {
            return n;
        }
        let c = contents.get_char(i);
        if c == '\n' {
            row = row + 1;
            col = 0;
        } else {
            col = col + 1;
        }
        i = i + 1;
    }
}

/// `s` with the characters of `[a, b)` replaced by `t`.
pub open spec fn splice(s: Seq<char>, a: int, b: int, t: Seq<char>) -> Seq<char> {
    s.take(a) + t + s.skip(b)
}

/// What applying an editor change to `s` yields: no range replaces
/// the whole text; a range maps to offsets, the end is clamped to
/// the last character, and the text is inserted at the start when
/// the offsets are not ordered.
pub open spec fn spec_apply_edit(s: Seq<char>, range: Option<Range>, t: Seq<char>) -> Seq<char> {
    match range {
        Option::None => t,
        Option::Some(rg) => {
            let a = offset_of(s, rg.start);
            let e = offset_of(s, rg.end);
            let b = if s.len() == 0 {
                0
            } else if e <= s.len() - 1 {
                e
            } else {
                s.len() - 1
            };
            if a >= b {
                splice(s, a, a, t)
            } else {
                splice(s, a, b, t)
            }
        },
    }
}

/// Applies one editor change to `contents`.
pub fn apply_edit(contents: &str, range: Option<Range>, text: &str) -> (r: String)
    ensures
        r@ == spec_apply_edit(contents@, range, text@),
{
    match range {
        Option::None => text.to_owned(),
        Option::Some(rg) => {
            let n = contents.unicode_len();
            let (a, e) = rg.find_bytes(contents);
            let b = if n == 0 {
                0
            } else if e <= n - 1 {
                e
            } else {
                n - 1
            };
            let cut = if a >= b {
                a
            } else {
                b
            };
            let mut r = contents.substring_char(0, a).to_owned();
            r.append(text);
            r.append(contents.substring_char(cut, n));
            proof {
                if a >= b {
                    assert(r@ =~= splice(contents@, a as int, a as int, text@));
                } else {
                    assert(r@ =~= splice(contents@, a as int, b as int, text@));
                }
            }
            r
        },
    }
}

/// Edit idempotence: splicing `t` over `[a, b)` and splicing the
/// replaced characters back over the inserted ones restores the
/// original text; since the tree and the extracted workspace are
/// functions of the text, they are restored with it.
pub proof fn lemma_edit_roundtrip(s: Seq<char>, a: int, b: int, t: Seq<char>)
    requires
        0 <= a <= b <= s.len(),
    ensures
        splice(splice(s, a, b, t), a, a + t.len(), s.subrange(a, b)) == s,
{
    let mid = splice(s, a, b, t);
    assert(mid.len() == a + t.len() + (s.len() - b));
    assert(mid.take(a) =~= s.take(a));
    assert(mid.skip(a + t.len()) =~= s.skip(b));
    assert(splice(mid, a, a + t.len(), s.subrange(a, b)) =~= s);
}

} // verus!
