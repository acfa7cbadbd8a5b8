//! Relative file paths as text: `/`-separated segments (empty segments, and
//! `.` segments other than a leading one, are ignored, as `std::path`'s
//! components are), the model of `std::path` that the output tree uses.

use vstd::prelude::*;

use crate::text::{find_char, next_index_of};

verus! {

/// Whether the piece of `s` starting at `p` is dropped: it is empty, or it
/// is `.` and not at the start.
pub open spec fn skipped_piece(piece: Seq<char>, p: int) -> bool {
    piece.len() == 0 || (p > 0 && piece == seq!['.'])
}

/// The `/`-separated segments of `s` from position `p`, without the pieces
/// that are dropped.
pub open spec fn segments_from(s: Seq<char>, p: int) -> Seq<Seq<char>>
    decreases s.len() - p,
{
    if p < 0 || p >= s.len() {
        seq![]
    } else {
        match next_index_of(s, '/', p) {
            Some(k) => if p <= k < s.len() {
                let piece = s.subrange(p, k);
                if skipped_piece(piece, p) {
                    segments_from(s, k + 1)
                } else {
                    seq![piece] + segments_from(s, k + 1)
                }
            } else {
                seq![]
            },
            None => if skipped_piece(s.subrange(p, s.len() as int), p) {
                seq![]
            } else {
                seq![s.subrange(p, s.len() as int)]
            },
        }
    }
}

/// The `/`-separated segments of `s`: no empty ones, and no `.` but a
/// leading one.
pub open spec fn segments(s: Seq<char>) -> Seq<Seq<char>> {
    segments_from(s, 0)
}

/// The file name of a path: its last segment, unless it is `..` or absent.
pub open spec fn file_name(s: Seq<char>) -> Option<Seq<char>> {
    let segs = segments(s);
    if segs.len() == 0 || segs.last() == seq!['.', '.'] {
        None
    } else {
        Some(segs.last())
    }
}

/// Splits `s` into its segments.
pub fn split_segments(s: &[char]) -> (r: Vec<Vec<char>>)
    ensures
        r@.map_values(|l: Vec<char>| l@) == segments(s@),
{
    let mut out: Vec<Vec<char>> = Vec::new();
    let mut p: usize = 0;
    while p < s.len()
        invariant
            p <= s@.len(),
            out@.map_values(|l: Vec<char>| l@) + segments_from(s@, p as int) == segments(s@),
        decreases s@.len() - p,
    {
        let ghost before = out@.map_values(|l: Vec<char>| l@);
        let end = match find_char(s, '/', p) {
            Some(k) => k,
            None => s.len(),
        };
        let mut piece: Vec<char> = Vec::new();
        let mut i = p;
        while i < end
            invariant
                p <= i <= end <= s@.len(),
                piece@ == s@.subrange(p as int, i as int),
            decreases end - i,
        {
            piece.push(s[i]);
            i += 1;
            assert(piece@ =~= s@.subrange(p as int, i as int));
        }
        let dot_only = piece.len() == 1 && piece[0] == '.';
        proof {
            if piece@.len() == 1 {
                assert(dot_only == (piece@ =~= seq!['.']));
            } else {
                assert(piece@ != seq!['.']);
            }
        }
        if piece.len() > 0 && !(p > 0 && dot_only) {
            assert(!skipped_piece(s@.subrange(p as int, end as int), p as int));
            out.push(piece);
            assert(out@.map_values(|l: Vec<char>| l@) =~= before.push(
                s@.subrange(p as int, end as int),
            ));
        }
        if end == s.len() {
            assert(before + segments_from(s@, p as int) =~= out@.map_values(|l: Vec<char>| l@)
                + segments_from(s@, s@.len() as int));
            p = s.len();
        } else {
            assert(before + segments_from(s@, p as int) =~= out@.map_values(|l: Vec<char>| l@)
                + segments_from(s@, end + 1));
            p = end + 1;
        }
    }
    assert(out@.map_values(|l: Vec<char>| l@) + segments_from(s@, p as int) =~= out@.map_values(
        |l: Vec<char>| l@,
    ));
    out
}

} // verus!
