//! The pattern-file format: plain text, one coordinate pair per line as two
//! space-separated decimal integers `x y`; empty lines and lines starting
//! with `//` are comments.  Each valid line marks the cell in column `x`,
//! row `y` alive; malformed lines are skipped and reported by index, never
//! fatal.  Coordinates outside the grid are silently ignored.

use vstd::prelude::*;

use crate::grid::GridView;

verus! {

/// The row-major index a coordinate pair `(x, y)` marks alive: column `x`,
/// row `y`.  `None` when the pair lies outside the grid.
pub open spec fn point_index(p: (usize, usize), rows: nat, cols: nat) -> Option<int> {
    if (p.1 as int) < rows && (p.0 as int) < cols {
        Some(p.1 * cols + p.0)
    } else {
        None
    }
}

/// Whether some pair of `pts` marks the buffer index `i`.
pub open spec fn point_hits(pts: Seq<(usize, usize)>, rows: nat, cols: nat, i: int) -> bool {
    exists|j: int| 0 <= j < pts.len() && point_index(#[trigger] pts[j], rows, cols) == Some(i)
}

/// The grid after marking every in-bounds pair of `pts` alive; no cell is
/// ever cleared.
pub open spec fn apply_points_view(g: GridView, pts: Seq<(usize, usize)>) -> GridView {
    GridView {
        rows: g.rows,
        cols: g.cols,
        cells: Seq::new(g.cells.len(), |i: int| g.cells[i] || point_hits(pts, g.rows, g.cols, i)),
    }
}

/// Taking one more pair into account marks exactly the index of that pair,
/// if it is in bounds, on top of what the earlier pairs marked.
pub proof fn lemma_point_hits_extend(
    pts: Seq<(usize, usize)>,
    k: int,
    rows: nat,
    cols: nat,
    i: int,
)
    requires
        0 <= k < pts.len(),
    ensures
        point_hits(pts.take(k + 1), rows, cols, i) == (point_hits(pts.take(k), rows, cols, i)
            || point_index(pts[k], rows, cols) == Some(i)),
{
    if point_hits(pts.take(k + 1), rows, cols, i) {
        let j = choose|j: int|
            0 <= j < pts.take(k + 1).len() && point_index(
                #[trigger] pts.take(k + 1)[j],
                rows,
                cols,
            ) == Some(i);
        assert(pts.take(k + 1)[j] == pts[j]);
        if j < k {
            assert(pts.take(k)[j] == pts[j]);
            assert(point_hits(pts.take(k), rows, cols, i));
        }
    }
    if point_hits(pts.take(k), rows, cols, i) {
        let j = choose|j: int|
            0 <= j < pts.take(k).len() && point_index(#[trigger] pts.take(k)[j], rows, cols)
                == Some(i);
        assert(pts.take(k + 1)[j] == pts.take(k)[j]);
        assert(point_hits(pts.take(k + 1), rows, cols, i));
    }
    if point_index(pts[k], rows, cols) == Some(i) {
        assert(pts.take(k + 1)[k] == pts[k]);
        assert(point_hits(pts.take(k + 1), rows, cols, i));
    }
}

/// Loading the same pattern twice yields the same grid as loading it once:
/// applying a point list only ever sets cells to alive, never toggles.
pub proof fn lemma_apply_points_idempotent(g: GridView, pts: Seq<(usize, usize)>)
    ensures
        apply_points_view(apply_points_view(g, pts), pts) == apply_points_view(g, pts),
{
    let once = apply_points_view(g, pts);
    let twice = apply_points_view(once, pts);
    assert(twice.cells =~= once.cells);
}

/// The five-cell glider, as the coordinate pairs of its pattern file.
pub open spec fn glider_points() -> Seq<(usize, usize)> {
    seq![(0usize, 1usize), (1usize, 2usize), (2usize, 0usize), (2usize, 1usize), (2usize, 2usize)]
}

/// The glider as a concrete point list, ready for `Grid::apply_points`.
pub fn glider_pattern() -> (v: Vec<(usize, usize)>)
    ensures
        v@ == glider_points(),
{
    let mut v: Vec<(usize, usize)> = Vec::new();
    v.push((0, 1));
    v.push((1, 2));
    v.push((2, 0));
    v.push((2, 1));
    v.push((2, 2));
    assert(v@ =~= glider_points());
    v
}

pub open spec fn is_digit(b: u8) -> bool {
    48 <= b && b <= 57
}

pub open spec fn all_digits(s: Seq<u8>) -> bool {
    forall|i: int| 0 <= i < s.len() ==> is_digit(#[trigger] s[i])
}

/// The value of a decimal digit string, most significant digit first.
pub open spec fn digits_val(s: Seq<u8>) -> int
    decreases s.len(),
{
    if s.len() == 0 {
        0
    } else {
        digits_val(s.drop_last()) * 10 + (s.last() - 48)
    }
}

pub proof fn lemma_digits_val_nonneg(s: Seq<u8>)
    requires
        all_digits(s),
    ensures
        digits_val(s) >= 0,
    decreases s.len(),
{
    if s.len() > 0 {
        assert(is_digit(s[s.len() - 1]));
        lemma_digits_val_nonneg(s.drop_last());
    }
}

/// A digit string is worth at least any of its prefixes.
pub proof fn lemma_digits_val_prefix(s: Seq<u8>, j: int)
    requires
        all_digits(s),
        0 <= j <= s.len(),
    ensures
        digits_val(s.take(j)) <= digits_val(s),
    decreases s.len() - j,
{
    if j == s.len() {
        assert(s.take(j) =~= s);
    } else {
        lemma_digits_val_prefix(s, j + 1);
        assert(s.take(j + 1).drop_last() =~= s.take(j));
        assert(s.take(j + 1).last() == s[j]);
        assert(is_digit(s[j]));
        assert(all_digits(s.take(j))) by {
            assert(forall|i: int| 0 <= i < j ==> s.take(j)[i] == s[i]);
        }
        lemma_digits_val_nonneg(s.take(j));
    }
}

/// The position of the first occurrence of `b` in `s`, if any.
pub open spec fn find_byte(s: Seq<u8>, b: u8) -> Option<int>
    decreases s.len(),
{
    if s.len() == 0 {
        None
    } else if s[0] == b {
        Some(0)
    } else {
        match find_byte(s.drop_first(), b) {
            None => None,
            Some(i) => Some(i + 1),
        }
    }
}

/// `find_byte` returns the first occurrence: the byte is there and nothing
/// before it matches; `None` means no occurrence at all.
pub proof fn lemma_find_byte(s: Seq<u8>, b: u8)
    ensures
        match find_byte(s, b) {
            Some(i) => 0 <= i < s.len() && s[i] == b && forall|j: int| 0 <= j < i ==> s[j] != b,
            None => forall|j: int| 0 <= j < s.len() ==> s[j] != b,
        },
    decreases s.len(),
{
    if s.len() > 0 && s[0] != b {
        let t = s.drop_first();
        lemma_find_byte(t, b);
        match find_byte(t, b) {
            None => {
                assert forall|j: int| 0 <= j < s.len() implies s[j] != b by {
                    if j > 0 {
                        assert(t[j - 1] == s[j]);
                    }
                }
            },
            Some(i) => {
                assert(t[i] == s[i + 1]);
                assert forall|j: int| 0 <= j < i + 1 implies s[j] != b by {
                    if j > 0 {
                        assert(t[j - 1] == s[j]);
                    }
                }
            },
        }
    }
}

/// Converse of `lemma_find_byte`: a first occurrence pins the result.
pub proof fn lemma_find_byte_at(s: Seq<u8>, b: u8, i: int)
    requires
        0 <= i < s.len(),
        s[i] == b,
        forall|j: int| 0 <= j < i ==> s[j] != b,
    ensures
        find_byte(s, b) == Some(i),
{
    lemma_find_byte(s, b);
    match find_byte(s, b) {
        None => {
            assert(s[i] != b);
        },
        Some(k) => {
            if k < i {
                assert(s[k] != b);
            } else if i < k {
                assert(s[i] != b);
            }
        },
    }
}

/// Converse of `lemma_find_byte`: no occurrence means `None`.
pub proof fn lemma_find_byte_none(s: Seq<u8>, b: u8)
    requires
        forall|j: int| 0 <= j < s.len() ==> s[j] != b,
    ensures
        find_byte(s, b) is None,
{
    lemma_find_byte(s, b);
    match find_byte(s, b) {
        None => {
        },
        Some(k) => {
            assert(s[k] != b);
        },
    }
}

/// Drops a single trailing carriage return, as a line of a text file with
/// either line ending should read the same.
pub open spec fn strip_cr(s: Seq<u8>) -> Seq<u8> {
    if s.len() > 0 && s.last() == 13 {
        s.drop_last()
    } else {
        s
    }
}

/// The lines of a text, split at newline bytes, each without its trailing
/// carriage return.  A trailing newline does not open an extra empty line.
pub open spec fn split_lines(s: Seq<u8>) -> Seq<Seq<u8>>
    decreases s.len(),
    via split_lines_decreases
{
    if s.len() == 0 {
        Seq::empty()
    } else {
        match find_byte(s, 10) {
            None => seq![strip_cr(s)],
            Some(i) => seq![strip_cr(s.take(i))] + split_lines(s.skip(i + 1)),
        }
    }
}

#[via_fn]
proof fn split_lines_decreases(s: Seq<u8>) {
    if s.len() > 0 {
        lemma_find_byte(s, 10);
    }
}

/// A line that carries no coordinates on purpose: empty, or a `//` comment.
pub open spec fn is_comment_line(l: Seq<u8>) -> bool {
    l.len() == 0 || (l.len() >= 2 && l[0] == 47 && l[1] == 47)
}

/// The coordinate pair a line denotes, if it is exactly two nonempty digit
/// strings separated by a single space and both values fit in `usize`.
pub open spec fn line_point(l: Seq<u8>) -> Option<(usize, usize)> {
    match find_byte(l, 32) {
        None => None,
        Some(i) => {
            let xs = l.take(i);
            let ys = l.skip(i + 1);
            if xs.len() > 0 && all_digits(xs) && digits_val(xs) <= usize::MAX && ys.len() > 0
                && all_digits(ys) && digits_val(ys) <= usize::MAX {
                Some(((digits_val(xs) as usize), (digits_val(ys) as usize)))
            } else {
                None
            }
        },
    }
}

/// A line that is neither a comment nor a valid coordinate pair.
pub open spec fn line_is_malformed(l: Seq<u8>) -> bool {
    !is_comment_line(l) && line_point(l) is None
}

/// The coordinate pairs of all valid lines, in order.
pub open spec fn pattern_points(lines: Seq<Seq<u8>>) -> Seq<(usize, usize)>
    decreases lines.len(),
{
    if lines.len() == 0 {
        Seq::empty()
    } else {
        let rest = pattern_points(lines.drop_last());
        match line_point(lines.last()) {
            Some(p) => rest.push(p),
            None => rest,
        }
    }
}

/// The indices of all malformed lines, in order.
pub open spec fn malformed_indices(lines: Seq<Seq<u8>>) -> Seq<usize>
    decreases lines.len(),
{
    if lines.len() == 0 {
        Seq::empty()
    } else {
        let rest = malformed_indices(lines.drop_last());
        if line_is_malformed(lines.last()) {
            rest.push(((lines.len() - 1) as usize))
        } else {
            rest
        }
    }
}

/// Parses the decimal digit string `text[start..end]` into a `usize`.
/// `None` means the range is empty, holds a non-digit, or overflows.
fn parse_usize_range(text: &Vec<u8>, start: usize, end: usize) -> (r: Option<usize>)
    requires
        start <= end <= text@.len(),
    ensures
        ({
            let s = text@.subrange(start as int, end as int);
            match r {
                Some(v) => s.len() > 0 && all_digits(s) && digits_val(s) == v,
                None => s.len() == 0 || !all_digits(s) || digits_val(s) > usize::MAX,
            }
        }),
{
    let ghost s = text@.subrange(start as int, end as int);
    if start == end {
        return None;
    }
    let mut acc: usize = 0;
    let mut i: usize = start;
    while i < end
        invariant
            start <= i <= end <= text@.len(),
            s == text@.subrange(start as int, end as int),
            all_digits(s.take(i - start)),
            acc == digits_val(s.take(i - start)),
        decreases end - i,
    {
        let b = text[i];
        assert(b == s[i - start]);
        if b < 48 || b > 57 {
            assert(!is_digit(s[i - start]));
            return None;
        }
        let d = (b - 48) as usize;
        proof {
            assert(s.take(i - start + 1).drop_last() =~= s.take(i - start));
            assert(s.take(i - start + 1).last() == s[i - start]);
        }
        if acc > (usize::MAX - d) / 10 {
            proof {
                assert(acc * 10 + d > usize::MAX) by (nonlinear_arith)
                    requires
                        acc > (usize::MAX - d) / 10,
                        d <= 9,
                ;
                if all_digits(s) {
                    lemma_digits_val_prefix(s, i - start + 1);
                }
            }
            return None;
        }
        proof {
            assert(acc * 10 + d <= usize::MAX) by (nonlinear_arith)
                requires
                    acc <= (usize::MAX - d) / 10,
                    d <= 9,
            ;
        }
        acc = acc * 10 + d;
        i += 1;
    }
    assert(s.take(i - start) =~= s);
    Some(acc)
}

/// Scans `text[start..end]` for the first occurrence of `b`.
fn find_byte_in(text: &Vec<u8>, start: usize, end: usize, b: u8) -> (r: Option<usize>)
    requires
        start <= end <= text@.len(),
    ensures
        ({
            let s = text@.subrange(start as int, end as int);
            match r {
                Some(i) => start <= i < end && find_byte(s, b) == Some(i - start),
                None => find_byte(s, b) is None,
            }
        }),
{
    let ghost s = text@.subrange(start as int, end as int);
    let mut i: usize = start;
    while i < end
        invariant
            start <= i <= end <= text@.len(),
            s == text@.subrange(start as int, end as int),
            forall|j: int| 0 <= j < i - start ==> s[j] != b,
        decreases end - i,
    {
        if text[i] == b {
            proof {
                lemma_find_byte_at(s, b, i - start);
            }
            return Some(i);
        }
        assert(s[i - start] != b);
        i += 1;
    }
    proof {
        lemma_find_byte_none(s, b);
    }
    None
}

/// What one line of a pattern file turned out to be.
enum LineClass {
    Comment,
    Malformed,
    Point(usize, usize),
}

/// Classifies the line `text[start..end]` (before carriage-return
/// stripping) exactly as the specification functions read it.
fn classify_line(text: &Vec<u8>, start: usize, end: usize) -> (r: LineClass)
    requires
        start <= end <= text@.len(),
    ensures
        ({
            let l = strip_cr(text@.subrange(start as int, end as int));
            match r {
                LineClass::Comment => is_comment_line(l) && line_point(l) is None,
                LineClass::Malformed => line_is_malformed(l),
                LineClass::Point(x, y) => line_point(l) == Some((x, y)),
            }
        }),
{
    let e = if end > start && text[end - 1] == 13 {
        end - 1
    } else {
        end
    };
    let ghost l = strip_cr(text@.subrange(start as int, end as int));
    proof {
        assert(text@.subrange(start as int, e as int) =~= l);
    }
    if e == start {
        proof {
            lemma_find_byte_none(l, 32);
        }
        return LineClass::Comment;
    }
    if e - start >= 2 && text[start] == 47 && text[start + 1] == 47 {
        proof {
            assert(l[0] == 47 && l[1] == 47);
            lemma_find_byte(l, 32);
            match find_byte(l, 32) {
                None => {
                },
                Some(i) => {
                    assert(l[i] == 32);
                    assert(i >= 1);
                    assert(!is_digit(l.take(i)[0]));
                },
            }
        }
        return LineClass::Comment;
    }
    match find_byte_in(text, start, e, 32) {
        None => LineClass::Malformed,
        Some(sp) => {
            proof {
                assert(l.take(sp - start) =~= text@.subrange(start as int, sp as int));
                assert(l.skip(sp - start + 1) =~= text@.subrange(sp as int + 1, e as int));
            }
            let x = parse_usize_range(text, start, sp);
            let y = parse_usize_range(text, sp + 1, e);
            match (x, y) {
                (Some(xv), Some(yv)) => LineClass::Point(xv, yv),
                _ => LineClass::Malformed,
            }
        },
    }
}

/// The outcome of parsing a pattern file: the coordinate pairs of the valid
/// lines, in order, and the indices of the malformed lines.
pub struct ParsedPattern {
    pub points: Vec<(usize, usize)>,
    pub malformed: Vec<usize>,
}

/// Parses a whole pattern text.  Valid lines yield their coordinate pair;
/// empty and `//` lines are skipped; every other line is reported in
/// `malformed` by its zero-based line index.
pub fn parse_pattern(text: &Vec<u8>) -> (out: ParsedPattern)
    ensures
        out.points@ == pattern_points(split_lines(text@)),
        out.malformed@ == malformed_indices(split_lines(text@)),
{
    let ghost lines = split_lines(text@);
    let mut points: Vec<(usize, usize)> = Vec::new();
    let mut malformed: Vec<usize> = Vec::new();
    let mut pos: usize = 0;
    let mut lineno: usize = 0;
    proof {
        assert(text@.skip(0) =~= text@);
        assert(lines.skip(0) =~= lines);
        assert(lines.take(0) =~= Seq::<Seq<u8>>::empty());
    }
    while pos < text.len()
        invariant
            pos <= text@.len(),
            lineno <= pos,
            lines == split_lines(text@),
            lineno <= lines.len(),
            split_lines(text@.skip(pos as int)) == lines.skip(lineno as int),
            points@ == pattern_points(lines.take(lineno as int)),
            malformed@ == malformed_indices(lines.take(lineno as int)),
        decreases text@.len() - pos,
    {
        let ghost rest = text@.skip(pos as int);
        let end = text.len();
        let nl = find_byte_in(text, pos, end, 10);
        proof {
            assert(text@.subrange(pos as int, end as int) =~= rest);
        }
        let line_end = match nl {
            Some(i) => i,
            None => end,
        };
        proof {
            // One line of `rest` is consumed, and the remainder of the text
            // splits into the remaining lines.
            match nl {
                Some(i) => {
                    assert(rest.take(i - pos) =~= text@.subrange(pos as int, i as int));
                    assert(rest.skip(i - pos + 1) =~= text@.skip(i + 1 as int));
                    assert(split_lines(rest) == seq![strip_cr(rest.take(i - pos))] + split_lines(
                        rest.skip(i - pos + 1),
                    ));
                },
                None => {
                    assert(rest =~= text@.subrange(pos as int, end as int));
                    assert(split_lines(rest) == seq![strip_cr(rest)]);
                },
            }
            assert(lines.skip(lineno as int).len() >= 1);
            assert(lines.skip(lineno as int)[0] == lines[lineno as int]);
            assert(lines[lineno as int] == strip_cr(
                text@.subrange(pos as int, line_end as int),
            ));
            assert(lines.take(lineno as int + 1).drop_last() =~= lines.take(lineno as int));
            assert(lines.take(lineno as int + 1).last() == lines[lineno as int]);
        }
        let cls = classify_line(text, pos, line_end);
        match cls {
            LineClass::Comment => {
            },
            LineClass::Malformed => {
                malformed.push(lineno);
            },
            LineClass::Point(x, y) => {
                points.push((x, y));
            },
        }
        proof {
            let tail = lines.skip(lineno as int + 1);
            match nl {
                Some(i) => {
                    assert(tail =~= split_lines(rest).skip(1));
                    assert(split_lines(rest).skip(1) =~= split_lines(rest.skip(i - pos + 1)));
                    assert(tail =~= split_lines(text@.skip(i + 1 as int)));
                },
                None => {
                    assert(tail =~= split_lines(rest).skip(1));
                    assert(tail.len() == 0);
                    assert(text@.skip(end as int) =~= Seq::<u8>::empty());
                    assert(tail =~= split_lines(text@.skip(end as int)));
                },
            }
        }
        pos = match nl {
            Some(i) => i + 1,
            None => end,
        };
        lineno += 1;
    }
    proof {
        assert(text@.skip(pos as int) =~= Seq::<u8>::empty());
        assert(lines.skip(lineno as int).len() == 0);
        assert(lines.take(lineno as int) =~= lines);
    }
    ParsedPattern { points, malformed }
}

} // verus!
