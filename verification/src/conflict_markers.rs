//! The grammar of conflict markers in a text, as produced by Git in the `diff3` style
//! (and recognized in the `diff2` style, to reject it).
use vstd::prelude::*;

verus! {

/// The kinds of lines that delimit a conflict
#[derive(Debug, Clone, Copy, PartialEq, Eq, Structural)]
pub enum MarkerKind {
    /// `<<<<<<< name`, ending with a line break
    Left,
    /// `||||||| name`, ending with a line break
    Base,
    /// `=======`, ending with a line break
    Middle,
    /// `>>>>>>> name`, ending with a line break
    Right,
    /// `>>>>>>> name`, ending at a line break (not included) or at the end of the text
    RightAtEnd,
}

/// The character repeated in the marker of a kind of line
pub open spec fn marker_char(kind: MarkerKind) -> char {
    match kind {
        MarkerKind::Left => '<',
        MarkerKind::Base => '|',
        MarkerKind::Middle => '=',
        MarkerKind::Right => '>',
        MarkerKind::RightAtEnd => '>',
    }
}

/// Position `i` is the beginning of a line
pub open spec fn is_line_start(t: Seq<char>, i: int) -> bool {
    i == 0 || (0 < i <= t.len() && t[i - 1] == '\n')
}

/// The position of the first line break at or after `from` (the length of the text if none)
pub open spec fn next_newline(t: Seq<char>, from: int) -> int
    decreases t.len() - from,
{
    if from >= t.len() {
        t.len() as int
    } else if t[from] == '\n' {
        from
    } else {
        next_newline(t, from + 1)
    }
}

/// `n` copies of `c` start at position `i`
pub open spec fn marker_at(t: Seq<char>, i: int, c: char, n: int) -> bool {
    0 <= i && i + n <= t.len() && forall|k: int| 0 <= k < n ==> #[trigger] t[i + k] == c
}

/// If a marker line of the given kind starts at `i`, the position where it ends:
/// after its line break, or (for [`MarkerKind::RightAtEnd`]) just before it.
pub open spec fn marker_line_end(t: Seq<char>, i: int, kind: MarkerKind, n: int) -> Option<int> {
    let j = i + n;
    if !(is_line_start(t, i) && marker_at(t, i, marker_char(kind), n)) {
        None
    } else if kind == MarkerKind::RightAtEnd {
        if j == t.len() || t[j] == '\n' {
            Some(j)
        } else if t[j] == ' ' {
            Some(next_newline(t, j + 1))
        } else {
            None
        }
    } else if j < t.len() && t[j] == '\n' {
        Some(j + 1)
    } else if j + 1 < t.len() && t[j] == '\r' && t[j + 1] == '\n' {
        Some(j + 2)
    } else if kind != MarkerKind::Middle && j < t.len() && t[j] == ' ' && next_newline(t, j + 1)
        < t.len() {
        Some(next_newline(t, j + 1) + 1)
    } else {
        None
    }
}

/// The revision name written after the marker of a line, if any
pub open spec fn marker_line_name(t: Seq<char>, i: int, n: int) -> Option<Seq<char>> {
    let j = i + n;
    if j < t.len() && t[j] == ' ' {
        Some(t.subrange(j + 1, next_newline(t, j + 1)))
    } else {
        None
    }
}

/// The kind of the last line of a conflict: ending with a line break or not
pub open spec fn right_kind(with_newline: bool) -> MarkerKind {
    if with_newline {
        MarkerKind::Right
    } else {
        MarkerKind::RightAtEnd
    }
}

/// Boundaries of a conflict: the starts of its left, base, middle and right marker lines
pub type Bounds = (int, int, int, int);

/// A diff3-style conflict whose marker lines start at the given positions
pub open spec fn valid_conflict(t: Seq<char>, n: int, with_newline: bool, m: Bounds) -> bool {
    &&& marker_line_end(t, m.0, MarkerKind::Left, n) matches Some(a1) && a1 <= m.1
    &&& marker_line_end(t, m.1, MarkerKind::Base, n) matches Some(a2) && a2 <= m.2
    &&& marker_line_end(t, m.2, MarkerKind::Middle, n) matches Some(a3) && a3 <= m.3
    &&& marker_line_end(t, m.3, right_kind(with_newline), n) is Some
}

/// Lexicographic order on conflict boundaries
pub open spec fn lex_le(a: Bounds, b: Bounds) -> bool {
    a.0 < b.0 || (a.0 == b.0 && (a.1 < b.1 || (a.1 == b.1 && (a.2 < b.2 || (a.2 == b.2 && a.3
        <= b.3)))))
}

/// The conflict found first when searching the text: it starts as early as possible,
/// and each of its sides is as short as possible
pub open spec fn is_first_conflict(t: Seq<char>, n: int, with_newline: bool, m: Bounds) -> bool {
    valid_conflict(t, n, with_newline, m) && forall|m2: Bounds|
        valid_conflict(t, n, with_newline, m2) ==> lex_le(m, m2)
}

/// The first diff3-style conflict of the text, if any
pub open spec fn first_conflict(t: Seq<char>, n: int, with_newline: bool) -> Option<Bounds> {
    if exists|m: Bounds| is_first_conflict(t, n, with_newline, m) {
        Some(choose|m: Bounds| is_first_conflict(t, n, with_newline, m))
    } else {
        None
    }
}

/// The text contains a diff2-style conflict: a left marker line,
/// then a middle marker line, then a right marker line (ending with a line break)
pub open spec fn has_diff2_conflict(t: Seq<char>, n: int) -> bool {
    exists|p: int, m: int, r: int| #[trigger] diff2_at(t, n, p, m, r)
}

/// A diff2-style conflict whose left, middle and right marker lines start at `p`, `m` and `r`
pub open spec fn diff2_at(t: Seq<char>, n: int, p: int, m: int, r: int) -> bool {
    &&& marker_line_end(t, p, MarkerKind::Left, n) matches Some(a1) && a1 <= m
    &&& marker_line_end(t, m, MarkerKind::Middle, n) matches Some(a3) && a3 <= r
    &&& marker_line_end(t, r, MarkerKind::Right, n) is Some
}

// ------------------------------------------------------------------------------------------
// Lemmas
// ------------------------------------------------------------------------------------------

proof fn lemma_next_newline_bounds(t: Seq<char>, from: int)
    requires
        0 <= from,
    ensures
        from <= next_newline(t, from) || (from > t.len() && next_newline(t, from) == t.len()),
        next_newline(t, from) <= t.len() || from > t.len(),
        next_newline(t, from) < t.len() ==> t[next_newline(t, from)] == '\n',
        forall|k: int| from <= k < next_newline(t, from) ==> t[k] != '\n',
    decreases t.len() - from,
{
    if from < t.len() && t[from] != '\n' {
        lemma_next_newline_bounds(t, from + 1);
    }
}

/// A marker line ends after it starts and no later than the end of the text
pub proof fn lemma_line_end_bounds(t: Seq<char>, i: int, kind: MarkerKind, n: int)
    requires
        0 <= n,
        marker_line_end(t, i, kind, n) is Some,
    ensures
        i <= marker_line_end(t, i, kind, n)->0 <= t.len(),
        kind != MarkerKind::RightAtEnd ==> i < marker_line_end(t, i, kind, n)->0,
        kind != MarkerKind::RightAtEnd ==> is_line_start(t, marker_line_end(t, i, kind, n)->0),
{
    let j = i + n;
    if j < t.len() && t[j] == ' ' {
        lemma_next_newline_bounds(t, j + 1);
    }
}

// ------------------------------------------------------------------------------------------
// Searching for marker lines
// ------------------------------------------------------------------------------------------

/// A marker line of the given kind starts at `i` and ends no later than `bound`
pub open spec fn line_within(t: Seq<char>, i: int, kind: MarkerKind, n: int, bound: int) -> bool {
    marker_line_end(t, i, kind, n) matches Some(e) && e <= bound
}

/// The position of the first line break at or after `from` (the length of the text if none)
pub fn find_newline(t: &Vec<char>, from: usize) -> (res: usize)
    requires
        from <= t@.len(),
    ensures
        res == next_newline(t@, from as int),
        from <= res <= t@.len(),
{
    let mut k = from;
    while k < t.len() && t[k] != '\n'
        invariant
            from <= k <= t@.len(),
            next_newline(t@, k as int) == next_newline(t@, from as int),
        decreases t@.len() - k,
    {
        k = k + 1;
    }
    k
}

/// Is position `i` the beginning of a line?
pub fn line_starts_at(t: &Vec<char>, i: usize) -> (res: bool)
    ensures
        res == is_line_start(t@, i as int),
{
    i == 0 || (i <= t.len() && t[i - 1] == '\n')
}

/// If a marker line of the given kind starts at `i`, the position where it ends
pub fn marker_line_end_at(t: &Vec<char>, i: usize, kind: MarkerKind, n: usize) -> (res: Option<usize>)
    ensures
        res matches Some(e) ==> marker_line_end(t@, i as int, kind, n as int) == Some(e as int),
        res is None ==> marker_line_end(t@, i as int, kind, n as int) is None,
{
    if !line_starts_at(t, i) {
        return None;
    }
    if n > t.len() - i {
        return None;
    }
    let c = match kind {
        MarkerKind::Left => '<',
        MarkerKind::Base => '|',
        MarkerKind::Middle => '=',
        MarkerKind::Right => '>',
        MarkerKind::RightAtEnd => '>',
    };
    let mut k: usize = 0;
    let tl = t.len();
    while k < n
        invariant
            tl == t@.len(),
            i + n <= t@.len(),
            i <= t@.len(),
            c == marker_char(kind),
            0 <= k <= n,
            forall|q: int| 0 <= q < k ==> #[trigger] t@[i + q] == c,
        decreases n - k,
    {
        if t[i + k] != c {
            assert(t@[i + k as int] != marker_char(kind));
            assert(!marker_at(t@, i as int, marker_char(kind), n as int));
            return None;
        }
        k = k + 1;
    }
    assert(marker_at(t@, i as int, marker_char(kind), n as int));
    let j = i + n;
    let len = t.len();
    if kind == MarkerKind::RightAtEnd {
        if j == len || t[j] == '\n' {
            Some(j)
        } else if t[j] == ' ' {
            Some(find_newline(t, j + 1))
        } else {
            None
        }
    } else if j < len && t[j] == '\n' {
        Some(j + 1)
    } else if j < len && j + 1 < len && t[j] == '\r' && t[j + 1] == '\n' {
        Some(j + 2)
    } else if kind != MarkerKind::Middle && j < len && t[j] == ' ' {
        let e = find_newline(t, j + 1);
        if e < len {
            Some(e + 1)
        } else {
            None
        }
    } else {
        None
    }
}

/// The name written after the marker of a line starting at `i`, as a range of positions
pub fn marker_line_name_at(t: &Vec<char>, i: usize, n: usize) -> (res: Option<(usize, usize)>)
    requires
        i + n <= t@.len(),
    ensures
        match res {
            Some((a, b)) => a <= b <= t@.len() && marker_line_name(t@, i as int, n as int) == Some(
                t@.subrange(a as int, b as int),
            ),
            None => marker_line_name(t@, i as int, n as int) is None,
        },
{
    let tl = t.len();
    let j = i + n;
    if j < tl && t[j] == ' ' {
        let e = find_newline(t, j + 1);
        Some((j + 1, e))
    } else {
        None
    }
}

/// The last line start at which a marker line of the given kind ends no later than `bound`
pub fn last_line_within(t: &Vec<char>, kind: MarkerKind, n: usize, bound: usize) -> (res: Option<usize>)
    ensures
        match res {
            Some(i) => line_within(t@, i as int, kind, n as int, bound as int) && forall|j: int|
                j > i ==> !line_within(t@, j, kind, n as int, bound as int),
            None => forall|j: int| !line_within(t@, j, kind, n as int, bound as int),
        },
{
    let len = t.len();
    let mut best: Option<usize> = None;
    let mut i: usize = 0;
    while i < len
        invariant
            len == t@.len(),
            0 <= i <= len,
            match best {
                Some(b) => b < i && line_within(t@, b as int, kind, n as int, bound as int)
                    && forall|j: int| b < j < i ==> !line_within(t@, j, kind, n as int, bound as int),
                None => forall|j: int| 0 <= j < i ==> !line_within(t@, j, kind, n as int, bound as int),
            },
        decreases len - i,
    {
        match marker_line_end_at(t, i, kind, n) {
            Some(e) => {
                if e <= bound {
                    best = Some(i);
                }
            },
            None => {},
        }
        i = i + 1;
    }
    match marker_line_end_at(t, len, kind, n) {
        Some(e) => {
            if e <= bound {
                best = Some(len);
            }
        },
        None => {},
    }
    best
}

/// The first line start, at or after `from`, at which a marker line of the given kind ends
/// no later than `bound`
pub fn first_line_within(t: &Vec<char>, kind: MarkerKind, n: usize, from: usize, bound: usize) -> (res: Option<usize>)
    ensures
        match res {
            Some(i) => from <= i && line_within(t@, i as int, kind, n as int, bound as int)
                && forall|j: int| from <= j < i ==> !line_within(t@, j, kind, n as int, bound as int),
            None => forall|j: int| from <= j ==> !line_within(t@, j, kind, n as int, bound as int),
        },
{
    let len = t.len();
    if from > len {
        return None;
    }
    let mut i: usize = from;
    while i < len
        invariant
            len == t@.len(),
            from <= i <= len,
            forall|j: int| from <= j < i ==> !line_within(t@, j, kind, n as int, bound as int),
        decreases len - i,
    {
        match marker_line_end_at(t, i, kind, n) {
            Some(e) => {
                if e <= bound {
                    return Some(i);
                }
            },
            None => {},
        }
        i = i + 1;
    }
    match marker_line_end_at(t, len, kind, n) {
        Some(e) => {
            if e <= bound {
                return Some(len);
            }
        },
        None => {},
    }
    None
}


/// Every marker line of a valid conflict fits within the bounds derived from the last
/// right, middle and base marker lines of the text
proof fn lemma_valid_within(
    t: Seq<char>,
    n: int,
    with_newline: bool,
    m: Bounds,
    lr: int,
    lm: int,
    lb: int,
)
    requires
        0 <= n,
        valid_conflict(t, n, with_newline, m),
        forall|j: int| j > lr ==> !line_within(t, j, right_kind(with_newline), n, t.len() as int),
        forall|j: int| j > lm ==> !line_within(t, j, MarkerKind::Middle, n, lr),
        forall|j: int| j > lb ==> !line_within(t, j, MarkerKind::Base, n, lm),
    ensures
        line_within(t, m.3, right_kind(with_newline), n, t.len() as int),
        line_within(t, m.2, MarkerKind::Middle, n, lr),
        line_within(t, m.1, MarkerKind::Base, n, lm),
        line_within(t, m.0, MarkerKind::Left, n, lb),
        m.3 <= lr,
        m.2 <= lm,
        m.1 <= lb,
{
    let rk = right_kind(with_newline);
    lemma_line_end_bounds(t, m.3, rk, n);
    assert(line_within(t, m.3, rk, n, t.len() as int));
    if m.3 > lr {
        assert(!line_within(t, m.3, rk, n, t.len() as int));
    }
    assert(line_within(t, m.2, MarkerKind::Middle, n, lr));
    if m.2 > lm {
        assert(!line_within(t, m.2, MarkerKind::Middle, n, lr));
    }
    assert(line_within(t, m.1, MarkerKind::Base, n, lm));
    if m.1 > lb {
        assert(!line_within(t, m.1, MarkerKind::Base, n, lm));
    }
}

/// Finds the first diff3-style conflict in the text, if there is one
pub fn find_conflict(t: &Vec<char>, n: usize, with_newline: bool) -> (res: Option<(usize, usize, usize, usize)>)
    ensures
        match res {
            Some(m) => is_first_conflict(t@, n as int, with_newline, (m.0 as int, m.1 as int, m.2 as int, m.3 as int)),
            None => forall|m: Bounds| !valid_conflict(t@, n as int, with_newline, m),
        },
{
    let len = t.len();
    let rk = if with_newline { MarkerKind::Right } else { MarkerKind::RightAtEnd };
    let ghost tt = t@;
    let ghost nn = n as int;
    assert(rk == right_kind(with_newline));
    let lr = match last_line_within(t, rk, n, len) {
        Some(x) => x,
        None => {
            proof {
                assert forall|m: Bounds| !valid_conflict(tt, nn, with_newline, m) by {
                    if valid_conflict(tt, nn, with_newline, m) {
                        lemma_line_end_bounds(tt, m.3, rk, nn);
                        assert(line_within(tt, m.3, rk, nn, len as int));
                        let a3 = marker_line_end(tt, m.2, MarkerKind::Middle, nn)->0;
                        assert(a3 <= m.3);
                    }
                }
            }
            return None;
        },
    };
    let lm = match last_line_within(t, MarkerKind::Middle, n, lr) {
        Some(x) => x,
        None => {
            proof {
                assert forall|m: Bounds| !valid_conflict(tt, nn, with_newline, m) by {
                    if valid_conflict(tt, nn, with_newline, m) {
                        lemma_line_end_bounds(tt, m.3, rk, nn);
                        assert(line_within(tt, m.3, rk, nn, len as int));
                        if m.3 > lr {
                            assert(!line_within(tt, m.3, rk, nn, len as int));
                        }
                        assert(line_within(tt, m.2, MarkerKind::Middle, nn, lr as int));
                    }
                }
            }
            return None;
        },
    };
    let lb = match last_line_within(t, MarkerKind::Base, n, lm) {
        Some(x) => x,
        None => {
            proof {
                assert forall|m: Bounds| !valid_conflict(tt, nn, with_newline, m) by {
                    if valid_conflict(tt, nn, with_newline, m) {
                        lemma_line_end_bounds(tt, m.3, rk, nn);
                        assert(line_within(tt, m.3, rk, nn, len as int));
                        if m.3 > lr {
                            assert(!line_within(tt, m.3, rk, nn, len as int));
                        }
                        assert(line_within(tt, m.2, MarkerKind::Middle, nn, lr as int));
                        if m.2 > lm {
                            assert(!line_within(tt, m.2, MarkerKind::Middle, nn, lr as int));
                        }
                        assert(line_within(tt, m.1, MarkerKind::Base, nn, lm as int));
                    }
                }
            }
            return None;
        },
    };
    let p = match first_line_within(t, MarkerKind::Left, n, 0, lb) {
        Some(x) => x,
        None => {
            proof {
                assert forall|m: Bounds| !valid_conflict(tt, nn, with_newline, m) by {
                    if valid_conflict(tt, nn, with_newline, m) {
                        lemma_valid_within(tt, nn, with_newline, m, lr as int, lm as int, lb as int);
                    }
                }
            }
            return None;
        },
    };
    let a1 = match marker_line_end_at(t, p, MarkerKind::Left, n) {
        Some(e) => e,
        None => {
            assert(false);
            return None;
        },
    };
    assert(line_within(tt, lb as int, MarkerKind::Base, nn, lm as int));
    let b1 = match first_line_within(t, MarkerKind::Base, n, a1, lm) {
        Some(x) => x,
        None => {
            assert(false);
            return None;
        },
    };
    let a2 = match marker_line_end_at(t, b1, MarkerKind::Base, n) {
        Some(e) => e,
        None => {
            assert(false);
            return None;
        },
    };
    assert(line_within(tt, lm as int, MarkerKind::Middle, nn, lr as int));
    let b2 = match first_line_within(t, MarkerKind::Middle, n, a2, lr) {
        Some(x) => x,
        None => {
            assert(false);
            return None;
        },
    };
    let a3 = match marker_line_end_at(t, b2, MarkerKind::Middle, n) {
        Some(e) => e,
        None => {
            assert(false);
            return None;
        },
    };
    assert(line_within(tt, lr as int, rk, nn, len as int));
    let b3 = match first_line_within(t, rk, n, a3, len) {
        Some(x) => x,
        None => {
            assert(false);
            return None;
        },
    };
    let ghost found: Bounds = (p as int, b1 as int, b2 as int, b3 as int);
    proof {
        assert(valid_conflict(tt, nn, with_newline, found));
        assert forall|m2: Bounds| valid_conflict(tt, nn, with_newline, m2) implies lex_le(found, m2) by {
            lemma_valid_within(tt, nn, with_newline, m2, lr as int, lm as int, lb as int);
            assert(m2.0 >= 0);
        }
    }
    Some((p, b1, b2, b3))
}

/// Does the text contain a diff2-style conflict?
pub fn find_diff2_conflict(t: &Vec<char>, n: usize) -> (res: bool)
    ensures
        res == has_diff2_conflict(t@, n as int),
{
    let len = t.len();
    let ghost tt = t@;
    let ghost nn = n as int;
    let lr = match last_line_within(t, MarkerKind::Right, n, len) {
        Some(x) => x,
        None => {
            proof {
                assert forall|p: int, m: int, r: int| !#[trigger] diff2_at(tt, nn, p, m, r) by {
                    if marker_line_end(tt, r, MarkerKind::Right, nn) is Some {
                        lemma_line_end_bounds(tt, r, MarkerKind::Right, nn);
                        assert(line_within(tt, r, MarkerKind::Right, nn, len as int));
                    }
                }
            }
            return false;
        },
    };
    let lm = match last_line_within(t, MarkerKind::Middle, n, lr) {
        Some(x) => x,
        None => {
            proof {
                assert forall|p: int, m: int, r: int| !#[trigger] diff2_at(tt, nn, p, m, r) by {
                    if diff2_at(tt, nn, p, m, r) {
                        lemma_line_end_bounds(tt, r, MarkerKind::Right, nn);
                        assert(line_within(tt, r, MarkerKind::Right, nn, len as int));
                        if r > lr {
                            assert(!line_within(tt, r, MarkerKind::Right, nn, len as int));
                        }
                        assert(line_within(tt, m, MarkerKind::Middle, nn, lr as int));
                    }
                }
            }
            return false;
        },
    };
    match first_line_within(t, MarkerKind::Left, n, 0, lm) {
        Some(p) => {
            proof {
                let a1 = marker_line_end(tt, p as int, MarkerKind::Left, nn)->0;
                let a3 = marker_line_end(tt, lm as int, MarkerKind::Middle, nn)->0;
                assert(diff2_at(tt, nn, p as int, lm as int, lr as int));
            }
            true
        },
        None => {
            proof {
                assert forall|p: int, m: int, r: int| !#[trigger] diff2_at(tt, nn, p, m, r) by {
                    if marker_line_end(tt, r, MarkerKind::Right, nn) is Some {
                        lemma_line_end_bounds(tt, r, MarkerKind::Right, nn);
                        assert(line_within(tt, r, MarkerKind::Right, nn, len as int));
                        if diff2_at(tt, nn, p, m, r) {
                            if r > lr {
                                assert(!line_within(tt, r, MarkerKind::Right, nn, len as int));
                            }
                            assert(line_within(tt, m, MarkerKind::Middle, nn, lr as int));
                            if m > lm {
                                assert(!line_within(tt, m, MarkerKind::Middle, nn, lr as int));
                            }
                            assert(line_within(tt, p, MarkerKind::Left, nn, lm as int));
                            assert(p >= 0);
                        }
                    }
                }
            }
            false
        },
    }
}

/// Does the text contain conflicts, in the diff3 style (with or without a line break after
/// the right marker) or in the diff2 style, with markers of length `n`?
pub open spec fn has_conflict_markers(t: Seq<char>, n: int) -> bool {
    ||| exists|m: Bounds| valid_conflict(t, n, true, m)
    ||| exists|m: Bounds| valid_conflict(t, n, false, m)
    ||| has_diff2_conflict(t, n)
}

/// Does the text contain conflicts with markers of length `n`, in any of the styles that
/// Git produces?
pub fn contains_conflict_markers(contents: &str, n: usize) -> (res: bool)
    ensures
        res == has_conflict_markers(contents@, n as int),
{
    let t = crate::text::to_chars(contents);
    match find_conflict(&t, n, true) {
        Some(m) => {
            assert(valid_conflict(t@, n as int, true, (m.0 as int, m.1 as int, m.2 as int, m.3 as int)));
            return true;
        },
        None => {},
    }
    if find_diff2_conflict(&t, n) {
        return true;
    }
    match find_conflict(&t, n, false) {
        Some(m) => {
            assert(valid_conflict(t@, n as int, false, (m.0 as int, m.1 as int, m.2 as int, m.3 as int)));
            true
        },
        None => false,
    }
}

} // verus!
