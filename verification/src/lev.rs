//! Damerau-Levenshtein distance over Unicode code points.
//!
//! The metric counts insertion, deletion and substitution at cost 1 each,
//! and transposition of two matching code points at arbitrary (not only
//! adjacent) positions. It is computed with a dynamic-programming matrix of
//! size `(n + 2) x (m + 2)` whose outermost row and column hold the sentinel
//! `n + m`, so that transposition lookups never falsely win; the second row
//! and column hold the usual prefix-length boundary. [`dl_cell`] is the
//! mathematical statement of that recurrence, and [`damlev`] the executable
//! function proved to return its corner value.

use vstd::prelude::*;

verus! {

/// Sentinel placed on the outermost matrix border: at least as large as any
/// reachable edit distance between the two strings.
pub open spec fn dl_inf(a: Seq<char>, b: Seq<char>) -> nat {
    a.len() + b.len()
}

/// The smaller of two naturals.
pub open spec fn min_nat(x: nat, y: nat) -> nat {
    if x <= y {
        x
    } else {
        y
    }
}

/// The larger of two integers.
pub open spec fn max_int(x: int, y: int) -> int {
    if x >= y {
        x
    } else {
        y
    }
}

/// The largest index `k` in `[1, i)` with `s[k - 1] == c`, or 0 when no such
/// index exists: the most recent 1-based position of `c` strictly before the
/// 1-based position `i`.
pub open spec fn last_match(s: Seq<char>, c: char, i: int) -> int
    decreases i,
{
    if i <= 1 {
        0
    } else if s[i - 2] == c {
        i - 1
    } else {
        last_match(s, c, i - 1)
    }
}

pub proof fn lemma_last_match_bounds(s: Seq<char>, c: char, i: int)
    ensures
        0 <= last_match(s, c, i),
        i >= 1 ==> last_match(s, c, i) < i,
    decreases i,
{
    if i > 1 && s[i - 2] != c {
        lemma_last_match_bounds(s, c, i - 1);
    }
}

/// The dynamic-programming matrix cell at row `ii`, column `jj`
/// (`0 <= ii <= a.len() + 1`, `0 <= jj <= b.len() + 1`). Row and column 0
/// hold the sentinel; row and column 1 hold the prefix lengths; every other
/// cell is the minimum of deletion, insertion, match/substitution and the
/// unrestricted transposition that reaches back to the most recent positions
/// at which the current pair of code points matched.
pub open spec fn dl_cell(a: Seq<char>, b: Seq<char>, ii: int, jj: int) -> nat
    decreases ii, jj,
{
    if ii <= 0 || jj <= 0 {
        dl_inf(a, b)
    } else if ii == 1 {
        (jj - 1) as nat
    } else if jj == 1 {
        (ii - 1) as nat
    } else {
        let i = ii - 1;
        let j = jj - 1;
        let ca = a[i - 1];
        let cb = b[j - 1];
        let lmr = last_match(a, cb, i);
        let lmc = last_match(b, ca, j);
        let cost: nat = if ca == cb {
            0
        } else {
            1
        };
        proof {
            lemma_last_match_bounds(a, cb, i);
            lemma_last_match_bounds(b, ca, j);
        }
        let sub = dl_cell(a, b, ii - 1, jj - 1) + cost;
        let ins = dl_cell(a, b, ii, jj - 1) + 1;
        let del = dl_cell(a, b, ii - 1, jj) + 1;
        let tr = dl_cell(a, b, lmr, lmc) + (max_int(i - lmr - 1, j - lmc - 1) + 1) as nat;
        min_nat(min_nat(sub, ins), min_nat(del, tr))
    }
}

/// The Damerau-Levenshtein distance between two code-point sequences: the
/// corner cell of the dynamic-programming matrix.
pub open spec fn dl_dist(a: Seq<char>, b: Seq<char>) -> nat {
    dl_cell(a, b, a.len() + 1 as int, b.len() + 1 as int)
}

/// Within the real matrix area, a cell never exceeds `ii + jj - 2`, hence
/// never the sentinel.
pub proof fn lemma_dl_cell_le(a: Seq<char>, b: Seq<char>, ii: int, jj: int)
    requires
        1 <= ii <= a.len() + 1,
        1 <= jj <= b.len() + 1,
    ensures
        dl_cell(a, b, ii, jj) <= ii + jj - 2,
        dl_cell(a, b, ii, jj) <= dl_inf(a, b),
    decreases ii, jj,
{
    if ii > 1 && jj > 1 {
        lemma_dl_cell_le(a, b, ii - 1, jj - 1);
    }
}

/// The distance never exceeds the summed lengths of the inputs.
pub proof fn lemma_dl_dist_le(a: Seq<char>, b: Seq<char>)
    ensures
        dl_dist(a, b) <= a.len() + b.len(),
{
    lemma_dl_cell_le(a, b, a.len() + 1 as int, b.len() + 1 as int);
}

proof fn lemma_dl_cell_diag_zero(a: Seq<char>, ii: int)
    requires
        1 <= ii <= a.len() + 1,
    ensures
        dl_cell(a, a, ii, ii) == 0,
    decreases ii,
{
    if ii > 1 {
        lemma_dl_cell_diag_zero(a, ii - 1);
    }
}

/// A string is at distance 0 from itself.
pub proof fn lemma_distance_self(a: Seq<char>)
    ensures
        dl_dist(a, a) == 0,
{
    lemma_dl_cell_diag_zero(a, a.len() + 1 as int);
}

/// The distance between the empty string and `s`, in either order, is the
/// code-point length of `s`.
pub proof fn lemma_distance_empty(s: Seq<char>)
    ensures
        dl_dist(Seq::<char>::empty(), s) == s.len(),
        dl_dist(s, Seq::<char>::empty()) == s.len(),
{
}

proof fn lemma_dl_cell_sym(a: Seq<char>, b: Seq<char>, ii: int, jj: int)
    ensures
        dl_cell(a, b, ii, jj) == dl_cell(b, a, jj, ii),
    decreases ii, jj,
{
    if ii >= 2 && jj >= 2 {
        let i = ii - 1;
        let j = jj - 1;
        let ca = a[i - 1];
        let cb = b[j - 1];
        lemma_last_match_bounds(a, cb, i);
        lemma_last_match_bounds(b, ca, j);
        lemma_dl_cell_sym(a, b, ii - 1, jj - 1);
        lemma_dl_cell_sym(a, b, ii, jj - 1);
        lemma_dl_cell_sym(a, b, ii - 1, jj);
        lemma_dl_cell_sym(a, b, last_match(a, cb, i), last_match(b, ca, j));
    }
}

/// The distance is symmetric in its two arguments.
pub proof fn lemma_distance_symmetric(a: Seq<char>, b: Seq<char>)
    ensures
        dl_dist(a, b) == dl_dist(b, a),
{
    lemma_dl_cell_sym(a, b, a.len() + 1 as int, b.len() + 1 as int);
}

/// Every stored prefix of a matrix row agrees with the recurrence.
spec fn row_ok(a: Seq<char>, b: Seq<char>, row: Seq<usize>, ii: int) -> bool {
    forall|jj: int| 0 <= jj < row.len() ==> row[jj] == dl_cell(a, b, ii, jj)
}

/// Every completed row agrees with the recurrence and has full width.
spec fn mat_ok(a: Seq<char>, b: Seq<char>, mm: Seq<Vec<usize>>) -> bool {
    forall|ii: int|
        0 <= ii < mm.len() ==> (#[trigger] mm[ii])@.len() == b.len() + 2 && row_ok(a, b, mm[ii]@, ii)
}

/// The most recent 1-based position of `c` in `s` strictly before position
/// `i`, or 0 when there is none.
fn last_match_exec(s: &Vec<char>, c: char, i: usize) -> (r: usize)
    requires
        1 <= i <= s@.len() + 1,
    ensures
        r as int == last_match(s@, c, i as int),
{
    let mut k = i;
    while k > 1
        invariant
            1 <= k <= i <= s@.len() + 1,
            last_match(s@, c, i as int) == last_match(s@, c, k as int),
        decreases k,
    {
        if s[k - 2] == c {
            return k - 1;
        }
        k = k - 1;
    }
    0
}

/// The Damerau-Levenshtein distance between `a` and `b`, measured over
/// Unicode code points. The length bound keeps the sentinel arithmetic
/// within `usize`.
pub fn damlev(a: &str, b: &str) -> (r: usize)
    requires
        a@.len() + b@.len() <= usize::MAX / 2,
    ensures
        r == dl_dist(a@, b@),
{
    let ac = crate::text::chars_vec(a);
    let bc = crate::text::chars_vec(b);
    let n = ac.len();
    let m = bc.len();
    let inf = n + m;

    let mut mat: Vec<Vec<usize>> = Vec::new();

    let mut row0: Vec<usize> = Vec::new();
    let mut jj: usize = 0;
    while jj < m + 2
        invariant
            m + 2 <= usize::MAX,
            m == b@.len(),
            inf == dl_inf(a@, b@),
            jj == row0@.len() <= m + 2,
            row_ok(a@, b@, row0@, 0),
        decreases m + 2 - jj,
    {
        row0.push(inf);
        jj = jj + 1;
    }
    mat.push(row0);

    let mut row1: Vec<usize> = Vec::new();
    row1.push(inf);
    jj = 1;
    while jj < m + 2
        invariant
            m + 2 <= usize::MAX,
            m == b@.len(),
            inf == dl_inf(a@, b@),
            1 <= jj == row1@.len() <= m + 2,
            row_ok(a@, b@, row1@, 1),
        decreases m + 2 - jj,
    {
        row1.push(jj - 1);
        jj = jj + 1;
    }
    mat.push(row1);

    let mut i: usize = 1;
    while i <= n
        invariant
            ac@ == a@,
            bc@ == b@,
            n == a@.len(),
            m == b@.len(),
            inf == dl_inf(a@, b@),
            inf <= usize::MAX / 2,
            1 <= i <= n + 1,
            mat@.len() == i + 1,
            mat_ok(a@, b@, mat@),
        decreases n + 1 - i,
    {
        let ghost ii = i + 1;
        let ca = ac[i - 1];
        let mut row: Vec<usize> = Vec::new();
        row.push(inf);
        row.push(i);
        assert(row@[0] == dl_cell(a@, b@, ii as int, 0));
        assert(row@[1] == dl_cell(a@, b@, ii as int, 1));

        let mut lmc: usize = 0;
        let mut j: usize = 1;
        while j <= m
            invariant
                ac@ == a@,
                bc@ == b@,
                n == a@.len(),
                m == b@.len(),
                inf == dl_inf(a@, b@),
                inf <= usize::MAX / 2,
                1 <= i <= n,
                ii == i + 1,
                ca == a@[i - 1],
                mat@.len() == i + 1,
                mat_ok(a@, b@, mat@),
                1 <= j <= m + 1,
                row@.len() == j + 1,
                row_ok(a@, b@, row@, ii as int),
                lmc as int == last_match(b@, ca, j as int),
            decreases m + 1 - j,
    {
            let cb = bc[j - 1];
            let lmr = last_match_exec(&ac, cb, i);
            proof {
                lemma_last_match_bounds(a@, cb, i as int);
                lemma_last_match_bounds(b@, ca, j as int);
            }
            let cost: usize = if ca == cb {
                0
            } else {
                1
            };
            let d1 = i - lmr - 1;
            let d2 = j - lmc - 1;
            let tr_cost = if d1 >= d2 {
                d1 + 1
            } else {
                d2 + 1
            };
            proof {
                assert(mat@[i as int]@.len() == m + 2);
                assert(mat@[lmr as int]@.len() == m + 2);
                lemma_dl_cell_le(a@, b@, i as int, j as int);
                lemma_dl_cell_le(a@, b@, i as int, j + 1);
                lemma_dl_cell_le(a@, b@, ii as int, j as int);
                if lmr >= 1 && lmc >= 1 {
                    lemma_dl_cell_le(a@, b@, lmr as int, lmc as int);
                }
            }
            let sub = mat[i][j] + cost;
            let ins = row[j] + 1;
            let del = mat[i][j + 1] + 1;
            let trv = mat[lmr][lmc] + tr_cost;
            let mut val = sub;
            if ins < val {
                val = ins;
            }
            if del < val {
                val = del;
            }
            if trv < val {
                val = trv;
            }
            assert(val == dl_cell(a@, b@, ii as int, j + 1));
            row.push(val);
            if cb == ca {
                lmc = j;
            }
            j = j + 1;
        }
        mat.push(row);
        i = i + 1;
    }
    let r = mat[n + 1][m + 1];
    assert(r == dl_cell(a@, b@, n + 1, m + 1));
    r
}

} // verus!
