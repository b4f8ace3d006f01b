//! Character-level helpers shared by the metric, the classifiers and the
//! query builder: code-point extraction, ASCII case-insensitive comparison,
//! decimal parsing and formatting.

use vstd::prelude::*;
use vstd::string::StrSliceExecFns;

verus! {

/// The code points of a string, as a vector.
pub fn chars_vec(s: &str) -> (v: Vec<char>)
    ensures
        v@ == s@,
{
    let n = s.unicode_len();
    let mut v: Vec<char> = Vec::new();
    let mut i: usize = 0;
    while i < n
        invariant
            n == s@.len(),
            i <= n,
            v@ == s@.subrange(0, i as int),
        decreases n - i,
    {
        let c = s.get_char(i);
        v.push(c);
        i = i + 1;
        proof {
            assert(v@ =~= s@.subrange(0, i as int));
        }
    }
    proof {
        assert(v@ =~= s@);
    }
    v
}

/// Relies on String::push: appends one code point at the end of the string.
#[verifier::external_body]
pub(crate) fn push_char(s: &mut String, c: char)
    ensures
        final(s)@ == old(s)@.push(c),
{
    s.push(c);
}

/// ASCII-case-insensitive equality of two code points: equal, or the same
/// ASCII letter in different cases.
pub open spec fn ci_eq(x: char, y: char) -> bool {
    ||| x == y
    ||| (65 <= x as u32 <= 90 && y as u32 == x as u32 + 32)
    ||| (65 <= y as u32 <= 90 && x as u32 == y as u32 + 32)
}

pub fn ci_eq_chars(x: char, y: char) -> (r: bool)
    ensures
        r == ci_eq(x, y),
{
    let xu = x as u32;
    let yu = y as u32;
    x == y || (65 <= xu && xu <= 90 && yu == xu + 32) || (65 <= yu && yu <= 90 && xu == yu + 32)
}

/// ASCII-case-insensitive equality of two code-point sequences.
pub open spec fn ci_seq_eq(a: Seq<char>, b: Seq<char>) -> bool {
    a.len() == b.len() && forall|i: int| 0 <= i < a.len() ==> ci_eq(a[i], b[i])
}

pub fn str_eq_ci(a: &str, b: &str) -> (r: bool)
    ensures
        r == ci_seq_eq(a@, b@),
{
    let av = chars_vec(a);
    let bv = chars_vec(b);
    if av.len() != bv.len() {
        return false;
    }
    let n = av.len();
    let mut i: usize = 0;
    while i < n
        invariant
            av@ == a@,
            bv@ == b@,
            n == a@.len() == b@.len(),
            i <= n,
            forall|k: int| 0 <= k < i ==> ci_eq(a@[k], b@[k]),
        decreases n - i,
    {
        if !ci_eq_chars(av[i], bv[i]) {
            assert(!ci_eq(a@[i as int], b@[i as int]));
            return false;
        }
        i = i + 1;
    }
    true
}

/// Exact equality of the code points of two strings.
pub fn str_eq(a: &str, b: &str) -> (r: bool)
    ensures
        r == (a@ == b@),
{
    let av = chars_vec(a);
    let bv = chars_vec(b);
    if av.len() != bv.len() {
        return false;
    }
    let n = av.len();
    let mut i: usize = 0;
    while i < n
        invariant
            av@ == a@,
            bv@ == b@,
            n == a@.len() == b@.len(),
            i <= n,
            forall|k: int| 0 <= k < i ==> a@[k] == b@[k],
        decreases n - i,
    {
        if av[i] != bv[i] {
            return false;
        }
        i = i + 1;
    }
    proof {
        assert(a@ =~= b@);
    }
    true
}

/// The word `w` occurs at offset `i` of `s`, ASCII-case-insensitively.
pub open spec fn ci_match_at(s: Seq<char>, w: Seq<char>, i: int) -> bool {
    forall|k: int| 0 <= k < w.len() ==> ci_eq(s[i + k], w[k])
}

/// The word `w` occurs somewhere in `s`, ASCII-case-insensitively.
pub open spec fn ci_contains(s: Seq<char>, w: Seq<char>) -> bool {
    exists|i: int| 0 <= i <= s.len() - w.len() && ci_match_at(s, w, i)
}

pub fn str_contains_ci(s: &str, w: &str) -> (r: bool)
    ensures
        r == ci_contains(s@, w@),
{
    let sv = chars_vec(s);
    let wv = chars_vec(w);
    let n = sv.len();
    let wn = wv.len();
    if wn > n {
        return false;
    }
    let mut i: usize = 0;
    while i <= n - wn
        invariant
            sv@ == s@,
            wv@ == w@,
            n == s@.len(),
            wn == w@.len(),
            wn <= n,
            i <= n - wn + 1,
            forall|p: int| 0 <= p < i ==> !ci_match_at(s@, w@, p),
        decreases n - wn + 1 - i,
    {
        let mut k: usize = 0;
        let mut hit = true;
        while k < wn
            invariant
                sv@ == s@,
                wv@ == w@,
                n == s@.len(),
                wn == w@.len(),
                wn <= n,
                i <= n - wn,
                k <= wn,
                hit == forall|q: int| 0 <= q < k ==> ci_eq(s@[i + q], w@[q]),
            decreases wn - k,
        {
            if !ci_eq_chars(sv[i + k], wv[k]) {
                assert(!ci_eq(s@[i as int + k as int], w@[k as int]));
                hit = false;
                k = wn;
            } else {
                assert(hit == forall|q: int| 0 <= q < k + 1 ==> ci_eq(s@[i + q], w@[q]));
                k = k + 1;
            }
        }
        if hit {
            assert(ci_match_at(s@, w@, i as int));
            return true;
        }
        assert(!ci_match_at(s@, w@, i as int));
        i = i + 1;
    }
    false
}

/// The code point is one of the six ASCII whitespace characters that the
/// engine's grammars treat as blank.
pub open spec fn is_ws(c: char) -> bool {
    c == ' ' || c == '\t' || c == '\n' || c == '\r' || c == '\u{b}' || c == '\u{c}'
}

pub fn is_ws_char(c: char) -> (r: bool)
    ensures
        r == is_ws(c),
{
    c == ' ' || c == '\t' || c == '\n' || c == '\r' || c == '\u{b}' || c == '\u{c}'
}

/// The code point is an ASCII decimal digit.
pub open spec fn is_digit(c: char) -> bool {
    48 <= c as u32 <= 57
}

pub fn is_digit_char(c: char) -> (r: bool)
    ensures
        r == is_digit(c),
{
    let cu = c as u32;
    48 <= cu && cu <= 57
}

/// The numeric value of an ASCII decimal digit.
pub open spec fn digit_val(c: char) -> nat {
    (c as u32 - 48) as nat
}

/// The value of a sequence of ASCII decimal digits, most significant first.
pub open spec fn dec_val(s: Seq<char>) -> nat
    decreases s.len(),
{
    if s.len() == 0 {
        0
    } else {
        dec_val(s.drop_last()) * 10 + digit_val(s.last())
    }
}

/// A decimal numeral body: what remains after an optional leading plus sign.
pub open spec fn numeral_body(s: Seq<char>) -> Seq<char> {
    if s.len() >= 1 && s[0] == '+' {
        s.drop_first()
    } else {
        s
    }
}

/// The string is a well-formed unsigned decimal numeral: an optional plus
/// sign followed by one or more ASCII digits.
pub open spec fn numeral_ok(s: Seq<char>) -> bool {
    numeral_body(s).len() >= 1 && forall|i: int|
        0 <= i < numeral_body(s).len() ==> is_digit(numeral_body(s)[i])
}

/// The value of a well-formed unsigned decimal numeral.
pub open spec fn numeral_val(s: Seq<char>) -> nat {
    dec_val(numeral_body(s))
}

proof fn lemma_dec_val_prefix_le(t: Seq<char>, l: int)
    requires
        0 <= l <= t.len(),
    ensures
        dec_val(t.subrange(0, l)) <= dec_val(t),
    decreases t.len() - l,
{
    if l < t.len() {
        assert(t.subrange(0, l + 1).drop_last() =~= t.subrange(0, l));
        assert(dec_val(t.subrange(0, l)) <= dec_val(t.subrange(0, l + 1)));
        lemma_dec_val_prefix_le(t, l + 1);
    } else {
        assert(t.subrange(0, l) =~= t);
    }
}

/// Parses an unsigned decimal numeral as Rust's `from_str_radix` with radix
/// 10 does (an optional leading `+`, then ASCII digits), refusing values
/// above `cap`.
pub fn parse_dec_capped(s: &str, cap: u32) -> (r: Option<u32>)
    requires
        cap <= 0xFFFF,
    ensures
        r is Some <==> numeral_ok(s@) && numeral_val(s@) <= cap,
        r is Some ==> r->0 == numeral_val(s@),
{
    let cs = chars_vec(s);
    let mut start: usize = 0;
    if cs.len() > 0 && cs[0] == '+' {
        start = 1;
    }
    let ghost body = numeral_body(s@);
    proof {
        assert(body =~= s@.subrange(start as int, s@.len() as int));
    }
    if start >= cs.len() {
        return None;
    }
    let n = cs.len();
    let mut acc: u32 = 0;
    let mut k = start;
    while k < n
        invariant
            cs@ == s@,
            n == s@.len(),
            body == numeral_body(s@),
            body =~= s@.subrange(start as int, n as int),
            start <= k <= n,
            cap <= 0xFFFF,
            acc <= cap,
            acc == dec_val(s@.subrange(start as int, k as int)),
            forall|q: int| start <= q < k ==> is_digit(s@[q]),
        decreases n - k,
    {
        let c = cs[k];
        let cu = c as u32;
        if !(48 <= cu && cu <= 57) {
            assert(!is_digit(body[k - start]));
            return None;
        }
        let d = cu - 48;
        let next = acc * 10 + d;
        proof {
            assert(s@.subrange(start as int, k + 1).drop_last() =~= s@.subrange(
                start as int,
                k as int,
            ));
            assert(dec_val(s@.subrange(start as int, k + 1)) == acc * 10 + d);
        }
        if next > cap {
            proof {
                if numeral_ok(s@) {
                    lemma_dec_val_prefix_le(body, k + 1 - start);
                    assert(body.subrange(0, k + 1 - start) =~= s@.subrange(start as int, k + 1));
                    assert(numeral_val(s@) >= next);
                }
            }
            return None;
        }
        acc = next;
        k = k + 1;
    }
    proof {
        assert(s@.subrange(start as int, n as int) =~= body);
    }
    Some(acc)
}

/// The value of a vector of ASCII digits, refused above `cap` or when
/// empty.
pub fn parse_digits_capped(v: &Vec<char>, cap: u32) -> (r: Option<u32>)
    requires
        cap <= 0xFFFF,
        forall|k: int| 0 <= k < v@.len() ==> is_digit(#[trigger] v@[k]),
    ensures
        r is Some <==> v@.len() >= 1 && dec_val(v@) <= cap,
        r is Some ==> r->0 == dec_val(v@),
{
    let n = v.len();
    if n == 0 {
        return None;
    }
    let mut acc: u32 = 0;
    let mut k: usize = 0;
    proof {
        assert(v@.subrange(0, 0) =~= Seq::<char>::empty());
    }
    while k < n
        invariant
            n == v@.len(),
            k <= n,
            cap <= 0xFFFF,
            acc <= cap,
            forall|q: int| 0 <= q < v@.len() ==> is_digit(#[trigger] v@[q]),
            acc == dec_val(v@.subrange(0, k as int)),
        decreases n - k,
    {
        let cu = v[k] as u32;
        let d = cu - 48;
        let next = acc * 10 + d;
        proof {
            assert(v@.subrange(0, k + 1).drop_last() =~= v@.subrange(0, k as int));
            assert(dec_val(v@.subrange(0, k + 1)) == acc * 10 + d);
        }
        if next > cap {
            proof {
                lemma_dec_val_prefix_le(v@, k + 1);
                assert(dec_val(v@) >= next);
            }
            return None;
        }
        acc = next;
        k = k + 1;
    }
    proof {
        assert(v@.subrange(0, n as int) =~= v@);
    }
    Some(acc)
}

/// The ASCII digit for a value below ten.
pub open spec fn digit_char(d: int) -> char {
    if d == 0 {
        '0'
    } else if d == 1 {
        '1'
    } else if d == 2 {
        '2'
    } else if d == 3 {
        '3'
    } else if d == 4 {
        '4'
    } else if d == 5 {
        '5'
    } else if d == 6 {
        '6'
    } else if d == 7 {
        '7'
    } else if d == 8 {
        '8'
    } else {
        '9'
    }
}

/// The decimal numeral of `n`, most significant digit first.
pub open spec fn dec_str(n: nat) -> Seq<char>
    decreases n,
{
    if n < 10 {
        seq![digit_char(n as int)]
    } else {
        dec_str(n / 10).push(digit_char((n % 10) as int))
    }
}

fn digit_char_exec(d: u64) -> (c: char)
    requires
        d < 10,
    ensures
        c == digit_char(d as int),
{
    if d == 0 {
        '0'
    } else if d == 1 {
        '1'
    } else if d == 2 {
        '2'
    } else if d == 3 {
        '3'
    } else if d == 4 {
        '4'
    } else if d == 5 {
        '5'
    } else if d == 6 {
        '6'
    } else if d == 7 {
        '7'
    } else if d == 8 {
        '8'
    } else {
        '9'
    }
}

/// The decimal numeral of `n`, as a code-point vector.
pub fn dec_chars_u64(n: u64) -> (v: Vec<char>)
    ensures
        v@ == dec_str(n as nat),
{
    let mut digits: Vec<char> = Vec::new();
    let mut cur = n;
    while cur >= 10
        invariant
            dec_str(n as nat) =~= dec_str(cur as nat) + digits@.reverse(),
        decreases cur,
    {
        let d = digit_char_exec(cur % 10);
        digits.push(d);
        proof {
            assert(digits@.reverse() =~= seq![d] + digits@.drop_last().reverse());
            assert(dec_str(cur as nat) == dec_str(cur as nat / 10).push(d));
            assert(dec_str(cur as nat) + digits@.drop_last().reverse() =~= dec_str(
                cur as nat / 10,
            ) + digits@.reverse());
        }
        cur = cur / 10;
    }
    let d = digit_char_exec(cur);
    digits.push(d);
    proof {
        assert(dec_str(cur as nat) =~= seq![d]);
        assert(digits@.reverse() =~= seq![d] + digits@.drop_last().reverse());
        assert(digits@.reverse() =~= dec_str(n as nat));
    }
    let m = digits.len();
    let mut v: Vec<char> = Vec::new();
    let mut i: usize = 0;
    while i < m
        invariant
            m == digits@.len(),
            i <= m,
            v@ =~= digits@.reverse().subrange(0, i as int),
        decreases m - i,
    {
        v.push(digits[m - 1 - i]);
        i = i + 1;
        proof {
            assert(v@ =~= digits@.reverse().subrange(0, i as int));
        }
    }
    proof {
        assert(v@ =~= digits@.reverse());
    }
    v
}

/// The ASCII digits of `s`, in order, with every other code point dropped.
pub open spec fn digits_of(s: Seq<char>) -> Seq<char>
    decreases s.len(),
{
    if s.len() == 0 {
        Seq::empty()
    } else if is_digit(s.last()) {
        digits_of(s.drop_last()).push(s.last())
    } else {
        digits_of(s.drop_last())
    }
}

/// Keeps only the ASCII digits of `s`.
pub fn strip_non_digits(s: &str) -> (v: Vec<char>)
    ensures
        v@ == digits_of(s@),
{
    let cs = chars_vec(s);
    let n = cs.len();
    let mut v: Vec<char> = Vec::new();
    let mut i: usize = 0;
    while i < n
        invariant
            cs@ == s@,
            n == s@.len(),
            i <= n,
            v@ == digits_of(s@.subrange(0, i as int)),
        decreases n - i,
    {
        proof {
            assert(s@.subrange(0, i + 1).drop_last() =~= s@.subrange(0, i as int));
            assert(s@.subrange(0, i + 1).last() == s@[i as int]);
        }
        if is_digit_char(cs[i]) {
            v.push(cs[i]);
        }
        i = i + 1;
    }
    proof {
        assert(s@.subrange(0, n as int) =~= s@);
    }
    v
}

/// The first index at or after `from` whose code point is not ASCII
/// whitespace, or the length of `s` when only whitespace remains.
pub open spec fn ws_end(s: Seq<char>, from: int) -> int
    decreases s.len() - from,
{
    if from >= s.len() {
        s.len() as int
    } else if is_ws(s[from]) {
        ws_end(s, from + 1)
    } else {
        from
    }
}

pub proof fn lemma_ws_end_bounds(s: Seq<char>, from: int)
    requires
        0 <= from <= s.len(),
    ensures
        from <= ws_end(s, from) <= s.len(),
    decreases s.len() - from,
{
    if from < s.len() && is_ws(s[from]) {
        lemma_ws_end_bounds(s, from + 1);
    }
}

fn ws_end_exec(cs: &Vec<char>, from: usize) -> (r: usize)
    requires
        from <= cs@.len(),
    ensures
        r as int == ws_end(cs@, from as int),
        from <= r <= cs@.len(),
{
    let n = cs.len();
    let mut k = from;
    while k < n
        invariant
            n == cs@.len(),
            from <= k <= n,
            ws_end(cs@, from as int) == ws_end(cs@, k as int),
        decreases n - k,
    {
        if !is_ws_char(cs[k]) {
            return k;
        }
        k = k + 1;
    }
    k
}

/// The first `)` at or after `d`, provided only non-newline code points
/// stand before it; `None` when a newline or the end of the string comes
/// first.
pub open spec fn close_from(s: Seq<char>, d: int) -> Option<int>
    decreases s.len() - d,
{
    if d >= s.len() {
        None
    } else if s[d] == ')' {
        Some(d)
    } else if s[d] == '\n' {
        None
    } else {
        close_from(s, d + 1)
    }
}

pub proof fn lemma_close_from_bounds(s: Seq<char>, d: int)
    requires
        0 <= d,
    ensures
        close_from(s, d) matches Some(e) ==> d <= e < s.len(),
    decreases s.len() - d,
{
    if d < s.len() && s[d] != ')' && s[d] != '\n' {
        lemma_close_from_bounds(s, d + 1);
    }
}

fn close_from_exec(cs: &Vec<char>, d: usize) -> (r: Option<usize>)
    requires
        d <= cs@.len(),
    ensures
        r is Some <==> close_from(cs@, d as int) is Some,
        r matches Some(e) ==> close_from(cs@, d as int) == Some(e as int) && d <= e < cs@.len(),
{
    let n = cs.len();
    let mut k = d;
    while k < n
        invariant
            n == cs@.len(),
            d <= k <= n,
            close_from(cs@, d as int) == close_from(cs@, k as int),
        decreases n - k,
    {
        if cs[k] == ')' {
            return Some(k);
        }
        if cs[k] == '\n' {
            return None;
        }
        k = k + 1;
    }
    None
}

/// A "(feat ...)" annotation starts at `i`: `(`, the word `feat` in either
/// case, an optional period, at least one blank, then at least one
/// non-newline code point up to the first `)`. Yields the index just past
/// that `)`.
pub open spec fn feat_tag_end(s: Seq<char>, i: int) -> Option<int> {
    if !(0 <= i && i + 5 <= s.len() && s[i] == '(' && ci_eq(s[i + 1], 'f') && ci_eq(s[i + 2], 'e')
        && ci_eq(s[i + 3], 'a') && ci_eq(s[i + 4], 't')) {
        None
    } else {
        let p = if i + 5 < s.len() && s[i + 5] == '.' {
            i + 6
        } else {
            i + 5
        };
        let d = ws_end(s, p);
        if d <= p {
            None
        } else {
            match close_from(s, d) {
                Some(e) => if e > d {
                    Some(e + 1)
                } else {
                    None
                },
                None => None,
            }
        }
    }
}

pub proof fn lemma_feat_tag_end_bounds(s: Seq<char>, i: int)
    ensures
        feat_tag_end(s, i) matches Some(e) ==> i + 1 <= e <= s.len(),
{
    if 0 <= i && i + 5 <= s.len() {
        let p = if i + 5 < s.len() && s[i + 5] == '.' {
            i + 6
        } else {
            i + 5
        };
        lemma_ws_end_bounds(s, p);
        lemma_close_from_bounds(s, ws_end(s, p));
    }
}

fn feat_tag_end_exec(cs: &Vec<char>, i: usize) -> (r: Option<usize>)
    requires
        i < cs@.len(),
    ensures
        r is Some <==> feat_tag_end(cs@, i as int) is Some,
        r matches Some(e) ==> feat_tag_end(cs@, i as int) == Some(e as int) && i < e <= cs@.len(),
{
    let n = cs.len();
    if n - i < 5 {
        return None;
    }
    if !(cs[i] == '(' && ci_eq_chars(cs[i + 1], 'f') && ci_eq_chars(cs[i + 2], 'e') && ci_eq_chars(
        cs[i + 3],
        'a',
    ) && ci_eq_chars(cs[i + 4], 't')) {
        return None;
    }
    let p = if i + 5 < n && cs[i + 5] == '.' {
        i + 6
    } else {
        i + 5
    };
    let d = ws_end_exec(cs, p);
    if d <= p {
        return None;
    }
    match close_from_exec(cs, d) {
        Some(e) => {
            if e > d {
                Some(e + 1)
            } else {
                None
            }
        },
        None => None,
    }
}

/// `s` with every "(feat ...)" annotation at or after `i` removed.
pub open spec fn strip_feat_from(s: Seq<char>, i: int) -> Seq<char>
    decreases s.len() - i,
{
    if i < 0 || i >= s.len() {
        Seq::empty()
    } else {
        match feat_tag_end(s, i) {
            Some(e) => {
                proof {
                    lemma_feat_tag_end_bounds(s, i);
                }
                strip_feat_from(s, e)
            },
            None => seq![s[i]] + strip_feat_from(s, i + 1),
        }
    }
}

/// `s` with every "(feat ...)" annotation removed.
pub open spec fn strip_feat(s: Seq<char>) -> Seq<char> {
    strip_feat_from(s, 0)
}

/// Removes every "(feat ...)" annotation, in either letter case and with an
/// optional period, from the title.
pub fn normalize_track_title(s: &str) -> (r: String)
    ensures
        r@ == strip_feat(s@),
{
    let cs = chars_vec(s);
    let n = cs.len();
    let mut out = String::new();
    let mut i: usize = 0;
    proof {
        assert(Seq::<char>::empty() + strip_feat_from(s@, 0) =~= strip_feat_from(s@, 0));
    }
    while i < n
        invariant
            cs@ == s@,
            n == s@.len(),
            i <= n,
            strip_feat(s@) == out@ + strip_feat_from(s@, i as int),
        decreases n - i,
    {
        match feat_tag_end_exec(&cs, i) {
            Some(e) => {
                i = e;
            },
            None => {
                push_char(&mut out, cs[i]);
                proof {
                    assert(out@ + strip_feat_from(s@, i + 1) =~= out@.drop_last() + (seq![s@[i as int]]
                        + strip_feat_from(s@, i + 1)));
                }
                i = i + 1;
            },
        }
    }
    proof {
        assert(out@ + strip_feat_from(s@, n as int) =~= out@);
    }
    out
}

/// A bracketed deluxe-edition tag starts at `i` with the given opener and
/// closer: the opener, the word `deluxe` in either case, at least one blank,
/// the word `edition` in either case, then the closer. Yields the index just
/// past the closer.
pub open spec fn deluxe_bracket_end(s: Seq<char>, i: int, open: char, close: char) -> Option<int> {
    if !(0 <= i && i + 7 <= s.len() && s[i] == open && ci_eq(s[i + 1], 'd') && ci_eq(s[i + 2], 'e')
        && ci_eq(s[i + 3], 'l') && ci_eq(s[i + 4], 'u') && ci_eq(s[i + 5], 'x') && ci_eq(
        s[i + 6],
        'e',
    )) {
        None
    } else {
        let d = ws_end(s, i + 7);
        if d <= i + 7 || d + 8 > s.len() {
            None
        } else if ci_eq(s[d], 'e') && ci_eq(s[d + 1], 'd') && ci_eq(s[d + 2], 'i') && ci_eq(
            s[d + 3],
            't',
        ) && ci_eq(s[d + 4], 'i') && ci_eq(s[d + 5], 'o') && ci_eq(s[d + 6], 'n') && s[d + 7]
            == close {
            Some(d + 8)
        } else {
            None
        }
    }
}

/// A deluxe-edition tag in square brackets or parentheses starts at `i`.
pub open spec fn deluxe_tag_end(s: Seq<char>, i: int) -> Option<int> {
    if deluxe_bracket_end(s, i, '[', ']') is Some {
        deluxe_bracket_end(s, i, '[', ']')
    } else {
        deluxe_bracket_end(s, i, '(', ')')
    }
}

pub proof fn lemma_deluxe_tag_end_bounds(s: Seq<char>, i: int)
    ensures
        deluxe_tag_end(s, i) matches Some(e) ==> i + 1 <= e <= s.len(),
{
    if 0 <= i && i + 7 <= s.len() {
        lemma_ws_end_bounds(s, i + 7);
    }
}

fn deluxe_bracket_end_exec(cs: &Vec<char>, i: usize, open: char, close: char) -> (r: Option<usize>)
    requires
        i < cs@.len(),
    ensures
        r is Some <==> deluxe_bracket_end(cs@, i as int, open, close) is Some,
        r matches Some(e) ==> deluxe_bracket_end(cs@, i as int, open, close) == Some(e as int) && i
            < e <= cs@.len(),
{
    let n = cs.len();
    if n - i < 7 {
        return None;
    }
    if !(cs[i] == open && ci_eq_chars(cs[i + 1], 'd') && ci_eq_chars(cs[i + 2], 'e') && ci_eq_chars(
        cs[i + 3],
        'l',
    ) && ci_eq_chars(cs[i + 4], 'u') && ci_eq_chars(cs[i + 5], 'x') && ci_eq_chars(cs[i + 6], 'e')) {
        return None;
    }
    let d = ws_end_exec(cs, i + 7);
    if d <= i + 7 || n - d < 8 {
        return None;
    }
    if ci_eq_chars(cs[d], 'e') && ci_eq_chars(cs[d + 1], 'd') && ci_eq_chars(cs[d + 2], 'i')
        && ci_eq_chars(cs[d + 3], 't') && ci_eq_chars(cs[d + 4], 'i') && ci_eq_chars(cs[d + 5], 'o')
        && ci_eq_chars(cs[d + 6], 'n') && cs[d + 7] == close {
        Some(d + 8)
    } else {
        None
    }
}

/// `s` with every deluxe-edition tag at or after `i` removed.
pub open spec fn strip_deluxe_from(s: Seq<char>, i: int) -> Seq<char>
    decreases s.len() - i,
{
    if i < 0 || i >= s.len() {
        Seq::empty()
    } else {
        match deluxe_tag_end(s, i) {
            Some(e) => {
                proof {
                    lemma_deluxe_tag_end_bounds(s, i);
                }
                strip_deluxe_from(s, e)
            },
            None => seq![s[i]] + strip_deluxe_from(s, i + 1),
        }
    }
}

/// `s` with every deluxe-edition tag removed.
pub open spec fn strip_deluxe(s: Seq<char>) -> Seq<char> {
    strip_deluxe_from(s, 0)
}

/// Removes every "[Deluxe Edition]" or "(Deluxe Edition)" tag, in either
/// letter case, from the album title.
pub fn normalize_album_title(s: &str) -> (r: String)
    ensures
        r@ == strip_deluxe(s@),
{
    let cs = chars_vec(s);
    let n = cs.len();
    let mut out = String::new();
    let mut i: usize = 0;
    proof {
        assert(Seq::<char>::empty() + strip_deluxe_from(s@, 0) =~= strip_deluxe_from(s@, 0));
    }
    while i < n
        invariant
            cs@ == s@,
            n == s@.len(),
            i <= n,
            strip_deluxe(s@) == out@ + strip_deluxe_from(s@, i as int),
        decreases n - i,
    {
        let tag = match deluxe_bracket_end_exec(&cs, i, '[', ']') {
            Some(e) => Some(e),
            None => deluxe_bracket_end_exec(&cs, i, '(', ')'),
        };
        match tag {
            Some(e) => {
                assert(deluxe_tag_end(s@, i as int) == Some(e as int));
                i = e;
            },
            None => {
                assert(deluxe_tag_end(s@, i as int) is None);
                push_char(&mut out, cs[i]);
                proof {
                    assert(out@ + strip_deluxe_from(s@, i + 1) =~= out@.drop_last() + (seq![
                        s@[i as int],
                    ] + strip_deluxe_from(s@, i + 1)));
                }
                i = i + 1;
            },
        }
    }
    proof {
        assert(out@ + strip_deluxe_from(s@, n as int) =~= out@);
    }
    out
}

/// A trailing "(feat. ...)" annotation follows the title prefix that ends at
/// `q`: at least one blank, the exact text `(feat.`, at least one further
/// blank, then at least one non-newline code point, with `)` as the final
/// code point of the whole title; the prefix itself holds no newline.
pub open spec fn feat_suffix_at(s: Seq<char>, q: int) -> bool {
    let c = ws_end(s, q);
    let d = ws_end(s, c + 6);
    &&& 1 <= q < s.len()
    &&& c > q
    &&& c + 6 <= s.len()
    &&& s[c] == '(' && s[c + 1] == 'f' && s[c + 2] == 'e' && s[c + 3] == 'a' && s[c + 4] == 't'
        && s[c + 5] == '.'
    &&& d > c + 6
    &&& d <= s.len() - 2
    &&& s[s.len() - 1] == ')'
    &&& forall|k: int| d <= k < s.len() - 1 ==> s[k] != '\n'
    &&& forall|k: int| 0 <= k < q ==> s[k] != '\n'
}

/// The end of the longest title prefix that a trailing "(feat. ...)"
/// annotation follows, scanning candidate prefix ends from `b` downward;
/// -1 when no prefix end at or below `b` qualifies.
pub open spec fn feat_base_end_from(s: Seq<char>, b: int) -> int
    decreases b,
{
    if b < 1 {
        -1
    } else if feat_suffix_at(s, b) {
        b
    } else {
        feat_base_end_from(s, b - 1)
    }
}

/// The end of the longest title prefix that a trailing "(feat. ...)"
/// annotation follows, or -1 when the title carries no such annotation.
/// The shortest annotation takes ten code points, so the scan starts
/// there.
pub open spec fn feat_base_end(s: Seq<char>) -> int {
    feat_base_end_from(s, s.len() - 10)
}

/// The title ends in a "(feat. ...)" annotation.
pub open spec fn has_feat_suffix(s: Seq<char>) -> bool {
    feat_base_end(s) >= 1
}

proof fn lemma_feat_base_end_from_bounds(s: Seq<char>, b: int)
    ensures
        feat_base_end_from(s, b) == -1 || 1 <= feat_base_end_from(s, b) <= b,
    decreases b,
{
    if b >= 1 && !feat_suffix_at(s, b) {
        lemma_feat_base_end_from_bounds(s, b - 1);
    }
}

/// The longest base before a trailing "(feat. ...)" annotation ends
/// strictly inside the title.
pub proof fn lemma_feat_base_end_range(s: Seq<char>)
    requires
        has_feat_suffix(s),
    ensures
        1 <= feat_base_end(s) <= s.len() - 10,
{
    lemma_feat_base_end_from_bounds(s, s.len() - 10);
}

/// A title as the recording resolver compares it: when it matches
/// `<base> (feat. <anything>)`, only the longest such `<base>`; otherwise
/// the title itself.
#[verifier::opaque]
pub open spec fn effective_title(t: Seq<char>) -> Seq<char> {
    if has_feat_suffix(t) {
        t.subrange(0, feat_base_end(t))
    } else {
        t
    }
}

/// The compared title is never longer than the raw one.
pub proof fn lemma_effective_title_len(t: Seq<char>)
    ensures
        effective_title(t).len() <= t.len(),
{
    reveal(effective_title);
    if has_feat_suffix(t) {
        lemma_feat_base_end_range(t);
    }
}

#[verifier::loop_isolation(false)]
fn feat_suffix_at_exec(cs: &Vec<char>, q: usize) -> (r: bool)
    requires
        1 <= q < cs@.len(),
    ensures
        r == feat_suffix_at(cs@, q as int),
{
    let n = cs.len();
    let c = ws_end_exec(cs, q);
    if c <= q {
        return false;
    }
    if n - c < 6 {
        return false;
    }
    if !(cs[c] == '(' && cs[c + 1] == 'f' && cs[c + 2] == 'e' && cs[c + 3] == 'a' && cs[c + 4]
        == 't' && cs[c + 5] == '.') {
        return false;
    }
    let d = ws_end_exec(cs, c + 6);
    if d <= c + 6 {
        return false;
    }
    if n - d < 2 {
        return false;
    }
    if cs[n - 1] != ')' {
        return false;
    }
    let mut k = d;
    while k < n - 1
        invariant
            n == cs@.len(),
            d <= k <= n - 1,
            forall|p: int| d <= p < k ==> cs@[p] != '\n',
        decreases n - k,
    {
        if cs[k] == '\n' {
            return false;
        }
        k = k + 1;
    }
    let mut t: usize = 0;
    while t < q
        invariant
            n == cs@.len(),
            q < n,
            t <= q,
            forall|p: int| 0 <= p < t ==> cs@[p] != '\n',
        decreases q - t,
    {
        if cs[t] == '\n' {
            return false;
        }
        t = t + 1;
    }
    true
}

/// When the title matches `<base> (feat. <anything>)`, yields the longest
/// such `<base>`; otherwise nothing. The `feat.` keyword is matched exactly,
/// with its period.
pub fn extract_title(title: &str) -> (r: Option<String>)
    ensures
        r is Some <==> has_feat_suffix(title@),
        r matches Some(base) ==> base@ == title@.subrange(0, feat_base_end(title@)) && base@
            == effective_title(title@),
        r is None ==> effective_title(title@) == title@,
{
    proof {
        reveal(effective_title);
    }
    let cs = chars_vec(title);
    let n = cs.len();
    if n < 11 {
        return None;
    }
    let mut q = n - 10;
    loop
        invariant
            cs@ == title@,
            n == title@.len(),
            n >= 11,
            1 <= q <= n - 10,
            feat_base_end(title@) == feat_base_end_from(title@, q as int),
        decreases q,
    {
        if feat_suffix_at_exec(&cs, q) {
            proof {
                reveal(effective_title);
                assert(feat_base_end(title@) == q);
            }
            let mut base = String::new();
            let mut i: usize = 0;
            while i < q
                invariant
                    cs@ == title@,
                    q <= n == title@.len(),
                    i <= q,
                    base@ == title@.subrange(0, i as int),
                decreases q - i,
            {
                push_char(&mut base, cs[i]);
                proof {
                    assert(base@ =~= title@.subrange(0, i + 1));
                }
                i = i + 1;
            }
            return Some(base);
        }
        if q == 1 {
            proof {
                reveal(effective_title);
                assert(feat_base_end_from(title@, 0) == -1);
                assert(feat_base_end(title@) == -1);
            }
            return None;
        }
        q = q - 1;
    }
}

} // verus!
