//! Character-level text operations with exact specifications.
//!
//! Everything here works on sequences of Unicode scalar values, which is what
//! `str` and `String` view as. The definitions follow the standard library's
//! behaviour for the operations the SOP format is defined in terms of:
//! `trim` (Unicode `White_Space`), `lines`, `split`, `find`, and decimal
//! integers.

use vstd::prelude::*;

verus! {

// ── Characters ──────────────────────────────────────────────────

/// `char::is_whitespace`: the Unicode `White_Space` property.
pub open spec fn is_ws(c: char) -> bool {
    let u = c as u32;
    (0x09 <= u && u <= 0x0D) || u == 0x20 || u == 0x85 || u == 0xA0 || u == 0x1680 || (0x2000
        <= u && u <= 0x200A) || u == 0x2028 || u == 0x2029 || u == 0x202F || u == 0x205F || u
        == 0x3000
}

pub fn char_is_ws(c: char) -> (r: bool)
    ensures
        r == is_ws(c),
{
    let u = c as u32;
    (0x09 <= u && u <= 0x0D) || u == 0x20 || u == 0x85 || u == 0xA0 || u == 0x1680 || (0x2000
        <= u && u <= 0x200A) || u == 0x2028 || u == 0x2029 || u == 0x202F || u == 0x205F || u
        == 0x3000
}

pub open spec fn is_digit(c: char) -> bool {
    48 <= (c as u32) && (c as u32) <= 57
}

pub open spec fn digit_value(c: char) -> nat {
    ((c as u32) - 48) as nat
}

pub open spec fn digit_char(d: nat) -> char
    recommends
        d < 10,
{
    if d == 0 {
        '0'
    } else if d == 1 {
        '1'
    } else if d == 2 {
        '2'
    } else if d == 3 {
        '3'
    } else if d == 4 {
        '4'
    } else if d == 5 {
        '5'
    } else if d == 6 {
        '6'
    } else if d == 7 {
        '7'
    } else if d == 8 {
        '8'
    } else {
        '9'
    }
}

/// `char::to_ascii_lowercase`.
pub open spec fn ascii_lower(c: char) -> char {
    if 'A' <= c && c <= 'Z' {
        ((c as u32) + 32) as char
    } else {
        c
    }
}

pub fn char_ascii_lower(c: char) -> (r: char)
    ensures
        r == ascii_lower(c),
{
    if 'A' <= c && c <= 'Z' {
        let u: u32 = (c as u32) + 32;
        assert(0x61 <= u <= 0x7a);
        char_from_ascii(u)
    } else {
        c
    }
}

fn char_from_ascii(u: u32) -> (r: char)
    requires
        u < 0x80,
    ensures
        r as u32 == u,
        r == u as char,
{
    (u as u8) as char
}

// ── Trimming ────────────────────────────────────────────────────

pub open spec fn trim_start(s: Seq<char>) -> Seq<char>
    decreases s.len(),
{
    if s.len() > 0 && is_ws(s[0]) {
        trim_start(s.drop_first())
    } else {
        s
    }
}

pub open spec fn trim_end(s: Seq<char>) -> Seq<char>
    decreases s.len(),
{
    if s.len() > 0 && is_ws(s.last()) {
        trim_end(s.drop_last())
    } else {
        s
    }
}

/// `str::trim`.
pub open spec fn trim(s: Seq<char>) -> Seq<char> {
    trim_end(trim_start(s))
}

pub open spec fn all_ws(s: Seq<char>) -> bool {
    forall|k: int| 0 <= k < s.len() ==> is_ws(#[trigger] s[k])
}

/// A sequence is trimmed when it is empty or both ends are not whitespace.
pub open spec fn is_trimmed(s: Seq<char>) -> bool {
    s.len() == 0 || (!is_ws(s[0]) && !is_ws(s.last()))
}

pub proof fn lemma_trim_start_skip(s: Seq<char>, i: int)
    requires
        0 <= i <= s.len(),
        all_ws(s.take(i)),
        i == s.len() || !is_ws(s[i]),
    ensures
        trim_start(s) == s.skip(i),
    decreases i,
{
    if i == 0 {
        assert(s.skip(0) =~= s);
    } else {
        assert(is_ws(s.take(i)[0]));
        let t = s.drop_first();
        assert forall|k: int| 0 <= k < i - 1 implies is_ws(#[trigger] t.take(i - 1)[k]) by {
            assert(t.take(i - 1)[k] == s.take(i)[k + 1]);
        }
        lemma_trim_start_skip(t, i - 1);
        assert(t.skip(i - 1) =~= s.skip(i));
    }
}

pub proof fn lemma_trim_end_take(s: Seq<char>, j: int)
    requires
        0 <= j <= s.len(),
        all_ws(s.skip(j)),
        j == 0 || !is_ws(s[j - 1]),
    ensures
        trim_end(s) == s.take(j),
    decreases s.len() - j,
{
    if j == s.len() {
        assert(s.take(j) =~= s);
    } else {
        assert(is_ws(s.skip(j)[s.len() - 1 - j]));
        let t = s.drop_last();
        assert forall|k: int| 0 <= k < t.len() - j implies is_ws(#[trigger] t.skip(j)[k]) by {
            assert(t.skip(j)[k] == s.skip(j)[k]);
        }
        lemma_trim_end_take(t, j);
        assert(t.take(j) =~= s.take(j));
    }
}

pub proof fn lemma_trim_trimmed(s: Seq<char>)
    requires
        is_trimmed(s),
    ensures
        trim(s) == s,
        trim_start(s) == s,
        trim_end(s) == s,
{
}

pub proof fn lemma_trim_start_ws_prefix(w: Seq<char>, s: Seq<char>)
    requires
        all_ws(w),
    ensures
        trim_start(w + s) == trim_start(s),
    decreases w.len(),
{
    if w.len() > 0 {
        assert((w + s)[0] == w[0]);
        assert((w + s).drop_first() =~= w.drop_first() + s);
        lemma_trim_start_ws_prefix(w.drop_first(), s);
    } else {
        assert(w + s =~= s);
    }
}

pub proof fn lemma_trim_end_ws_suffix(s: Seq<char>, w: Seq<char>)
    requires
        all_ws(w),
    ensures
        trim_end(s + w) == trim_end(s),
    decreases w.len(),
{
    if w.len() > 0 {
        assert((s + w).last() == w.last());
        assert((s + w).drop_last() =~= s + w.drop_last());
        lemma_trim_end_ws_suffix(s, w.drop_last());
    } else {
        assert(s + w =~= s);
    }
}

pub proof fn lemma_trim_start_nonws_head(a: Seq<char>, b: Seq<char>)
    requires
        a.len() > 0,
        !is_ws(a[0]),
    ensures
        trim_start(a + b) == a + b,
{
    assert((a + b)[0] == a[0]);
}

pub proof fn lemma_trim_end_nonws_tail(a: Seq<char>, b: Seq<char>)
    requires
        b.len() > 0,
        !is_ws(b.last()),
    ensures
        trim_end(a + b) == a + b,
{
    assert((a + b).last() == b.last());
}

/// Index of the first non-whitespace character (or the length).
pub fn first_non_ws(s: &Vec<char>) -> (i: usize)
    ensures
        i <= s@.len(),
        all_ws(s@.take(i as int)),
        i == s@.len() || !is_ws(s@[i as int]),
        trim_start(s@) == s@.skip(i as int),
{
    let mut i: usize = 0;
    while i < s.len() && char_is_ws(s[i])
        invariant
            i <= s@.len(),
            all_ws(s@.take(i as int)),
        decreases s@.len() - i,
    {
        assert(s@.take(i as int + 1) =~= s@.take(i as int).push(s@[i as int]));
        i = i + 1;
    }
    proof {
        lemma_trim_start_skip(s@, i as int);
    }
    i
}

/// Copy of `s[lo..hi]`.
pub fn slice_of(s: &Vec<char>, lo: usize, hi: usize) -> (r: Vec<char>)
    requires
        lo <= hi <= s@.len(),
    ensures
        r@ == s@.subrange(lo as int, hi as int),
{
    let mut r: Vec<char> = Vec::new();
    let mut k = lo;
    while k < hi
        invariant
            lo <= k <= hi <= s@.len(),
            r@ == s@.subrange(lo as int, k as int),
        decreases hi - k,
    {
        r.push(s[k]);
        assert(s@.subrange(lo as int, k + 1) =~= s@.subrange(lo as int, k as int).push(
            s@[k as int],
        ));
        k = k + 1;
    }
    r
}

/// `str::trim`.
pub fn trim_vec(s: &Vec<char>) -> (r: Vec<char>)
    ensures
        r@ == trim(s@),
{
    let i = first_non_ws(s);
    let mut j = s.len();
    while j > i && char_is_ws(s[j - 1])
        invariant
            i <= j <= s@.len(),
            all_ws(s@.subrange(j as int, s@.len() as int)),
        decreases j,
    {
        assert(s@.subrange(j - 1, s@.len() as int)[0] == s@[j - 1]);
        assert forall|k: int| 0 <= k < s@.len() - (j - 1) implies is_ws(
            #[trigger] s@.subrange(j - 1, s@.len() as int)[k],
        ) by {
            if k > 0 {
                assert(s@.subrange(j - 1, s@.len() as int)[k] == s@.subrange(
                    j as int,
                    s@.len() as int,
                )[k - 1]);
            }
        }
        j = j - 1;
    }
    let ghost t = s@.skip(i as int);
    proof {
        let jj = j - i;
        assert(t.skip(jj) =~= s@.subrange(j as int, s@.len() as int));
        if jj > 0 {
            assert(t[jj - 1] == s@[j - 1]);
        }
        lemma_trim_end_take(t, jj);
        assert(t.take(jj) =~= s@.subrange(i as int, j as int));
    }
    slice_of(s, i, j)
}

// ── Prefixes and searching ──────────────────────────────────────

pub open spec fn starts_with(s: Seq<char>, p: Seq<char>) -> bool {
    p.len() <= s.len() && s.take(p.len() as int) == p
}

pub fn vec_starts_with(s: &Vec<char>, p: &Vec<char>) -> (r: bool)
    ensures
        r == starts_with(s@, p@),
{
    if p.len() > s.len() {
        return false;
    }
    let mut k: usize = 0;
    while k < p.len()
        invariant
            p@.len() <= s@.len(),
            k <= p@.len(),
            forall|m: int| 0 <= m < k ==> s@[m] == p@[m],
        decreases p@.len() - k,
    {
        if s[k] != p[k] {
            assert(s@.take(p@.len() as int)[k as int] != p@[k as int]);
            return false;
        }
        k = k + 1;
    }
    assert(s@.take(p@.len() as int) =~= p@);
    true
}

/// `str::strip_prefix`.
pub open spec fn strip_prefix(s: Seq<char>, p: Seq<char>) -> Option<Seq<char>> {
    if starts_with(s, p) {
        Some(s.skip(p.len() as int))
    } else {
        None
    }
}

pub open spec fn occurs_at(s: Seq<char>, p: Seq<char>, i: int) -> bool {
    0 <= i && i + p.len() <= s.len() && s.subrange(i, i + p.len()) == p
}

pub open spec fn find_from(s: Seq<char>, p: Seq<char>, i: int) -> Option<int>
    decreases s.len() + 1 - i,
{
    if i < 0 || i + p.len() > s.len() {
        None
    } else if occurs_at(s, p, i) {
        Some(i)
    } else {
        find_from(s, p, i + 1)
    }
}

/// `str::find` with a string pattern: the first occurrence.
pub open spec fn find(s: Seq<char>, p: Seq<char>) -> Option<int> {
    find_from(s, p, 0)
}

pub proof fn lemma_find_from(s: Seq<char>, p: Seq<char>, i: int)
    requires
        0 <= i,
    ensures
        find_from(s, p, i) matches Some(k) ==> i <= k && occurs_at(s, p, k) && forall|j: int|
            i <= j < k ==> !occurs_at(s, p, j),
        find_from(s, p, i) is None ==> forall|j: int| i <= j ==> !occurs_at(s, p, j),
    decreases s.len() + 1 - i,
{
    if i + p.len() > s.len() {
    } else if occurs_at(s, p, i) {
    } else {
        lemma_find_from(s, p, i + 1);
    }
}

/// The first occurrence is where the pattern occurs with none before it.
pub proof fn lemma_find_is(s: Seq<char>, p: Seq<char>, k: int)
    requires
        occurs_at(s, p, k),
        forall|j: int| 0 <= j < k ==> !occurs_at(s, p, j),
    ensures
        find(s, p) == Some(k),
{
    lemma_find_from(s, p, 0);
    match find(s, p) {
        Some(k2) => {
            if k2 < k {
                assert(!occurs_at(s, p, k2));
            }
            if k < k2 {
                assert(!occurs_at(s, p, k));
            }
        },
        None => {
            assert(!occurs_at(s, p, k));
        },
    }
}

pub proof fn lemma_find_none(s: Seq<char>, p: Seq<char>)
    requires
        forall|j: int| 0 <= j ==> !occurs_at(s, p, j),
    ensures
        find(s, p) is None,
{
    lemma_find_from(s, p, 0);
}

fn occurs_at_exec(s: &Vec<char>, p: &Vec<char>, i: usize) -> (r: bool)
    requires
        i + p@.len() <= s@.len(),
    ensures
        r == occurs_at(s@, p@, i as int),
{
    let mut k: usize = 0;
    while k < p.len()
        invariant
            i + p@.len() <= s.len(),
            k <= p@.len(),
            forall|m: int| 0 <= m < k ==> s@[i + m] == p@[m],
        decreases p@.len() - k,
    {
        if s[i + k] != p[k] {
            assert(s@.subrange(i as int, i + p@.len())[k as int] != p@[k as int]);
            return false;
        }
        k = k + 1;
    }
    assert(s@.subrange(i as int, i + p@.len()) =~= p@);
    true
}

/// `str::find`.
pub fn vec_find(s: &Vec<char>, p: &Vec<char>) -> (r: Option<usize>)
    ensures
        r matches Some(k) ==> find(s@, p@) == Some(k as int),
        r is None ==> find(s@, p@) is None,
{
    if p.len() == 0 {
        proof {
            assert(s@.subrange(0, 0) =~= p@);
            lemma_find_is(s@, p@, 0);
        }
        return Some(0);
    }
    if p.len() > s.len() {
        proof {
            lemma_find_none(s@, p@);
        }
        return None;
    }
    let n = s.len() - p.len();
    let mut i: usize = 0;
    while i <= n
        invariant
            0 < p@.len() <= s@.len(),
            n == s@.len() - p@.len(),
            n < s.len(),
            i <= n + 1,
            forall|j: int| 0 <= j < i ==> !occurs_at(s@, p@, j),
        decreases n + 1 - i,
    {
        if occurs_at_exec(s, p, i) {
            proof {
                lemma_find_is(s@, p@, i as int);
            }
            return Some(i);
        }
        i = i + 1;
    }
    proof {
        lemma_find_none(s@, p@);
    }
    None
}

/// `str::find` with a single character.
pub open spec fn find_char(s: Seq<char>, c: char) -> Option<int> {
    find(s, seq![c])
}

pub open spec fn has_char(s: Seq<char>, c: char) -> bool {
    exists|k: int| 0 <= k < s.len() && s[k] == c
}

pub proof fn lemma_occurs_char(s: Seq<char>, c: char, k: int)
    ensures
        occurs_at(s, seq![c], k) <==> (0 <= k < s.len() && s[k] == c),
{
    if 0 <= k < s.len() && s[k] == c {
        assert(s.subrange(k, k + 1) =~= seq![c]);
    }
    if occurs_at(s, seq![c], k) {
        assert(s.subrange(k, k + 1)[0] == s[k]);
    }
}

pub proof fn lemma_find_char(s: Seq<char>, c: char)
    ensures
        find_char(s, c) matches Some(k) ==> 0 <= k < s.len() && s[k] == c && forall|j: int|
            0 <= j < k ==> s[j] != c,
        find_char(s, c) is None ==> !has_char(s, c),
{
    lemma_find_from(s, seq![c], 0);
    match find_char(s, c) {
        Some(k) => {
            lemma_occurs_char(s, c, k);
            assert forall|j: int| 0 <= j < k implies s[j] != c by {
                lemma_occurs_char(s, c, j);
            }
        },
        None => {
            assert forall|j: int| 0 <= j < s.len() implies s[j] != c by {
                lemma_occurs_char(s, c, j);
            }
        },
    }
}

pub proof fn lemma_find_char_is(s: Seq<char>, c: char, k: int)
    requires
        0 <= k < s.len(),
        s[k] == c,
        forall|j: int| 0 <= j < k ==> s[j] != c,
    ensures
        find_char(s, c) == Some(k),
{
    lemma_find_char(s, c);
    match find_char(s, c) {
        Some(k2) => {},
        None => {},
    }
}

pub proof fn lemma_find_char_none(s: Seq<char>, c: char)
    requires
        !has_char(s, c),
    ensures
        find_char(s, c) is None,
{
    lemma_find_char(s, c);
    match find_char(s, c) {
        Some(k2) => {},
        None => {},
    }
}

pub fn vec_find_char(s: &Vec<char>, c: char) -> (r: Option<usize>)
    ensures
        r matches Some(k) ==> find_char(s@, c) == Some(k as int),
        r is None ==> find_char(s@, c) is None,
{
    let mut i: usize = 0;
    while i < s.len()
        invariant
            i <= s@.len(),
            forall|j: int| 0 <= j < i ==> s@[j] != c,
        decreases s@.len() - i,
    {
        if s[i] == c {
            proof {
                lemma_find_char_is(s@, c, i as int);
            }
            return Some(i);
        }
        i = i + 1;
    }
    proof {
        lemma_find_char_none(s@, c);
    }
    None
}


// ── Splitting ───────────────────────────────────────────────────

/// `str::split` on a single character: every piece, empty ones included.
pub open spec fn split_char(s: Seq<char>, c: char) -> Seq<Seq<char>>
    decreases s.len(),
{
    if s.len() == 0 {
        seq![Seq::<char>::empty()]
    } else {
        let rest = split_char(s.drop_first(), c);
        if s[0] == c {
            seq![Seq::<char>::empty()] + rest
        } else {
            rest.update(0, seq![s[0]] + rest[0])
        }
    }
}

pub proof fn lemma_split_len(s: Seq<char>, c: char)
    ensures
        split_char(s, c).len() >= 1,
    decreases s.len(),
{
    if s.len() > 0 {
        lemma_split_len(s.drop_first(), c);
    }
}

pub proof fn lemma_split_no_char(x: Seq<char>, c: char)
    requires
        !has_char(x, c),
    ensures
        split_char(x, c) == seq![x],
    decreases x.len(),
{
    if x.len() > 0 {
        assert(x[0] != c);
        let t = x.drop_first();
        assert(!has_char(t, c)) by {
            if has_char(t, c) {
                let k = choose|k: int| 0 <= k < t.len() && t[k] == c;
                assert(x[k + 1] == c);
            }
        }
        lemma_split_no_char(t, c);
        assert(seq![x[0]] + t =~= x);
        assert(split_char(x, c) =~= seq![x]);
    } else {
        assert(x =~= Seq::<char>::empty());
    }
}

pub proof fn lemma_split_concat(x: Seq<char>, y: Seq<char>, c: char)
    requires
        !has_char(x, c),
    ensures
        split_char(x + seq![c] + y, c) == seq![x] + split_char(y, c),
    decreases x.len(),
{
    let s = x + seq![c] + y;
    if x.len() == 0 {
        assert(s.drop_first() =~= y);
        assert(x =~= Seq::<char>::empty());
    } else {
        assert(x[0] != c);
        let t = x.drop_first();
        assert(!has_char(t, c)) by {
            if has_char(t, c) {
                let k = choose|k: int| 0 <= k < t.len() && t[k] == c;
                assert(x[k + 1] == c);
            }
        }
        assert(s.drop_first() =~= t + seq![c] + y);
        lemma_split_concat(t, y, c);
        assert(seq![x[0]] + t =~= x);
        assert(split_char(s, c) =~= seq![x] + split_char(y, c));
    }
}

/// Appending one character to the text extends the split at its end.
pub proof fn lemma_split_push(s: Seq<char>, d: char, c: char)
    ensures
        split_char(s.push(d), c) == if d == c {
            split_char(s, c).push(Seq::<char>::empty())
        } else {
            let sp = split_char(s, c);
            sp.update(sp.len() - 1, sp.last().push(d))
        },
    decreases s.len(),
{
    lemma_split_len(s, c);
    let lhs = split_char(s.push(d), c);
    let sp0 = split_char(s, c);
    if s.len() == 0 {
        let sd = s.push(d);
        assert(sd.drop_first() =~= Seq::<char>::empty());
        assert(split_char(Seq::<char>::empty(), c) == seq![Seq::<char>::empty()]);
        assert(sp0 == seq![Seq::<char>::empty()]);
        assert(sd[0] == d);
        assert(split_char(sd.drop_first(), c) == seq![Seq::<char>::empty()]);
        if d != c {
            assert(seq![d] + Seq::<char>::empty() =~= Seq::<char>::empty().push(d));
            assert(lhs =~= sp0.update(sp0.len() - 1, sp0.last().push(d)));
        } else {
            assert(lhs =~= sp0.push(Seq::<char>::empty()));
        }
    } else {
        let t = s.drop_first();
        assert(s.push(d).drop_first() =~= t.push(d));
        lemma_split_push(t, d, c);
        lemma_split_len(t, c);
        let sp = split_char(t, c);
        let rest2 = split_char(t.push(d), c);
        if s[0] == c {
            assert(sp0 == seq![Seq::<char>::empty()] + sp);
            assert(lhs == seq![Seq::<char>::empty()] + rest2);
            if d == c {
                assert(lhs =~= sp0.push(Seq::<char>::empty()));
            } else {
                assert(lhs =~= sp0.update(sp0.len() - 1, sp0.last().push(d)));
            }
        } else {
            assert(sp0 == sp.update(0, seq![s[0]] + sp[0]));
            assert(lhs == rest2.update(0, seq![s[0]] + rest2[0]));
            if d == c {
                assert(rest2 == sp.push(Seq::<char>::empty()));
                assert(lhs =~= sp0.push(Seq::<char>::empty()));
            } else {
                assert(rest2 == sp.update(sp.len() - 1, sp.last().push(d)));
                if sp.len() == 1 {
                    assert(seq![s[0]] + sp[0].push(d) =~= (seq![s[0]] + sp[0]).push(d));
                }
                assert(lhs =~= sp0.update(sp0.len() - 1, sp0.last().push(d)));
            }
        }
    }
}

pub open spec fn views(v: Seq<Vec<char>>) -> Seq<Seq<char>> {
    v.map_values(|x: Vec<char>| x@)
}

/// `str::split` on a single character.
pub fn vec_split_char(s: &Vec<char>, c: char) -> (r: Vec<Vec<char>>)
    ensures
        views(r@) == split_char(s@, c),
{
    let mut done: Vec<Vec<char>> = Vec::new();
    let mut cur: Vec<char> = Vec::new();
    let mut i: usize = 0;
    assert(s@.take(0) =~= Seq::<char>::empty());
    assert(views(done@).push(cur@) =~= split_char(s@.take(0), c));
    while i < s.len()
        invariant
            i <= s@.len(),
            views(done@).push(cur@) == split_char(s@.take(i as int), c),
        decreases s@.len() - i,
    {
        let d = s[i];
        proof {
            assert(s@.take(i + 1) =~= s@.take(i as int).push(d));
            lemma_split_push(s@.take(i as int), d, c);
        }
        if d == c {
            let piece = cur;
            done.push(piece);
            cur = Vec::new();
            assert(views(done@).push(cur@) =~= split_char(s@.take(i + 1), c));
        } else {
            cur.push(d);
            assert(views(done@).push(cur@) =~= split_char(s@.take(i + 1), c));
        }
        i = i + 1;
    }
    assert(s@.take(s@.len() as int) =~= s@);
    done.push(cur);
    assert(views(done@) =~= split_char(s@, c));
    done
}

/// The pieces of `str::lines`: a `\r` is removed only where it precedes `\n`.
pub open spec fn strip_cr(s: Seq<char>) -> Seq<char> {
    if s.len() > 0 && s.last() == '\r' {
        s.drop_last()
    } else {
        s
    }
}

/// `str::lines`.
pub open spec fn lines(s: Seq<char>) -> Seq<Seq<char>> {
    let ps = split_char(s, '\n');
    let firsts = ps.drop_last().map_values(|p: Seq<char>| strip_cr(p));
    if ps.last().len() == 0 {
        firsts
    } else {
        firsts.push(ps.last())
    }
}

pub fn vec_lines(s: &Vec<char>) -> (r: Vec<Vec<char>>)
    ensures
        views(r@) == lines(s@),
{
    let mut ps = vec_split_char(s, '\n');
    let ghost full = ps@;
    proof {
        lemma_split_len(s@, '\n');
    }
    let last = ps.pop().unwrap();
    let ghost firsts = ps@;
    assert(firsts =~= full.drop_last());
    assert(last == full.last());
    let mut out: Vec<Vec<char>> = Vec::new();
    let mut k: usize = 0;
    while k < ps.len()
        invariant
            ps@ == firsts,
            k <= firsts.len(),
            out@.len() == k,
            forall|m: int| 0 <= m < k ==> (#[trigger] out@[m])@ == strip_cr(firsts[m]@),
        decreases firsts.len() - k,
    {
        let p = &ps[k];
        let n = p.len();
        let q = if n > 0 && p[n - 1] == '\r' {
            let q = slice_of(p, 0, n - 1);
            assert(p@.subrange(0, n - 1) =~= p@.drop_last());
            q
        } else {
            let q = slice_of(p, 0, n);
            assert(p@.subrange(0, n as int) =~= p@);
            q
        };
        out.push(q);
        k = k + 1;
    }
    if last.len() > 0 {
        out.push(last);
    }
    assert(views(out@) =~= lines(s@));
    out
}

/// Text made of lines, each followed by a newline.
pub open spec fn unlines(ls: Seq<Seq<char>>) -> Seq<char>
    decreases ls.len(),
{
    if ls.len() == 0 {
        Seq::empty()
    } else {
        ls[0] + seq!['\n'] + unlines(ls.drop_first())
    }
}

pub open spec fn is_line(l: Seq<char>) -> bool {
    !has_char(l, '\n') && !(l.len() > 0 && l.last() == '\r')
}

pub proof fn lemma_split_unlines(ls: Seq<Seq<char>>)
    requires
        forall|k: int| 0 <= k < ls.len() ==> !has_char(#[trigger] ls[k], '\n'),
    ensures
        split_char(unlines(ls), '\n') == ls.push(Seq::<char>::empty()),
    decreases ls.len(),
{
    if ls.len() == 0 {
        assert(split_char(unlines(ls), '\n') =~= ls.push(Seq::<char>::empty()));
    } else {
        let t = ls.drop_first();
        assert forall|k: int| 0 <= k < t.len() implies !has_char(#[trigger] t[k], '\n') by {
            assert(t[k] == ls[k + 1]);
        }
        lemma_split_unlines(t);
        assert(!has_char(ls[0], '\n'));
        lemma_split_concat(ls[0], unlines(t), '\n');
        assert(split_char(unlines(ls), '\n') =~= ls.push(Seq::<char>::empty()));
    }
}

/// Reading the lines back out of text made of lines gives the same lines.
pub proof fn lemma_lines_unlines(ls: Seq<Seq<char>>)
    requires
        forall|k: int| 0 <= k < ls.len() ==> is_line(#[trigger] ls[k]),
    ensures
        lines(unlines(ls)) == ls,
{
    assert forall|k: int| 0 <= k < ls.len() implies !has_char(#[trigger] ls[k], '\n') by {
        assert(is_line(ls[k]));
    }
    lemma_split_unlines(ls);
    let ps = ls.push(Seq::<char>::empty());
    assert(ps.drop_last() =~= ls);
    assert forall|k: int| 0 <= k < ls.len() implies strip_cr(#[trigger] ls[k]) == ls[k] by {
        assert(is_line(ls[k]));
    }
    assert(lines(unlines(ls)) =~= ls);
}

pub proof fn lemma_unlines_append(a: Seq<Seq<char>>, b: Seq<Seq<char>>)
    ensures
        unlines(a + b) == unlines(a) + unlines(b),
    decreases a.len(),
{
    if a.len() == 0 {
        assert(a + b =~= b);
        assert(unlines(a) + unlines(b) =~= unlines(b));
    } else {
        assert((a + b).drop_first() =~= a.drop_first() + b);
        lemma_unlines_append(a.drop_first(), b);
        assert(unlines(a + b) =~= unlines(a) + unlines(b));
    }
}

// ── Case ────────────────────────────────────────────────────────

pub open spec fn lower_seq(s: Seq<char>) -> Seq<char> {
    s.map_values(|c: char| ascii_lower(c))
}

/// `str::eq_ignore_ascii_case`.
pub open spec fn eq_ignore_ascii_case(a: Seq<char>, b: Seq<char>) -> bool {
    lower_seq(a) == lower_seq(b)
}

pub fn vec_lower(s: &Vec<char>) -> (r: Vec<char>)
    ensures
        r@ == lower_seq(s@),
{
    let mut r: Vec<char> = Vec::new();
    let mut k: usize = 0;
    while k < s.len()
        invariant
            k <= s@.len(),
            r@ == lower_seq(s@.take(k as int)),
        decreases s@.len() - k,
    {
        let c = char_ascii_lower(s[k]);
        r.push(c);
        assert(lower_seq(s@.take(k + 1)) =~= lower_seq(s@.take(k as int)).push(c));
        k = k + 1;
    }
    assert(s@.take(s@.len() as int) =~= s@);
    r
}

pub fn vec_eq(a: &Vec<char>, b: &Vec<char>) -> (r: bool)
    ensures
        r == (a@ == b@),
{
    if a.len() != b.len() {
        return false;
    }
    let mut k: usize = 0;
    while k < a.len()
        invariant
            a@.len() == b@.len(),
            k <= a@.len(),
            forall|m: int| 0 <= m < k ==> a@[m] == b@[m],
        decreases a@.len() - k,
    {
        if a[k] != b[k] {
            return false;
        }
        k = k + 1;
    }
    assert(a@ =~= b@);
    true
}

pub fn vec_eq_ignore_ascii_case(a: &Vec<char>, b: &Vec<char>) -> (r: bool)
    ensures
        r == eq_ignore_ascii_case(a@, b@),
{
    let la = vec_lower(a);
    let lb = vec_lower(b);
    vec_eq(&la, &lb)
}

// ── Conversions ─────────────────────────────────────────────────

/// The characters of a string slice.
pub fn chars_of(s: &str) -> (v: Vec<char>)
    ensures
        v@ == s@,
{
    let n = s.unicode_len();
    let mut v: Vec<char> = Vec::new();
    let mut k: usize = 0;
    while k < n
        invariant
            n == s@.len(),
            k <= n,
            v@ == s@.take(k as int),
        decreases n - k,
    {
        v.push(s.get_char(k));
        assert(s@.take(k + 1) =~= s@.take(k as int).push(s@[k as int]));
        k = k + 1;
    }
    assert(s@.take(n as int) =~= s@);
    v
}

/// `String::from_iter` over characters.
#[verifier::external_body]
pub fn string_of(v: &Vec<char>) -> (s: String)
    ensures
        s@ == v@,
{
    v.iter().collect()
}


/// `str::trim_start_matches` with a string pattern.
pub open spec fn trim_start_matches(s: Seq<char>, p: Seq<char>) -> Seq<char>
    decreases s.len(),
{
    if p.len() > 0 && starts_with(s, p) {
        trim_start_matches(s.skip(p.len() as int), p)
    } else {
        s
    }
}

pub fn vec_trim_start_matches(s: &Vec<char>, p: &Vec<char>) -> (r: Vec<char>)
    ensures
        r@ == trim_start_matches(s@, p@),
{
    if p.len() == 0 {
        let r = slice_of(s, 0, s.len());
        assert(r@ =~= s@);
        return r;
    }
    let mut i: usize = 0;
    let mut cur = slice_of(s, 0, s.len());
    assert(s@.subrange(0, s@.len() as int) =~= s@);
    while vec_starts_with(&cur, p)
        invariant
            p@.len() > 0,
            trim_start_matches(cur@, p@) == trim_start_matches(s@, p@),
        decreases cur@.len(),
    {
        let n = cur.len();
        let next = slice_of(&cur, p.len(), n);
        assert(next@ =~= cur@.skip(p@.len() as int));
        cur = next;
    }
    cur
}

// ── Decimal integers ────────────────────────────────────────────

pub open spec fn all_digits(s: Seq<char>) -> bool {
    forall|k: int| 0 <= k < s.len() ==> is_digit(#[trigger] s[k])
}

pub open spec fn digits_value(s: Seq<char>) -> nat
    decreases s.len(),
{
    if s.len() == 0 {
        0
    } else {
        digits_value(s.drop_last()) * 10 + digit_value(s.last())
    }
}

/// `str::parse::<u32>`: an optional `+`, then one or more ASCII digits whose
/// value fits.
pub open spec fn parse_u32(s: Seq<char>) -> Option<u32> {
    let d = if s.len() > 0 && s[0] == '+' {
        s.drop_first()
    } else {
        s
    };
    if d.len() > 0 && all_digits(d) && digits_value(d) <= u32::MAX {
        Some(digits_value(d) as u32)
    } else {
        None
    }
}

/// The decimal rendering of a number (`u32::to_string`).
pub open spec fn decimal(n: nat) -> Seq<char>
    decreases n,
{
    if n < 10 {
        seq![digit_char(n)]
    } else {
        decimal(n / 10).push(digit_char(n % 10))
    }
}

pub proof fn lemma_digit_char(d: nat)
    requires
        d < 10,
    ensures
        is_digit(digit_char(d)),
        digit_value(digit_char(d)) == d,
{
}

pub proof fn lemma_decimal(n: nat)
    ensures
        decimal(n).len() > 0,
        all_digits(decimal(n)),
        digits_value(decimal(n)) == n,
    decreases n,
{
    if n < 10 {
        lemma_digit_char(n);
        assert(decimal(n).drop_last() =~= Seq::<char>::empty());
        assert(decimal(n).last() == digit_char(n));
        assert(digits_value(Seq::<char>::empty()) == 0);
    } else {
        lemma_decimal(n / 10);
        lemma_digit_char(n % 10);
        let s = decimal(n);
        assert(s.drop_last() =~= decimal(n / 10));
        assert(s.last() == digit_char(n % 10));
        assert(digits_value(s) == digits_value(decimal(n / 10)) * 10 + digit_value(s.last()));
        assert((n / 10) * 10 + n % 10 == n);
        assert forall|k: int| 0 <= k < s.len() implies is_digit(#[trigger] s[k]) by {
            if k < s.len() - 1 {
                assert(s[k] == decimal(n / 10)[k]);
            }
        }
    }
}

pub proof fn lemma_parse_decimal(n: u32)
    ensures
        parse_u32(decimal(n as nat)) == Some(n),
{
    lemma_decimal(n as nat);
    let s = decimal(n as nat);
    assert(is_digit(s[0]));
}

/// A decimal rendering contains only digits, hence none of the separators.
pub proof fn lemma_decimal_no_char(n: nat, c: char)
    requires
        !is_digit(c),
    ensures
        !has_char(decimal(n), c),
{
    lemma_decimal(n);
    if has_char(decimal(n), c) {
        let k = choose|k: int| 0 <= k < decimal(n).len() && decimal(n)[k] == c;
        assert(is_digit(decimal(n)[k]));
    }
}

fn digit_of(d: u32) -> (c: char)
    requires
        d < 10,
    ensures
        c == digit_char(d as nat),
{
    if d == 0 {
        '0'
    } else if d == 1 {
        '1'
    } else if d == 2 {
        '2'
    } else if d == 3 {
        '3'
    } else if d == 4 {
        '4'
    } else if d == 5 {
        '5'
    } else if d == 6 {
        '6'
    } else if d == 7 {
        '7'
    } else if d == 8 {
        '8'
    } else {
        '9'
    }
}

/// `u64::to_string`, as characters.
pub fn decimal_u64(n: u64) -> (r: Vec<char>)
    ensures
        r@ == decimal(n as nat),
    decreases n,
{
    if n < 10 {
        let mut r = Vec::new();
        r.push(digit_of(n as u32));
        assert(r@ =~= decimal(n as nat));
        r
    } else {
        let mut r = decimal_u64(n / 10);
        r.push(digit_of((n % 10) as u32));
        r
    }
}

/// `u32::to_string`, as characters.
pub fn decimal_vec(n: u32) -> (r: Vec<char>)
    ensures
        r@ == decimal(n as nat),
{
    decimal_u64(n as u64)
}

/// `usize::to_string`, as characters.
pub fn decimal_usize(n: usize) -> (r: Vec<char>)
    ensures
        r@ == decimal(n as nat),
{
    decimal_u64(n as u64)
}

pub fn vec_parse_u32(s: &Vec<char>) -> (r: Option<u32>)
    ensures
        r == parse_u32(s@),
{
    let start: usize = if s.len() > 0 && s[0] == '+' {
        1
    } else {
        0
    };
    let ghost d = if s@.len() > 0 && s@[0] == '+' {
        s@.drop_first()
    } else {
        s@
    };
    assert(d =~= s@.skip(start as int));
    if start >= s.len() {
        assert(d.len() == 0);
        return None;
    }
    let mut acc: u64 = 0;
    let mut k: usize = start;
    while k < s.len()
        invariant
            start <= k <= s@.len(),
            d == s@.skip(start as int),
            d == (if s@.len() > 0 && s@[0] == '+' {
                s@.drop_first()
            } else {
                s@
            }),
            all_digits(d.take(k - start)),
            acc == digits_value(d.take(k - start)),
            acc <= u32::MAX,
        decreases s@.len() - k,
    {
        let c = s[k];
        let u = c as u32;
        if !(48 <= u && u <= 57) {
            assert(d[k - start] == c);
            assert(!all_digits(d));
            return None;
        }
        let v: u64 = (u - 48) as u64;
        let next: u64 = acc * 10 + v;
        let ghost t = d.take(k + 1 - start);
        assert(t.drop_last() =~= d.take(k - start));
        assert(t.last() == c);
        assert forall|m: int| 0 <= m < t.len() implies is_digit(#[trigger] t[m]) by {
            if m < t.len() - 1 {
                assert(t[m] == d.take(k - start)[m]);
            }
        }
        assert(digits_value(t) == next);
        if next > 0xFFFF_FFFF {
            proof {
                if all_digits(d) {
                    lemma_digits_value_prefix_le(d, (k + 1 - start) as int);
                }
            }
            return None;
        }
        acc = next;
        k = k + 1;
    }
    assert(d.take(d.len() as int) =~= d);
    Some(acc as u32)
}

/// A longer digit string is worth at least as much as its prefix.
pub proof fn lemma_digits_value_prefix_le(d: Seq<char>, j: int)
    requires
        0 <= j <= d.len(),
        all_digits(d),
    ensures
        digits_value(d.take(j)) <= digits_value(d),
    decreases d.len() - j,
{
    if j < d.len() {
        lemma_digits_value_prefix_le(d, j + 1);
        let t = d.take(j + 1);
        assert(t.drop_last() =~= d.take(j));
    } else {
        assert(d.take(j) =~= d);
    }
}

// ── Joining ─────────────────────────────────────────────────────

/// `[String]::join`.
pub open spec fn join(xs: Seq<Seq<char>>, sep: Seq<char>) -> Seq<char>
    decreases xs.len(),
{
    if xs.len() == 0 {
        Seq::empty()
    } else if xs.len() == 1 {
        xs[0]
    } else {
        join(xs.drop_last(), sep) + sep + xs.last()
    }
}

pub fn vec_join(xs: &Vec<Vec<char>>, sep: &Vec<char>) -> (r: Vec<char>)
    ensures
        r@ == join(views(xs@), sep@),
{
    let mut r: Vec<char> = Vec::new();
    let mut k: usize = 0;
    while k < xs.len()
        invariant
            k <= xs@.len(),
            r@ == join(views(xs@.take(k as int)), sep@),
        decreases xs@.len() - k,
    {
        let ghost before = r@;
        if k > 0 {
            push_all(&mut r, sep);
        }
        push_all(&mut r, &xs[k]);
        proof {
            let vs = views(xs@.take(k + 1));
            assert(vs.drop_last() =~= views(xs@.take(k as int)));
            assert(vs.last() == xs@[k as int]@);
            if k == 0 {
                assert(r@ =~= vs[0]);
            } else {
                assert(r@ =~= before + sep@ + xs@[k as int]@);
            }
        }
        k = k + 1;
    }
    assert(xs@.take(xs@.len() as int) =~= xs@);
    r
}

/// Append all of `src` to `dst`.
pub fn push_all(dst: &mut Vec<char>, src: &Vec<char>)
    ensures
        final(dst)@ == old(dst)@ + src@,
{
    let mut k: usize = 0;
    let ghost orig = dst@;
    while k < src.len()
        invariant
            k <= src@.len(),
            dst@ == orig + src@.take(k as int),
        decreases src@.len() - k,
    {
        dst.push(src[k]);
        assert(orig + src@.take(k + 1) =~= (orig + src@.take(k as int)).push(src@[k as int]));
        k = k + 1;
    }
    assert(src@.take(src@.len() as int) =~= src@);
}

} // verus!
