//! Text as a sequence of characters: searching, trimming and splitting.
//!
//! Every function here works on `&[char]` and is specified over `Seq<char>`,
//! which is also the view of `str` and `String`.
use vstd::prelude::*;
use vstd::slice::slice_subrange;
use vstd::std_specs::iter::IteratorSpec;

verus! {

/// `String::push` of the standard library: the string afterwards is the
/// string before with `c` appended.
pub assume_specification[ std::string::String::push ](s: &mut std::string::String, c: char)
    ensures
        final(s)@ == old(s)@.push(c),
;

/// The characters of `s`, in order.
pub fn to_chars(s: &str) -> (v: Vec<char>)
    ensures
        v@ == s@,
{
    broadcast use vstd::string::group_string_axioms;

    let mut v: Vec<char> = Vec::new();
    let mut it = s.chars();
    loop
        invariant
            it.obeys_prophetic_iter_laws(),
            it.decrease() is Some,
            v@ + it.remaining() == s@,
        ensures
            v@ == s@,
        decreases it.decrease()->0,
    {
        match it.next() {
            Some(c) => {
                v.push(c);
            },
            None => {
                break ;
            },
        }
    }
    v
}

/// The string made of the characters of `v`, in order.
pub fn to_text(v: &[char]) -> (s: String)
    ensures
        s@ == v@,
{
    let mut s = String::new();
    let mut i: usize = 0;
    while i < v.len()
        invariant
            i <= v.len(),
            s@ == v@.subrange(0, i as int),
        decreases v.len() - i,
    {
        s.push(v[i]);
        i += 1;
    }
    assert(v@.subrange(0, v@.len() as int) == v@);
    s
}

/// Appends the characters of `tail` to `out`.
pub fn append(out: &mut Vec<char>, tail: &[char])
    ensures
        final(out)@ == old(out)@ + tail@,
{
    let mut i: usize = 0;
    while i < tail.len()
        invariant
            i <= tail.len(),
            out@ == old(out)@ + tail@.subrange(0, i as int),
        decreases tail.len() - i,
    {
        out.push(tail[i]);
        i += 1;
    }
    assert(tail@.subrange(0, tail@.len() as int) == tail@);
}

/// Appends the characters of the string `tail` to `out`.
pub fn append_str(out: &mut Vec<char>, tail: &str)
    ensures
        final(out)@ == old(out)@ + tail@,
{
    let chars = to_chars(tail);
    append(out, chars.as_slice());
}

/// Whether `a` and `b` hold the same characters.
pub fn same_text(a: &[char], b: &[char]) -> (r: bool)
    ensures
        r == (a@ == b@),
{
    if a.len() != b.len() {
        return false;
    }
    let mut i: usize = 0;
    while i < a.len()
        invariant
            i <= a.len(),
            a@.len() == b@.len(),
            forall|j: int| 0 <= j < i ==> a@[j] == b@[j],
        decreases a.len() - i,
    {
        if a[i] != b[i] {
            return false;
        }
        i += 1;
    }
    assert(a@ =~= b@);
    true
}

/// Whether `s` holds exactly the characters of the string `word`.
pub fn is_word(s: &[char], word: &str) -> (r: bool)
    ensures
        r == (s@ == word@),
{
    let w = to_chars(word);
    same_text(s, w.as_slice())
}

/// Whether `s` begins with the characters of `prefix`.
pub fn starts_with(s: &[char], prefix: &str) -> (r: bool)
    ensures
        r == prefix@.is_prefix_of(s@),
{
    let p = to_chars(prefix);
    if s.len() < p.len() {
        return false;
    }
    let head = slice_subrange(s, 0, p.len());
    same_text(head, p.as_slice())
}

/// The white-space characters: the code points that Unicode gives the
/// property `White_Space`.
pub open spec fn is_space(c: char) -> bool {
    let n = c as u32;
    ||| 0x09 <= n <= 0x0D
    ||| n == 0x20
    ||| n == 0x85
    ||| n == 0xA0
    ||| n == 0x1680
    ||| 0x2000 <= n <= 0x200A
    ||| n == 0x2028
    ||| n == 0x2029
    ||| n == 0x202F
    ||| n == 0x205F
    ||| n == 0x3000
}

/// Decides `is_space`.
pub fn is_space_char(c: char) -> (r: bool)
    ensures
        r == is_space(c),
{
    let n: u32 = c as u32;
    (0x09 <= n && n <= 0x0D) || n == 0x20 || n == 0x85 || n == 0xA0 || n == 0x1680 || (0x2000 <= n
        && n <= 0x200A) || n == 0x2028 || n == 0x2029 || n == 0x202F || n == 0x205F || n == 0x3000
}

/// The position of the first `c` in `s`, or `s.len()` where `s` holds none.
pub open spec fn find(s: Seq<char>, c: char) -> int
    decreases s.len(),
{
    if s.len() == 0 {
        0
    } else if s[0] == c {
        0
    } else {
        1 + find(s.skip(1), c)
    }
}

/// `find` gives a position within bounds, with no `c` before it and `c` at
/// it unless it is the length.
pub proof fn lemma_find(s: Seq<char>, c: char)
    ensures
        0 <= find(s, c) <= s.len(),
        forall|j: int| 0 <= j < find(s, c) ==> s[j] != c,
        find(s, c) < s.len() ==> s[find(s, c)] == c,
    decreases s.len(),
{
    if s.len() > 0 && s[0] != c {
        lemma_find(s.skip(1), c);
        assert forall|j: int| 0 <= j < find(s, c) implies s[j] != c by {
            if j > 0 {
                assert(s.skip(1)[j - 1] == s[j]);
            }
        }
    }
}

/// A position with no `c` before it, and `c` at it unless it is the length,
/// is the one that `find` gives.
pub proof fn lemma_find_is(s: Seq<char>, c: char, i: int)
    requires
        0 <= i <= s.len(),
        forall|j: int| 0 <= j < i ==> s[j] != c,
        i < s.len() ==> s[i] == c,
    ensures
        find(s, c) == i,
{
    lemma_find(s, c);
}

/// Computes `find`.
pub fn find_char(s: &[char], c: char) -> (i: usize)
    ensures
        i == find(s@, c),
{
    let mut i: usize = 0;
    while i < s.len() && s[i] != c
        invariant
            i <= s.len(),
            forall|j: int| 0 <= j < i ==> s@[j] != c,
        decreases s.len() - i,
    {
        i += 1;
    }
    proof {
        lemma_find_is(s@, c, i as int);
    }
    i
}

/// The position of the last `c` in `s`, or `-1` where `s` holds none.
pub open spec fn find_last(s: Seq<char>, c: char) -> int
    decreases s.len(),
{
    if s.len() == 0 {
        -1
    } else if s.last() == c {
        s.len() - 1
    } else {
        find_last(s.drop_last(), c)
    }
}

/// `find_last` gives `-1` or a position that holds `c`, with no `c` after it.
pub proof fn lemma_find_last(s: Seq<char>, c: char)
    ensures
        -1 <= find_last(s, c) < s.len(),
        forall|j: int| find_last(s, c) < j < s.len() ==> s[j] != c,
        0 <= find_last(s, c) ==> s[find_last(s, c)] == c,
    decreases s.len(),
{
    if s.len() > 0 && s.last() != c {
        let t = s.drop_last();
        lemma_find_last(t, c);
        assert forall|j: int| find_last(s, c) < j < s.len() implies s[j] != c by {
            if j < t.len() {
                assert(t[j] == s[j]);
            }
        }
    }
}

/// A position that holds `c`, with no `c` after it, is the one that
/// `find_last` gives; so is `-1` where `s` holds no `c`.
pub proof fn lemma_find_last_is(s: Seq<char>, c: char, i: int)
    requires
        -1 <= i < s.len(),
        forall|j: int| i < j < s.len() ==> s[j] != c,
        0 <= i ==> s[i] == c,
    ensures
        find_last(s, c) == i,
{
    lemma_find_last(s, c);
}

/// Computes `find_last`: `None` stands for `-1`.
pub fn find_last_char(s: &[char], c: char) -> (r: Option<usize>)
    ensures
        match r {
            Some(i) => i == find_last(s@, c),
            None => find_last(s@, c) == -1,
        },
{
    let mut i: usize = s.len();
    while i > 0 && s[i - 1] != c
        invariant
            i <= s.len(),
            forall|j: int| i <= j < s.len() ==> s@[j] != c,
        decreases i,
    {
        i -= 1;
    }
    proof {
        lemma_find_last(s@, c);
    }
    if i == 0 {
        None
    } else {
        Some(i - 1)
    }
}

/// Whether `pat` stands in `s` at position `i`.
pub open spec fn occurs_at(s: Seq<char>, pat: Seq<char>, i: int) -> bool {
    0 <= i && i + pat.len() <= s.len() && s.subrange(i, i + pat.len()) == pat
}

/// The position of the first occurrence of `pat` in `s`, or `s.len()` where
/// there is none.
pub open spec fn find_sub(s: Seq<char>, pat: Seq<char>) -> int
    decreases s.len(),
{
    if s.len() == 0 || s.len() < pat.len() {
        s.len() as int
    } else if occurs_at(s, pat, 0) {
        0
    } else {
        1 + find_sub(s.skip(1), pat)
    }
}

/// `find_sub` gives a position within bounds, with no occurrence before it
/// and one at it unless it is the length.
pub proof fn lemma_find_sub(s: Seq<char>, pat: Seq<char>)
    requires
        pat.len() > 0,
    ensures
        0 <= find_sub(s, pat) <= s.len(),
        forall|j: int| 0 <= j < find_sub(s, pat) ==> !occurs_at(s, pat, j),
        find_sub(s, pat) < s.len() ==> occurs_at(s, pat, find_sub(s, pat)),
    decreases s.len(),
{
    if s.len() == 0 || s.len() < pat.len() {
    } else if occurs_at(s, pat, 0) {
    } else {
        let t = s.skip(1);
        lemma_find_sub(t, pat);
        assert forall|j: int| 1 <= j <= s.len() implies occurs_at(s, pat, j) == occurs_at(
            t,
            pat,
            j - 1,
        ) by {
            if j + pat.len() <= s.len() {
                assert(t.subrange(j - 1, j - 1 + pat.len()) =~= s.subrange(j, j + pat.len()));
            }
        }
    }
}

/// A position with no occurrence of `pat` before it, and one at it unless
/// it is the length, is the one that `find_sub` gives.
pub proof fn lemma_find_sub_is(s: Seq<char>, pat: Seq<char>, i: int)
    requires
        pat.len() > 0,
        0 <= i <= s.len(),
        forall|j: int| 0 <= j < i ==> !occurs_at(s, pat, j),
        i < s.len() ==> occurs_at(s, pat, i),
    ensures
        find_sub(s, pat) == i,
{
    lemma_find_sub(s, pat);
}

/// The empty pattern stands at the very beginning of every text.
pub proof fn lemma_find_sub_empty(s: Seq<char>, pat: Seq<char>)
    requires
        pat.len() == 0,
    ensures
        find_sub(s, pat) == 0,
{
    if s.len() > 0 {
        assert(s.subrange(0, 0) =~= pat);
    }
}

/// Computes `find_sub`.
pub fn find_text(s: &[char], pat: &[char]) -> (i: usize)
    ensures
        i == find_sub(s@, pat@),
{
    let n = s.len();
    let m = pat.len();
    if m == 0 {
        proof {
            lemma_find_sub_empty(s@, pat@);
        }
        return 0;
    }
    if n < m {
        proof {
            lemma_find_sub_is(s@, pat@, n as int);
        }
        return n;
    }
    let mut i: usize = 0;
    while i <= n - m
        invariant
            m == pat@.len(),
            n == s@.len(),
            0 < m <= n,
            i <= n - m + 1,
            forall|j: int| 0 <= j < i ==> !occurs_at(s@, pat@, j),
        decreases n - m + 1 - i,
    {
        if same_text(slice_subrange(s, i, i + m), pat) {
            proof {
                lemma_find_sub_is(s@, pat@, i as int);
            }
            return i;
        }
        i += 1;
    }
    proof {
        lemma_find_sub_is(s@, pat@, n as int);
    }
    n
}

/// What a character adds to the depth of nesting: `(` opens, `)` closes.
pub open spec fn paren_step(c: char) -> int {
    if c == '(' {
        1
    } else if c == ')' {
        -1
    } else {
        0
    }
}

/// The depth of nesting at the end of `s`: the number of `(` in `s` less
/// the number of `)`.
pub open spec fn depth(s: Seq<char>) -> int
    decreases s.len(),
{
    if s.len() == 0 {
        0
    } else {
        depth(s.drop_last()) + paren_step(s.last())
    }
}

/// The depth at the end of two texts in a row is the sum of their depths.
pub proof fn lemma_depth_concat(a: Seq<char>, b: Seq<char>)
    ensures
        depth(a + b) == depth(a) + depth(b),
    decreases b.len(),
{
    if b.len() == 0 {
        assert(a + b =~= a);
    } else {
        assert((a + b).drop_last() =~= a + b.drop_last());
        lemma_depth_concat(a, b.drop_last());
    }
}

/// Text without `(` and `)` has depth 0.
pub proof fn lemma_depth_flat(s: Seq<char>)
    requires
        forall|i: int| 0 <= i < s.len() ==> s[i] != '(' && s[i] != ')',
    ensures
        depth(s) == 0,
    decreases s.len(),
{
    if s.len() > 0 {
        let t = s.drop_last();
        assert forall|i: int| 0 <= i < t.len() implies t[i] != '(' && t[i] != ')' by {
            assert(t[i] == s[i]);
        }
        lemma_depth_flat(t);
    }
}

/// Whether `pat` stands in `s` at position `i`, outside every pair of
/// `(` and `)`: the depth of what stands before it is 0.
pub open spec fn outside_at(s: Seq<char>, pat: Seq<char>, i: int) -> bool {
    occurs_at(s, pat, i) && depth(s.take(i)) == 0
}

/// The first position from `from` on at which `pat` stands outside every
/// pair of `(` and `)`, or `s.len()` where there is none.
pub open spec fn find_outside_from(s: Seq<char>, pat: Seq<char>, from: int) -> int
    decreases s.len() - from,
{
    if from < 0 || from >= s.len() {
        s.len() as int
    } else if outside_at(s, pat, from) {
        from
    } else {
        find_outside_from(s, pat, from + 1)
    }
}

/// The first position at which `pat` stands in `s` outside every pair of
/// `(` and `)`, or `s.len()` where there is none.
pub open spec fn find_outside(s: Seq<char>, pat: Seq<char>) -> int {
    find_outside_from(s, pat, 0)
}

/// `find_outside_from` gives a position from `from` to the length, with no
/// occurrence outside between `from` and it, and one at it unless it is
/// the length.
pub proof fn lemma_find_outside_from(s: Seq<char>, pat: Seq<char>, from: int)
    requires
        0 <= from <= s.len(),
    ensures
        from <= find_outside_from(s, pat, from) <= s.len(),
        forall|q: int| from <= q < find_outside_from(s, pat, from) ==> !outside_at(s, pat, q),
        find_outside_from(s, pat, from) < s.len() ==> outside_at(
            s,
            pat,
            find_outside_from(s, pat, from),
        ),
    decreases s.len() - from,
{
    if from < s.len() && !outside_at(s, pat, from) {
        lemma_find_outside_from(s, pat, from + 1);
    }
}

/// `find_outside` gives a position within bounds, with no occurrence
/// outside before it, and one at it unless it is the length.
pub proof fn lemma_find_outside(s: Seq<char>, pat: Seq<char>)
    ensures
        0 <= find_outside(s, pat) <= s.len(),
        forall|q: int| 0 <= q < find_outside(s, pat) ==> !outside_at(s, pat, q),
        find_outside(s, pat) < s.len() ==> outside_at(s, pat, find_outside(s, pat)),
{
    lemma_find_outside_from(s, pat, 0);
}

/// A position with no occurrence outside before it, and one at it unless
/// it is the length, is the one that `find_outside` gives.
pub proof fn lemma_find_outside_is(s: Seq<char>, pat: Seq<char>, p: int)
    requires
        0 <= p <= s.len(),
        forall|q: int| 0 <= q < p ==> !outside_at(s, pat, q),
        p < s.len() ==> outside_at(s, pat, p),
    ensures
        find_outside(s, pat) == p,
{
    lemma_find_outside(s, pat);
}

/// Computes `find_outside`.
pub fn find_text_outside(s: &[char], pat: &[char]) -> (r: usize)
    ensures
        r == find_outside(s@, pat@),
{
    let n = s.len();
    let m = pat.len();
    let mut level: i128 = 0;
    let mut i: usize = 0;
    assert(s@.take(0) =~= Seq::<char>::empty());
    while i < n
        invariant
            n == s@.len(),
            m == pat@.len(),
            i <= n,
            level == depth(s@.take(i as int)),
            -(i as int) <= level <= i as int,
            forall|q: int| 0 <= q < i ==> !outside_at(s@, pat@, q),
        decreases n - i,
    {
        if level == 0 && m <= n - i && same_text(slice_subrange(s, i, i + m), pat) {
            proof {
                lemma_find_outside_is(s@, pat@, i as int);
            }
            return i;
        }
        proof {
            assert(s@.take(i + 1).drop_last() =~= s@.take(i as int));
        }
        if s[i] == '(' {
            level = level + 1;
        } else if s[i] == ')' {
            level = level - 1;
        }
        i += 1;
    }
    proof {
        lemma_find_outside_is(s@, pat@, n as int);
    }
    n
}

/// `s` without the white space at its beginning.
pub open spec fn trim_start(s: Seq<char>) -> Seq<char>
    decreases s.len(),
{
    if s.len() > 0 && is_space(s[0]) {
        trim_start(s.skip(1))
    } else {
        s
    }
}

/// `s` without the white space at its end.
pub open spec fn trim_end(s: Seq<char>) -> Seq<char>
    decreases s.len(),
{
    if s.len() > 0 && is_space(s.last()) {
        trim_end(s.drop_last())
    } else {
        s
    }
}

/// `s` without the white space at its beginning and at its end.
pub open spec fn trim(s: Seq<char>) -> Seq<char> {
    trim_end(trim_start(s))
}

/// Where the first `k` characters of `s` are white space and the next one
/// is not, `trim_start` drops exactly those `k`.
pub proof fn lemma_trim_start_is(s: Seq<char>, k: int)
    requires
        0 <= k <= s.len(),
        forall|j: int| 0 <= j < k ==> is_space(s[j]),
        k < s.len() ==> !is_space(s[k]),
    ensures
        trim_start(s) == s.skip(k),
    decreases k,
{
    if k == 0 {
        assert(s.skip(0) =~= s);
    } else {
        let t = s.skip(1);
        assert forall|j: int| 0 <= j < k - 1 implies is_space(t[j]) by {
            assert(t[j] == s[j + 1]);
        }
        lemma_trim_start_is(t, k - 1);
        assert(t.skip(k - 1) =~= s.skip(k));
    }
}

/// Where the characters of `s` from `k` on are white space and the one
/// before is not, `trim_end` keeps exactly the first `k`.
pub proof fn lemma_trim_end_is(s: Seq<char>, k: int)
    requires
        0 <= k <= s.len(),
        forall|j: int| k <= j < s.len() ==> is_space(s[j]),
        k > 0 ==> !is_space(s[k - 1]),
    ensures
        trim_end(s) == s.take(k),
    decreases s.len() - k,
{
    if k == s.len() {
        assert(s.take(k) =~= s);
    } else {
        let t = s.drop_last();
        lemma_trim_end_is(t, k);
        assert(t.take(k) =~= s.take(k));
    }
}

/// Whether every character of `s` is white space.
pub open spec fn all_space(s: Seq<char>) -> bool {
    forall|i: int| 0 <= i < s.len() ==> is_space(#[trigger] s[i])
}

/// `trim` cuts white space only: it gives the stretch of `s` from `a` to
/// `b`, where all before `a` and all from `b` on is white space, and the
/// stretch, unless it is empty, neither begins nor ends with white space.
pub proof fn lemma_trim_bounds(s: Seq<char>) -> (r: (int, int))
    ensures
        0 <= r.0 <= r.1 <= s.len(),
        trim(s) == s.subrange(r.0, r.1),
        all_space(s.take(r.0)),
        all_space(s.skip(r.1)),
        r.0 < r.1 ==> !is_space(s[r.0]) && !is_space(s[r.1 - 1]),
{
    let a = lemma_trim_start_bounds(s);
    let t = s.skip(a);
    let k = lemma_trim_end_bounds(t);
    assert(t.take(k) =~= s.subrange(a, a + k));
    assert forall|i: int| 0 <= i < s.skip(a + k).len() implies is_space(
        #[trigger] s.skip(a + k)[i],
    ) by {
        assert(s.skip(a + k)[i] == t.skip(k)[i]);
    }
    if k > 0 {
        assert(t[0] == s[a]);
        assert(t[k - 1] == s[a + k - 1]);
    }
    (a, a + k)
}

/// `trim_start` drops the first `a` characters, all white space, and the
/// next one is none.
pub proof fn lemma_trim_start_bounds(s: Seq<char>) -> (a: int)
    ensures
        0 <= a <= s.len(),
        trim_start(s) == s.skip(a),
        all_space(s.take(a)),
        a < s.len() ==> !is_space(s[a]),
    decreases s.len(),
{
    if s.len() > 0 && is_space(s[0]) {
        let t = s.skip(1);
        let a = lemma_trim_start_bounds(t);
        assert(t.skip(a) =~= s.skip(a + 1));
        assert forall|i: int| 0 <= i < a + 1 implies is_space(#[trigger] s.take(a + 1)[i]) by {
            if i > 0 {
                assert(s.take(a + 1)[i] == t.take(a)[i - 1]);
            }
        }
        if a < t.len() {
            assert(t[a] == s[a + 1]);
        }
        a + 1
    } else {
        assert(s.skip(0) =~= s);
        0
    }
}

/// `trim_end` keeps the first `k` characters, all after them is white
/// space, and the last one kept is none.
pub proof fn lemma_trim_end_bounds(s: Seq<char>) -> (k: int)
    ensures
        0 <= k <= s.len(),
        trim_end(s) == s.take(k),
        all_space(s.skip(k)),
        k > 0 ==> !is_space(s[k - 1]),
    decreases s.len(),
{
    if s.len() > 0 && is_space(s.last()) {
        let t = s.drop_last();
        let k = lemma_trim_end_bounds(t);
        assert(t.take(k) =~= s.take(k));
        assert forall|i: int| 0 <= i < s.skip(k).len() implies is_space(#[trigger] s.skip(k)[i]) by {
            if i < t.skip(k).len() {
                assert(s.skip(k)[i] == t.skip(k)[i]);
            }
        }
        if k > 0 {
            assert(t[k - 1] == s[k - 1]);
        }
        k
    } else {
        assert(s.take(s.len() as int) =~= s);
        s.len() as int
    }
}

/// `trim` gives a stretch of `s` that neither begins nor ends with white
/// space.
pub proof fn lemma_trim(s: Seq<char>)
    ensures
        trim(s).len() <= s.len(),
        trim(s).len() > 0 ==> !is_space(trim(s)[0]) && !is_space(trim(s).last()),
        exists|a: int, b: int| 0 <= a <= b <= s.len() && trim(s) == s.subrange(a, b),
{
    let (a, b) = lemma_trim_bounds(s);
}

/// Text that neither begins nor ends with white space is its own `trim`.
pub proof fn lemma_trim_fixed(s: Seq<char>)
    requires
        s.len() > 0 ==> !is_space(s[0]) && !is_space(s.last()),
    ensures
        trim(s) == s,
{
}

/// Computes `trim`: the result is a stretch of `s`.
pub fn trim_chars(s: &[char]) -> (r: &[char])
    ensures
        r@ == trim(s@),
{
    let n = s.len();
    let mut a: usize = 0;
    while a < n && is_space_char(s[a])
        invariant
            a <= n,
            n == s@.len(),
            forall|j: int| 0 <= j < a ==> is_space(s@[j]),
        decreases n - a,
    {
        a += 1;
    }
    let mut b: usize = n;
    while b > a && is_space_char(s[b - 1])
        invariant
            a <= b <= n,
            n == s@.len(),
            forall|j: int| b <= j < n ==> is_space(s@[j]),
        decreases b,
    {
        b -= 1;
    }
    proof {
        lemma_trim_start_is(s@, a as int);
        let t = s@.skip(a as int);
        assert forall|j: int| b - a <= j < t.len() implies is_space(t[j]) by {
            assert(t[j] == s@[j + a]);
        }
        lemma_trim_end_is(t, b - a);
        assert(t.take(b - a) =~= s@.subrange(a as int, b as int));
    }
    slice_subrange(s, a, b)
}

/// The string `s` without the white space at its beginning and at its
/// end.
pub fn trimmed(s: &str) -> (r: String)
    ensures
        r@ == trim(s@),
{
    let chars = to_chars(s);
    to_text(trim_chars(chars.as_slice()))
}

/// `s` without the run of `c` at its end.
pub open spec fn strip_trailing(s: Seq<char>, c: char) -> Seq<char>
    decreases s.len(),
{
    if s.len() > 0 && s.last() == c {
        strip_trailing(s.drop_last(), c)
    } else {
        s
    }
}

/// Where the characters of `s` from `k` on are `c` and the one before is
/// not, `strip_trailing` keeps exactly the first `k`.
pub proof fn lemma_strip_trailing_is(s: Seq<char>, c: char, k: int)
    requires
        0 <= k <= s.len(),
        forall|j: int| k <= j < s.len() ==> s[j] == c,
        k > 0 ==> s[k - 1] != c,
    ensures
        strip_trailing(s, c) == s.take(k),
    decreases s.len() - k,
{
    if k == s.len() {
        assert(s.take(k) =~= s);
    } else {
        let t = s.drop_last();
        lemma_strip_trailing_is(t, c, k);
        assert(t.take(k) =~= s.take(k));
    }
}

/// Computes `strip_trailing`: the result is a prefix of `s`.
pub fn strip_trailing_char(s: &[char], c: char) -> (r: &[char])
    ensures
        r@ == strip_trailing(s@, c),
{
    let mut b: usize = s.len();
    while b > 0 && s[b - 1] == c
        invariant
            b <= s.len(),
            forall|j: int| b <= j < s.len() ==> s@[j] == c,
        decreases b,
    {
        b -= 1;
    }
    proof {
        lemma_strip_trailing_is(s@, c, b as int);
    }
    slice_subrange(s, 0, b)
}

/// The texts that a vector of slices holds, in order.
pub open spec fn pieces<'a>(v: Seq<&'a [char]>) -> Seq<Seq<char>> {
    Seq::new(v.len(), |i: int| v[i]@)
}

/// The pieces of `s` between the occurrences of `c`: one more than there
/// are occurrences, an empty text giving one empty piece.
pub open spec fn split_on(s: Seq<char>, c: char) -> Seq<Seq<char>>
    decreases s.len(),
{
    let i = find(s, c);
    if 0 <= i < s.len() {
        seq![s.take(i)] + split_on(s.skip(i + 1), c)
    } else {
        seq![s]
    }
}

/// `split_on` gives at least one piece, none longer than `s`.
pub proof fn lemma_split_on(s: Seq<char>, c: char)
    ensures
        split_on(s, c).len() >= 1,
        forall|k: int| 0 <= k < split_on(s, c).len() ==> #[trigger] split_on(s, c)[k].len() <= s.len(),
        split_on(s, c)[0] == s.take(find(s, c)),
    decreases s.len(),
{
    lemma_find(s, c);
    let i = find(s, c);
    if 0 <= i < s.len() {
        lemma_split_on(s.skip(i + 1), c);
    } else {
        assert(s.take(i) =~= s);
    }
}

/// Computes `split_on`: each piece is a stretch of `s`.
pub fn split_chars<'a>(s: &'a [char], c: char) -> (r: Vec<&'a [char]>)
    ensures
        pieces(r@) == split_on(s@, c),
        r@.len() >= 1,
{
    let n = s.len();
    let mut out: Vec<&'a [char]> = Vec::new();
    let mut start: usize = 0;
    assert(s@.skip(0) =~= s@);
    assert(pieces(out@) =~= Seq::<Seq<char>>::empty());
    loop
        invariant_except_break
            split_on(s@, c) == pieces(out@) + split_on(s@.skip(start as int), c),
        invariant
            n == s@.len(),
            start <= n,
        ensures
            pieces(out@) == split_on(s@, c),
            out@.len() >= 1,
        decreases n - start,
    {
        let rest = slice_subrange(s, start, n);
        let i = find_char(rest, c);
        let ghost before = out@;
        proof {
            lemma_find(rest@, c);
            assert(rest@ =~= s@.skip(start as int));
        }
        if i >= rest.len() {
            out.push(rest);
            proof {
                assert(pieces(out@) =~= pieces(before) + seq![rest@]);
            }
            break ;
        }
        let piece = slice_subrange(rest, 0, i);
        out.push(piece);
        proof {
            assert(piece@ =~= rest@.take(i as int));
            assert(rest@.skip(i + 1) =~= s@.skip(start + i + 1));
            assert(pieces(out@) =~= pieces(before) + seq![piece@]);
            assert(pieces(before) + (seq![piece@] + split_on(rest@.skip(i + 1), c)) =~= pieces(
                out@,
            ) + split_on(rest@.skip(i + 1), c));
        }
        start = start + i + 1;
    }
    out
}

/// The pieces of `s` between the occurrences of `pat`, found from the left
/// and not overlapping.
pub open spec fn split_by(s: Seq<char>, pat: Seq<char>) -> Seq<Seq<char>>
    decreases s.len(),
{
    let i = find_sub(s, pat);
    if pat.len() > 0 && 0 <= i && i + pat.len() <= s.len() {
        seq![s.take(i)] + split_by(s.skip(i + pat.len()), pat)
    } else {
        seq![s]
    }
}

/// Computes `split_by`. The empty pattern splits nowhere.
pub fn split_text<'a>(s: &'a [char], pat: &[char]) -> (r: Vec<&'a [char]>)
    ensures
        pieces(r@) == split_by(s@, pat@),
        r@.len() >= 1,
{
    let n = s.len();
    let m = pat.len();
    let mut out: Vec<&'a [char]> = Vec::new();
    if m == 0 {
        out.push(s);
        assert(pieces(out@) =~= seq![s@]);
        return out;
    }
    let mut start: usize = 0;
    assert(s@.skip(0) =~= s@);
    assert(pieces(out@) =~= Seq::<Seq<char>>::empty());
    loop
        invariant_except_break
            split_by(s@, pat@) == pieces(out@) + split_by(s@.skip(start as int), pat@),
        invariant
            n == s@.len(),
            m == pat@.len(),
            m > 0,
            start <= n,
        ensures
            pieces(out@) == split_by(s@, pat@),
            out@.len() >= 1,
        decreases n - start,
    {
        let rest = slice_subrange(s, start, n);
        let i = find_text(rest, pat);
        let ghost before = out@;
        proof {
            lemma_find_sub(rest@, pat@);
            assert(rest@ =~= s@.skip(start as int));
        }
        if i >= rest.len() {
            out.push(rest);
            proof {
                assert(pieces(out@) =~= pieces(before) + seq![rest@]);
            }
            break ;
        }
        let piece = slice_subrange(rest, 0, i);
        out.push(piece);
        proof {
            assert(piece@ =~= rest@.take(i as int));
            assert(rest@.skip(i + m) =~= s@.skip(start + i + m));
            assert(pieces(out@) =~= pieces(before) + seq![piece@]);
            assert(pieces(before) + (seq![piece@] + split_by(rest@.skip(i + m), pat@)) =~= pieces(
                out@,
            ) + split_by(rest@.skip(i + m), pat@));
        }
        start = start + i + m;
    }
    out
}

/// The number of characters at the beginning of `s` that are not white
/// space.
pub open spec fn word_len(s: Seq<char>) -> nat
    decreases s.len(),
{
    if s.len() > 0 && !is_space(s[0]) {
        1 + word_len(s.skip(1))
    } else {
        0
    }
}

/// `word_len` stays within `s`.
pub proof fn lemma_word_len(s: Seq<char>)
    ensures
        word_len(s) <= s.len(),
    decreases s.len(),
{
    if s.len() > 0 && !is_space(s[0]) {
        lemma_word_len(s.skip(1));
    }
}

/// Where the first `k` characters of `s` are not white space and the next
/// one is, `word_len` is `k`.
pub proof fn lemma_word_len_is(s: Seq<char>, k: int)
    requires
        0 <= k <= s.len(),
        forall|j: int| 0 <= j < k ==> !is_space(s[j]),
        k < s.len() ==> is_space(s[k]),
    ensures
        word_len(s) == k,
    decreases k,
{
    if k > 0 {
        let t = s.skip(1);
        assert forall|j: int| 0 <= j < k - 1 implies !is_space(t[j]) by {
            assert(t[j] == s[j + 1]);
        }
        lemma_word_len_is(t, k - 1);
    }
}

/// The words of `s`: the longest stretches without white space, in order.
pub open spec fn tokens(s: Seq<char>) -> Seq<Seq<char>>
    decreases s.len(),
{
    if s.len() == 0 {
        Seq::empty()
    } else if is_space(s[0]) {
        tokens(s.skip(1))
    } else {
        proof {
            lemma_word_len(s);
        }
        let n = word_len(s) as int;
        seq![s.take(n)] + tokens(s.skip(n))
    }
}

/// Computes `tokens`: each word is a stretch of `s`.
pub fn split_words<'a>(s: &'a [char]) -> (r: Vec<&'a [char]>)
    ensures
        pieces(r@) == tokens(s@),
{
    let n = s.len();
    let mut out: Vec<&'a [char]> = Vec::new();
    let mut i: usize = 0;
    assert(s@.skip(0) =~= s@);
    while i < n
        invariant
            n == s@.len(),
            i <= n,
            tokens(s@) == pieces(out@) + tokens(s@.skip(i as int)),
        decreases n - i,
    {
        let ghost rest = s@.skip(i as int);
        if is_space_char(s[i]) {
            proof {
                assert(rest.skip(1) =~= s@.skip(i + 1));
            }
            i += 1;
        } else {
            let mut j: usize = i + 1;
            while j < n && !is_space_char(s[j])
                invariant
                    n == s@.len(),
                    i < j <= n,
                    forall|k: int| i <= k < j ==> !is_space(s@[k]),
                decreases n - j,
            {
                j += 1;
            }
            let word = slice_subrange(s, i, j);
            let ghost before = out@;
            out.push(word);
            proof {
                lemma_word_len_is(rest, j - i);
                assert(word@ =~= rest.take(j - i));
                assert(rest.skip(j - i) =~= s@.skip(j as int));
                assert(pieces(out@) =~= pieces(before) + seq![word@]);
                assert(pieces(before) + (seq![word@] + tokens(rest.skip(j - i))) =~= pieces(out@)
                    + tokens(rest.skip(j - i)));
            }
            i = j;
        }
    }
    assert(pieces(out@) + Seq::<Seq<char>>::empty() =~= pieces(out@));
    out
}

} // verus!
