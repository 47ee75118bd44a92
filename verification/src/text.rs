//! Character-level utilities shared by the whole pipeline.
//!
//! Most of the pipeline's logic works on `Vec<char>` so that every step is
//! verified against `Seq<char>` views; these helpers move between `String`
//! and `Vec<char>` and provide the searching, trimming, splitting and
//! joining that the pipeline needs.

use vstd::prelude::*;

verus! {

/// Relies on `String::push`: appends the given character to the end of the string.
#[verifier::external_body]
pub fn push_char(s: &mut String, c: char)
    ensures
        final(s)@ == old(s)@.push(c),
{
    s.push(c);
}

/// Collects the characters of a string slice into a vector.
pub fn chars_of(s: &str) -> (r: Vec<char>)
    ensures
        r@ == s@,
{
    let n = s.unicode_len();
    let mut r: Vec<char> = Vec::new();
    let mut i: usize = 0;
    while i < n
        invariant
            i <= n,
            n == s@.len(),
            r@ == s@.take(i as int),
        decreases n - i,
    {
        let c = s.get_char(i);
        r.push(c);
        i = i + 1;
        proof {
            assert(r@ =~= s@.take(i as int));
        }
    }
    proof {
        assert(s@.take(n as int) =~= s@);
    }
    r
}

/// Holds iff `pat` occurs in `s` starting at position `i`.
pub open spec fn contains_at(s: Seq<char>, i: int, pat: Seq<char>) -> bool {
    &&& 0 <= i
    &&& i + pat.len() <= s.len()
    &&& s.subrange(i, i + pat.len() as int) == pat
}

/// Holds iff `pat` occurs somewhere in `s`.
pub open spec fn contains_seq(s: Seq<char>, pat: Seq<char>) -> bool {
    exists|i: int| contains_at(s, i, pat)
}

/// Position of the leftmost occurrence of `pat` in `s`, or `-1` when there is none.
pub open spec fn find_spec(s: Seq<char>, pat: Seq<char>) -> int
    decreases s.len(),
{
    if s.len() < pat.len() {
        -1
    } else if s.subrange(0, pat.len() as int) == pat {
        0
    } else if s.len() == 0 {
        -1
    } else {
        let r = find_spec(s.drop_first(), pat);
        if r < 0 {
            -1
        } else {
            r + 1
        }
    }
}

/// `find_spec` returns exactly the leftmost occurrence, and `-1` iff there is none.
pub proof fn lemma_find_spec(s: Seq<char>, pat: Seq<char>)
    ensures
        find_spec(s, pat) >= 0 ==> contains_at(s, find_spec(s, pat), pat),
        find_spec(s, pat) >= 0 ==> forall|j: int|
            0 <= j < find_spec(s, pat) ==> !contains_at(s, j, pat),
        find_spec(s, pat) < 0 ==> forall|j: int| !contains_at(s, j, pat),
        find_spec(s, pat) >= 0 ==> find_spec(s, pat) + pat.len() <= s.len(),
    decreases s.len(),
{
    if s.len() < pat.len() {
        // no position can fit pat
    } else if s.subrange(0, pat.len() as int) == pat {
        assert(contains_at(s, 0, pat));
    } else if s.len() == 0 {
        assert(pat.len() == 0);
        assert(s.subrange(0, 0) =~= pat);
    } else {
        let t = s.drop_first();
        lemma_find_spec(t, pat);
        // an occurrence of pat in s at j >= 1 is an occurrence in t at j - 1
        assert forall|j: int| 1 <= j implies contains_at(s, j, pat) == contains_at(
            t,
            j - 1,
            pat,
        ) by {
            if 1 <= j && j + pat.len() <= s.len() {
                assert(s.subrange(j, j + pat.len() as int) =~= t.subrange(
                    j - 1,
                    j - 1 + pat.len() as int,
                ));
            }
        }
        let r = find_spec(t, pat);
        if r < 0 {
            assert forall|j: int| !contains_at(s, j, pat) by {
                if j >= 1 {
                    assert(contains_at(s, j, pat) == contains_at(t, j - 1, pat));
                }
            }
        } else {
            assert(contains_at(s, r + 1, pat));
        }
    }
}

/// Compares `pat` against `hay` at position `i`.
pub fn matches_at(hay: &Vec<char>, i: usize, pat: &Vec<char>) -> (r: bool)
    requires
        i + pat@.len() <= hay@.len(),
    ensures
        r == contains_at(hay@, i as int, pat@),
{
    let n = hay.len();
    let mut k: usize = 0;
    while k < pat.len()
        invariant
            k <= pat@.len(),
            i + pat@.len() <= hay@.len(),
            n == hay@.len(),
            forall|m: int| 0 <= m < k ==> hay@[i + m] == pat@[m],
        decreases pat@.len() - k,
    {
        if hay[i + k] != pat[k] {
            assert(hay@.subrange(i as int, i + pat@.len() as int)[k as int] != pat@[k as int]);
            return false;
        }
        k = k + 1;
    }
    proof {
        assert(hay@.subrange(i as int, i + pat@.len() as int) =~= pat@);
    }
    true
}

/// Finds the leftmost occurrence of `pat` in `hay`, as `find_spec` describes it.
pub fn find_sub(hay: &Vec<char>, pat: &Vec<char>) -> (r: Option<usize>)
    ensures
        match r {
            Some(i) => i == find_spec(hay@, pat@),
            None => find_spec(hay@, pat@) < 0,
        },
{
    proof {
        lemma_find_spec(hay@, pat@);
    }
    if pat.len() > hay.len() {
        return None;
    }
    let last = hay.len() - pat.len();
    let mut i: usize = 0;
    let mut found = false;
    loop
        invariant_except_break
            !found,
        invariant
            pat@.len() <= hay@.len(),
            last == hay@.len() - pat@.len(),
            i <= last,
            forall|j: int| 0 <= j < i ==> !contains_at(hay@, j, pat@),
        ensures
            i <= last,
            forall|j: int| 0 <= j < i ==> !contains_at(hay@, j, pat@),
            found == contains_at(hay@, i as int, pat@),
            !found ==> i == last,
        decreases last - i,
    {
        if matches_at(hay, i, pat) {
            found = true;
            break ;
        }
        if i == last {
            break ;
        }
        i = i + 1;
    }
    if found {
        proof {
            lemma_find_spec(hay@, pat@);
            let f = find_spec(hay@, pat@);
            assert(f >= 0);
            assert(!(f < i));
            assert(!(i < f)) by {
                if i < f {
                    assert(!contains_at(hay@, i as int, pat@));
                }
            }
        }
        return Some(i);
    }
    proof {
        assert forall|j: int| !contains_at(hay@, j, pat@) by {
            if 0 <= j <= last {
                assert(!contains_at(hay@, j, pat@));
            }
        }
        lemma_find_spec(hay@, pat@);
    }
    None
}

/// Reports whether `pat` occurs in `hay`.
pub fn contains_vec(hay: &Vec<char>, pat: &Vec<char>) -> (r: bool)
    ensures
        r == contains_seq(hay@, pat@),
{
    proof {
        lemma_find_spec(hay@, pat@);
    }
    match find_sub(hay, pat) {
        Some(_) => true,
        None => false,
    }
}

/// The whitespace characters that trimming removes.
pub open spec fn is_space(c: char) -> bool {
    c == ' ' || c == '\n' || c == '\t' || c == '\r'
}

/// Runtime check for `is_space`.
pub fn is_space_char(c: char) -> (r: bool)
    ensures
        r == is_space(c),
{
    c == ' ' || c == '\n' || c == '\t' || c == '\r'
}

/// `s` with its leading whitespace removed.
pub open spec fn trim_front_spec(s: Seq<char>) -> Seq<char>
    decreases s.len(),
{
    if s.len() > 0 && is_space(s[0]) {
        trim_front_spec(s.drop_first())
    } else {
        s
    }
}

/// `s` with its trailing whitespace removed.
pub open spec fn trim_back_spec(s: Seq<char>) -> Seq<char>
    decreases s.len(),
{
    if s.len() > 0 && is_space(s[s.len() - 1]) {
        trim_back_spec(s.drop_last())
    } else {
        s
    }
}

/// `s` with leading and trailing whitespace removed.
pub open spec fn trim_spec(s: Seq<char>) -> Seq<char> {
    trim_back_spec(trim_front_spec(s))
}

proof fn lemma_trim_front_skip(s: Seq<char>, k: int)
    requires
        0 <= k <= s.len(),
        forall|j: int| 0 <= j < k ==> is_space(s[j]),
    ensures
        trim_front_spec(s) == trim_front_spec(s.skip(k)),
    decreases k,
{
    if k > 0 {
        assert(is_space(s[0]));
        assert(s.drop_first() =~= s.skip(1));
        assert(forall|j: int| 0 <= j < k - 1 ==> is_space(#[trigger] s.skip(1)[j]));
        lemma_trim_front_skip(s.skip(1), k - 1);
        assert(s.skip(1).skip(k - 1) =~= s.skip(k));
    } else {
        assert(s.skip(0) =~= s);
    }
}

proof fn lemma_trim_back_take(s: Seq<char>, k: int)
    requires
        0 <= k <= s.len(),
        forall|j: int| k <= j < s.len() ==> is_space(s[j]),
    ensures
        trim_back_spec(s) == trim_back_spec(s.take(k)),
    decreases s.len() - k,
{
    if k < s.len() {
        assert(is_space(s[s.len() - 1]));
        assert(s.drop_last() =~= s.take(s.len() - 1));
        assert(forall|j: int|
            k <= j < s.len() - 1 ==> is_space(#[trigger] s.take(s.len() - 1)[j]));
        lemma_trim_back_take(s.take(s.len() - 1), k);
        assert(s.take(s.len() - 1).take(k) =~= s.take(k));
    } else {
        assert(s.take(k) =~= s);
    }
}

/// Copies `v[from..to]` into a fresh vector.
pub fn sub_vec(v: &Vec<char>, from: usize, to: usize) -> (r: Vec<char>)
    requires
        from <= to <= v@.len(),
    ensures
        r@ == v@.subrange(from as int, to as int),
{
    let mut r: Vec<char> = Vec::new();
    let mut i: usize = from;
    while i < to
        invariant
            from <= i <= to <= v@.len(),
            r@ == v@.subrange(from as int, i as int),
        decreases to - i,
    {
        r.push(v[i]);
        i = i + 1;
        proof {
            assert(r@ =~= v@.subrange(from as int, i as int));
        }
    }
    r
}

/// Appends all of `other` to `v`.
pub fn push_all(v: &mut Vec<char>, other: &Vec<char>)
    ensures
        final(v)@ == old(v)@ + other@,
{
    let mut i: usize = 0;
    while i < other.len()
        invariant
            i <= other@.len(),
            v@ == old(v)@ + other@.take(i as int),
        decreases other@.len() - i,
    {
        v.push(other[i]);
        i = i + 1;
        proof {
            assert(v@ =~= old(v)@ + other@.take(i as int));
        }
    }
    proof {
        assert(old(v)@ + other@.take(other@.len() as int) =~= old(v)@ + other@);
    }
}

/// Removes leading and trailing whitespace, as `trim_spec` describes it.
pub fn trim(v: &Vec<char>) -> (r: Vec<char>)
    ensures
        r@ == trim_spec(v@),
{
    let n = v.len();
    let mut lo: usize = 0;
    while lo < n && is_space_char(v[lo])
        invariant
            lo <= n,
            n == v@.len(),
            forall|j: int| 0 <= j < lo ==> is_space(v@[j]),
        decreases n - lo,
    {
        lo = lo + 1;
    }
    proof {
        lemma_trim_front_skip(v@, lo as int);
        if lo < n {
            assert(!is_space(v@.skip(lo as int)[0]));
        }
        assert(trim_front_spec(v@.skip(lo as int)) == v@.skip(lo as int));
    }
    // v@.skip(lo) is the front-trimmed sequence; now trim its back
    let mut hi: usize = n;
    while hi > lo && is_space_char(v[hi - 1])
        invariant
            lo <= hi <= n,
            n == v@.len(),
            forall|j: int| hi <= j < n ==> is_space(v@[j]),
        decreases hi,
    {
        hi = hi - 1;
    }
    proof {
        let front = v@.skip(lo as int);
        assert(forall|j: int|
            hi - lo <= j < front.len() ==> is_space(#[trigger] front[j]));
        lemma_trim_back_take(front, hi - lo);
        let taken = front.take(hi - lo);
        if hi > lo {
            assert(taken[taken.len() - 1] == v@[hi - 1]);
            assert(!is_space(taken[taken.len() - 1]));
        }
        assert(trim_back_spec(taken) == taken);
        assert(taken =~= v@.subrange(lo as int, hi as int));
    }
    sub_vec(v, lo, hi)
}

/// Finds the leftmost occurrence of `pat` at or after `start`, as an absolute index.
pub fn find_from(hay: &Vec<char>, start: usize, pat: &Vec<char>) -> (r: Option<usize>)
    requires
        start <= hay@.len(),
    ensures
        match r {
            Some(i) => start <= i && i - start == find_spec(hay@.skip(start as int), pat@),
            None => find_spec(hay@.skip(start as int), pat@) < 0,
        },
{
    let n = hay.len();
    let rest = sub_vec(hay, start, n);
    proof {
        assert(rest@ =~= hay@.skip(start as int));
    }
    match find_sub(&rest, pat) {
        Some(i) => {
            proof {
                lemma_find_spec(rest@, pat@);
                assert(i + pat@.len() <= rest@.len());
            }
            Some(start + i)
        },
        None => None,
    }
}

/// The pieces of `s` between the occurrences of the delimiter `d`, left to right.
pub open spec fn split_spec(s: Seq<char>, d: Seq<char>) -> Seq<Seq<char>>
    decreases s.len(),
        when d.len() > 0
{
    let i = find_spec(s, d);
    if i < 0 || i + d.len() > s.len() {
        seq![s]
    } else {
        seq![s.take(i)] + split_spec(s.skip(i + d.len() as int), d)
    }
}

/// Splits `v` on the delimiter `d`, as `split_spec` describes it.
pub fn split_all(v: &Vec<char>, d: &Vec<char>) -> (r: Vec<Vec<char>>)
    requires
        d@.len() > 0,
    ensures
        r@.map_values(|x: Vec<char>| x@) == split_spec(v@, d@),
{
    let n = v.len();
    let mut parts: Vec<Vec<char>> = Vec::new();
    let mut pos: usize = 0;
    proof {
        assert(v@.skip(0) =~= v@);
        assert(parts@.map_values(|x: Vec<char>| x@) =~= Seq::<Seq<char>>::empty());
        assert(Seq::<Seq<char>>::empty() + split_spec(v@, d@) =~= split_spec(v@, d@));
    }
    loop
        invariant_except_break
            split_spec(v@, d@) =~= parts@.map_values(|x: Vec<char>| x@) + split_spec(
                v@.skip(pos as int),
                d@,
            ),
        invariant
            d@.len() > 0,
            pos <= v@.len(),
            n == v@.len(),
        ensures
            split_spec(v@, d@) =~= parts@.map_values(|x: Vec<char>| x@),
        decreases v@.len() - pos,
    {
        let ghost rest = v@.skip(pos as int);
        proof {
            lemma_find_spec(rest, d@);
        }
        match find_from(v, pos, d) {
            Some(abs_i) => {
                proof {
                    assert(abs_i - pos == find_spec(rest, d@));
                    assert(abs_i - pos + d@.len() <= rest.len());
                }
                proof {
                    assert(abs_i + d@.len() <= v@.len());
                }
                let piece = sub_vec(v, pos, abs_i);
                proof {
                    assert(rest.take(abs_i - pos) =~= v@.subrange(pos as int, abs_i as int));
                }
                let ghost parts_before = parts@;
                parts.push(piece);
                proof {
                    assert(parts@.map_values(|x: Vec<char>| x@) =~= parts_before.map_values(
                        |x: Vec<char>| x@,
                    ).push(piece@));
                    assert(rest.skip(abs_i - pos + d@.len() as int) =~= v@.skip(
                        abs_i + d@.len() as int,
                    ));
                }
                pos = abs_i + d.len();
            },
            None => {
                let piece = sub_vec(v, pos, v.len());
                proof {
                    assert(piece@ =~= rest);
                    assert(split_spec(rest, d@) =~= seq![rest]);
                }
                let ghost parts_before = parts@;
                parts.push(piece);
                proof {
                    assert(parts@.map_values(|x: Vec<char>| x@) =~= parts_before.map_values(
                        |x: Vec<char>| x@,
                    ).push(piece@));
                }
                break ;
            },
        }
    }
    parts
}

/// The parts joined with the separator `sep` between consecutive parts.
pub open spec fn join_spec(parts: Seq<Seq<char>>, sep: Seq<char>) -> Seq<char>
    decreases parts.len(),
{
    if parts.len() == 0 {
        Seq::empty()
    } else if parts.len() == 1 {
        parts[0]
    } else {
        parts[0] + sep + join_spec(parts.drop_first(), sep)
    }
}

/// Joining one more part appends a separator and the part.
pub proof fn lemma_join_push(parts: Seq<Seq<char>>, sep: Seq<char>, x: Seq<char>)
    ensures
        parts.len() == 0 ==> join_spec(parts.push(x), sep) == x,
        parts.len() > 0 ==> join_spec(parts.push(x), sep) == join_spec(parts, sep) + sep + x,
    decreases parts.len(),
{
    let p = parts.push(x);
    if parts.len() == 0 {
        assert(p.len() == 1);
        assert(p[0] == x);
    } else if parts.len() == 1 {
        assert(p.len() == 2);
        assert(p.drop_first() =~= seq![x]);
        assert(join_spec(p.drop_first(), sep) == x);
        assert(p[0] == parts[0]);
    } else {
        assert(p.drop_first() =~= parts.drop_first().push(x));
        lemma_join_push(parts.drop_first(), sep, x);
        assert(p[0] == parts[0]);
        assert(join_spec(p, sep) == p[0] + sep + join_spec(p.drop_first(), sep));
        assert(join_spec(p.drop_first(), sep) == join_spec(parts.drop_first(), sep) + sep + x);
        assert(parts[0] + sep + (join_spec(parts.drop_first(), sep) + sep + x) =~= (parts[0] + sep
            + join_spec(parts.drop_first(), sep)) + sep + x);
    }
}

/// Joins the parts with the separator, as `join_spec` describes it.
pub fn join_all(parts: &Vec<Vec<char>>, sep: &Vec<char>) -> (r: Vec<char>)
    ensures
        r@ == join_spec(parts@.map_values(|x: Vec<char>| x@), sep@),
{
    let mut acc: Vec<char> = Vec::new();
    let mut i: usize = 0;
    while i < parts.len()
        invariant
            i <= parts@.len(),
            acc@ == join_spec(parts@.take(i as int).map_values(|x: Vec<char>| x@), sep@),
        decreases parts@.len() - i,
    {
        proof {
            let taken = parts@.take(i as int).map_values(|x: Vec<char>| x@);
            lemma_join_push(taken, sep@, parts@[i as int]@);
            assert(parts@.take(i + 1).map_values(|x: Vec<char>| x@) =~= taken.push(
                parts@[i as int]@,
            ));
        }
        if i > 0 {
            push_all(&mut acc, sep);
        } else {
            proof {
                assert(parts@.take(0int).map_values(|x: Vec<char>| x@) =~= Seq::<
                    Seq<char>,
                >::empty());
            }
        }
        let piece = sub_vec(&parts[i], 0, parts[i].len());
        proof {
            assert(piece@ =~= parts@[i as int]@);
        }
        push_all(&mut acc, &piece);
        i = i + 1;
    }
    proof {
        assert(parts@.take(parts@.len() as int) =~= parts@);
    }
    acc
}

/// `s` with every occurrence of `from` replaced by `to`, scanning left to right.
pub open spec fn replace_spec(s: Seq<char>, from: Seq<char>, to: Seq<char>) -> Seq<char>
    decreases s.len(),
        when from.len() > 0
{
    let i = find_spec(s, from);
    if i < 0 || i + from.len() > s.len() {
        s
    } else {
        s.take(i) + to + replace_spec(s.skip(i + from.len() as int), from, to)
    }
}

/// Replaces every occurrence of `from` by `to`, as `replace_spec` describes it.
pub fn replace_all(v: &Vec<char>, from: &Vec<char>, to: &Vec<char>) -> (r: Vec<char>)
    requires
        from@.len() > 0,
    ensures
        r@ == replace_spec(v@, from@, to@),
{
    let n = v.len();
    let mut acc: Vec<char> = Vec::new();
    let mut pos: usize = 0;
    proof {
        assert(v@.skip(0) =~= v@);
        assert(acc@ + replace_spec(v@, from@, to@) =~= replace_spec(v@, from@, to@));
    }
    loop
        invariant_except_break
            replace_spec(v@, from@, to@) =~= acc@ + replace_spec(
                v@.skip(pos as int),
                from@,
                to@,
            ),
        invariant
            from@.len() > 0,
            pos <= v@.len(),
            n == v@.len(),
        ensures
            replace_spec(v@, from@, to@) =~= acc@,
        decreases v@.len() - pos,
    {
        let ghost rest = v@.skip(pos as int);
        proof {
            lemma_find_spec(rest, from@);
        }
        match find_from(v, pos, from) {
            Some(abs_i) => {
                proof {
                    assert(abs_i - pos == find_spec(rest, from@));
                    assert(abs_i - pos + from@.len() <= rest.len());
                    assert(abs_i + from@.len() <= v@.len());
                }
                let piece = sub_vec(v, pos, abs_i);
                proof {
                    assert(piece@ =~= rest.take(abs_i - pos));
                }
                push_all(&mut acc, &piece);
                push_all(&mut acc, to);
                proof {
                    assert(rest.skip(abs_i - pos + from@.len() as int) =~= v@.skip(
                        abs_i + from@.len() as int,
                    ));
                }
                pos = abs_i + from.len();
            },
            None => {
                let piece = sub_vec(v, pos, v.len());
                proof {
                    assert(piece@ =~= rest);
                    assert(replace_spec(rest, from@, to@) == rest);
                }
                push_all(&mut acc, &piece);
                break ;
            },
        }
    }
    acc
}

/// `s` without the prefix `p`, or `s` itself when `p` is not a prefix.
pub open spec fn strip_prefix_spec(s: Seq<char>, p: Seq<char>) -> Seq<char> {
    if p.len() <= s.len() && s.take(p.len() as int) == p {
        s.skip(p.len() as int)
    } else {
        s
    }
}

/// Reports whether `p` is a prefix of `v`.
pub fn starts_with_vec(v: &Vec<char>, p: &Vec<char>) -> (r: bool)
    ensures
        r == (p@.len() <= v@.len() && v@.take(p@.len() as int) == p@),
{
    if p.len() > v.len() {
        return false;
    }
    let m = matches_at(v, 0, p);
    proof {
        assert(v@.subrange(0, p@.len() as int) =~= v@.take(p@.len() as int));
    }
    m
}

/// Removes the prefix `p` once, as `strip_prefix_spec` describes it.
pub fn strip_prefix(v: &Vec<char>, p: &Vec<char>) -> (r: Vec<char>)
    ensures
        r@ == strip_prefix_spec(v@, p@),
{
    if starts_with_vec(v, p) {
        let r = sub_vec(v, p.len(), v.len());
        proof {
            assert(r@ =~= v@.skip(p@.len() as int));
        }
        r
    } else {
        sub_vec(v, 0, v.len())
    }
}

/// The decimal digit character for `d`.
pub open spec fn dec_digit(d: int) -> char {
    if d == 0 {
        '0'
    } else if d == 1 {
        '1'
    } else if d == 2 {
        '2'
    } else if d == 3 {
        '3'
    } else if d == 4 {
        '4'
    } else if d == 5 {
        '5'
    } else if d == 6 {
        '6'
    } else if d == 7 {
        '7'
    } else if d == 8 {
        '8'
    } else {
        '9'
    }
}

/// The decimal rendering of `n`, most significant digit first.
pub open spec fn dec_spec(n: nat) -> Seq<char>
    decreases n,
{
    if n < 10 {
        seq![dec_digit(n as int)]
    } else {
        dec_spec(n / 10).push(dec_digit((n % 10) as int))
    }
}

fn dec_digit_char(d: u64) -> (c: char)
    requires
        d < 10,
    ensures
        c == dec_digit(d as int),
{
    if d == 0 {
        '0'
    } else if d == 1 {
        '1'
    } else if d == 2 {
        '2'
    } else if d == 3 {
        '3'
    } else if d == 4 {
        '4'
    } else if d == 5 {
        '5'
    } else if d == 6 {
        '6'
    } else if d == 7 {
        '7'
    } else if d == 8 {
        '8'
    } else {
        '9'
    }
}

/// Renders `n` in decimal, as `dec_spec` describes it.
pub fn u64_to_dec(n: u64) -> (r: Vec<char>)
    ensures
        r@ == dec_spec(n as nat),
{
    let mut out: Vec<char> = Vec::new();
    let mut m: u64 = n;
    loop
        invariant_except_break
            dec_spec(n as nat) =~= dec_spec(m as nat) + out@,
        ensures
            dec_spec(n as nat) =~= out@,
        decreases m,
    {
        let d = m % 10;
        let c = dec_digit_char(d);
        let ghost out_before = out@;
        out.insert(0, c);
        proof {
            assert(out@ =~= seq![c] + out_before);
        }
        if m < 10 {
            proof {
                assert(dec_spec(m as nat) =~= seq![c]);
            }
            break ;
        }
        proof {
            assert(dec_spec(m as nat) =~= dec_spec((m / 10) as nat) + seq![c]);
        }
        m = m / 10;
    }
    out
}

/// What `str::to_lowercase` returns for a given character sequence.
pub uninterp spec fn lower_of(s: Seq<char>) -> Seq<char>;

/// Relies on `str::to_lowercase`: the result depends on the characters alone,
/// and an empty string stays empty.
#[verifier::external_body]
pub fn lowercase(s: &str) -> (r: String)
    ensures
        r@ == lower_of(s@),
        s@.len() == 0 ==> r@.len() == 0,
{
    s.to_lowercase()
}

/// Builds a string out of a sequence of characters.
pub fn string_of(v: &Vec<char>) -> (r: String)
    ensures
        r@ == v@,
{
    let mut r = String::new();
    let mut i: usize = 0;
    while i < v.len()
        invariant
            i <= v@.len(),
            r@ == v@.take(i as int),
        decreases v@.len() - i,
    {
        push_char(&mut r, v[i]);
        i = i + 1;
        proof {
            assert(r@ =~= v@.take(i as int));
        }
    }
    proof {
        assert(v@.take(v@.len() as int) =~= v@);
    }
    r
}

} // verus!
