//! Character-sequence primitives: line splitting, searching, trimming,
//! joining and ASCII case folding, each with a spec function and an
//! executable counterpart proved against it.
use vstd::prelude::*;

verus! {

// ---------------------------------------------------------------------------
// Conversions between `str`/`String` and character vectors
// ---------------------------------------------------------------------------

/// Relies on `str::chars`: it yields the characters of the string in order.
#[verifier::external_body]
pub(crate) fn chars_of(s: &str) -> (r: Vec<char>)
    ensures
        r@ == s@,
{
    s.chars().collect()
}

/// Relies on `String`'s `FromIterator<char>`: the string holds the given
/// characters in order.
#[verifier::external_body]
pub(crate) fn string_of(v: &Vec<char>) -> (r: String)
    ensures
        r@ == v@,
{
    v.iter().collect()
}

// ---------------------------------------------------------------------------
// Lines
// ---------------------------------------------------------------------------

/// The pieces of `s` between newline characters, read from left to right.
/// There is always at least one piece.
pub open spec fn split_nl(s: Seq<char>) -> Seq<Seq<char>>
    decreases s.len(),
{
    if s.len() == 0 {
        seq![Seq::empty()]
    } else {
        let prev = split_nl(s.drop_last());
        if s.last() == '\n' {
            prev.push(Seq::empty())
        } else {
            prev.update(prev.len() - 1, prev.last().push(s.last()))
        }
    }
}

/// A line with one trailing carriage return removed.
pub open spec fn strip_cr(l: Seq<char>) -> Seq<char> {
    if l.len() > 0 && l.last() == '\r' {
        l.drop_last()
    } else {
        l
    }
}

/// The lines of a text: the newline-separated pieces, without the empty
/// piece after a final newline, each without a trailing carriage return.
pub open spec fn lines_of(s: Seq<char>) -> Seq<Seq<char>> {
    let p = split_nl(s);
    let q = if p.last().len() == 0 {
        p.drop_last()
    } else {
        p
    };
    q.map_values(|l: Seq<char>| strip_cr(l))
}

/// The character view of each line of a vector of lines.
pub open spec fn lines_view(v: Seq<Vec<char>>) -> Seq<Seq<char>> {
    v.map_values(|l: Vec<char>| l@)
}

/// A text always has at least one newline-separated piece.
pub proof fn lemma_split_nl_nonempty(s: Seq<char>)
    ensures
        split_nl(s).len() >= 1,
    decreases s.len(),
{
    if s.len() > 0 {
        lemma_split_nl_nonempty(s.drop_last());
    }
}

fn strip_cr_exec(l: Vec<char>) -> (r: Vec<char>)
    ensures
        r@ == strip_cr(l@),
{
    let mut l = l;
    if l.len() > 0 && l[l.len() - 1] == '\r' {
        l.pop();
    }
    l
}

/// Splits a text into its lines.
pub fn split_lines(s: &Vec<char>) -> (r: Vec<Vec<char>>)
    ensures
        lines_view(r@) == lines_of(s@),
{
    let mut out: Vec<Vec<char>> = Vec::new();
    let mut cur: Vec<char> = Vec::new();
    let mut i: usize = 0;
    proof {
        assert(s@.take(0) =~= Seq::<char>::empty());
    }
    while i < s.len()
        invariant
            i <= s.len(),
            split_nl(s@.take(i as int)).len() == out@.len() + 1,
            lines_view(out@) == split_nl(s@.take(i as int)).drop_last().map_values(
                |l: Seq<char>| strip_cr(l),
            ),
            cur@ == split_nl(s@.take(i as int)).last(),
        decreases s.len() - i,
    {
        let c = s[i];
        let ghost prev = split_nl(s@.take(i as int));
        proof {
            assert(s@.take(i + 1).drop_last() =~= s@.take(i as int));
            assert(s@.take(i + 1).last() == c);
        }
        if c == '\n' {
            let ghost old_out = out@;
            let line = strip_cr_exec(cur);
            out.push(line);
            cur = Vec::new();
            proof {
                let next = split_nl(s@.take(i + 1));
                assert(next == prev.push(Seq::empty()));
                assert(next.drop_last() =~= prev);
                assert(lines_view(out@) =~= lines_view(old_out).push(line@));
                assert(prev.map_values(|l: Seq<char>| strip_cr(l)) =~= prev.drop_last().map_values(
                    |l: Seq<char>| strip_cr(l),
                ).push(strip_cr(prev.last())));
            }
        } else {
            cur.push(c);
            proof {
                let next = split_nl(s@.take(i + 1));
                assert(next.drop_last() =~= prev.drop_last());
            }
        }
        i += 1;
    }
    proof {
        assert(s@.take(s.len() as int) =~= s@);
    }
    if cur.len() > 0 {
        let ghost old_out = out@;
        let line = strip_cr_exec(cur);
        out.push(line);
        proof {
            let p = split_nl(s@);
            assert(lines_view(out@) =~= lines_view(old_out).push(line@));
            assert(p.map_values(|l: Seq<char>| strip_cr(l)) =~= p.drop_last().map_values(
                |l: Seq<char>| strip_cr(l),
            ).push(strip_cr(p.last())));
        }
    } else {
        proof {
            let p = split_nl(s@);
            assert(lines_view(out@) =~= p.drop_last().map_values(|l: Seq<char>| strip_cr(l)));
        }
    }
    out
}


// ---------------------------------------------------------------------------
// Searching
// ---------------------------------------------------------------------------

/// `p` occurs in `s` starting at index `i`.
pub open spec fn occurs_at(s: Seq<char>, p: Seq<char>, i: int) -> bool {
    0 <= i && i + p.len() <= s.len() && s.subrange(i, i + p.len()) == p
}

/// The first index at or after `from` where `p` occurs in `s`.
pub open spec fn first_at(s: Seq<char>, p: Seq<char>, from: int) -> Option<int>
    decreases s.len() + 1 - from,
{
    if from < 0 || from + p.len() > s.len() {
        None
    } else if occurs_at(s, p, from) {
        Some(from)
    } else {
        first_at(s, p, from + 1)
    }
}

/// `p` occurs somewhere in `s`.
pub open spec fn contains(s: Seq<char>, p: Seq<char>) -> bool {
    first_at(s, p, 0) is Some
}

/// The last index at or before `hi` where `p` occurs in `s`.
pub open spec fn last_at(s: Seq<char>, p: Seq<char>, hi: int) -> Option<int>
    decreases hi + 1,
{
    if hi < 0 {
        None
    } else if occurs_at(s, p, hi) {
        Some(hi)
    } else {
        last_at(s, p, hi - 1)
    }
}

/// A found occurrence lies at or after the start of the search.
pub proof fn lemma_first_at_bounds(s: Seq<char>, p: Seq<char>, from: int)
    ensures
        first_at(s, p, from) matches Some(i) ==> from <= i && occurs_at(s, p, i),
    decreases s.len() + 1 - from,
{
    if !(from < 0 || from + p.len() > s.len()) && !occurs_at(s, p, from) {
        lemma_first_at_bounds(s, p, from + 1);
    }
}

/// A found occurrence lies between 0 and the end of the search.
pub proof fn lemma_last_at_bounds(s: Seq<char>, p: Seq<char>, hi: int)
    ensures
        last_at(s, p, hi) matches Some(i) ==> 0 <= i <= hi && occurs_at(s, p, i),
    decreases hi + 1,
{
    if hi >= 0 && !occurs_at(s, p, hi) {
        lemma_last_at_bounds(s, p, hi - 1);
    }
}

/// Whether `p` occurs in `s` at index `i`.
pub fn matches_at(s: &Vec<char>, p: &Vec<char>, i: usize) -> (r: bool)
    requires
        i + p.len() <= s.len(),
    ensures
        r == occurs_at(s@, p@, i as int),
{
    let mut k: usize = 0;
    while k < p.len()
        invariant
            k <= p.len(),
            i + p.len() <= s.len(),
            forall|t: int| 0 <= t < k ==> s@[i + t] == p@[t],
        decreases p.len() - k,
    {
        if s[i + k] != p[k] {
            proof {
                assert(s@.subrange(i as int, i + p.len())[k as int] != p@[k as int]);
            }
            return false;
        }
        k += 1;
    }
    proof {
        assert(s@.subrange(i as int, i + p.len()) =~= p@);
    }
    true
}

/// The first index at or after `from` where `p` occurs in `s`.
pub fn find_from(s: &Vec<char>, p: &Vec<char>, from: usize) -> (r: Option<usize>)
    ensures
        r matches Some(i) ==> first_at(s@, p@, from as int) == Some(i as int),
        r is None ==> first_at(s@, p@, from as int) is None,
{
    let mut j = from;
    while j <= s.len() && p.len() <= s.len() - j
        invariant
            from <= j,
            first_at(s@, p@, from as int) == first_at(s@, p@, j as int),
        decreases s.len() - j,
    {
        if matches_at(s, p, j) {
            return Some(j);
        }
        proof {
            if p.len() == 0 {
                assert(s@.subrange(j as int, j as int) =~= p@);
            }
        }
        j += 1;
    }
    None
}

/// Whether `p` occurs anywhere in `s`.
pub fn contains_exec(s: &Vec<char>, p: &Vec<char>) -> (r: bool)
    ensures
        r == contains(s@, p@),
{
    find_from(s, p, 0).is_some()
}

/// The last index at or before `hi` where `p` occurs in `s`.
pub fn find_last(s: &Vec<char>, p: &Vec<char>, hi: usize) -> (r: Option<usize>)
    requires
        hi < s.len(),
    ensures
        r matches Some(i) ==> last_at(s@, p@, hi as int) == Some(i as int),
        r is None ==> last_at(s@, p@, hi as int) is None,
{
    let mut j: usize = hi + 1;
    while j > 0
        invariant
            j <= s.len(),
            j <= hi + 1,
            last_at(s@, p@, hi as int) == last_at(s@, p@, j - 1),
        decreases j,
    {
        let i = j - 1;
        if p.len() <= s.len() - i && matches_at(s, p, i) {
            return Some(i);
        }
        j = i;
    }
    None
}

/// Two character sequences are equal.
pub fn chars_eq(a: &Vec<char>, b: &Vec<char>) -> (r: bool)
    ensures
        r == (a@ == b@),
{
    if a.len() != b.len() {
        return false;
    }
    let m = matches_at(a, b, 0);
    proof {
        assert(a@.subrange(0, b@.len() as int) =~= a@);
    }
    m
}

// ---------------------------------------------------------------------------
// Trimming
// ---------------------------------------------------------------------------

/// The ASCII whitespace characters.
pub open spec fn is_space(c: char) -> bool {
    c == ' ' || c == '\t' || c == '\n' || c == '\r' || c == '\x0B' || c == '\x0C'
}

fn is_space_exec(c: char) -> (r: bool)
    ensures
        r == is_space(c),
{
    c == ' ' || c == '\t' || c == '\n' || c == '\r' || c == '\x0B' || c == '\x0C'
}

/// `s` without leading whitespace.
pub open spec fn trim_start(s: Seq<char>) -> Seq<char>
    decreases s.len(),
{
    if s.len() > 0 && is_space(s[0]) {
        trim_start(s.skip(1))
    } else {
        s
    }
}

/// `s` without trailing whitespace.
pub open spec fn trim_end(s: Seq<char>) -> Seq<char>
    decreases s.len(),
{
    if s.len() > 0 && is_space(s.last()) {
        trim_end(s.drop_last())
    } else {
        s
    }
}

/// `s` without leading and trailing whitespace.
pub open spec fn trim(s: Seq<char>) -> Seq<char> {
    trim_end(trim_start(s))
}

/// The characters of `s` from `from` up to `to`.
pub fn slice_chars(s: &Vec<char>, from: usize, to: usize) -> (r: Vec<char>)
    requires
        from <= to <= s.len(),
    ensures
        r@ == s@.subrange(from as int, to as int),
{
    let mut out: Vec<char> = Vec::new();
    let mut i = from;
    while i < to
        invariant
            from <= i <= to <= s.len(),
            out@ == s@.subrange(from as int, i as int),
        decreases to - i,
    {
        out.push(s[i]);
        proof {
            assert(s@.subrange(from as int, i + 1) =~= s@.subrange(from as int, i as int).push(
                s@[i as int],
            ));
        }
        i += 1;
    }
    out
}

/// `s` without leading and trailing whitespace.
pub fn trim_exec(s: &Vec<char>) -> (r: Vec<char>)
    ensures
        r@ == trim(s@),
{
    let mut a: usize = 0;
    proof {
        assert(s@.skip(0) =~= s@);
    }
    while a < s.len() && is_space_exec(s[a])
        invariant
            a <= s.len(),
            trim_start(s@) == trim_start(s@.skip(a as int)),
        decreases s.len() - a,
    {
        proof {
            assert(s@.skip(a as int).skip(1) =~= s@.skip(a + 1));
        }
        a += 1;
    }
    let ghost t = s@.skip(a as int);
    let mut b: usize = s.len();
    proof {
        assert(t.take(t.len() as int) =~= t);
        assert(trim_start(t) == t);
    }
    while b > a && is_space_exec(s[b - 1])
        invariant
            a <= b <= s.len(),
            t == s@.skip(a as int),
            trim_end(t) == trim_end(t.take(b - a)),
        decreases b,
    {
        proof {
            assert(t.take(b - a).drop_last() =~= t.take(b - a - 1));
        }
        b -= 1;
    }
    proof {
        assert(t.take(b - a) =~= s@.subrange(a as int, b as int));
    }
    slice_chars(s, a, b)
}

// ---------------------------------------------------------------------------
// Joining
// ---------------------------------------------------------------------------

/// The parts joined with `sep` between each two neighbours.
pub open spec fn join(parts: Seq<Seq<char>>, sep: Seq<char>) -> Seq<char>
    decreases parts.len(),
{
    if parts.len() == 0 {
        Seq::empty()
    } else if parts.len() == 1 {
        parts[0]
    } else {
        join(parts.drop_last(), sep) + sep + parts.last()
    }
}

/// Appends `t` to `out`.
pub fn push_all(out: &mut Vec<char>, t: &Vec<char>)
    ensures
        final(out)@ == old(out)@ + t@,
{
    let mut i: usize = 0;
    while i < t.len()
        invariant
            i <= t.len(),
            out@ == old(out)@ + t@.take(i as int),
        decreases t.len() - i,
    {
        out.push(t[i]);
        proof {
            assert(t@.take(i + 1) =~= t@.take(i as int).push(t@[i as int]));
        }
        i += 1;
    }
    proof {
        assert(t@.take(t.len() as int) =~= t@);
    }
}

/// The lines `parts[from..to]` joined with `sep`.
pub fn join_range(parts: &Vec<Vec<char>>, from: usize, to: usize, sep: &Vec<char>) -> (r: Vec<
    char,
>)
    requires
        from <= to <= parts.len(),
    ensures
        r@ == join(lines_view(parts@).subrange(from as int, to as int), sep@),
{
    let ghost v = lines_view(parts@);
    let mut out: Vec<char> = Vec::new();
    if from == to {
        return out;
    }
    out = slice_chars(&parts[from], 0, parts[from].len());
    proof {
        assert(out@ =~= v[from as int]);
        assert(v.subrange(from as int, from + 1).drop_last().len() == 0);
    }
    let mut i = from + 1;
    while i < to
        invariant
            from < i <= to <= parts.len(),
            v == lines_view(parts@),
            out@ == join(v.subrange(from as int, i as int), sep@),
        decreases to - i,
    {
        push_all(&mut out, sep);
        push_all(&mut out, &parts[i]);
        proof {
            assert(v.subrange(from as int, i + 1).drop_last() =~= v.subrange(from as int, i as int));
        }
        i += 1;
    }
    out
}

/// A copy of the lines `lines[from..to]`.
pub fn copy_lines(lines: &Vec<Vec<char>>, from: usize, to: usize) -> (r: Vec<Vec<char>>)
    requires
        from <= to <= lines.len(),
    ensures
        lines_view(r@) == lines_view(lines@).subrange(from as int, to as int),
{
    let ghost l = lines_view(lines@);
    let mut out: Vec<Vec<char>> = Vec::new();
    let mut k = from;
    proof {
        assert(lines_view(out@) =~= l.subrange(from as int, k as int));
    }
    while k < to
        invariant
            from <= k <= to <= lines.len(),
            l == lines_view(lines@),
            lines_view(out@) == l.subrange(from as int, k as int),
        decreases to - k,
    {
        let line = slice_chars(&lines[k], 0, lines[k].len());
        let ghost out0 = lines_view(out@);
        out.push(line);
        proof {
            assert(lines[k as int]@.subrange(0, lines[k as int]@.len() as int) =~= lines[k as int]@);
            assert(lines_view(out@) =~= out0.push(line@));
            assert(l.subrange(from as int, k + 1) =~= l.subrange(from as int, k as int).push(l[k as int]));
        }
        k += 1;
    }
    out
}

/// The first index at or after `from` of a line equal to `m`, or the
/// number of lines.
pub open spec fn next_equal(lines: Seq<Seq<char>>, from: int, m: Seq<char>) -> int
    decreases lines.len() - from,
{
    if from >= lines.len() {
        lines.len() as int
    } else if from >= 0 && lines[from] == m {
        from
    } else {
        next_equal(lines, from + 1, m)
    }
}

/// The first index at or after `from` of a line equal to `m`, or the
/// number of lines.
pub fn find_equal(lines: &Vec<Vec<char>>, from: usize, m: &Vec<char>) -> (r: usize)
    requires
        from <= lines.len(),
    ensures
        r as int == next_equal(lines_view(lines@), from as int, m@),
        from <= r <= lines.len(),
{
    let ghost l = lines_view(lines@);
    let mut j = from;
    while j < lines.len() && !chars_eq(&lines[j], m)
        invariant
            from <= j <= lines.len(),
            l == lines_view(lines@),
            next_equal(l, from as int, m@) == next_equal(l, j as int, m@),
        decreases lines.len() - j,
    {
        j += 1;
    }
    j
}

} // verus!
