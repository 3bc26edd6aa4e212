//! Case-insensitive cloze substitution: every occurrence of a term in a
//! sentence is wrapped as `{{c1::<matched text>}}`, keeping the sentence's
//! own casing of the match.
use vstd::prelude::*;
use crate::text::{push_all, slice_chars};

verus! {

/// ASCII lower case of one character.
pub open spec fn lower_char(c: char) -> char {
    if 'A' <= c && c <= 'Z' {
        ((c as u8) + 32u8) as char
    } else {
        c
    }
}

fn lower_char_exec(c: char) -> (r: char)
    ensures
        r == lower_char(c),
{
    if 'A' <= c && c <= 'Z' {
        ((c as u8) + 32u8) as char
    } else {
        c
    }
}

/// A text folded to ASCII lower case, one character for one.
pub open spec fn fold(s: Seq<char>) -> Seq<char> {
    s.map_values(|c: char| lower_char(c))
}

/// Folds a text to ASCII lower case.
pub fn fold_exec(s: &Vec<char>) -> (r: Vec<char>)
    ensures
        r@ == fold(s@),
{
    let mut out: Vec<char> = Vec::new();
    let mut i: usize = 0;
    while i < s.len()
        invariant
            i <= s.len(),
            out@ == fold(s@.take(i as int)),
        decreases s.len() - i,
    {
        out.push(lower_char_exec(s[i]));
        proof {
            assert(fold(s@.take(i + 1)) =~= fold(s@.take(i as int)).push(lower_char(s@[i as int])));
        }
        i += 1;
    }
    proof {
        assert(s@.take(s.len() as int) =~= s@);
    }
    out
}

/// The term `t` occurs in `s` at index `i`, ignoring ASCII case.
pub open spec fn occurs_ci(s: Seq<char>, t: Seq<char>, i: int) -> bool {
    0 <= i && i + t.len() <= s.len() && fold(s.subrange(i, i + t.len())) == fold(t)
}

/// The marker that opens a cloze deletion.
pub open spec fn cloze_open() -> Seq<char> {
    seq!['{', '{', 'c', '1', ':', ':']
}

/// The marker that closes a cloze deletion.
pub open spec fn cloze_close() -> Seq<char> {
    seq!['}', '}']
}

/// `s` with each occurrence of `t` (ignoring ASCII case, scanning from the
/// left, occurrences not overlapping) wrapped in cloze markers. An empty
/// term changes nothing.
pub open spec fn cloze_all(s: Seq<char>, t: Seq<char>) -> Seq<char>
    decreases s.len(),
{
    if s.len() == 0 || t.len() == 0 {
        s
    } else if occurs_ci(s, t, 0) {
        cloze_open() + s.take(t.len() as int) + cloze_close() + cloze_all(s.skip(t.len() as int), t)
    } else {
        seq![s[0]] + cloze_all(s.skip(1), t)
    }
}

/// A non-empty term `t` occurs somewhere in `s`, ignoring ASCII case.
pub open spec fn ci_found(s: Seq<char>, t: Seq<char>) -> bool
    decreases s.len(),
{
    if t.len() == 0 || s.len() < t.len() {
        false
    } else {
        occurs_ci(s, t, 0) || ci_found(s.skip(1), t)
    }
}

pub(crate) fn cloze_open_exec() -> (r: Vec<char>)
    ensures
        r@ == cloze_open(),
{
    let mut v: Vec<char> = Vec::new();
    v.push('{');
    v.push('{');
    v.push('c');
    v.push('1');
    v.push(':');
    v.push(':');
    proof {
        assert(v@ =~= cloze_open());
    }
    v
}

fn cloze_close_exec() -> (r: Vec<char>)
    ensures
        r@ == cloze_close(),
{
    let mut v: Vec<char> = Vec::new();
    v.push('}');
    v.push('}');
    proof {
        assert(v@ =~= cloze_close());
    }
    v
}

fn matches_ci_at(s: &Vec<char>, t: &Vec<char>, i: usize) -> (r: bool)
    requires
        i + t.len() <= s.len(),
    ensures
        r == occurs_ci(s@, t@, i as int),
{
    let ghost w = s@.subrange(i as int, i + t.len());
    let mut k: usize = 0;
    while k < t.len()
        invariant
            k <= t.len(),
            i + t.len() <= s.len(),
            w == s@.subrange(i as int, i + t.len()),
            forall|j: int| 0 <= j < k ==> lower_char(w[j]) == lower_char(t@[j]),
        decreases t.len() - k,
    {
        if lower_char_exec(s[i + k]) != lower_char_exec(t[k]) {
            proof {
                assert(fold(w)[k as int] != fold(t@)[k as int]);
            }
            return false;
        }
        k += 1;
    }
    proof {
        assert(fold(w) =~= fold(t@));
    }
    true
}

/// Wraps every occurrence of `term` in `sentence` (ignoring ASCII case) in
/// cloze markers, and tells whether there was any.
pub fn cloze_exec(sentence: &Vec<char>, term: &Vec<char>) -> (r: (Vec<char>, bool))
    ensures
        r.0@ == cloze_all(sentence@, term@),
        r.1 == ci_found(sentence@, term@),
{
    let s = sentence;
    let t = term;
    if t.len() == 0 {
        return (slice_chars(s, 0, s.len()), false);
    }
    let open = cloze_open_exec();
    let close = cloze_close_exec();
    let mut out: Vec<char> = Vec::new();
    let mut found = false;
    let mut i: usize = 0;
    proof {
        assert(s@.skip(0) =~= s@);
    }
    while i < s.len()
        invariant
            i <= s.len(),
            t.len() > 0,
            open@ == cloze_open(),
            close@ == cloze_close(),
            out@ + cloze_all(s@.skip(i as int), t@) == cloze_all(s@, t@),
            found ==> ci_found(s@, t@),
            !found ==> ci_found(s@, t@) == ci_found(s@.skip(i as int), t@),
        decreases s.len() - i,
    {
        let ghost rest = s@.skip(i as int);
        let n = t.len();
        if n <= s.len() - i && matches_ci_at(s, t, i) {
            let piece = slice_chars(s, i, i + n);
            let ghost out0 = out@;
            push_all(&mut out, &open);
            push_all(&mut out, &piece);
            push_all(&mut out, &close);
            proof {
                assert(rest.subrange(0, n as int) =~= s@.subrange(i as int, i + n));
                assert(occurs_ci(rest, t@, 0));
                assert(rest.take(n as int) =~= piece@);
                assert(rest.skip(n as int) =~= s@.skip(i + n));
                assert(out@ =~= out0 + cloze_open() + piece@ + cloze_close());
                assert(out@ + cloze_all(s@.skip(i + n), t@) =~= out0 + cloze_all(rest, t@));
            }
            found = true;
            i = i + n;
        } else {
            let ghost out0 = out@;
            out.push(s[i]);
            proof {
                if n <= s.len() - i {
                    assert(rest.subrange(0, n as int) =~= s@.subrange(i as int, i + n));
                }
                assert(!occurs_ci(rest, t@, 0));
                assert(rest.skip(1) =~= s@.skip(i + 1));
                assert(out@ + cloze_all(s@.skip(i + 1), t@) =~= out0 + cloze_all(rest, t@));
            }
            i = i + 1;
        }
    }
    proof {
        assert(s@.skip(s.len() as int) =~= Seq::<char>::empty());
        assert(out@ + Seq::<char>::empty() =~= out@);
    }
    (out, found)
}

/// Cloze substitution ignores case: two terms that fold to the same text
/// give the same result and are found in the same sentences.
pub proof fn law_cloze_ignores_case(s: Seq<char>, t1: Seq<char>, t2: Seq<char>)
    requires
        fold(t1) == fold(t2),
    ensures
        cloze_all(s, t1) == cloze_all(s, t2),
        ci_found(s, t1) == ci_found(s, t2),
    decreases s.len(),
{
    assert(t1.len() == fold(t1).len());
    assert(t2.len() == fold(t2).len());
    if s.len() > 0 && t1.len() > 0 {
        law_cloze_ignores_case(s.skip(1), t1, t2);
        if t1.len() <= s.len() {
            law_cloze_ignores_case(s.skip(t1.len() as int), t1, t2);
        }
    }
}

/// A sentence is left unchanged exactly where the term does not occur in it.
pub proof fn law_cloze_unchanged_iff_absent(s: Seq<char>, t: Seq<char>)
    ensures
        !ci_found(s, t) ==> cloze_all(s, t) == s,
        ci_found(s, t) ==> cloze_all(s, t).len() > s.len(),
    decreases s.len(),
{
    if s.len() > 0 && t.len() > 0 {
        law_cloze_unchanged_iff_absent(s.skip(1), t);
        if occurs_ci(s, t, 0) {
            law_cloze_unchanged_iff_absent(s.skip(t.len() as int), t);
            lemma_cloze_grows(s.skip(t.len() as int), t);
        } else {
            lemma_cloze_grows(s.skip(1), t);
            if !ci_found(s, t) {
                assert(seq![s[0]] + s.skip(1) =~= s);
            }
        }
    }
}

proof fn lemma_cloze_grows(s: Seq<char>, t: Seq<char>)
    ensures
        cloze_all(s, t).len() >= s.len(),
    decreases s.len(),
{
    if s.len() > 0 && t.len() > 0 {
        if occurs_ci(s, t, 0) {
            lemma_cloze_grows(s.skip(t.len() as int), t);
        } else {
            lemma_cloze_grows(s.skip(1), t);
        }
    }
}

} // verus!
