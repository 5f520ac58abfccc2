//! Character-level helpers shared by the parsers and the decoder.
use vstd::prelude::*;

verus! {

/// Appends one character to a string.
///
/// Relies on `String::push`: the character is added at the end and nothing
/// else changes.
#[verifier::external_body]
pub(crate) fn push_char(s: &mut String, c: char)
    ensures
        final(s)@ == old(s)@.push(c),
{
    s.push(c)
}

/// The characters of `s`, in order.
pub fn chars_of(s: &str) -> (r: Vec<char>)
    ensures
        r@ == s@,
{
    let mut r: Vec<char> = Vec::new();
    for c in it: s.chars()
        invariant
            it.seq() == s@,
            r@ == it.seq().subrange(0, it.index() as int),
    {
        r.push(c);
    }
    r
}

/// The string made of the characters `cs[from..to]`.
pub fn string_of(cs: &Vec<char>, from: usize, to: usize) -> (r: String)
    requires
        from <= to <= cs.len(),
    ensures
        r@ == cs@.subrange(from as int, to as int),
{
    let mut r = String::new();
    let mut i = from;
    while i < to
        invariant
            from <= i <= to <= cs.len(),
            r@ == cs@.subrange(from as int, i as int),
        decreases to - i,
    {
        push_char(&mut r, cs[i]);
        i += 1;
    }
    r
}

/// Whether `pat` occurs in `s` at position `i`.
pub open spec fn occurs_at(s: Seq<char>, i: int, pat: Seq<char>) -> bool {
    0 <= i && i + pat.len() <= s.len() && s.subrange(i, i + pat.len()) == pat
}

/// `s` with every occurrence of `pat` replaced by `rep`, scanning from the
/// left and never reusing characters of a replaced occurrence.
pub open spec fn replace_all(s: Seq<char>, pat: Seq<char>, rep: Seq<char>) -> Seq<char>
    decreases s.len(),
{
    if s.len() == 0 || pat.len() == 0 {
        s
    } else if occurs_at(s, 0, pat) {
        rep + replace_all(s.subrange(pat.len() as int, s.len() as int), pat, rep)
    } else {
        seq![s[0]] + replace_all(s.drop_first(), pat, rep)
    }
}

/// Replacing changes nothing in a text where the pattern does not occur.
pub proof fn lemma_replace_absent(s: Seq<char>, pat: Seq<char>, rep: Seq<char>)
    requires
        forall|i: int| !occurs_at(s, i, pat),
    ensures
        replace_all(s, pat, rep) == s,
    decreases s.len(),
{
    if s.len() > 0 && pat.len() > 0 {
        let t = s.drop_first();
        assert forall|i: int| !occurs_at(t, i, pat) by {
            if occurs_at(t, i, pat) {
                assert(s.subrange(i + 1, i + 1 + pat.len()) =~= t.subrange(i, i + pat.len()));
                assert(occurs_at(s, i + 1, pat));
            }
        }
        lemma_replace_absent(t, pat, rep);
        assert(!occurs_at(s, 0, pat));
        assert(seq![s[0]] + t =~= s);
    }
}

/// Replacing passes over a prefix in which no occurrence starts.
pub proof fn lemma_replace_skips(a: Seq<char>, t: Seq<char>, pat: Seq<char>, rep: Seq<char>)
    requires
        forall|i: int| 0 <= i < a.len() ==> !occurs_at(a + t, i, pat),
    ensures
        replace_all(a + t, pat, rep) == a + replace_all(t, pat, rep),
    decreases a.len(),
{
    if a.len() > 0 && pat.len() > 0 {
        let s = a + t;
        let a2 = a.drop_first();
        assert(s.drop_first() =~= a2 + t);
        assert forall|i: int| 0 <= i < a2.len() implies !occurs_at(a2 + t, i, pat) by {
            if occurs_at(a2 + t, i, pat) {
                assert(s.subrange(i + 1, i + 1 + pat.len()) =~= (a2 + t).subrange(i, i + pat.len()));
                assert(occurs_at(s, i + 1, pat));
            }
        }
        lemma_replace_skips(a2, t, pat, rep);
        assert(!occurs_at(s, 0, pat));
        assert(seq![s[0]] + (a2 + replace_all(t, pat, rep)) =~= a + replace_all(t, pat, rep));
    } else if a.len() == 0 {
        assert(a + t =~= t);
        assert(a + replace_all(t, pat, rep) =~= replace_all(t, pat, rep));
    } else {
        assert(a + replace_all(t, pat, rep) =~= a + t);
    }
}

/// In a text where the pattern occurs once, replacing swaps that occurrence
/// alone.
pub proof fn lemma_replace_single(a: Seq<char>, b: Seq<char>, pat: Seq<char>, rep: Seq<char>)
    requires
        pat.len() > 0,
        forall|i: int| occurs_at(a + pat + b, i, pat) ==> i == a.len(),
    ensures
        replace_all(a + pat + b, pat, rep) == a + rep + b,
{
    let s = a + pat + b;
    assert(s =~= a + (pat + b));
    lemma_replace_skips(a, pat + b, pat, rep);
    let t = pat + b;
    assert(t.subrange(0, pat.len() as int) =~= pat);
    assert(t.subrange(pat.len() as int, t.len() as int) =~= b);
    assert forall|i: int| !occurs_at(b, i, pat) by {
        if occurs_at(b, i, pat) {
            let k = a.len() + pat.len() + i;
            assert(s.subrange(k, k + pat.len()) =~= b.subrange(i, i + pat.len()));
            assert(occurs_at(s, k, pat));
        }
    }
    lemma_replace_absent(b, pat, rep);
    assert(a + (rep + b) =~= a + rep + b);
}

/// Replaces every occurrence of `from` in `s` by `to`.
pub fn replace(s: &str, from: &str, to: &str) -> (r: String)
    requires
        from@.len() > 0,
    ensures
        r@ == replace_all(s@, from@, to@),
{
    let cs = chars_of(s);
    let pat = chars_of(from);
    let rep = chars_of(to);
    let n = cs.len();
    let m = pat.len();
    let mut out = String::new();
    let mut i: usize = 0;
    assert(cs@.subrange(0, n as int) =~= s@);
    assert(out@ + replace_all(s@, from@, to@) =~= replace_all(s@, from@, to@));
    while i < n
        invariant
            cs@ == s@,
            pat@ == from@,
            rep@ == to@,
            n == cs.len(),
            m == pat.len(),
            m > 0,
            i <= n,
            out@ + replace_all(cs@.subrange(i as int, n as int), pat@, rep@) == replace_all(s@, from@, to@),
        decreases n - i,
    {
        let ghost rest = cs@.subrange(i as int, n as int);
        let mut hit = m <= n - i;
        let mut j: usize = 0;
        while hit && j < m
            invariant
                cs@ == s@,
                pat@ == from@,
                n == cs.len(),
                m == pat.len(),
                i < n,
                j <= m,
                hit ==> i + m <= n,
                hit ==> forall|k: int| 0 <= k < j ==> cs@[i + k] == pat@[k],
                !hit ==> !occurs_at(rest, 0, pat@),
                rest == cs@.subrange(i as int, n as int),
            decreases m - j + (if hit { 1int } else { 0int }),
        {
            if cs[i + j] != pat[j] {
                hit = false;
                assert(rest[j as int] != pat@[j as int]);
            } else {
                j += 1;
            }
        }
        if hit {
            assert(rest.subrange(0, m as int) =~= pat@);
            assert(rest.subrange(m as int, rest.len() as int) =~= cs@.subrange((i + m) as int, n as int));
            let mut k: usize = 0;
            let ghost before = out@;
            while k < rep.len()
                invariant
                    rep@ == to@,
                    k <= rep.len(),
                    out@ == before + rep@.subrange(0, k as int),
                decreases rep.len() - k,
            {
                push_char(&mut out, rep[k]);
                k += 1;
            }
            assert(rep@.subrange(0, rep.len() as int) =~= rep@);
            assert(out@ + replace_all(cs@.subrange((i + m) as int, n as int), pat@, rep@)
                =~= before + replace_all(rest, pat@, rep@));
            i += m;
        } else {
            assert(rest.drop_first() =~= cs@.subrange(i + 1, n as int));
            let ghost before = out@;
            push_char(&mut out, cs[i]);
            assert(out@ + replace_all(cs@.subrange(i + 1, n as int), pat@, rep@)
                =~= before + replace_all(rest, pat@, rep@));
            i += 1;
        }
    }
    assert(cs@.subrange(0, n as int) =~= s@);
    assert(out@ =~= replace_all(s@, from@, to@));
    out
}

} // verus!
