use vstd::prelude::*;

verus! {

/// True when `pat` occurs in `s` at byte offset `i`.
pub open spec fn occurs_at(s: Seq<u8>, pat: Seq<u8>, i: int) -> bool {
    0 <= i && i + pat.len() <= s.len() && s.subrange(i, i + pat.len()) =~= pat
}

/// True when `pat` occurs somewhere in `s`.
pub open spec fn occurs_in(s: Seq<u8>, pat: Seq<u8>) -> bool {
    exists|i: int| occurs_at(s, pat, i)
}

/// A byte that starts a character in UTF-8 text (anything but a continuation byte).
pub open spec fn starts_char(b: u8) -> bool {
    !(0x80 <= b <= 0xbf)
}

/// `rep` placed before every character of `s` and once more at its end: what
/// replacing the empty pattern does to UTF-8 text.
pub open spec fn insert_at_boundaries(s: Seq<u8>, rep: Seq<u8>) -> Seq<u8>
    decreases s.len(),
{
    if s.len() == 0 {
        rep
    } else {
        (if starts_char(s[0]) {
            rep
        } else {
            Seq::<u8>::empty()
        }) + seq![s[0]] + insert_at_boundaries(s.subrange(1, s.len() as int), rep)
    }
}

/// Every non-overlapping occurrence of `pat` in `s`, found from left to right,
/// replaced by `rep`.
pub open spec fn replace_all(s: Seq<u8>, pat: Seq<u8>, rep: Seq<u8>) -> Seq<u8>
    decreases s.len(),
{
    if pat.len() == 0 {
        insert_at_boundaries(s, rep)
    } else if s.len() < pat.len() {
        s
    } else if s.subrange(0, pat.len() as int) =~= pat {
        rep + replace_all(s.subrange(pat.len() as int, s.len() as int), pat, rep)
    } else {
        seq![s[0]] + replace_all(s.subrange(1, s.len() as int), pat, rep)
    }
}

/// The first occurrence of `pat` in `s` replaced by `rep`; `s` itself when
/// there is none.
pub open spec fn replace_first(s: Seq<u8>, pat: Seq<u8>, rep: Seq<u8>) -> Seq<u8>
    decreases s.len(),
{
    if s.len() < pat.len() {
        s
    } else if s.subrange(0, pat.len() as int) =~= pat {
        rep + s.subrange(pat.len() as int, s.len() as int)
    } else {
        seq![s[0]] + replace_first(s.subrange(1, s.len() as int), pat, rep)
    }
}

/// The number of occurrences of `pat` that `replace_all` replaces in `s`.
pub open spec fn match_count(s: Seq<u8>, pat: Seq<u8>) -> nat
    decreases s.len(),
{
    if pat.len() == 0 || s.len() < pat.len() {
        0
    } else if s.subrange(0, pat.len() as int) =~= pat {
        1 + match_count(s.subrange(pat.len() as int, s.len() as int), pat)
    } else {
        match_count(s.subrange(1, s.len() as int), pat)
    }
}

proof fn lemma_absent_in_tail(s: Seq<u8>, pat: Seq<u8>, n: int)
    requires
        0 <= n <= s.len(),
        !occurs_in(s, pat),
    ensures
        !occurs_in(s.subrange(n, s.len() as int), pat),
{
    let t = s.subrange(n, s.len() as int);
    if occurs_in(t, pat) {
        let i = choose|i: int| occurs_at(t, pat, i);
        assert(t.subrange(i, i + pat.len()) =~= s.subrange(n + i, n + i + pat.len()));
        assert(occurs_at(s, pat, n + i));
    }
}

/// Replacing the first occurrence of a pattern that does not occur changes
/// nothing.
pub proof fn lemma_replace_first_absent(s: Seq<u8>, pat: Seq<u8>, rep: Seq<u8>)
    requires
        !occurs_in(s, pat),
    ensures
        replace_first(s, pat, rep) == s,
    decreases s.len(),
{
    if s.len() >= pat.len() {
        assert(!occurs_at(s, pat, 0));
        let t = s.subrange(1, s.len() as int);
        lemma_absent_in_tail(s, pat, 1);
        lemma_replace_first_absent(t, pat, rep);
        assert(seq![s[0]] + t =~= s);
    }
}

/// With its first occurrence at `k`, replacing the first occurrence of `pat`
/// puts `rep` in its place and keeps everything before and after it.
pub proof fn lemma_replace_first_at(s: Seq<u8>, pat: Seq<u8>, rep: Seq<u8>, k: int)
    requires
        occurs_at(s, pat, k),
        forall|j: int| 0 <= j < k ==> !occurs_at(s, pat, j),
    ensures
        replace_first(s, pat, rep) == s.subrange(0, k) + rep + s.subrange(
            k + pat.len(),
            s.len() as int,
        ),
    decreases k,
{
    if k == 0 {
        assert(s.subrange(0, 0) + rep =~= rep);
    } else {
        assert(!occurs_at(s, pat, 0));
        let t = s.subrange(1, s.len() as int);
        assert(t.subrange(k - 1, k - 1 + pat.len()) =~= s.subrange(k, k + pat.len()));
        assert forall|j: int| 0 <= j < k - 1 implies !occurs_at(t, pat, j) by {
            assert(t.subrange(j, j + pat.len()) =~= s.subrange(j + 1, j + 1 + pat.len()));
            assert(!occurs_at(s, pat, j + 1));
        }
        lemma_replace_first_at(t, pat, rep, k - 1);
        assert(seq![s[0]] + (t.subrange(0, k - 1) + rep + t.subrange(
            k - 1 + pat.len(),
            t.len() as int,
        )) =~= s.subrange(0, k) + rep + s.subrange(k + pat.len(), s.len() as int));
    }
}

/// Replacing a non-empty pattern that does not occur changes nothing.
pub proof fn lemma_replace_all_absent(s: Seq<u8>, pat: Seq<u8>, rep: Seq<u8>)
    requires
        pat.len() > 0,
        !occurs_in(s, pat),
    ensures
        replace_all(s, pat, rep) == s,
    decreases s.len(),
{
    if s.len() >= pat.len() {
        assert(!occurs_at(s, pat, 0));
        let t = s.subrange(1, s.len() as int);
        lemma_absent_in_tail(s, pat, 1);
        lemma_replace_all_absent(t, pat, rep);
        assert(seq![s[0]] + t =~= s);
    }
}

/// Substitution is global: each of the `match_count` occurrences of `pat` is
/// exchanged for `rep`, which changes the length by their difference each
/// time, and nothing else changes length.
pub proof fn lemma_replace_all_len(s: Seq<u8>, pat: Seq<u8>, rep: Seq<u8>)
    requires
        pat.len() > 0,
    ensures
        replace_all(s, pat, rep).len() == s.len() + match_count(s, pat) * (rep.len() - pat.len()),
    decreases s.len(),
{
    if s.len() >= pat.len() {
        if s.subrange(0, pat.len() as int) =~= pat {
            let t = s.subrange(pat.len() as int, s.len() as int);
            lemma_replace_all_len(t, pat, rep);
            let c = match_count(t, pat);
            let d: int = rep.len() - pat.len();
            assert((1 + c) * d == c * d + d) by (nonlinear_arith);
            assert(match_count(s, pat) == 1 + c);
            assert(replace_all(s, pat, rep) == rep + replace_all(t, pat, rep));
            assert(replace_all(s, pat, rep).len() == s.len() + (1 + c) * d);
        } else {
            let t = s.subrange(1, s.len() as int);
            lemma_replace_all_len(t, pat, rep);
            assert(match_count(s, pat) == match_count(t, pat));
            assert(replace_all(s, pat, rep) == seq![s[0]] + replace_all(t, pat, rep));
        }
    } else {
        assert(match_count(s, pat) == 0);
        assert(replace_all(s, pat, rep) == s);
    }
}

/// Substituting again changes nothing once the result holds no occurrence of
/// the pattern.
pub proof fn lemma_replace_all_idempotent(s: Seq<u8>, pat: Seq<u8>, rep: Seq<u8>)
    requires
        pat.len() > 0,
        !occurs_in(replace_all(s, pat, rep), pat),
    ensures
        replace_all(replace_all(s, pat, rep), pat, rep) == replace_all(s, pat, rep),
{
    lemma_replace_all_absent(replace_all(s, pat, rep), pat, rep);
}

/// Whether `pat` occurs in `s` at offset `i`.
fn matches_at(s: &[u8], pat: &[u8], i: usize) -> (r: bool)
    requires
        i <= s@.len(),
    ensures
        r == occurs_at(s@, pat@, i as int),
{
    if s.len() - i < pat.len() {
        return false;
    }
    let slen = s.len();
    let mut j: usize = 0;
    while j < pat.len()
        invariant
            slen == s@.len(),
            j <= pat@.len(),
            i as int + pat@.len() as int <= s@.len() as int,
            forall|k: int| 0 <= k < j ==> s@[i + k] == pat@[k],
        decreases pat@.len() - j,
    {
        if s[i + j] != pat[j] {
            assert(s@.subrange(i as int, i + pat@.len())[j as int] != pat@[j as int]);
            return false;
        }
        j = j + 1;
    }
    assert(s@.subrange(i as int, i + pat@.len()) =~= pat@);
    true
}

/// Appends the bytes of `s` from offset `start` on.
fn push_suffix(out: &mut Vec<u8>, s: &[u8], start: usize)
    requires
        start <= s@.len(),
    ensures
        final(out)@ == old(out)@ + s@.subrange(start as int, s@.len() as int),
{
    let mut k: usize = start;
    while k < s.len()
        invariant
            start <= k <= s@.len(),
            out@ == old(out)@ + s@.subrange(start as int, k as int),
        decreases s@.len() - k,
    {
        out.push(s[k]);
        k = k + 1;
        assert(out@ =~= old(out)@ + s@.subrange(start as int, k as int));
    }
}

/// Replaces every occurrence of `pat` in `s` by `rep`, left to right, as
/// `str::replace` does on text.
pub fn replace_all_bytes(s: &[u8], pat: &[u8], rep: &[u8]) -> (r: Vec<u8>)
    ensures
        r@ == replace_all(s@, pat@, rep@),
{
    let mut out: Vec<u8> = Vec::new();
    let mut i: usize = 0;
    assert(s@.subrange(0, s@.len() as int) =~= s@);
    while i < s.len()
        invariant
            i <= s@.len(),
            out@ + replace_all(s@.subrange(i as int, s@.len() as int), pat@, rep@)
                == replace_all(s@, pat@, rep@),
        decreases s@.len() - i,
    {
        let ghost rest = s@.subrange(i as int, s@.len() as int);
        let ghost out0 = out@;
        if pat.len() == 0 {
            let b = s[i];
            if !(0x80 <= b && b <= 0xbf) {
                out.extend_from_slice(rep);
            }
            out.push(b);
            i = i + 1;
            assert(rest.subrange(1, rest.len() as int) =~= s@.subrange(i as int, s@.len() as int));
            assert(out@ =~= out0 + (if starts_char(rest[0]) {
                rep@
            } else {
                Seq::<u8>::empty()
            }) + seq![rest[0]]);
        } else if matches_at(s, pat, i) {
            out.extend_from_slice(rep);
            i = i + pat.len();
            assert(rest.subrange(0, pat@.len() as int) =~= s@.subrange(
                (i - pat@.len()) as int,
                i as int,
            ));
            assert(rest.subrange(pat@.len() as int, rest.len() as int) =~= s@.subrange(
                i as int,
                s@.len() as int,
            ));
        } else {
            out.push(s[i]);
            i = i + 1;
            assert(rest.subrange(1, rest.len() as int) =~= s@.subrange(i as int, s@.len() as int));
            if s.len() - (i - 1) >= pat.len() {
                assert(rest.subrange(0, pat@.len() as int) =~= s@.subrange(
                    (i - 1) as int,
                    i - 1 + pat@.len(),
                ));
            }
        }
        assert(out@ + replace_all(s@.subrange(i as int, s@.len() as int), pat@, rep@) =~= out0
            + replace_all(rest, pat@, rep@));
    }
    if pat.len() == 0 {
        out.extend_from_slice(rep);
    }
    assert(s@.subrange(s@.len() as int, s@.len() as int) =~= Seq::<u8>::empty());
    assert(out@ =~= replace_all(s@, pat@, rep@));
    out
}

/// Replaces the first occurrence of `pat` in `s` by `rep`, as
/// `str::replacen(pat, rep, 1)` does on text.
pub fn replace_first_bytes(s: &[u8], pat: &[u8], rep: &[u8]) -> (r: Vec<u8>)
    ensures
        r@ == replace_first(s@, pat@, rep@),
{
    let mut out: Vec<u8> = Vec::new();
    let mut i: usize = 0;
    assert(s@.subrange(0, s@.len() as int) =~= s@);
    while s.len() - i >= pat.len()
        invariant
            i <= s@.len(),
            out@ + replace_first(s@.subrange(i as int, s@.len() as int), pat@, rep@)
                == replace_first(s@, pat@, rep@),
        decreases s@.len() - i,
    {
        let ghost rest = s@.subrange(i as int, s@.len() as int);
        let ghost out0 = out@;
        assert(rest.subrange(0, pat@.len() as int) =~= s@.subrange(i as int, i + pat@.len()));
        if matches_at(s, pat, i) {
            out.extend_from_slice(rep);
            push_suffix(&mut out, s, i + pat.len());
            assert(rest.subrange(pat@.len() as int, rest.len() as int) =~= s@.subrange(
                i + pat@.len(),
                s@.len() as int,
            ));
            assert(out@ =~= out0 + replace_first(rest, pat@, rep@));
            return out;
        }
        out.push(s[i]);
        i = i + 1;
        assert(rest.subrange(1, rest.len() as int) =~= s@.subrange(i as int, s@.len() as int));
        assert(out@ + replace_first(s@.subrange(i as int, s@.len() as int), pat@, rep@)
            =~= out0 + replace_first(rest, pat@, rep@));
    }
    push_suffix(&mut out, s, i);
    out
}

} // verus!
