//! Facts about sequences that the counting and filtering loops use.
use vstd::prelude::*;

verus! {

/// Taking one more element of `s` adds it to the filtered prefix exactly when
/// it passes the filter.
pub proof fn lemma_filter_take_step<A>(s: Seq<A>, p: spec_fn(A) -> bool, i: int)
    requires
        0 <= i < s.len(),
    ensures
        s.take(i + 1).filter(p) == if p(s[i]) {
            s.take(i).filter(p).push(s[i])
        } else {
            s.take(i).filter(p)
        },
{
    let prefix = s.take(i + 1);
    assert(prefix.drop_last() =~= s.take(i));
    assert(prefix.last() == s[i]);
    reveal_with_fuel(Seq::filter, 1);
}

/// Filtering the whole of `s` is filtering its full prefix.
pub proof fn lemma_take_all<A>(s: Seq<A>)
    ensures
        s.take(s.len() as int) == s,
{
    assert(s.take(s.len() as int) =~= s);
}


/// Every element of a filtered sequence comes from the sequence.
pub proof fn lemma_filter_from<A>(s: Seq<A>, p: spec_fn(A) -> bool)
    ensures
        forall|i: int| 0 <= i < s.filter(p).len() ==> s.contains(#[trigger] s.filter(p)[i]),
    decreases s.len(),
{
    reveal_with_fuel(Seq::filter, 1);
    if s.len() > 0 {
        let d = s.drop_last();
        lemma_filter_from(d, p);
        let f = s.filter(p);
        assert forall|i: int| 0 <= i < f.len() implies s.contains(#[trigger] f[i]) by {
            if i < d.filter(p).len() {
                assert(f[i] == d.filter(p)[i]);
                let j = choose|j: int| 0 <= j < d.len() && d[j] == d.filter(p)[i];
                assert(s[j] == f[i]);
            } else {
                assert(f[i] == s.last());
                assert(s[s.len() - 1] == f[i]);
            }
        }
    }
}

/// Filtering a sequence without duplicates gives one without duplicates.
pub proof fn lemma_filter_no_duplicates<A>(s: Seq<A>, p: spec_fn(A) -> bool)
    requires
        s.no_duplicates(),
    ensures
        s.filter(p).no_duplicates(),
    decreases s.len(),
{
    reveal_with_fuel(Seq::filter, 1);
    if s.len() > 0 {
        let d = s.drop_last();
        assert(d.no_duplicates()) by {
            assert forall|i: int, j: int| 0 <= i < d.len() && 0 <= j < d.len() && i != j implies d[i] != d[j] by {
                assert(d[i] == s[i] && d[j] == s[j]);
            }
        }
        lemma_filter_no_duplicates(d, p);
        lemma_filter_from(d, p);
        let fd = d.filter(p);
        if p(s.last()) {
            assert(!fd.contains(s.last())) by {
                if fd.contains(s.last()) {
                    let k = choose|k: int| 0 <= k < fd.len() && fd[k] == s.last();
                    assert(d.contains(fd[k]));
                    let j = choose|j: int| 0 <= j < d.len() && d[j] == fd[k];
                    assert(s[j] == s[s.len() - 1]);
                }
            }
            let f = fd.push(s.last());
            assert forall|i: int, j: int| 0 <= i < f.len() && 0 <= j < f.len() && i != j implies f[i] != f[j] by {
                if i < fd.len() && j < fd.len() {
                    assert(f[i] == fd[i] && f[j] == fd[j]);
                } else if i < fd.len() {
                    assert(f[i] == fd[i]);
                } else if j < fd.len() {
                    assert(f[j] == fd[j]);
                }
            }
        }
    }
}

/// Two sequences of one length whose elements pass the filter at the same
/// positions filter to sequences of one length.
pub proof fn lemma_filter_len_pointwise<A>(s: Seq<A>, t: Seq<A>, p: spec_fn(A) -> bool)
    requires
        s.len() == t.len(),
        forall|k: int| 0 <= k < s.len() ==> p(#[trigger] s[k]) == p(t[k]),
    ensures
        s.filter(p).len() == t.filter(p).len(),
    decreases s.len(),
{
    reveal_with_fuel(Seq::filter, 1);
    if s.len() > 0 {
        let n = s.len() - 1;
        assert forall|k: int| 0 <= k < s.drop_last().len() implies p(#[trigger] s.drop_last()[k])
            == p(t.drop_last()[k]) by {
            assert(s.drop_last()[k] == s[k]);
            assert(t.drop_last()[k] == t[k]);
        }
        lemma_filter_len_pointwise(s.drop_last(), t.drop_last(), p);
        assert(p(s[n]) == p(t[n]));
    }
}

} // verus!
