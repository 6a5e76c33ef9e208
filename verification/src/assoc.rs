//! Name-keyed collections, stored as vectors of `(name, value)` entries and
//! interpreted in specifications as finite maps from name to value.

use vstd::prelude::*;

verus! {

/// Interprets a sequence of `(name, value)` entries as a finite map.
/// A later entry for a name shadows an earlier one.
pub open spec fn assoc_view<V: View>(s: Seq<(String, V)>) -> Map<Seq<char>, V::V>
    decreases s.len(),
{
    if s.len() == 0 {
        Map::<Seq<char>, V::V>::empty()
    } else {
        assoc_view(s.drop_last()).insert(s.last().0@, s.last().1@)
    }
}

/// The entries of `s` carry pairwise distinct names.
pub open spec fn assoc_wf<V: View>(s: Seq<(String, V)>) -> bool {
    forall|i: int, j: int| 0 <= i < j < s.len() ==> s[i].0@ != s[j].0@
}

/// Some entry of `s` carries the name `k`.
pub open spec fn assoc_has_key<V: View>(s: Seq<(String, V)>, k: Seq<char>) -> bool {
    exists|i: int| 0 <= i < s.len() && (#[trigger] s[i]).0@ == k
}

/// A name is in the map exactly when some entry carries it.
pub proof fn lemma_assoc_view_dom<V: View>(s: Seq<(String, V)>)
    ensures
        forall|k: Seq<char>|
            #[trigger] assoc_view(s).dom().contains(k) ==> assoc_has_key(s, k),
        forall|k: Seq<char>|
            #[trigger] assoc_has_key(s, k) ==> assoc_view(s).dom().contains(k),
    decreases s.len(),
{
    if s.len() > 0 {
        let pre = s.drop_last();
        lemma_assoc_view_dom(pre);
        assert(assoc_view(s) == assoc_view(pre).insert(s.last().0@, s.last().1@));
        assert forall|k: Seq<char>| #[trigger] assoc_view(s).dom().contains(k)
            implies assoc_has_key(s, k) by {
            if k == s.last().0@ {
                assert(0 <= s.len() - 1 < s.len() && s[s.len() - 1].0@ == k);
            } else {
                assert(assoc_view(pre).dom().contains(k));
                let i = choose|i: int| 0 <= i < pre.len() && (#[trigger] pre[i]).0@ == k;
                assert(pre[i] == s[i]);
                assert(0 <= i < s.len() && s[i].0@ == k);
            }
        }
        assert forall|k: Seq<char>| assoc_has_key(s, k)
            implies #[trigger] assoc_view(s).dom().contains(k) by {
            let i = choose|i: int| 0 <= i < s.len() && (#[trigger] s[i]).0@ == k;
            if i < s.len() - 1 {
                assert(pre[i] == s[i]);
                assert(pre[i].0@ == k);
                assert(assoc_has_key(pre, k));
                assert(assoc_view(pre).dom().contains(k));
            } else {
                assert(k == s.last().0@);
            }
        }
    }
}

/// The value bound to a name is the one of its last entry.
pub proof fn lemma_assoc_view_at<V: View>(s: Seq<(String, V)>, i: int)
    requires
        0 <= i < s.len(),
        forall|j: int| i < j < s.len() ==> s[j].0@ != s[i].0@,
    ensures
        assoc_view(s).dom().contains(s[i].0@),
        assoc_view(s)[s[i].0@] == s[i].1@,
    decreases s.len(),
{
    if i == s.len() - 1 {
    } else {
        lemma_assoc_view_at(s.drop_last(), i);
        assert(s.drop_last()[i] == s[i]);
    }
}

/// Concatenation unions the two maps; the right side wins on a shared name.
pub proof fn lemma_assoc_view_concat<V: View>(a: Seq<(String, V)>, b: Seq<(String, V)>)
    ensures
        assoc_view(a + b).dom() =~= assoc_view(a).dom() + assoc_view(b).dom(),
        forall|k: Seq<char>|
            #[trigger] assoc_view(b).dom().contains(k) ==> assoc_view(a + b)[k] == assoc_view(b)[k],
        forall|k: Seq<char>|
            assoc_view(a).dom().contains(k) && !assoc_view(b).dom().contains(k)
                ==> #[trigger] assoc_view(a + b)[k] == assoc_view(a)[k],
    decreases b.len(),
{
    if b.len() == 0 {
        assert(a + b =~= a);
    } else {
        lemma_assoc_view_concat(a, b.drop_last());
        assert((a + b).drop_last() =~= a + b.drop_last());
        assert((a + b).last() == b.last());
    }
}

/// Appending one entry inserts its binding.
pub proof fn lemma_assoc_view_push<V: View>(s: Seq<(String, V)>, e: (String, V))
    ensures
        assoc_view(s.push(e)) == assoc_view(s).insert(e.0@, e.1@),
{
    assert(s.push(e).drop_last() =~= s);
    assert(s.push(e).last() == e);
}

/// Entrywise equal views give equal maps.
pub proof fn lemma_assoc_view_congruence<V: View>(a: Seq<(String, V)>, b: Seq<(String, V)>)
    requires
        a.len() == b.len(),
        forall|i: int| 0 <= i < a.len() ==> (#[trigger] a[i]).0@ == b[i].0@ && a[i].1@ == b[i].1@,
    ensures
        assoc_view(a) == assoc_view(b),
    decreases a.len(),
{
    if a.len() > 0 {
        lemma_assoc_view_congruence(a.drop_last(), b.drop_last());
        assert(a[a.len() - 1].0@ == b[b.len() - 1].0@ && a[a.len() - 1].1@ == b[b.len() - 1].1@);
    }
}

/// The map is finite, and with pairwise distinct names it has one binding per
/// entry.
pub proof fn lemma_assoc_view_len<V: View>(s: Seq<(String, V)>)
    ensures
        assoc_view(s).dom().finite(),
        assoc_view(s).dom().len() <= s.len(),
        assoc_wf(s) ==> assoc_view(s).dom().len() == s.len(),
    decreases s.len(),
{
    if s.len() > 0 {
        let pre = s.drop_last();
        lemma_assoc_view_len(pre);
        assert(assoc_view(s) == assoc_view(pre).insert(s.last().0@, s.last().1@));
        if assoc_wf(s) {
            assert(assoc_wf(pre));
            lemma_assoc_view_dom(pre);
            if assoc_view(pre).dom().contains(s.last().0@) {
                let i = choose|i: int| 0 <= i < pre.len() && (#[trigger] pre[i]).0@ == s.last().0@;
                assert(s[i].0@ == s[s.len() - 1].0@);
                assert(false);
            }
        }
    }
}

/// Returns whether some entry carries the given name.
#[verifier::loop_isolation(false)]
pub fn assoc_contains<V: View>(entries: &Vec<(String, V)>, key: &String) -> (r: bool)
    ensures
        r == assoc_view(entries@).dom().contains(key@),
{
    proof {
        lemma_assoc_view_dom(entries@);
    }
    let mut i: usize = 0;
    while i < entries.len()
        invariant
            i <= entries.len(),
            forall|j: int| 0 <= j < i ==> entries@[j].0@ != key@,
        decreases entries.len() - i,
    {
        if entries[i].0 == *key {
            proof {
                assert(0 <= i < entries@.len() && entries@[i as int].0@ == key@);
                assert(assoc_has_key(entries@, key@));
            }
            return true;
        }
        i += 1;
    }
    false
}

/// Returns the value bound to the given name, if any.
#[verifier::loop_isolation(false)]
pub fn assoc_get<'a, V: View>(entries: &'a Vec<(String, V)>, key: &String) -> (r: Option<
    &'a V,
>)
    ensures
        match r {
            Some(v) => assoc_view(entries@).dom().contains(key@) && v@ == assoc_view(entries@)[key@],
            None => !assoc_view(entries@).dom().contains(key@),
        },
{
    proof {
        lemma_assoc_view_dom(entries@);
    }
    let mut i: usize = entries.len();
    while i > 0
        invariant
            i <= entries.len(),
            forall|j: int| i <= j < entries@.len() ==> entries@[j].0@ != key@,
        decreases i,
    {
        i -= 1;
        if entries[i].0 == *key {
            proof {
                lemma_assoc_view_at(entries@, i as int);
            }
            return Some(&entries[i].1);
        }
    }
    None
}

/// Unions two collections; on a shared name the right side's entry replaces
/// the left side's, and all other entries are kept.
#[verifier::loop_isolation(false)]
pub fn assoc_union_right<V: View>(a: Vec<(String, V)>, b: Vec<(String, V)>) -> (r: Vec<
    (String, V),
>)
    ensures
        assoc_view(r@).dom() =~= assoc_view(a@).dom() + assoc_view(b@).dom(),
        forall|k: Seq<char>|
            #[trigger] assoc_view(b@).dom().contains(k) ==> assoc_view(r@)[k] == assoc_view(b@)[k],
        forall|k: Seq<char>|
            assoc_view(a@).dom().contains(k) && !assoc_view(b@).dom().contains(k)
                ==> #[trigger] assoc_view(r@)[k] == assoc_view(a@)[k],
        assoc_wf(a@) && assoc_wf(b@) ==> assoc_wf(r@),
{
    let ghost a0 = a@;
    let mut rest = a;
    let mut out: Vec<(String, V)> = Vec::new();
    let ghost mut seen: Seq<(String, V)> = Seq::empty();
    proof {
        lemma_assoc_view_dom(b@);
    }
    while rest.len() > 0
        invariant
            a0 =~= seen + rest@,
            forall|k: Seq<char>|
                #[trigger] assoc_view(out@).dom().contains(k)
                    <==> assoc_view(seen).dom().contains(k) && !assoc_view(b@).dom().contains(k),
            forall|k: Seq<char>|
                #[trigger] assoc_view(out@).dom().contains(k)
                    ==> assoc_view(out@)[k] == assoc_view(seen)[k],
            forall|j: int|
                0 <= j < out@.len()
                    ==> !assoc_view(b@).dom().contains(#[trigger] out@[j].0@)
                        && assoc_view(seen).dom().contains(out@[j].0@),
            assoc_wf(a0) ==> assoc_wf(out@),
            assoc_wf(a0) ==> forall|j: int, l: int|
                #![trigger out@[j].0@, rest@[l].0@]
                0 <= j < out@.len() && 0 <= l < rest@.len() ==> out@[j].0@ != rest@[l].0@,
        decreases rest.len(),
    {
        let ghost rest_prev = rest@;
        let e = rest.remove(0);
        let ghost seen_prev = seen;
        proof {
            seen = seen.push(e);
            assert(seen_prev.push(e) + rest@ =~= a0);
            lemma_assoc_view_push(seen_prev, e);
            lemma_assoc_view_dom(seen);
            lemma_assoc_view_dom(seen_prev);
            if assoc_wf(a0) {
                assert(a0[seen_prev.len() as int] == e);
                assert forall|l: int| 0 <= l < rest@.len()
                    implies e.0@ != #[trigger] rest@[l].0@ by {
                    assert(rest@[l] == a0[seen_prev.len() + 1 + l]);
                }
                assert forall|j: int, l: int|
                    #![trigger out@[j].0@, rest@[l].0@]
                    0 <= j < out@.len() && 0 <= l < rest@.len()
                    implies out@[j].0@ != rest@[l].0@ by {
                    assert(rest@[l] == rest_prev[l + 1]);
                }
            }
        }
        let keep = !assoc_contains(&b, &e.0);
        if keep {
            let ghost out_prev = out@;
            out.push(e);
            proof {
                lemma_assoc_view_push(out_prev, e);
                lemma_assoc_view_dom(out@);
                lemma_assoc_view_dom(out_prev);
            }
        }
    }
    assert(seen =~= a0);
    let mut out = out;
    let mut b = b;
    let ghost outv = out@;
    let ghost bv = b@;
    out.append(&mut b);
    proof {
        lemma_assoc_view_concat(outv, bv);
        lemma_assoc_view_dom(outv);
        lemma_assoc_view_dom(bv);
        lemma_assoc_view_dom(out@);
        assert(out@ =~= outv + bv);
        assert forall|k: Seq<char>|
            assoc_view(a0).dom().contains(k) && !assoc_view(bv).dom().contains(k)
            implies #[trigger] assoc_view(out@)[k] == assoc_view(a0)[k] by {
            assert(assoc_view(outv).dom().contains(k));
            assert(assoc_view(outv)[k] == assoc_view(a0)[k]);
            assert(assoc_view(out@)[k] == assoc_view(outv)[k]);
        }
        if assoc_wf(a0) && assoc_wf(bv) {
            assert forall|i: int, j: int| 0 <= i < j < out@.len()
                implies out@[i].0@ != out@[j].0@ by {
                if j < outv.len() {
                    assert(out@[i] == outv[i] && out@[j] == outv[j]);
                } else if i >= outv.len() {
                    assert(out@[i] == bv[i - outv.len()] && out@[j] == bv[j - outv.len()]);
                } else {
                    assert(out@[i] == outv[i] && out@[j] == bv[j - outv.len()]);
                    assert(!assoc_view(bv).dom().contains(outv[i].0@));
                    if outv[i].0@ == bv[j - outv.len()].0@ {
                        assert(assoc_has_key(bv, outv[i].0@));
                    }
                }
            }
        }
    }
    out
}

} // verus!
