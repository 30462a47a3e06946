//! Batch planning and bookkeeping for remote id resolution.
//!
//! The remote search itself is a network call made by the surrounding
//! application; this module plans the batches, merges what came back, and
//! computes which ids stayed unresolved.  The model `resolved_of` pins what
//! a full resolution yields from a given remote state, and the lemmas here
//! state that the outcome depends only on the id set, not on its batching
//! or order.

use vstd::prelude::*;
use vstd::string::*;
use crate::strmap::StrMap;
use crate::strmap::strings_view;

verus! {

/// What resolving `ids` against remote state `remote` yields: every id the
/// remote knows, mapped to its destination id.
pub open spec fn resolved_of(ids: Seq<Seq<char>>, remote: Map<Seq<char>, Seq<char>>) -> Map<
    Seq<char>,
    Seq<char>,
>
    decreases ids.len(),
{
    if ids.len() == 0 {
        Map::empty()
    } else {
        let prev = resolved_of(ids.drop_last(), remote);
        if remote.contains_key(ids.last()) {
            prev.insert(ids.last(), remote[ids.last()])
        } else {
            prev
        }
    }
}

/// The resolution result holds exactly the ids the remote knows, each with
/// the remote's value.
pub proof fn lemma_resolved_of(ids: Seq<Seq<char>>, remote: Map<Seq<char>, Seq<char>>)
    ensures
        forall|k: Seq<char>|
            #[trigger] resolved_of(ids, remote).contains_key(k) <==> ids.contains(k)
                && remote.contains_key(k),
        forall|k: Seq<char>|
            #[trigger] resolved_of(ids, remote).contains_key(k) ==> resolved_of(ids, remote)[k]
                == remote[k],
    decreases ids.len(),
{
    if ids.len() > 0 {
        lemma_resolved_of(ids.drop_last(), remote);
        let prev = resolved_of(ids.drop_last(), remote);
        let cur = resolved_of(ids, remote);
        let last = ids.last();
        assert forall|k: Seq<char>| #[trigger] cur.contains_key(k) implies ids.contains(k)
            && remote.contains_key(k) by {
            if remote.contains_key(last) && k == last {
                assert(ids[ids.len() - 1] == k);
            } else {
                assert(prev.contains_key(k));
                assert(ids.drop_last().contains(k));
                let i = choose|i: int|
                    0 <= i < ids.drop_last().len() && ids.drop_last()[i] == k;
                assert(ids[i] == k);
            }
        }
        assert forall|k: Seq<char>|
            ids.contains(k) && remote.contains_key(k) implies #[trigger] cur.contains_key(
            k,
        ) by {
            let i = choose|i: int| 0 <= i < ids.len() && ids[i] == k;
            if i < ids.len() - 1 {
                assert(ids.drop_last()[i] == k);
                assert(ids.drop_last().contains(k));
                assert(prev.contains_key(k));
            } else {
                assert(k == last);
            }
        }
        assert forall|k: Seq<char>| #[trigger] cur.contains_key(k) implies cur[k]
            == remote[k] by {
            if remote.contains_key(last) && k == last {
            } else {
                assert(prev.contains_key(k));
            }
        }
    }
}

/// Resolution is a function of the id set: two id sequences carrying the
/// same ids resolve to the same map, whatever their order, duplication or
/// batching.
pub proof fn lemma_resolution_idempotent(
    ids1: Seq<Seq<char>>,
    ids2: Seq<Seq<char>>,
    remote: Map<Seq<char>, Seq<char>>,
)
    requires
        forall|k: Seq<char>| #[trigger] ids1.contains(k) <==> ids2.contains(k),
    ensures
        resolved_of(ids1, remote) == resolved_of(ids2, remote),
{
    lemma_resolved_of(ids1, remote);
    lemma_resolved_of(ids2, remote);
    assert(resolved_of(ids1, remote) =~= resolved_of(ids2, remote));
}

/// Resolving in two batches and merging equals resolving at once.
pub proof fn lemma_resolution_batches(
    a: Seq<Seq<char>>,
    b: Seq<Seq<char>>,
    remote: Map<Seq<char>, Seq<char>>,
)
    ensures
        resolved_of(a + b, remote) == resolved_of(a, remote).union_prefer_right(
            resolved_of(b, remote),
        ),
{
    lemma_resolved_of(a, remote);
    lemma_resolved_of(b, remote);
    lemma_resolved_of(a + b, remote);
    assert forall|k: Seq<char>| #[trigger] (a + b).contains(k) implies a.contains(k)
        || b.contains(k) by {
        let i = choose|i: int| 0 <= i < (a + b).len() && (a + b)[i] == k;
        if i < a.len() {
            assert(a[i] == k);
        } else {
            assert(b[i - a.len()] == k);
        }
    }
    assert forall|k: Seq<char>| a.contains(k) || b.contains(k) implies #[trigger] (a
        + b).contains(k) by {
        if a.contains(k) {
            let i = choose|i: int| 0 <= i < a.len() && a[i] == k;
            assert((a + b)[i] == k);
        } else {
            let i = choose|i: int| 0 <= i < b.len() && b[i] == k;
            assert((a + b)[a.len() + i] == k);
        }
    }
    assert(resolved_of(a + b, remote) =~= resolved_of(a, remote).union_prefer_right(
        resolved_of(b, remote),
    ));
}

/// The flattening of a batch plan.
pub open spec fn batches_flat(r: Seq<Vec<String>>) -> Seq<Seq<char>>
    decreases r.len(),
{
    if r.len() == 0 {
        Seq::empty()
    } else {
        batches_flat(r.drop_last()) + strings_view(r.last())
    }
}

/// Split ids into search batches of at most `batch_size`, keeping order.
pub fn plan_batches(ids: &Vec<String>, batch_size: usize) -> (r: Vec<Vec<String>>)
    requires
        batch_size > 0,
    ensures
        batches_flat(r@) == strings_view(*ids),
        forall|i: int| 0 <= i < r@.len() ==> (#[trigger] r@[i])@.len() <= batch_size,
        forall|i: int| 0 <= i < r@.len() - 1 ==> (#[trigger] r@[i])@.len() == batch_size,
        forall|i: int| 0 <= i < r@.len() ==> (#[trigger] r@[i])@.len() > 0,
        ids@.len() == 0 ==> r@.len() == 0,
{
    let n = ids.len();
    let mut out: Vec<Vec<String>> = Vec::new();
    let mut cur: Vec<String> = Vec::new();
    let mut i: usize = 0;
    while i < n
        invariant
            0 <= i <= n,
            n == ids@.len(),
            cur@.len() < batch_size,
            batches_flat(out@) + strings_view(cur) == strings_view(*ids).take(i as int),
            forall|j: int| 0 <= j < out@.len() ==> (#[trigger] out@[j])@.len() == batch_size,
        decreases n - i,
    {
        let ghost sv = strings_view(*ids);
        let ghost cur0 = strings_view(cur);
        cur.push(ids[i].clone());
        proof {
            assert(strings_view(cur) =~= cur0.push(sv[i as int]));
            assert(sv.take(i + 1) =~= sv.take(i as int).push(sv[i as int]));
            assert(batches_flat(out@) + strings_view(cur) =~= sv.take(i + 1));
        }
        if cur.len() == batch_size {
            let ghost outb = out@;
            let ghost curv = strings_view(cur);
            out.push(cur);
            cur = Vec::new();
            proof {
                assert(out@.drop_last() =~= outb);
                assert(strings_view(out@.last()) == curv);
                assert(strings_view(cur) =~= Seq::<Seq<char>>::empty());
                assert(batches_flat(out@) + strings_view(cur) =~= sv.take(i + 1));
            }
        }
        i += 1;
    }
    proof {
        assert(strings_view(*ids).take(n as int) =~= strings_view(*ids));
    }
    if cur.len() > 0 {
        let ghost before = out@;
        let ghost curv = strings_view(cur);
        out.push(cur);
        proof {
            assert(out@.drop_last() =~= before);
            assert(strings_view(out@.last()) == curv);
            assert(batches_flat(out@) =~= strings_view(*ids));
        }
    }
    out
}

/// Merge one batch's results into the cache; the batch's bindings win.
pub fn merge_found(cache: &mut StrMap<String>, found: &StrMap<String>)
    requires
        old(cache).wf(),
        found.wf(),
    ensures
        final(cache).wf(),
        final(cache)@ == old(cache)@.union_prefer_right(found@),
{
    let ghost fkeys = found.key_seq();
    proof {
        found.lemma_dom_keys();
    }
    let n = found.len();
    let mut j: usize = 0;
    while j < n
        invariant
            0 <= j <= n,
            n == found.entry_seq().len(),
            cache.wf(),
            found.wf(),
            fkeys == found.key_seq(),
            forall|k: Seq<char>|
                found@.contains_key(k) ==> exists|jj: int|
                    0 <= jj < fkeys.len() && fkeys[jj] == k,
            forall|k: Seq<char>|
                #[trigger] cache@.contains_key(k) <==> old(cache)@.contains_key(k) || exists|
                    jj: int,
                |
                    0 <= jj < j && fkeys[jj] == k,
            forall|k: Seq<char>|
                #[trigger] cache@.contains_key(k) ==> cache@[k] == if exists|jj: int|
                    0 <= jj < j && fkeys[jj] == k {
                    found@[k]
                } else {
                    old(cache)@[k]
                },
        decreases n - j,
    {
        let key = found.key_at(j).clone();
        let val = found.value_at(j);
        proof {
            found.lemma_dom_keys();
            assert(found@.contains_key(fkeys[j as int]));
        }
        cache.insert(key, val.clone());
        j += 1;
    }
    proof {
        assert forall|k: Seq<char>| #[trigger] found@.contains_key(k) implies exists|jj: int|
            0 <= jj < n && fkeys[jj] == k by {}
        assert forall|k: Seq<char>| (exists|jj: int| 0 <= jj < n && fkeys[jj] == k)
            implies found@.contains_key(k) by {
            found.lemma_dom_keys();
        }
        assert(cache@ =~= old(cache)@.union_prefer_right(found@));
    }
}

/// Ids not resolved by the cache, in order.
pub open spec fn missing_rec(ids: Seq<Seq<char>>, found: Set<Seq<char>>) -> Seq<Seq<char>>
    decreases ids.len(),
{
    if ids.len() == 0 {
        Seq::empty()
    } else {
        let prev = missing_rec(ids.drop_last(), found);
        if !found.contains(ids.last()) {
            prev.push(ids.last())
        } else {
            prev
        }
    }
}

/// Ids the cache resolved, in order.
pub open spec fn kept_rec(ids: Seq<Seq<char>>, found: Set<Seq<char>>) -> Seq<Seq<char>>
    decreases ids.len(),
{
    if ids.len() == 0 {
        Seq::empty()
    } else {
        let prev = kept_rec(ids.drop_last(), found);
        if found.contains(ids.last()) {
            prev.push(ids.last())
        } else {
            prev
        }
    }
}

/// Compute the ids that stayed unresolved.
pub fn missing_ids(ids: &Vec<String>, cache: &StrMap<String>) -> (r: Vec<String>)
    ensures
        strings_view(r) == missing_rec(strings_view(*ids), cache@.dom()),
{
    let ghost sv = strings_view(*ids);
    let ghost found = cache@.dom();
    let n = ids.len();
    let mut out: Vec<String> = Vec::new();
    let mut i: usize = 0;
    while i < n
        invariant
            0 <= i <= n,
            n == ids@.len(),
            sv == strings_view(*ids),
            found == cache@.dom(),
            strings_view(out) == missing_rec(sv.take(i as int), found),
        decreases n - i,
    {
        proof {
            assert(sv.take(i + 1).drop_last() =~= sv.take(i as int));
            assert(sv.take(i + 1).last() == sv[i as int]);
        }
        if !cache.contains_key(ids[i].as_str()) {
            out.push(ids[i].clone());
            proof {
                assert(strings_view(out) =~= missing_rec(sv.take(i as int), found).push(
                    sv[i as int],
                ));
            }
        }
        i += 1;
    }
    proof {
        assert(sv.take(n as int) =~= sv);
    }
    out
}

/// Every routed parent lands in exactly one audit category: a resolved id
/// appears exactly once among the processed parents and never among the
/// skips; an unresolved id appears exactly once among the skips and never
/// among the processed parents.
pub proof fn lemma_parent_partition(ids: Seq<Seq<char>>, found: Set<Seq<char>>)
    requires
        forall|i: int, j: int| 0 <= i < j < ids.len() ==> ids[i] != ids[j],
    ensures
        forall|p: int, q: int|
            0 <= p < q < missing_rec(ids, found).len() ==> missing_rec(ids, found)[p]
                != missing_rec(ids, found)[q],
        forall|p: int, q: int|
            0 <= p < q < kept_rec(ids, found).len() ==> kept_rec(ids, found)[p] != kept_rec(
                ids,
                found,
            )[q],
        forall|x: Seq<char>|
            #[trigger] missing_rec(ids, found).contains(x) <==> ids.contains(x)
                && !found.contains(x),
        forall|x: Seq<char>|
            #[trigger] kept_rec(ids, found).contains(x) <==> ids.contains(x) && found.contains(
                x,
            ),
    decreases ids.len(),
{
    if ids.len() > 0 {
        assert(forall|i: int, j: int|
            0 <= i < j < ids.drop_last().len() ==> ids.drop_last()[i] != ids.drop_last()[j]);
        lemma_parent_partition(ids.drop_last(), found);
        let x0 = ids.last();
        assert(!ids.drop_last().contains(x0)) by {
            if ids.drop_last().contains(x0) {
                let i = choose|i: int| 0 <= i < ids.drop_last().len() && ids.drop_last()[i] == x0;
                assert(ids[i] == ids[ids.len() - 1]);
            }
        }
        assert forall|x: Seq<char>| #[trigger] missing_rec(ids, found).contains(x)
            <==> ids.contains(x) && !found.contains(x) by {
            lemma_seq_contains_snoc(ids, x);
            assert(missing_rec(ids.drop_last(), found).contains(x) <==> ids.drop_last().contains(
                x,
            ) && !found.contains(x));
            if !found.contains(x0) {
                lemma_seq_contains_snoc_gen(missing_rec(ids.drop_last(), found), x0, x);
            }
        }
        assert forall|x: Seq<char>| #[trigger] kept_rec(ids, found).contains(x) <==> ids.contains(
            x,
        ) && found.contains(x) by {
            lemma_seq_contains_snoc(ids, x);
            assert(kept_rec(ids.drop_last(), found).contains(x) <==> ids.drop_last().contains(x)
                && found.contains(x));
            if found.contains(x0) {
                lemma_seq_contains_snoc_gen(kept_rec(ids.drop_last(), found), x0, x);
            }
        }
        if !found.contains(x0) {
            let prev = missing_rec(ids.drop_last(), found);
            assert(!prev.contains(x0));
            assert forall|p: int, q: int|
                0 <= p < q < missing_rec(ids, found).len() implies missing_rec(ids, found)[p]
                != missing_rec(ids, found)[q] by {
                if q == missing_rec(ids, found).len() - 1 {
                    assert(missing_rec(ids, found)[p] == prev[p]);
                    assert(prev.contains(prev[p]));
                }
            }
        } else {
            let prev = kept_rec(ids.drop_last(), found);
            assert(!prev.contains(x0));
            assert forall|p: int, q: int|
                0 <= p < q < kept_rec(ids, found).len() implies kept_rec(ids, found)[p]
                != kept_rec(ids, found)[q] by {
                if q == kept_rec(ids, found).len() - 1 {
                    assert(kept_rec(ids, found)[p] == prev[p]);
                    assert(prev.contains(prev[p]));
                }
            }
        }
    }
}

/// `s.push(y)` holds `x` exactly when `s` does or `x == y`.
proof fn lemma_seq_contains_snoc_gen(s: Seq<Seq<char>>, y: Seq<char>, x: Seq<char>)
    ensures
        s.push(y).contains(x) <==> s.contains(x) || x == y,
{
    if s.push(y).contains(x) {
        let i = choose|i: int| 0 <= i < s.push(y).len() && s.push(y)[i] == x;
        if i < s.len() {
            assert(s[i] == x);
        }
    }
    if s.contains(x) {
        let i = choose|i: int| 0 <= i < s.len() && s[i] == x;
        assert(s.push(y)[i] == x);
    }
    if x == y {
        assert(s.push(y)[s.len() as int] == x);
    }
}

/// `ids` holds `x` exactly when its front does or its last element is `x`.
proof fn lemma_seq_contains_snoc(ids: Seq<Seq<char>>, x: Seq<char>)
    requires
        ids.len() > 0,
    ensures
        ids.contains(x) <==> ids.drop_last().contains(x) || x == ids.last(),
{
    if ids.contains(x) {
        let i = choose|i: int| 0 <= i < ids.len() && ids[i] == x;
        if i < ids.len() - 1 {
            assert(ids.drop_last()[i] == x);
        }
    }
    if ids.drop_last().contains(x) {
        let i = choose|i: int| 0 <= i < ids.drop_last().len() && ids.drop_last()[i] == x;
        assert(ids[i] == x);
    }
    if x == ids.last() {
        assert(ids[ids.len() - 1] == x);
    }
}


/// The two categories exhaust the ids: their sizes add up to the number of
/// routed parents, so per prefix the processed and skipped counts together
/// cover every distinct parent observed during resolution.
pub proof fn lemma_partition_counts(ids: Seq<Seq<char>>, found: Set<Seq<char>>)
    ensures
        missing_rec(ids, found).len() + kept_rec(ids, found).len() == ids.len(),
    decreases ids.len(),
{
    if ids.len() > 0 {
        lemma_partition_counts(ids.drop_last(), found);
    }
}

} // verus!
