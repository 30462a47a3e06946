//! Stable chronological sorting of feed comments and feed units.
//!
//! The sorts are specified as recursive insertion-sort functions, so every
//! caller's contract pins the exact output order: ascending by creation
//! timestamp, ties keeping input order.

use vstd::prelude::*;
use vstd::seq_lib::lemma_multiset_commutative;
use crate::records::ChatterCommentRecord;
use crate::records::ChatterFeedItemRecord;
use crate::strutil::lex_le;
use crate::strutil::lemma_lex_total;
use crate::strutil::lemma_lex_trans;

verus! {

/// Insert a comment after every element whose timestamp is not later.
pub open spec fn insert_comment(
    c: ChatterCommentRecord,
    s: Seq<ChatterCommentRecord>,
) -> Seq<ChatterCommentRecord>
    decreases s.len(),
{
    if s.len() == 0 {
        seq![c]
    } else if lex_le(s[0].created_date@, c.created_date@) {
        seq![s[0]] + insert_comment(c, s.drop_first())
    } else {
        seq![c] + s
    }
}

/// Stable insertion sort of comments by creation timestamp.
pub open spec fn sort_comments_spec(s: Seq<ChatterCommentRecord>) -> Seq<ChatterCommentRecord>
    decreases s.len(),
{
    if s.len() == 0 {
        Seq::empty()
    } else {
        insert_comment(s.last(), sort_comments_spec(s.drop_last()))
    }
}

/// Whether a comment sequence is ascending by timestamp.
pub open spec fn comments_sorted(s: Seq<ChatterCommentRecord>) -> bool {
    forall|p: int, q: int|
        0 <= p < q < s.len() ==> lex_le(s[p].created_date@, s[q].created_date@)
}

proof fn lemma_insert_comment_sorted(c: ChatterCommentRecord, s: Seq<ChatterCommentRecord>)
    requires
        comments_sorted(s),
    ensures
        comments_sorted(insert_comment(c, s)),
        insert_comment(c, s).len() == s.len() + 1,
        insert_comment(c, s).to_multiset() == s.to_multiset().insert(c),
    decreases s.len(),
{
    broadcast use vstd::seq_lib::group_to_multiset_ensures;

    if s.len() == 0 {
        assert(seq![c] =~= Seq::<ChatterCommentRecord>::empty().push(c));
    } else if lex_le(s[0].created_date@, c.created_date@) {
        let rest = s.drop_first();
        assert(comments_sorted(rest)) by {
            assert(forall|p: int, q: int|
                0 <= p < q < rest.len() ==> rest[p] == s[p + 1] && rest[q] == s[q + 1]);
        }
        lemma_insert_comment_sorted(c, rest);
        let inner = insert_comment(c, rest);
        let r = seq![s[0]] + inner;
        assert forall|p: int, q: int| 0 <= p < q < r.len() implies lex_le(
            r[p].created_date@,
            r[q].created_date@,
        ) by {
            if p == 0 {
                // every element of `inner` is either `c` or a later element
                // of `s`, and both are at or after `s[0]`
                let x = inner[q - 1];
                assert(inner.to_multiset().count(x) > 0);
                if x == c {
                    assert(lex_le(s[0].created_date@, c.created_date@));
                } else {
                    assert(rest.to_multiset().count(x) > 0);
                    let j = choose|j: int| 0 <= j < rest.len() && rest[j] == x;
                    assert(rest[j] == s[j + 1]);
                    assert(lex_le(s[0].created_date@, x.created_date@));
                }
            } else {
                assert(inner[p - 1] == r[p] && inner[q - 1] == r[q]);
            }
        }
        assert(r.to_multiset() =~= s.to_multiset().insert(c)) by {
            lemma_multiset_commutative(seq![s[0]], inner);
            assert(seq![s[0]] =~= Seq::<ChatterCommentRecord>::empty().push(s[0]));
            assert(seq![s[0]] + rest =~= s);
            lemma_multiset_commutative(seq![s[0]], rest);
        }
    } else {
        let r = seq![c] + s;
        lemma_lex_total(s[0].created_date@, c.created_date@);
        assert forall|p: int, q: int| 0 <= p < q < r.len() implies lex_le(
            r[p].created_date@,
            r[q].created_date@,
        ) by {
            if p == 0 {
                if q == 1 {
                } else {
                    lemma_lex_trans(
                        c.created_date@,
                        s[0].created_date@,
                        s[q - 1].created_date@,
                    );
                }
            }
        }
        assert(r.to_multiset() =~= s.to_multiset().insert(c)) by {
            lemma_multiset_commutative(seq![c], s);
            assert(seq![c] =~= Seq::<ChatterCommentRecord>::empty().push(c));
        }
    }
}

/// The sorted sequence is ascending and a permutation of the input.
pub proof fn lemma_sort_comments_spec(s: Seq<ChatterCommentRecord>)
    ensures
        comments_sorted(sort_comments_spec(s)),
        sort_comments_spec(s).len() == s.len(),
        sort_comments_spec(s).to_multiset() == s.to_multiset(),
    decreases s.len(),
{
    broadcast use vstd::seq_lib::group_to_multiset_ensures;

    if s.len() > 0 {
        lemma_sort_comments_spec(s.drop_last());
        lemma_insert_comment_sorted(s.last(), sort_comments_spec(s.drop_last()));
        assert(s.drop_last().push(s.last()) =~= s);
    }
}

/// Sort comments ascending by creation timestamp; ties keep input order.
pub fn sort_comments(v: Vec<ChatterCommentRecord>) -> (r: Vec<ChatterCommentRecord>)
    ensures
        r@ == sort_comments_spec(v@),
{
    let n = v.len();
    let mut out: Vec<ChatterCommentRecord> = Vec::new();
    let mut i: usize = 0;
    while i < n
        invariant
            0 <= i <= n,
            n == v@.len(),
            out@ == sort_comments_spec(v@.take(i as int)),
        decreases n - i,
    {
        let c = v[i].duplicate();
        let ghost sorted_pre = out@;
        proof {
            assert(sorted_pre.skip(0) =~= sorted_pre);
            assert(sorted_pre.take(0) + insert_comment(c, sorted_pre.skip(0)) =~= insert_comment(
                c,
                sorted_pre,
            ));
        }
        let m = out.len();
        let mut p: usize = 0;
        while p < m && crate::strutil::str_le(out[p].created_date.as_str(), c.created_date.as_str())
            invariant
                0 <= p <= m,
                m == out@.len(),
                out@ == sorted_pre,
                insert_comment(c, sorted_pre) == sorted_pre.take(p as int) + insert_comment(
                    c,
                    sorted_pre.skip(p as int),
                ),
                forall|j: int| 0 <= j < p ==> lex_le(
                    (#[trigger] sorted_pre[j]).created_date@,
                    c.created_date@,
                ),
            decreases m - p,
        {
            proof {
                let tail = sorted_pre.skip(p as int);
                assert(tail[0] == sorted_pre[p as int]);
                assert(tail.drop_first() =~= sorted_pre.skip(p + 1));
                assert(sorted_pre.take(p as int).push(sorted_pre[p as int]) =~= sorted_pre.take(
                    p + 1,
                ));
                assert(sorted_pre.take(p as int) + (seq![tail[0]] + insert_comment(
                    c,
                    tail.drop_first(),
                )) =~= sorted_pre.take(p + 1) + insert_comment(c, sorted_pre.skip(p + 1)));
            }
            p += 1;
        }
        proof {
            let tail = sorted_pre.skip(p as int);
            if p < m {
                assert(tail[0] == sorted_pre[p as int]);
                assert(insert_comment(c, tail) =~= seq![c] + tail);
            } else {
                assert(tail =~= Seq::<ChatterCommentRecord>::empty());
                assert(insert_comment(c, tail) =~= seq![c] + tail);
            }
            assert(insert_comment(c, sorted_pre) =~= sorted_pre.take(p as int) + seq![c]
                + sorted_pre.skip(p as int));
        }
        out.insert(p, c);
        proof {
            assert(out@ =~= sorted_pre.take(p as int) + seq![c] + sorted_pre.skip(p as int));
            assert(v@.take(i + 1).drop_last() =~= v@.take(i as int));
            assert(v@.take(i + 1).last() == v@[i as int]);
            assert(out@ =~= sort_comments_spec(v@.take(i + 1)));
        }
        i += 1;
    }
    proof {
        assert(v@.take(n as int) =~= v@);
    }
    out
}

/// Insert a post after every post whose timestamp is not later.
pub open spec fn insert_item(
    it: ChatterFeedItemRecord,
    s: Seq<ChatterFeedItemRecord>,
) -> Seq<ChatterFeedItemRecord>
    decreases s.len(),
{
    if s.len() == 0 {
        seq![it]
    } else if lex_le(s[0].created_date@, it.created_date@) {
        seq![s[0]] + insert_item(it, s.drop_first())
    } else {
        seq![it] + s
    }
}

/// Stable insertion sort of posts by creation timestamp.
pub open spec fn sort_items_spec(s: Seq<ChatterFeedItemRecord>) -> Seq<ChatterFeedItemRecord>
    decreases s.len(),
{
    if s.len() == 0 {
        Seq::empty()
    } else {
        insert_item(s.last(), sort_items_spec(s.drop_last()))
    }
}

/// Sort posts ascending by creation timestamp; ties keep input order.
pub fn sort_items(v: Vec<ChatterFeedItemRecord>) -> (r: Vec<ChatterFeedItemRecord>)
    ensures
        r@ == sort_items_spec(v@),
{
    let n = v.len();
    let mut out: Vec<ChatterFeedItemRecord> = Vec::new();
    let mut i: usize = 0;
    while i < n
        invariant
            0 <= i <= n,
            n == v@.len(),
            out@ == sort_items_spec(v@.take(i as int)),
        decreases n - i,
    {
        let c = v[i].duplicate();
        let ghost sorted_pre = out@;
        proof {
            assert(sorted_pre.skip(0) =~= sorted_pre);
            assert(sorted_pre.take(0) + insert_item(c, sorted_pre.skip(0)) =~= insert_item(
                c,
                sorted_pre,
            ));
        }
        let m = out.len();
        let mut p: usize = 0;
        while p < m && crate::strutil::str_le(out[p].created_date.as_str(), c.created_date.as_str())
            invariant
                0 <= p <= m,
                m == out@.len(),
                out@ == sorted_pre,
                insert_item(c, sorted_pre) == sorted_pre.take(p as int) + insert_item(
                    c,
                    sorted_pre.skip(p as int),
                ),
            decreases m - p,
        {
            proof {
                let tail = sorted_pre.skip(p as int);
                assert(tail[0] == sorted_pre[p as int]);
                assert(tail.drop_first() =~= sorted_pre.skip(p + 1));
                assert(sorted_pre.take(p as int) + (seq![tail[0]] + insert_item(
                    c,
                    tail.drop_first(),
                )) =~= sorted_pre.take(p + 1) + insert_item(c, sorted_pre.skip(p + 1)));
            }
            p += 1;
        }
        proof {
            let tail = sorted_pre.skip(p as int);
            if p < m {
                assert(tail[0] == sorted_pre[p as int]);
                assert(insert_item(c, tail) =~= seq![c] + tail);
            } else {
                assert(tail =~= Seq::<ChatterFeedItemRecord>::empty());
                assert(insert_item(c, tail) =~= seq![c] + tail);
            }
            assert(insert_item(c, sorted_pre) =~= sorted_pre.take(p as int) + seq![c]
                + sorted_pre.skip(p as int));
        }
        out.insert(p, c);
        proof {
            assert(out@ =~= sorted_pre.take(p as int) + seq![c] + sorted_pre.skip(p as int));
            assert(v@.take(i + 1).drop_last() =~= v@.take(i as int));
            assert(v@.take(i + 1).last() == v@[i as int]);
            assert(out@ =~= sort_items_spec(v@.take(i + 1)));
        }
        i += 1;
    }
    proof {
        assert(v@.take(n as int) =~= v@);
    }
    out
}

/// Insert an identifier after every identifier that is not later.
pub open spec fn insert_string(x: Seq<char>, s: Seq<Seq<char>>) -> Seq<Seq<char>>
    decreases s.len(),
{
    if s.len() == 0 {
        seq![x]
    } else if lex_le(s[0], x) {
        seq![s[0]] + insert_string(x, s.drop_first())
    } else {
        seq![x] + s
    }
}

/// Stable insertion sort of identifiers.
pub open spec fn sort_strings_spec(s: Seq<Seq<char>>) -> Seq<Seq<char>>
    decreases s.len(),
{
    if s.len() == 0 {
        Seq::empty()
    } else {
        insert_string(s.last(), sort_strings_spec(s.drop_last()))
    }
}

/// Sort identifiers ascending; equal identifiers keep input order.
pub fn sort_strings(v: Vec<String>) -> (r: Vec<String>)
    ensures
        crate::strmap::strings_view(r) == sort_strings_spec(crate::strmap::strings_view(v)),
{
    let ghost sv = crate::strmap::strings_view(v);
    let n = v.len();
    let mut out: Vec<String> = Vec::new();
    let mut i: usize = 0;
    while i < n
        invariant
            0 <= i <= n,
            n == v@.len(),
            sv == crate::strmap::strings_view(v),
            crate::strmap::strings_view(out) == sort_strings_spec(sv.take(i as int)),
        decreases n - i,
    {
        let c = v[i].clone();
        let ghost x = sv[i as int];
        let ghost sorted_pre = crate::strmap::strings_view(out);
        proof {
            assert(c@ == x);
            assert(sorted_pre.skip(0) =~= sorted_pre);
            assert(sorted_pre.take(0) + insert_string(x, sorted_pre.skip(0)) =~= insert_string(
                x,
                sorted_pre,
            ));
        }
        let m = out.len();
        let mut p: usize = 0;
        while p < m && crate::strutil::str_le(out[p].as_str(), c.as_str())
            invariant
                0 <= p <= m,
                m == out@.len(),
                crate::strmap::strings_view(out) == sorted_pre,
                c@ == x,
                insert_string(x, sorted_pre) == sorted_pre.take(p as int) + insert_string(
                    x,
                    sorted_pre.skip(p as int),
                ),
            decreases m - p,
        {
            proof {
                let tail = sorted_pre.skip(p as int);
                assert(sorted_pre[p as int] == out@[p as int]@);
                assert(tail[0] == sorted_pre[p as int]);
                assert(tail.drop_first() =~= sorted_pre.skip(p + 1));
                assert(sorted_pre.take(p as int) + (seq![tail[0]] + insert_string(
                    x,
                    tail.drop_first(),
                )) =~= sorted_pre.take(p + 1) + insert_string(x, sorted_pre.skip(p + 1)));
            }
            p += 1;
        }
        proof {
            let tail = sorted_pre.skip(p as int);
            if p < m {
                assert(sorted_pre[p as int] == out@[p as int]@);
                assert(tail[0] == sorted_pre[p as int]);
                assert(insert_string(x, tail) =~= seq![x] + tail);
            } else {
                assert(tail =~= Seq::<Seq<char>>::empty());
                assert(insert_string(x, tail) =~= seq![x] + tail);
            }
            assert(insert_string(x, sorted_pre) =~= sorted_pre.take(p as int) + seq![x]
                + sorted_pre.skip(p as int));
        }
        out.insert(p, c);
        proof {
            assert(crate::strmap::strings_view(out) =~= sorted_pre.take(p as int) + seq![x]
                + sorted_pre.skip(p as int));
            assert(sv.take(i + 1).drop_last() =~= sv.take(i as int));
            assert(sv.take(i + 1).last() == sv[i as int]);
            assert(crate::strmap::strings_view(out) =~= sort_strings_spec(sv.take(i + 1)));
        }
        i += 1;
    }
    proof {
        assert(sv.take(n as int) =~= sv);
    }
    out
}

} // verus!
