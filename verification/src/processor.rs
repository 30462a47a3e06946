//! The record extractor and grouper: typed readers over parsed export
//! tables, prefix-bucketed collections, deduplication and merging.
//!
//! Every reader's contract is stated against `csv_rows` of the raw text, so
//! a caller knows exactly which rows are kept, under which key they are
//! filed, and in which order.

use vstd::prelude::*;
use vstd::string::*;
use crate::csvtext;
use crate::csvtext::CsvError;
use crate::records::ObjectMapping;
use crate::records::ChatterFeedItemRecord;
use crate::records::ChatterCommentRecord;
use crate::records::UserRecord;
use crate::records::ProcessableRecord;
use crate::records::FileInfo;
use crate::records::opt_view;
use crate::records::FeedItemWithComments;
use crate::records::ProcessableChatterRecord;
use crate::strmap::StrMap;
use crate::strmap::strings_view;

verus! {

/// View of a vector of identifier pairs.
pub open spec fn pairs_view(v: Vec<(String, String)>) -> Seq<(Seq<char>, Seq<char>)> {
    v@.map(|i: int, p: (String, String)| (p.0@, p.1@))
}

/// A link row is routable when its parent id has at least three characters,
/// its prefix is recognized, and its content reference is non-empty.
pub open spec fn link_row_kept(
    row: Seq<Seq<char>>,
    il: int,
    ic: int,
    dom: Set<Seq<char>>,
) -> bool {
    row[il].len() >= 3 && row[ic].len() > 0 && dom.contains(row[il].subrange(0, 3))
}

/// Link rows bucketed by parent-id prefix, in row order.
pub open spec fn link_buckets_rec(
    data: Seq<Seq<Seq<char>>>,
    il: int,
    ic: int,
    dom: Set<Seq<char>>,
) -> Map<Seq<char>, Seq<(Seq<char>, Seq<char>)>>
    decreases data.len(),
{
    if data.len() == 0 {
        Map::empty()
    } else {
        let prev = link_buckets_rec(data.drop_last(), il, ic, dom);
        let row = data.last();
        if link_row_kept(row, il, ic, dom) {
            let k = row[il].subrange(0, 3);
            let b = if prev.contains_key(k) {
                prev[k]
            } else {
                Seq::empty()
            };
            prev.insert(k, b.push((row[il], row[ic])))
        } else {
            prev
        }
    }
}

/// The pair buckets described by a whole link export text.
pub open spec fn link_buckets(s: Seq<char>, dom: Set<Seq<char>>) -> Map<
    Seq<char>,
    Seq<(Seq<char>, Seq<char>)>,
> {
    let hdr = csvtext::header_of(s);
    let il = match csvtext::col(hdr, "LinkedEntityId"@) {
        Some(i) => i,
        None => 0,
    };
    let ic = match csvtext::col(hdr, "ContentDocumentId"@) {
        Some(i) => i,
        None => 0,
    };
    link_buckets_rec(csvtext::data_of(s), il, ic, dom)
}

/// Rows keyed one value each; a later row with the same key wins.
pub open spec fn keyed_last_rec(data: Seq<Seq<Seq<char>>>, ik: int, iv: int) -> Map<
    Seq<char>,
    Seq<char>,
>
    decreases data.len(),
{
    if data.len() == 0 {
        Map::empty()
    } else {
        keyed_last_rec(data.drop_last(), ik, iv).insert(data.last()[ik], data.last()[iv])
    }
}

/// The version-to-content-item lookup described by a content-item export:
/// every row maps its version id to its content item id, later rows winning.
pub open spec fn version_map_of(s: Seq<char>) -> Map<Seq<char>, Seq<char>> {
    let hdr = csvtext::header_of(s);
    let ii = match csvtext::col(hdr, "Id"@) {
        Some(i) => i,
        None => 0,
    };
    let ic = match csvtext::col(hdr, "ContentDocumentId"@) {
        Some(i) => i,
        None => 0,
    };
    keyed_last_rec(csvtext::data_of(s), ii, ic)
}

/// Rows counted per three-character prefix of the trimmed id in column
/// `idx`; ids shorter than a prefix are not counted.
pub open spec fn prefix_counts_rec(data: Seq<Seq<Seq<char>>>, idx: int) -> Map<Seq<char>, int>
    decreases data.len(),
{
    if data.len() == 0 {
        Map::empty()
    } else {
        let prev = prefix_counts_rec(data.drop_last(), idx);
        let id = crate::strutil::trimmed(data.last()[idx]);
        if id.len() >= 3 {
            let k = id.subrange(0, 3);
            let c = if prev.contains_key(k) {
                prev[k]
            } else {
                0
            };
            prev.insert(k, c + 1)
        } else {
            prev
        }
    }
}

/// Each prefix count is positive and at most the number of rows.
pub proof fn lemma_prefix_counts_bounds(data: Seq<Seq<Seq<char>>>, idx: int)
    ensures
        forall|k: Seq<char>|
            #[trigger] prefix_counts_rec(data, idx).contains_key(k) ==> 1 <= prefix_counts_rec(
                data,
                idx,
            )[k] <= data.len(),
    decreases data.len(),
{
    if data.len() > 0 {
        lemma_prefix_counts_bounds(data.drop_last(), idx);
        let prev = prefix_counts_rec(data.drop_last(), idx);
        let cur = prefix_counts_rec(data, idx);
        let id = crate::strutil::trimmed(data.last()[idx]);
        assert forall|k: Seq<char>| #[trigger] cur.contains_key(k) implies 1 <= cur[k]
            <= data.len() by {
            if id.len() >= 3 && id.subrange(0, 3) == k {
                if prev.contains_key(k) {
                    assert(1 <= prev[k] <= data.drop_last().len());
                }
            } else {
                assert(prev.contains_key(k) && cur[k] == prev[k]);
            }
        }
    }
}

/// The per-prefix row counts described by a whole export text, counting the
/// ids of the column named `colname`.
pub open spec fn object_groups_of(s: Seq<char>, colname: Seq<char>) -> Map<Seq<char>, int> {
    let idx = match csvtext::col(csvtext::header_of(s), colname) {
        Some(i) => i,
        None => 0,
    };
    prefix_counts_rec(csvtext::data_of(s), idx)
}

/// Number of rows whose trimmed id in column `idx` carries prefix `p`.
pub open spec fn prefix_count_rec(data: Seq<Seq<Seq<char>>>, idx: int, p: Seq<char>) -> int
    decreases data.len(),
{
    if data.len() == 0 {
        0
    } else {
        let id = crate::strutil::trimmed(data.last()[idx]);
        prefix_count_rec(data.drop_last(), idx, p) + if id.len() >= 3 && id.subrange(0, 3)
            == p {
            1int
        } else {
            0int
        }
    }
}

/// Feed-post rows bucketed by parent-id prefix, as field tuples
/// `(id, parent, body, author, date)`.
pub open spec fn feed_item_buckets_rec(
    data: Seq<Seq<Seq<char>>>,
    ii: int,
    ip: int,
    ib: int,
    ia: int,
    id: int,
    dom: Set<Seq<char>>,
) -> Map<Seq<char>, Seq<(Seq<char>, Seq<char>, Seq<char>, Seq<char>, Seq<char>)>>
    decreases data.len(),
{
    if data.len() == 0 {
        Map::empty()
    } else {
        let prev = feed_item_buckets_rec(data.drop_last(), ii, ip, ib, ia, id, dom);
        let row = data.last();
        if row[ip].len() >= 3 && dom.contains(row[ip].subrange(0, 3)) {
            let k = row[ip].subrange(0, 3);
            let b = if prev.contains_key(k) {
                prev[k]
            } else {
                Seq::empty()
            };
            prev.insert(k, b.push((row[ii], row[ip], row[ib], row[ia], row[id])))
        } else {
            prev
        }
    }
}

/// Feed-comment rows bucketed by post id, as field tuples
/// `(id, post, body, author, date, related)`; only posts in `targets` are
/// kept, and a missing related column (`ir < 0`) reads as empty.
pub open spec fn comment_buckets_rec(
    data: Seq<Seq<Seq<char>>>,
    ii: int,
    ifi: int,
    ib: int,
    ia: int,
    id: int,
    ir: int,
    targets: Seq<Seq<char>>,
) -> Map<Seq<char>, Seq<(Seq<char>, Seq<char>, Seq<char>, Seq<char>, Seq<char>, Seq<char>)>>
    decreases data.len(),
{
    if data.len() == 0 {
        Map::empty()
    } else {
        let prev = comment_buckets_rec(data.drop_last(), ii, ifi, ib, ia, id, ir, targets);
        let row = data.last();
        if targets.contains(row[ifi]) {
            let k = row[ifi];
            let rel = if ir < 0 {
                Seq::empty()
            } else {
                row[ir]
            };
            let b = if prev.contains_key(k) {
                prev[k]
            } else {
                Seq::empty()
            };
            prev.insert(k, b.push((row[ii], row[ifi], row[ib], row[ia], row[id], rel)))
        } else {
            prev
        }
    }
}

/// User rows keyed by id, as field tuples `(id, name, username)`; a later
/// row with the same id wins.
pub open spec fn user_map_rec(data: Seq<Seq<Seq<char>>>, ii: int, iname: int, iuser: int) -> Map<
    Seq<char>,
    (Seq<char>, Seq<char>, Seq<char>),
>
    decreases data.len(),
{
    if data.len() == 0 {
        Map::empty()
    } else {
        user_map_rec(data.drop_last(), ii, iname, iuser).insert(
            data.last()[ii],
            (data.last()[ii], data.last()[iname], data.last()[iuser]),
        )
    }
}

/// A version-shaped reference is translated to its owning content item when
/// the lookup knows it, and passed through verbatim otherwise.
pub open spec fn translate_ref(id: Seq<char>, vmap: Map<Seq<char>, Seq<char>>) -> Seq<char> {
    if crate::strutil::spec_starts_with(id, "068"@) {
        if vmap.contains_key(id) {
            vmap[id]
        } else {
            id
        }
    } else {
        id
    }
}

/// Feed-attachment rows bucketed by feed entity, holding translated content
/// references; only rows of type `Content` or `InlineImage` aimed at a
/// targeted post are kept.
pub open spec fn feed_att_buckets_rec(
    data: Seq<Seq<Seq<char>>>,
    ife: int,
    irid: int,
    ity: int,
    targets: Seq<Seq<char>>,
    vmap: Map<Seq<char>, Seq<char>>,
) -> Map<Seq<char>, Seq<Seq<char>>>
    decreases data.len(),
{
    if data.len() == 0 {
        Map::empty()
    } else {
        let prev = feed_att_buckets_rec(data.drop_last(), ife, irid, ity, targets, vmap);
        let row = data.last();
        if (row[ity] == "Content"@ || row[ity] == "InlineImage"@) && targets.contains(row[ife]) {
            let k = row[ife];
            let b = if prev.contains_key(k) {
                prev[k]
            } else {
                Seq::empty()
            };
            prev.insert(k, b.push(translate_ref(row[irid], vmap)))
        } else {
            prev
        }
    }
}

/// Link rows tied to feed entities, bucketed by entity id: posts must be
/// targeted, comments are always kept.
pub open spec fn chatter_link_buckets_rec(
    data: Seq<Seq<Seq<char>>>,
    il: int,
    ic: int,
    targets: Seq<Seq<char>>,
) -> Map<Seq<char>, Seq<Seq<char>>>
    decreases data.len(),
{
    if data.len() == 0 {
        Map::empty()
    } else {
        let prev = chatter_link_buckets_rec(data.drop_last(), il, ic, targets);
        let row = data.last();
        if row[il].len() >= 3 && ((row[il].subrange(0, 3) == "0D5"@ && targets.contains(row[il]))
            || row[il].subrange(0, 3) == "0D7"@) {
            let k = row[il];
            let b = if prev.contains_key(k) {
                prev[k]
            } else {
                Seq::empty()
            };
            prev.insert(k, b.push(row[ic]))
        } else {
            prev
        }
    }
}

/// The feed-post buckets described by a whole feed export text.
pub open spec fn feed_items_of(s: Seq<char>, dom: Set<Seq<char>>) -> Map<
    Seq<char>,
    Seq<(Seq<char>, Seq<char>, Seq<char>, Seq<char>, Seq<char>)>,
> {
    let hdr = csvtext::header_of(s);
    let ii = match csvtext::col(hdr, "Id"@) {
        Some(i) => i,
        None => 0,
    };
    let ip = match csvtext::col(hdr, "ParentId"@) {
        Some(i) => i,
        None => 0,
    };
    let ib = match csvtext::col(hdr, "Body"@) {
        Some(i) => i,
        None => 0,
    };
    let ia = match csvtext::col(hdr, "CreatedById"@) {
        Some(i) => i,
        None => 0,
    };
    let idd = match csvtext::col(hdr, "CreatedDate"@) {
        Some(i) => i,
        None => 0,
    };
    feed_item_buckets_rec(csvtext::data_of(s), ii, ip, ib, ia, idd, dom)
}

/// The comment buckets described by a whole comment export text.
pub open spec fn comments_of(s: Seq<char>, targets: Seq<Seq<char>>) -> Map<
    Seq<char>,
    Seq<(Seq<char>, Seq<char>, Seq<char>, Seq<char>, Seq<char>, Seq<char>)>,
> {
    let hdr = csvtext::header_of(s);
    let ii = match csvtext::col(hdr, "Id"@) {
        Some(i) => i,
        None => 0,
    };
    let ifi = match csvtext::col(hdr, "FeedItemId"@) {
        Some(i) => i,
        None => 0,
    };
    let ib = match csvtext::col(hdr, "CommentBody"@) {
        Some(i) => i,
        None => 0,
    };
    let ia = match csvtext::col(hdr, "CreatedById"@) {
        Some(i) => i,
        None => 0,
    };
    let idd = match csvtext::col(hdr, "CreatedDate"@) {
        Some(i) => i,
        None => 0,
    };
    let ir = match csvtext::col(hdr, "RelatedRecordId"@) {
        Some(i) => i,
        None => -1,
    };
    comment_buckets_rec(csvtext::data_of(s), ii, ifi, ib, ia, idd, ir, targets)
}

/// The user lookup described by a whole user export text.
pub open spec fn users_of(s: Seq<char>) -> Map<Seq<char>, (Seq<char>, Seq<char>, Seq<char>)> {
    let hdr = csvtext::header_of(s);
    let ii = match csvtext::col(hdr, "Id"@) {
        Some(i) => i,
        None => 0,
    };
    let iname = match csvtext::col(hdr, "Name"@) {
        Some(i) => i,
        None => 0,
    };
    let iuser = match csvtext::col(hdr, "Username"@) {
        Some(i) => i,
        None => 0,
    };
    user_map_rec(csvtext::data_of(s), ii, iname, iuser)
}

/// The feed-attachment buckets described by a whole export text.
pub open spec fn feed_atts_of(
    s: Seq<char>,
    targets: Seq<Seq<char>>,
    vmap: Map<Seq<char>, Seq<char>>,
) -> Map<Seq<char>, Seq<Seq<char>>> {
    let hdr = csvtext::header_of(s);
    let ife = match csvtext::col(hdr, "FeedEntityId"@) {
        Some(i) => i,
        None => 0,
    };
    let irid = match csvtext::col(hdr, "RecordId"@) {
        Some(i) => i,
        None => 0,
    };
    let ity = match csvtext::col(hdr, "Type"@) {
        Some(i) => i,
        None => 0,
    };
    feed_att_buckets_rec(csvtext::data_of(s), ife, irid, ity, targets, vmap)
}

/// The feed-entity link buckets described by a whole link export text.
pub open spec fn chatter_links_of(s: Seq<char>, targets: Seq<Seq<char>>) -> Map<
    Seq<char>,
    Seq<Seq<char>>,
> {
    let hdr = csvtext::header_of(s);
    let il = match csvtext::col(hdr, "LinkedEntityId"@) {
        Some(i) => i,
        None => 0,
    };
    let ic = match csvtext::col(hdr, "ContentDocumentId"@) {
        Some(i) => i,
        None => 0,
    };
    chatter_link_buckets_rec(csvtext::data_of(s), il, ic, targets)
}

/// First occurrence of each distinct identifier, in order.
pub open spec fn dedup_rec(s: Seq<Seq<char>>) -> Seq<Seq<char>>
    decreases s.len(),
{
    if s.len() == 0 {
        Seq::empty()
    } else {
        let prev = dedup_rec(s.drop_last());
        if prev.contains(s.last()) {
            prev
        } else {
            prev.push(s.last())
        }
    }
}

/// The deduplicated sequence has no repeated identifiers.
pub proof fn lemma_dedup_rec_distinct(s: Seq<Seq<char>>)
    ensures
        forall|p: int, q: int|
            0 <= p < q < dedup_rec(s).len() ==> dedup_rec(s)[p] != dedup_rec(s)[q],
        forall|x: Seq<char>| dedup_rec(s).contains(x) <==> s.contains(x),
    decreases s.len(),
{
    if s.len() > 0 {
        lemma_dedup_rec_distinct(s.drop_last());
        let prev = dedup_rec(s.drop_last());
        let cur = dedup_rec(s);
        assert forall|x: Seq<char>| cur.contains(x) <==> s.contains(x) by {
            if cur.contains(x) {
                if prev.contains(x) {
                    assert(s.drop_last().contains(x));
                    let j = choose|j: int|
                        0 <= j < s.drop_last().len() && s.drop_last()[j] == x;
                    assert(s[j] == x);
                } else {
                    assert(x == s.last());
                    assert(s[s.len() - 1] == x);
                }
            }
            if s.contains(x) {
                let j = choose|j: int| 0 <= j < s.len() && s[j] == x;
                if j < s.len() - 1 {
                    assert(s.drop_last()[j] == x);
                    assert(s.drop_last().contains(x));
                    assert(prev.contains(x));
                    if !prev.contains(s.last()) {
                        assert(cur[choose|i: int| 0 <= i < prev.len() && prev[i] == x]
                            == x);
                    }
                } else {
                    if prev.contains(x) {
                    } else {
                        assert(cur.last() == x);
                    }
                }
            }
        }
    }
}

/// Deduplicate identifiers, keeping first occurrences in order.
pub fn dedup_ids(v: &Vec<String>) -> (r: Vec<String>)
    ensures
        strings_view(r) == dedup_rec(strings_view(*v)),
{
    let n = v.len();
    let mut out: Vec<String> = Vec::new();
    let mut i: usize = 0;
    while i < n
        invariant
            0 <= i <= n,
            n == v@.len(),
            strings_view(out) == dedup_rec(strings_view(*v).take(i as int)),
        decreases n - i,
    {
        let ghost sv = strings_view(*v);
        let ghost pre = strings_view(out);
        let ghost x = sv[i as int];
        proof {
            assert(x == v@[i as int]@);
            assert(sv.take(i + 1).drop_last() =~= sv.take(i as int));
            assert(sv.take(i + 1).last() == x);
        }
        let present = crate::strmap::vec_contains_str(&out, v[i].as_str());
        if !present {
            out.push(v[i].clone());
        }
        proof {
            assert(forall|j: int| 0 <= j < pre.len() ==> pre[j] == out@[j]@);
            if present {
                let j = choose|j: int| 0 <= j < pre.len() && out@[j]@ == x;
                assert(pre[j] == x);
                assert(pre.contains(x));
                assert(strings_view(out) =~= pre);
            } else {
                assert(!pre.contains(x)) by {
                    if pre.contains(x) {
                        let j = choose|j: int| 0 <= j < pre.len() && pre[j] == x;
                        assert(out@[j]@ == x);
                    }
                }
                assert(strings_view(out) =~= pre.push(x));
            }
            assert(strings_view(out) == dedup_rec(sv.take(i + 1)));
        }
        i += 1;
    }
    proof {
        assert(strings_view(*v).take(n as int) =~= strings_view(*v));
    }
    out
}

/// Pairs whose parent was resolved, bucketed by full parent id.
pub open spec fn sf_buckets_rec(
    pairs: Seq<(Seq<char>, Seq<char>)>,
    found: Set<Seq<char>>,
) -> Map<Seq<char>, Seq<Seq<char>>>
    decreases pairs.len(),
{
    if pairs.len() == 0 {
        Map::empty()
    } else {
        let prev = sf_buckets_rec(pairs.drop_last(), found);
        let p = pairs.last();
        if found.contains(p.0) {
            let b = if prev.contains_key(p.0) {
                prev[p.0]
            } else {
                Seq::empty()
            };
            prev.insert(p.0, b.push(p.1))
        } else {
            prev
        }
    }
}

/// The resolved parents in order of first appearance.
pub open spec fn sf_order_rec(
    pairs: Seq<(Seq<char>, Seq<char>)>,
    found: Set<Seq<char>>,
) -> Seq<Seq<char>>
    decreases pairs.len(),
{
    if pairs.len() == 0 {
        Seq::empty()
    } else {
        let prev = sf_order_rec(pairs.drop_last(), found);
        let p = pairs.last();
        if found.contains(p.0) && !prev.contains(p.0) {
            prev.push(p.0)
        } else {
            prev
        }
    }
}

/// A resolved parent that some kept pair names owns a bucket, stands in
/// the parent order, and its bucket lists the pair's content reference.
pub proof fn lemma_sf_bucket_membership(
    pairs: Seq<(Seq<char>, Seq<char>)>,
    found: Set<Seq<char>>,
    p: Seq<char>,
    c: Seq<char>,
)
    requires
        found.contains(p),
        exists|i: int| 0 <= i < pairs.len() && pairs[i] == (p, c),
    ensures
        sf_order_rec(pairs, found).contains(p),
        sf_buckets_rec(pairs, found).contains_key(p),
        sf_buckets_rec(pairs, found)[p].contains(c),
    decreases pairs.len(),
{
    let i = choose|i: int| 0 <= i < pairs.len() && pairs[i] == (p, c);
    let prev_b = sf_buckets_rec(pairs.drop_last(), found);
    let prev_o = sf_order_rec(pairs.drop_last(), found);
    if i == pairs.len() - 1 {
        let b = if prev_b.contains_key(p) {
            prev_b[p]
        } else {
            Seq::empty()
        };
        assert(sf_buckets_rec(pairs, found)[p] == b.push(c));
        assert(b.push(c)[b.len() as int] == c);
        if !prev_o.contains(p) {
            assert(sf_order_rec(pairs, found).last() == p);
        } else {
            let j = choose|j: int| 0 <= j < prev_o.len() && prev_o[j] == p;
            assert(sf_order_rec(pairs, found)[j] == p);
        }
    } else {
        assert(pairs.drop_last()[i] == (p, c));
        lemma_sf_bucket_membership(pairs.drop_last(), found, p, c);
        let last = pairs.last();
        if found.contains(last.0) {
            if last.0 == p {
                let b = prev_b[p];
                let j = choose|j: int| 0 <= j < b.len() && b[j] == c;
                assert(sf_buckets_rec(pairs, found)[p] == b.push(last.1));
                assert(b.push(last.1)[j] == c);
            }
            if !prev_o.contains(last.0) {
                let j = choose|j: int| 0 <= j < prev_o.len() && prev_o[j] == p;
                assert(sf_order_rec(pairs, found)[j] == p);
            }
        }
    }
}

/// A parent entity that links to a content item, however many times, lists
/// that item exactly once in its unit's deduplicated reference list: the
/// list holds the item, and holds nothing twice.
pub proof fn lemma_content_ids_exactly_once(
    pairs: Seq<(Seq<char>, Seq<char>)>,
    found: Set<Seq<char>>,
    p: Seq<char>,
    c: Seq<char>,
)
    requires
        found.contains(p),
        exists|i: int| 0 <= i < pairs.len() && pairs[i] == (p, c),
    ensures
        sf_order_rec(pairs, found).contains(p),
        dedup_rec(sf_buckets_rec(pairs, found)[p]).contains(c),
        forall|q1: int, q2: int|
            0 <= q1 < q2 < dedup_rec(sf_buckets_rec(pairs, found)[p]).len() ==> dedup_rec(
                sf_buckets_rec(pairs, found)[p],
            )[q1] != dedup_rec(sf_buckets_rec(pairs, found)[p])[q2],
{
    lemma_sf_bucket_membership(pairs, found, p, c);
    lemma_dedup_rec_distinct(sf_buckets_rec(pairs, found)[p]);
}

/// The content ids referenced anywhere in the routed link buckets.
pub open spec fn target_ids(tr: Map<Seq<char>, Seq<(Seq<char>, Seq<char>)>>) -> Set<Seq<char>> {
    Set::new(
        |cd: Seq<char>|
            exists|k: Seq<char>, i: int|
                #![auto]
                tr.contains_key(k) && 0 <= i < tr[k].len() && tr[k][i].1 == cd,
    )
}

/// The payload of a content-item row: the inline field when present, else
/// the base64 text of the payload folder's file for that version id.
pub open spec fn vd_of(
    row: Seq<Seq<char>>,
    iid: int,
    ivd: int,
    folder: Map<Seq<char>, Seq<u8>>,
) -> Option<Seq<char>> {
    if ivd >= 0 && row[ivd].len() > 0 {
        Some(row[ivd])
    } else if folder.contains_key(row[iid]) {
        Some(crate::b64::base64_of(folder[row[iid]]))
    } else {
        None
    }
}

/// The file-info view of one content-item row: version id, bare file name
/// (after the last slash), optional payload.
pub open spec fn file_entry_of(
    row: Seq<Seq<char>>,
    iid: int,
    ipath: int,
    ivd: int,
    folder: Map<Seq<char>, Seq<u8>>,
) -> (Seq<char>, Seq<char>, Option<Seq<char>>) {
    (
        row[iid],
        row[ipath].subrange(crate::strutil::after_last(row[ipath], '/'), row[ipath].len() as int),
        vd_of(row, iid, ivd, folder),
    )
}

/// The targeted content-item rows keyed by content id, later rows winning.
pub open spec fn file_info_rec(
    data: Seq<Seq<Seq<char>>>,
    iid: int,
    icd: int,
    ipath: int,
    ivd: int,
    targets: Set<Seq<char>>,
    folder: Map<Seq<char>, Seq<u8>>,
) -> Map<Seq<char>, (Seq<char>, Seq<char>, Option<Seq<char>>)>
    decreases data.len(),
{
    if data.len() == 0 {
        Map::empty()
    } else {
        let prev = file_info_rec(data.drop_last(), iid, icd, ipath, ivd, targets, folder);
        let row = data.last();
        if targets.contains(row[icd]) {
            prev.insert(row[icd], file_entry_of(row, iid, ipath, ivd, folder))
        } else {
            prev
        }
    }
}

/// The pairs of a bucket whose content reference has a payload.
pub open spec fn kept_pairs_rec(
    v: Seq<(Seq<char>, Seq<char>)>,
    found: Set<Seq<char>>,
) -> Seq<(Seq<char>, Seq<char>)>
    decreases v.len(),
{
    if v.len() == 0 {
        Seq::empty()
    } else {
        let prev = kept_pairs_rec(v.drop_last(), found);
        if found.contains(v.last().1) {
            prev.push(v.last())
        } else {
            prev
        }
    }
}

/// The buckets restricted to pairs with a payload, dropping emptied ones.
pub open spec fn filtered_buckets(
    tr: Map<Seq<char>, Seq<(Seq<char>, Seq<char>)>>,
    found: Set<Seq<char>>,
) -> Map<Seq<char>, Seq<(Seq<char>, Seq<char>)>> {
    Map::new(
        |k: Seq<char>| tr.contains_key(k) && kept_pairs_rec(tr[k], found).len() > 0,
        |k: Seq<char>| kept_pairs_rec(tr[k], found),
    )
}

/// The content ids whose file row carries a resolvable payload: an inline
/// field or a folder backfill.
pub open spec fn payload_ids(
    fid: Map<Seq<char>, (Seq<char>, Seq<char>, Option<Seq<char>>)>,
) -> Set<Seq<char>> {
    Set::new(|cd: Seq<char>| fid.contains_key(cd) && fid[cd].2 is Some)
}

/// View of an optional payload-folder map.
pub open spec fn folder_view(o: Option<&StrMap<Vec<u8>>>) -> Map<Seq<char>, Seq<u8>> {
    match o {
        Some(f) => f@.map_values(|b: Vec<u8>| b@),
        None => Map::empty(),
    }
}

/// The file-info lookup described by a whole content-item export text.
pub open spec fn file_info_of(
    s: Seq<char>,
    targets: Set<Seq<char>>,
    folder: Map<Seq<char>, Seq<u8>>,
) -> Map<Seq<char>, (Seq<char>, Seq<char>, Option<Seq<char>>)> {
    let hdr = csvtext::header_of(s);
    let iid = match csvtext::col(hdr, "Id"@) {
        Some(i) => i,
        None => 0,
    };
    let icd = match csvtext::col(hdr, "ContentDocumentId"@) {
        Some(i) => i,
        None => 0,
    };
    let ipath = match csvtext::col(hdr, "PathOnClient"@) {
        Some(i) => i,
        None => 0,
    };
    let ivd = match csvtext::col(hdr, "VersionData"@) {
        Some(i) => i,
        None => -1,
    };
    file_info_rec(csvtext::data_of(s), iid, icd, ipath, ivd, targets, folder)
}

/// The CSV readers and the extractor/grouper over their rows.
pub struct CsvProcessor;

impl CsvProcessor {
    /// Extract the link rows routed by `object_mappings`, bucketed by the
    /// three-character prefix of the linked entity id.
    pub fn extract_target_records(link_text: &str, object_mappings: &StrMap<ObjectMapping>) -> (r:
        Result<StrMap<Vec<(String, String)>>, CsvError>)
        ensures
            match r {
                Ok(m) => {
                    &&& m.wf()
                    &&& csvtext::table_ok(link_text@)
                    &&& csvtext::col(csvtext::header_of(link_text@), "LinkedEntityId"@) is Some
                    &&& csvtext::col(csvtext::header_of(link_text@), "ContentDocumentId"@) is Some
                    &&& m@.map_values(|v: Vec<(String, String)>| pairs_view(v)) == link_buckets(
                        link_text@,
                        object_mappings@.dom(),
                    )
                },
                Err(CsvError::MissingColumn(c)) => {
                    &&& csvtext::table_ok(link_text@)
                    &&& (c@ == "LinkedEntityId"@ || c@ == "ContentDocumentId"@)
                    &&& csvtext::col(csvtext::header_of(link_text@), c@) is None
                },
                Err(e) => csvtext::table_err(link_text@, e),
            },
    {
        let t = match csvtext::table(link_text) {
            Ok(t) => t,
            Err(e) => {
                return Err(e);
            },
        };
        let il = match csvtext::column_index(&t.header, "LinkedEntityId") {
            Some(i) => i,
            None => {
                return Err(CsvError::MissingColumn(String::from_str("LinkedEntityId")));
            },
        };
        let ic = match csvtext::column_index(&t.header, "ContentDocumentId") {
            Some(i) => i,
            None => {
                return Err(CsvError::MissingColumn(String::from_str("ContentDocumentId")));
            },
        };
        let ghost hdr = csvtext::header_of(link_text@);
        let ghost data = csvtext::data_of(link_text@);
        let ghost dom = object_mappings@.dom();
        proof {
            csvtext::lemma_col_bounds(hdr, "LinkedEntityId"@, 0);
            csvtext::lemma_col_bounds(hdr, "ContentDocumentId"@, 0);
        }
        let mut m: StrMap<Vec<(String, String)>> = StrMap::new();
        let n = t.rows.len();
        let mut i: usize = 0;
        while i < n
            invariant
                0 <= i <= n,
                n == t.rows@.len(),
                t.wf(),
                m.wf(),
                il < t.header@.len(),
                ic < t.header@.len(),
                csvtext::rows_view(t.rows) == data,
                csvtext::row_view(t.header) == hdr,
                dom == object_mappings@.dom(),
                m@.map_values(|v: Vec<(String, String)>| pairs_view(v)) == link_buckets_rec(
                    data.take(i as int),
                    il as int,
                    ic as int,
                    dom,
                ),
            decreases n - i,
        {
            let ghost pre = m@.map_values(|v: Vec<(String, String)>| pairs_view(v));
            let ghost row_v = data[i as int];
            proof {
                assert(data[i as int] == csvtext::rows_view(t.rows)[i as int]);
                assert(csvtext::rows_view(t.rows)[i as int] == csvtext::row_view(
                    t.rows@[i as int],
                ));
                assert(t.rows@[i as int]@.len() == t.header@.len());
                assert(csvtext::row_view(t.rows@[i as int])[il as int] == t.rows@[i as int]@[il as int]@);
                assert(csvtext::row_view(t.rows@[i as int])[ic as int] == t.rows@[i as int]@[ic as int]@);
                assert(data.take(i + 1).len() == i + 1);
            }
            let row = &t.rows[i];
            let le = &row[il];
            let cd = &row[ic];
            if le.as_str().unicode_len() >= 3 && !cd.as_str().is_empty() {
                let prefix = le.as_str().substring_char(0, 3);
                if object_mappings.contains_key(prefix) {
                    m.push_value(prefix, (le.clone(), cd.clone()));
                    proof {
                        let post = m@.map_values(|v: Vec<(String, String)>| pairs_view(v));
                        assert(link_row_kept(row_v, il as int, ic as int, dom));
                        assert(row_v[il as int].subrange(0, 3) == prefix@);
                        if pre.contains_key(prefix@) {
                            assert(post =~~= pre.insert(
                                prefix@,
                                pre[prefix@].push((row_v[il as int], row_v[ic as int])),
                            ));
                        } else {
                            assert(post =~~= pre.insert(
                                prefix@,
                                Seq::<(Seq<char>, Seq<char>)>::empty().push(
                                    (row_v[il as int], row_v[ic as int]),
                                ),
                            ));
                        }
                    }
                } else {
                    proof {
                        assert(!link_row_kept(row_v, il as int, ic as int, dom));
                    }
                }
            } else {
                proof {
                    assert(!link_row_kept(row_v, il as int, ic as int, dom));
                }
            }
            proof {
                assert(data.take(i + 1).drop_last() =~= data.take(i as int));
                assert(data.take(i + 1).last() == row_v);
                assert(m@.map_values(|v: Vec<(String, String)>| pairs_view(v)) =~~= link_buckets_rec(
                    data.take(i + 1),
                    il as int,
                    ic as int,
                    dom,
                ));
            }
            i += 1;
        }
        proof {
            assert(data.take(n as int) =~= data);
        }
        Ok(m)
    }

    /// Count rows per prefix of the trimmed id held in the column named
    /// `colname`.
    fn count_prefix_groups(text: &str, colname: &str) -> (r: Result<StrMap<usize>, CsvError>)
        ensures
            match r {
                Ok(m) => {
                    &&& m.wf()
                    &&& csvtext::table_ok(text@)
                    &&& csvtext::col(csvtext::header_of(text@), colname@) is Some
                    &&& m@.map_values(|c: usize| c as int) == object_groups_of(text@, colname@)
                },
                Err(CsvError::MissingColumn(c)) => {
                    &&& csvtext::table_ok(text@)
                    &&& c@ == colname@
                    &&& csvtext::col(csvtext::header_of(text@), colname@) is None
                },
                Err(e) => csvtext::table_err(text@, e),
            },
    {
        let t = match csvtext::table(text) {
            Ok(t) => t,
            Err(e) => {
                return Err(e);
            },
        };
        let idx = match csvtext::column_index(&t.header, colname) {
            Some(i) => i,
            None => {
                return Err(CsvError::MissingColumn(String::from_str(colname)));
            },
        };
        let ghost hdr = csvtext::header_of(text@);
        let ghost data = csvtext::data_of(text@);
        proof {
            csvtext::lemma_col_bounds(hdr, colname@, 0);
        }
        let mut m: StrMap<usize> = StrMap::new();
        let n = t.rows.len();
        let mut i: usize = 0;
        while i < n
            invariant
                0 <= i <= n,
                n == t.rows@.len(),
                t.wf(),
                m.wf(),
                idx < t.header@.len(),
                csvtext::rows_view(t.rows) == data,
                csvtext::row_view(t.header) == hdr,
                m@.map_values(|c: usize| c as int) == prefix_counts_rec(
                    data.take(i as int),
                    idx as int,
                ),
            decreases n - i,
        {
            let ghost pre = m@.map_values(|c: usize| c as int);
            let ghost row_v = data[i as int];
            proof {
                assert(data[i as int] == csvtext::rows_view(t.rows)[i as int]);
                assert(csvtext::rows_view(t.rows)[i as int] == csvtext::row_view(
                    t.rows@[i as int],
                ));
                assert(t.rows@[i as int]@.len() == t.header@.len());
                assert(csvtext::row_view(t.rows@[i as int])[idx as int] == t.rows@[i as int]@[idx as int]@);
                assert(data.take(i + 1).len() == i + 1);
                assert(data.take(i + 1).drop_last() =~= data.take(i as int));
                assert(data.take(i + 1).last() == row_v);
                lemma_prefix_counts_bounds(data.take(i as int), idx as int);
            }
            let row = &t.rows[i];
            let id = crate::strutil::trim_ws(row[idx].as_str());
            proof {
                assert(crate::strutil::trimmed(row_v[idx as int]) == id@);
                assert(data.len() == t.rows@.len());
                assert(data.take(i as int).len() == i as int);
            }
            if id.as_str().unicode_len() >= 3 {
                let p = id.as_str().substring_char(0, 3);
                proof {
                    assert(id@.subrange(0, 3) == p@);
                    if m@.contains_key(p@) {
                        assert(pre.contains_key(p@));
                        assert(pre[p@] == m@[p@] as int);
                        assert(1 <= pre[p@] <= i as int);
                    }
                }
                m.bump(p);
                proof {
                    assert(m@.map_values(|c: usize| c as int) =~~= prefix_counts_rec(
                        data.take(i + 1),
                        idx as int,
                    ));
                }
            } else {
                proof {
                    assert(m@.map_values(|c: usize| c as int) =~~= prefix_counts_rec(
                        data.take(i + 1),
                        idx as int,
                    ));
                }
            }
            i += 1;
        }
        proof {
            assert(data.take(n as int) =~= data);
        }
        Ok(m)
    }

    /// Count link rows per three-character prefix of the linked entity id.
    pub fn analyze_object_groups(content_document_link_text: &str) -> (r: Result<
        StrMap<usize>,
        CsvError,
    >)
        ensures
            match r {
                Ok(m) => {
                    &&& m.wf()
                    &&& csvtext::table_ok(content_document_link_text@)
                    &&& csvtext::col(
                        csvtext::header_of(content_document_link_text@),
                        "LinkedEntityId"@,
                    ) is Some
                    &&& m@.map_values(|c: usize| c as int) == object_groups_of(
                        content_document_link_text@,
                        "LinkedEntityId"@,
                    )
                },
                Err(CsvError::MissingColumn(c)) => {
                    &&& csvtext::table_ok(content_document_link_text@)
                    &&& c@ == "LinkedEntityId"@
                    &&& csvtext::col(
                        csvtext::header_of(content_document_link_text@),
                        "LinkedEntityId"@,
                    ) is None
                },
                Err(e) => csvtext::table_err(content_document_link_text@, e),
            },
    {
        Self::count_prefix_groups(content_document_link_text, "LinkedEntityId")
    }

    /// Count feed-post rows per three-character prefix of the parent id.
    pub fn analyze_chatter_object_groups(feed_item_text: &str) -> (r: Result<
        StrMap<usize>,
        CsvError,
    >)
        ensures
            match r {
                Ok(m) => {
                    &&& m.wf()
                    &&& csvtext::table_ok(feed_item_text@)
                    &&& csvtext::col(csvtext::header_of(feed_item_text@), "ParentId"@) is Some
                    &&& m@.map_values(|c: usize| c as int) == object_groups_of(
                        feed_item_text@,
                        "ParentId"@,
                    )
                },
                Err(CsvError::MissingColumn(c)) => {
                    &&& csvtext::table_ok(feed_item_text@)
                    &&& c@ == "ParentId"@
                    &&& csvtext::col(csvtext::header_of(feed_item_text@), "ParentId"@) is None
                },
                Err(e) => csvtext::table_err(feed_item_text@, e),
            },
    {
        Self::count_prefix_groups(feed_item_text, "ParentId")
    }

    /// Count link rows attached to feed posts and to feed comments.
    pub fn count_chatter_attachments(content_document_link_text: &str) -> (r: Result<
        (usize, usize),
        CsvError,
    >)
        ensures
            match r {
                Ok((fi, fc)) => {
                    let s = content_document_link_text@;
                    let idx = match csvtext::col(csvtext::header_of(s), "LinkedEntityId"@) {
                        Some(i) => i,
                        None => 0,
                    };
                    &&& csvtext::table_ok(s)
                    &&& csvtext::col(csvtext::header_of(s), "LinkedEntityId"@) is Some
                    &&& fi as int == prefix_count_rec(csvtext::data_of(s), idx, "0D5"@)
                    &&& fc as int == prefix_count_rec(csvtext::data_of(s), idx, "0D7"@)
                },
                Err(CsvError::MissingColumn(c)) => {
                    &&& csvtext::table_ok(content_document_link_text@)
                    &&& c@ == "LinkedEntityId"@
                    &&& csvtext::col(
                        csvtext::header_of(content_document_link_text@),
                        "LinkedEntityId"@,
                    ) is None
                },
                Err(e) => csvtext::table_err(content_document_link_text@, e),
            },
    {
        let t = match csvtext::table(content_document_link_text) {
            Ok(t) => t,
            Err(e) => {
                return Err(e);
            },
        };
        let idx = match csvtext::column_index(&t.header, "LinkedEntityId") {
            Some(i) => i,
            None => {
                return Err(CsvError::MissingColumn(String::from_str("LinkedEntityId")));
            },
        };
        let ghost hdr = csvtext::header_of(content_document_link_text@);
        let ghost data = csvtext::data_of(content_document_link_text@);
        proof {
            csvtext::lemma_col_bounds(hdr, "LinkedEntityId"@, 0);
        }
        let mut fi: usize = 0;
        let mut fc: usize = 0;
        let n = t.rows.len();
        let mut i: usize = 0;
        while i < n
            invariant
                0 <= i <= n,
                n == t.rows@.len(),
                t.wf(),
                idx < t.header@.len(),
                csvtext::rows_view(t.rows) == data,
                csvtext::row_view(t.header) == hdr,
                fi as int == prefix_count_rec(data.take(i as int), idx as int, "0D5"@),
                fc as int == prefix_count_rec(data.take(i as int), idx as int, "0D7"@),
                fi <= i,
                fc <= i,
            decreases n - i,
        {
            let ghost row_v = data[i as int];
            proof {
                assert(data[i as int] == csvtext::rows_view(t.rows)[i as int]);
                assert(csvtext::rows_view(t.rows)[i as int] == csvtext::row_view(
                    t.rows@[i as int],
                ));
                assert(t.rows@[i as int]@.len() == t.header@.len());
                assert(csvtext::row_view(t.rows@[i as int])[idx as int] == t.rows@[i as int]@[idx as int]@);
                assert(data.take(i + 1).len() == i + 1);
                assert(data.take(i + 1).drop_last() =~= data.take(i as int));
                assert(data.take(i + 1).last() == row_v);
            }
            let row = &t.rows[i];
            let id = crate::strutil::trim_ws(row[idx].as_str());
            proof {
                assert(crate::strutil::trimmed(row_v[idx as int]) == id@);
            }
            if id.as_str().unicode_len() >= 3 {
                let p = id.as_str().substring_char(0, 3);
                if crate::strmap::str_eq(p, "0D5") {
                    fi += 1;
                } else if crate::strmap::str_eq(p, "0D7") {
                    fc += 1;
                }
                proof {
                    reveal_strlit("0D5");
                    reveal_strlit("0D7");
                    assert(id@.subrange(0, 3) == p@);
                    assert("0D5"@[2] == '5' && "0D7"@[2] == '7');
                    assert("0D5"@ != "0D7"@);
                }
            }
            i += 1;
        }
        proof {
            assert(data.take(n as int) =~= data);
        }
        Ok((fi, fc))
    }

    /// Check that both export files parse as tables and carry the columns
    /// the run needs.
    pub fn validate_csv_files(content_version_text: &str, content_document_link_text: &str) -> (r:
        Result<(), CsvError>)
        ensures
            ({
                let cv = content_version_text@;
                let cdl = content_document_link_text@;
                match r {
                    Ok(()) => {
                        &&& csvtext::table_ok(cv)
                        &&& csvtext::col(csvtext::header_of(cv), "Id"@) is Some
                        &&& csvtext::col(csvtext::header_of(cv), "ContentDocumentId"@) is Some
                        &&& csvtext::col(csvtext::header_of(cv), "PathOnClient"@) is Some
                        &&& csvtext::table_ok(cdl)
                        &&& csvtext::col(csvtext::header_of(cdl), "LinkedEntityId"@) is Some
                        &&& csvtext::col(csvtext::header_of(cdl), "ContentDocumentId"@) is Some
                    },
                    Err(CsvError::MissingColumn(c)) => {
                        ||| {
                            &&& csvtext::table_ok(cv)
                            &&& (c@ == "Id"@ || c@ == "ContentDocumentId"@ || c@
                                == "PathOnClient"@)
                            &&& csvtext::col(csvtext::header_of(cv), c@) is None
                        }
                        ||| {
                            &&& csvtext::table_ok(cdl)
                            &&& (c@ == "LinkedEntityId"@ || c@ == "ContentDocumentId"@)
                            &&& csvtext::col(csvtext::header_of(cdl), c@) is None
                        }
                    },
                    Err(e) => csvtext::table_err(cv, e) || csvtext::table_err(cdl, e),
                }
            }),
    {
        let cv = match csvtext::table(content_version_text) {
            Ok(t) => t,
            Err(e) => {
                return Err(e);
            },
        };
        if csvtext::column_index(&cv.header, "Id").is_none() {
            return Err(CsvError::MissingColumn(String::from_str("Id")));
        }
        if csvtext::column_index(&cv.header, "ContentDocumentId").is_none() {
            return Err(CsvError::MissingColumn(String::from_str("ContentDocumentId")));
        }
        if csvtext::column_index(&cv.header, "PathOnClient").is_none() {
            return Err(CsvError::MissingColumn(String::from_str("PathOnClient")));
        }
        let cdl = match csvtext::table(content_document_link_text) {
            Ok(t) => t,
            Err(e) => {
                return Err(e);
            },
        };
        if csvtext::column_index(&cdl.header, "LinkedEntityId").is_none() {
            return Err(CsvError::MissingColumn(String::from_str("LinkedEntityId")));
        }
        if csvtext::column_index(&cdl.header, "ContentDocumentId").is_none() {
            return Err(CsvError::MissingColumn(String::from_str("ContentDocumentId")));
        }
        Ok(())
    }

    /// Build the version-id to content-item-id lookup from the content-item
    /// export.
    pub fn build_content_version_to_document_map(cv_text: &str) -> (r: Result<
        StrMap<String>,
        CsvError,
    >)
        ensures
            match r {
                Ok(m) => {
                    &&& m.wf()
                    &&& csvtext::table_ok(cv_text@)
                    &&& csvtext::col(csvtext::header_of(cv_text@), "Id"@) is Some
                    &&& csvtext::col(csvtext::header_of(cv_text@), "ContentDocumentId"@) is Some
                    &&& m@.map_values(|s: String| s@) == version_map_of(cv_text@)
                },
                Err(CsvError::MissingColumn(c)) => {
                    &&& csvtext::table_ok(cv_text@)
                    &&& (c@ == "Id"@ || c@ == "ContentDocumentId"@)
                    &&& csvtext::col(csvtext::header_of(cv_text@), c@) is None
                },
                Err(e) => csvtext::table_err(cv_text@, e),
            },
    {
        let t = match csvtext::table(cv_text) {
            Ok(t) => t,
            Err(e) => {
                return Err(e);
            },
        };
        let ii = match csvtext::column_index(&t.header, "Id") {
            Some(i) => i,
            None => {
                return Err(CsvError::MissingColumn(String::from_str("Id")));
            },
        };
        let ic = match csvtext::column_index(&t.header, "ContentDocumentId") {
            Some(i) => i,
            None => {
                return Err(CsvError::MissingColumn(String::from_str("ContentDocumentId")));
            },
        };
        let ghost hdr = csvtext::header_of(cv_text@);
        let ghost data = csvtext::data_of(cv_text@);
        proof {
            csvtext::lemma_col_bounds(hdr, "Id"@, 0);
            csvtext::lemma_col_bounds(hdr, "ContentDocumentId"@, 0);
        }
        let mut m: StrMap<String> = StrMap::new();
        let n = t.rows.len();
        let mut i: usize = 0;
        while i < n
            invariant
                0 <= i <= n,
                n == t.rows@.len(),
                t.wf(),
                m.wf(),
                ii < t.header@.len(),
                ic < t.header@.len(),
                csvtext::rows_view(t.rows) == data,
                csvtext::row_view(t.header) == hdr,
                m@.map_values(|s: String| s@) == keyed_last_rec(
                    data.take(i as int),
                    ii as int,
                    ic as int,
                ),
            decreases n - i,
        {
            let ghost row_v = data[i as int];
            proof {
                assert(data[i as int] == csvtext::rows_view(t.rows)[i as int]);
                assert(csvtext::rows_view(t.rows)[i as int] == csvtext::row_view(
                    t.rows@[i as int],
                ));
                assert(t.rows@[i as int]@.len() == t.header@.len());
                assert(csvtext::row_view(t.rows@[i as int])[ii as int] == t.rows@[i as int]@[ii as int]@);
                assert(csvtext::row_view(t.rows@[i as int])[ic as int] == t.rows@[i as int]@[ic as int]@);
                assert(data.take(i + 1).len() == i + 1);
            }
            let row = &t.rows[i];
            m.insert(row[ii].clone(), row[ic].clone());
            proof {
                assert(data.take(i + 1).drop_last() =~= data.take(i as int));
                assert(data.take(i + 1).last() == row_v);
                assert(m@.map_values(|s: String| s@) =~~= keyed_last_rec(
                    data.take(i + 1),
                    ii as int,
                    ic as int,
                ));
            }
            i += 1;
        }
        proof {
            assert(data.take(n as int) =~= data);
        }
        Ok(m)
    }

    /// Read the feed-post export, bucketing routed posts by the prefix of
    /// their parent id.
    pub fn extract_chatter_records(feed_item_text: &str, object_mappings: &StrMap<ObjectMapping>)
        -> (r: Result<StrMap<Vec<ChatterFeedItemRecord>>, CsvError>)
        ensures
            match r {
                Ok(m) => {
                    &&& m.wf()
                    &&& csvtext::table_ok(feed_item_text@)
                    &&& csvtext::col(csvtext::header_of(feed_item_text@), "Id"@) is Some
                    &&& csvtext::col(csvtext::header_of(feed_item_text@), "ParentId"@) is Some
                    &&& csvtext::col(csvtext::header_of(feed_item_text@), "Body"@) is Some
                    &&& csvtext::col(csvtext::header_of(feed_item_text@), "CreatedById"@) is Some
                    &&& csvtext::col(csvtext::header_of(feed_item_text@), "CreatedDate"@) is Some
                    &&& m@.map_values(
                        |v: Vec<ChatterFeedItemRecord>|
                            v@.map(|i: int, rec: ChatterFeedItemRecord| rec.view()),
                    ) == feed_items_of(feed_item_text@, object_mappings@.dom())
                },
                Err(CsvError::MissingColumn(c)) => {
                    &&& csvtext::table_ok(feed_item_text@)
                    &&& (c@ == "Id"@ || c@ == "ParentId"@ || c@ == "Body"@ || c@
                        == "CreatedById"@ || c@ == "CreatedDate"@)
                    &&& csvtext::col(csvtext::header_of(feed_item_text@), c@) is None
                },
                Err(e) => csvtext::table_err(feed_item_text@, e),
            },
    {
        let t = match csvtext::table(feed_item_text) {
            Ok(t) => t,
            Err(e) => {
                return Err(e);
            },
        };
        let ii = match csvtext::column_index(&t.header, "Id") {
            Some(i) => i,
            None => {
                return Err(CsvError::MissingColumn(String::from_str("Id")));
            },
        };
        let ip = match csvtext::column_index(&t.header, "ParentId") {
            Some(i) => i,
            None => {
                return Err(CsvError::MissingColumn(String::from_str("ParentId")));
            },
        };
        let ib = match csvtext::column_index(&t.header, "Body") {
            Some(i) => i,
            None => {
                return Err(CsvError::MissingColumn(String::from_str("Body")));
            },
        };
        let ia = match csvtext::column_index(&t.header, "CreatedById") {
            Some(i) => i,
            None => {
                return Err(CsvError::MissingColumn(String::from_str("CreatedById")));
            },
        };
        let idd = match csvtext::column_index(&t.header, "CreatedDate") {
            Some(i) => i,
            None => {
                return Err(CsvError::MissingColumn(String::from_str("CreatedDate")));
            },
        };
        let ghost hdr = csvtext::header_of(feed_item_text@);
        let ghost data = csvtext::data_of(feed_item_text@);
        let ghost dom = object_mappings@.dom();
        proof {
            csvtext::lemma_col_bounds(hdr, "Id"@, 0);
            csvtext::lemma_col_bounds(hdr, "ParentId"@, 0);
            csvtext::lemma_col_bounds(hdr, "Body"@, 0);
            csvtext::lemma_col_bounds(hdr, "CreatedById"@, 0);
            csvtext::lemma_col_bounds(hdr, "CreatedDate"@, 0);
        }
        let mut m: StrMap<Vec<ChatterFeedItemRecord>> = StrMap::new();
        let n = t.rows.len();
        let mut i: usize = 0;
        while i < n
            invariant
                0 <= i <= n,
                n == t.rows@.len(),
                t.wf(),
                m.wf(),
                ii < t.header@.len(),
                ip < t.header@.len(),
                ib < t.header@.len(),
                ia < t.header@.len(),
                idd < t.header@.len(),
                csvtext::rows_view(t.rows) == data,
                csvtext::row_view(t.header) == hdr,
                dom == object_mappings@.dom(),
                m@.map_values(
                    |v: Vec<ChatterFeedItemRecord>|
                        v@.map(|j: int, rec: ChatterFeedItemRecord| rec.view()),
                ) == feed_item_buckets_rec(
                    data.take(i as int),
                    ii as int,
                    ip as int,
                    ib as int,
                    ia as int,
                    idd as int,
                    dom,
                ),
            decreases n - i,
        {
            let ghost pre = m@.map_values(
                |v: Vec<ChatterFeedItemRecord>|
                    v@.map(|j: int, rec: ChatterFeedItemRecord| rec.view()),
            );
            let ghost row_v = data[i as int];
            proof {
                assert(data[i as int] == csvtext::rows_view(t.rows)[i as int]);
                assert(csvtext::rows_view(t.rows)[i as int] == csvtext::row_view(
                    t.rows@[i as int],
                ));
                assert(t.rows@[i as int]@.len() == t.header@.len());
                assert(csvtext::row_view(t.rows@[i as int])[ii as int] == t.rows@[i as int]@[ii as int]@);
                assert(csvtext::row_view(t.rows@[i as int])[ip as int] == t.rows@[i as int]@[ip as int]@);
                assert(csvtext::row_view(t.rows@[i as int])[ib as int] == t.rows@[i as int]@[ib as int]@);
                assert(csvtext::row_view(t.rows@[i as int])[ia as int] == t.rows@[i as int]@[ia as int]@);
                assert(csvtext::row_view(t.rows@[i as int])[idd as int] == t.rows@[i as int]@[idd as int]@);
                assert(data.take(i + 1).len() == i + 1);
                assert(data.take(i + 1).drop_last() =~= data.take(i as int));
                assert(data.take(i + 1).last() == row_v);
            }
            let row = &t.rows[i];
            let parent = &row[ip];
            if parent.as_str().unicode_len() >= 3 {
                let prefix = parent.as_str().substring_char(0, 3);
                if object_mappings.contains_key(prefix) {
                    let rec = ChatterFeedItemRecord {
                        id: row[ii].clone(),
                        parent_id: row[ip].clone(),
                        body: row[ib].clone(),
                        created_by_id: row[ia].clone(),
                        created_date: row[idd].clone(),
                    };
                    proof {
                        assert(rec.view() == (
                            row_v[ii as int],
                            row_v[ip as int],
                            row_v[ib as int],
                            row_v[ia as int],
                            row_v[idd as int],
                        ));
                        assert(row_v[ip as int].subrange(0, 3) == prefix@);
                    }
                    m.push_value(prefix, rec);
                    proof {
                        assert(m@.map_values(
                            |v: Vec<ChatterFeedItemRecord>|
                                v@.map(|j: int, rec2: ChatterFeedItemRecord| rec2.view()),
                        ) =~~= feed_item_buckets_rec(
                            data.take(i + 1),
                            ii as int,
                            ip as int,
                            ib as int,
                            ia as int,
                            idd as int,
                            dom,
                        ));
                    }
                } else {
                    proof {
                        assert(row_v[ip as int].subrange(0, 3) == prefix@);
                        assert(!dom.contains(row_v[ip as int].subrange(0, 3)));
                    }
                }
            } else {
                proof {
                    assert(row_v[ip as int].len() < 3);
                }
            }
            i += 1;
        }
        proof {
            assert(data.take(n as int) =~= data);
        }
        Ok(m)
    }

    /// Read the comment export, bucketing by post id the comments of the
    /// targeted posts.
    pub fn load_feed_comments(feed_comment_text: &str, target_feed_item_ids: &Vec<String>) -> (r:
        Result<StrMap<Vec<ChatterCommentRecord>>, CsvError>)
        ensures
            match r {
                Ok(m) => {
                    &&& m.wf()
                    &&& csvtext::table_ok(feed_comment_text@)
                    &&& csvtext::col(csvtext::header_of(feed_comment_text@), "Id"@) is Some
                    &&& csvtext::col(csvtext::header_of(feed_comment_text@), "FeedItemId"@) is Some
                    &&& csvtext::col(
                        csvtext::header_of(feed_comment_text@),
                        "CommentBody"@,
                    ) is Some
                    &&& csvtext::col(
                        csvtext::header_of(feed_comment_text@),
                        "CreatedById"@,
                    ) is Some
                    &&& csvtext::col(
                        csvtext::header_of(feed_comment_text@),
                        "CreatedDate"@,
                    ) is Some
                    &&& m@.map_values(
                        |v: Vec<ChatterCommentRecord>|
                            v@.map(|i: int, rec: ChatterCommentRecord| rec.view()),
                    ) == comments_of(feed_comment_text@, strings_view(*target_feed_item_ids))
                },
                Err(CsvError::MissingColumn(c)) => {
                    &&& csvtext::table_ok(feed_comment_text@)
                    &&& (c@ == "Id"@ || c@ == "FeedItemId"@ || c@ == "CommentBody"@ || c@
                        == "CreatedById"@ || c@ == "CreatedDate"@)
                    &&& csvtext::col(csvtext::header_of(feed_comment_text@), c@) is None
                },
                Err(e) => csvtext::table_err(feed_comment_text@, e),
            },
    {
        let t = match csvtext::table(feed_comment_text) {
            Ok(t) => t,
            Err(e) => {
                return Err(e);
            },
        };
        let ii = match csvtext::column_index(&t.header, "Id") {
            Some(i) => i,
            None => {
                return Err(CsvError::MissingColumn(String::from_str("Id")));
            },
        };
        let ifi = match csvtext::column_index(&t.header, "FeedItemId") {
            Some(i) => i,
            None => {
                return Err(CsvError::MissingColumn(String::from_str("FeedItemId")));
            },
        };
        let ib = match csvtext::column_index(&t.header, "CommentBody") {
            Some(i) => i,
            None => {
                return Err(CsvError::MissingColumn(String::from_str("CommentBody")));
            },
        };
        let ia = match csvtext::column_index(&t.header, "CreatedById") {
            Some(i) => i,
            None => {
                return Err(CsvError::MissingColumn(String::from_str("CreatedById")));
            },
        };
        let idd = match csvtext::column_index(&t.header, "CreatedDate") {
            Some(i) => i,
            None => {
                return Err(CsvError::MissingColumn(String::from_str("CreatedDate")));
            },
        };
        let ir = csvtext::column_index(&t.header, "RelatedRecordId");
        let ghost hdr = csvtext::header_of(feed_comment_text@);
        let ghost data = csvtext::data_of(feed_comment_text@);
        let ghost targets = strings_view(*target_feed_item_ids);
        let ghost gir: int = match csvtext::col(hdr, "RelatedRecordId"@) {
            Some(i) => i,
            None => -1,
        };
        proof {
            csvtext::lemma_col_bounds(hdr, "Id"@, 0);
            csvtext::lemma_col_bounds(hdr, "FeedItemId"@, 0);
            csvtext::lemma_col_bounds(hdr, "CommentBody"@, 0);
            csvtext::lemma_col_bounds(hdr, "CreatedById"@, 0);
            csvtext::lemma_col_bounds(hdr, "CreatedDate"@, 0);
            csvtext::lemma_col_bounds(hdr, "RelatedRecordId"@, 0);
            assert(hdr.len() == t.header@.len());
        }
        let mut m: StrMap<Vec<ChatterCommentRecord>> = StrMap::new();
        let n = t.rows.len();
        let mut i: usize = 0;
        while i < n
            invariant
                0 <= i <= n,
                n == t.rows@.len(),
                t.wf(),
                m.wf(),
                ii < t.header@.len(),
                ifi < t.header@.len(),
                ib < t.header@.len(),
                ia < t.header@.len(),
                idd < t.header@.len(),
                match ir {
                    Some(j) => gir == j && 0 <= gir < t.header@.len(),
                    None => gir == -1,
                },
                csvtext::rows_view(t.rows) == data,
                csvtext::row_view(t.header) == hdr,
                targets == strings_view(*target_feed_item_ids),
                m@.map_values(
                    |v: Vec<ChatterCommentRecord>|
                        v@.map(|j: int, rec: ChatterCommentRecord| rec.view()),
                ) == comment_buckets_rec(
                    data.take(i as int),
                    ii as int,
                    ifi as int,
                    ib as int,
                    ia as int,
                    idd as int,
                    gir,
                    targets,
                ),
            decreases n - i,
        {
            let ghost row_v = data[i as int];
            proof {
                assert(data[i as int] == csvtext::rows_view(t.rows)[i as int]);
                assert(csvtext::rows_view(t.rows)[i as int] == csvtext::row_view(
                    t.rows@[i as int],
                ));
                assert(t.rows@[i as int]@.len() == t.header@.len());
                assert(csvtext::row_view(t.rows@[i as int])[ii as int] == t.rows@[i as int]@[ii as int]@);
                assert(csvtext::row_view(t.rows@[i as int])[ifi as int] == t.rows@[i as int]@[ifi as int]@);
                assert(csvtext::row_view(t.rows@[i as int])[ib as int] == t.rows@[i as int]@[ib as int]@);
                assert(csvtext::row_view(t.rows@[i as int])[ia as int] == t.rows@[i as int]@[ia as int]@);
                assert(csvtext::row_view(t.rows@[i as int])[idd as int] == t.rows@[i as int]@[idd as int]@);
                if gir >= 0 {
                    assert(csvtext::row_view(t.rows@[i as int])[gir] == t.rows@[i as int]@[gir]@);
                }
                assert(data.take(i + 1).len() == i + 1);
                assert(data.take(i + 1).drop_last() =~= data.take(i as int));
                assert(data.take(i + 1).last() == row_v);
            }
            let row = &t.rows[i];
            let fid = &row[ifi];
            if crate::strmap::vec_contains_str(target_feed_item_ids, fid.as_str()) {
                let related: String = match ir {
                    Some(j) => row[j].clone(),
                    None => String::new(),
                };
                let rec = ChatterCommentRecord {
                    id: row[ii].clone(),
                    feed_item_id: row[ifi].clone(),
                    comment_body: row[ib].clone(),
                    created_by_id: row[ia].clone(),
                    created_date: row[idd].clone(),
                    related_record_id: related,
                };
                proof {
                    let x = row_v[ifi as int];
                    assert(fid@ == x);
                    let j = choose|j: int|
                        0 <= j < target_feed_item_ids@.len() && target_feed_item_ids@[j]@ == x;
                    assert(targets[j] == x);
                    assert(targets.contains(x));
                }
                m.push_value(fid.as_str(), rec);
                proof {
                    assert(m@.map_values(
                        |v: Vec<ChatterCommentRecord>|
                            v@.map(|j: int, rec2: ChatterCommentRecord| rec2.view()),
                    ) =~~= comment_buckets_rec(
                        data.take(i + 1),
                        ii as int,
                        ifi as int,
                        ib as int,
                        ia as int,
                        idd as int,
                        gir,
                        targets,
                    ));
                }
            } else {
                proof {
                    let x = row_v[ifi as int];
                    assert(fid@ == x);
                    if targets.contains(x) {
                        let j = choose|j: int| 0 <= j < targets.len() && targets[j] == x;
                        assert(target_feed_item_ids@[j]@ == x);
                    }
                    assert(!targets.contains(x));
                }
            }
            i += 1;
        }
        proof {
            assert(data.take(n as int) =~= data);
        }
        Ok(m)
    }

    /// Read the user export into an id-keyed lookup.
    pub fn load_users(user_text: &str) -> (r: Result<StrMap<UserRecord>, CsvError>)
        ensures
            match r {
                Ok(m) => {
                    &&& m.wf()
                    &&& csvtext::table_ok(user_text@)
                    &&& csvtext::col(csvtext::header_of(user_text@), "Id"@) is Some
                    &&& csvtext::col(csvtext::header_of(user_text@), "Name"@) is Some
                    &&& csvtext::col(csvtext::header_of(user_text@), "Username"@) is Some
                    &&& m@.map_values(|u: UserRecord| u.view()) == users_of(user_text@)
                },
                Err(CsvError::MissingColumn(c)) => {
                    &&& csvtext::table_ok(user_text@)
                    &&& (c@ == "Id"@ || c@ == "Name"@ || c@ == "Username"@)
                    &&& csvtext::col(csvtext::header_of(user_text@), c@) is None
                },
                Err(e) => csvtext::table_err(user_text@, e),
            },
    {
        let t = match csvtext::table(user_text) {
            Ok(t) => t,
            Err(e) => {
                return Err(e);
            },
        };
        let ii = match csvtext::column_index(&t.header, "Id") {
            Some(i) => i,
            None => {
                return Err(CsvError::MissingColumn(String::from_str("Id")));
            },
        };
        let iname = match csvtext::column_index(&t.header, "Name") {
            Some(i) => i,
            None => {
                return Err(CsvError::MissingColumn(String::from_str("Name")));
            },
        };
        let iuser = match csvtext::column_index(&t.header, "Username") {
            Some(i) => i,
            None => {
                return Err(CsvError::MissingColumn(String::from_str("Username")));
            },
        };
        let ghost hdr = csvtext::header_of(user_text@);
        let ghost data = csvtext::data_of(user_text@);
        proof {
            csvtext::lemma_col_bounds(hdr, "Id"@, 0);
            csvtext::lemma_col_bounds(hdr, "Name"@, 0);
            csvtext::lemma_col_bounds(hdr, "Username"@, 0);
        }
        let mut m: StrMap<UserRecord> = StrMap::new();
        let n = t.rows.len();
        let mut i: usize = 0;
        while i < n
            invariant
                0 <= i <= n,
                n == t.rows@.len(),
                t.wf(),
                m.wf(),
                ii < t.header@.len(),
                iname < t.header@.len(),
                iuser < t.header@.len(),
                csvtext::rows_view(t.rows) == data,
                csvtext::row_view(t.header) == hdr,
                m@.map_values(|u: UserRecord| u.view()) == user_map_rec(
                    data.take(i as int),
                    ii as int,
                    iname as int,
                    iuser as int,
                ),
            decreases n - i,
        {
            let ghost row_v = data[i as int];
            proof {
                assert(data[i as int] == csvtext::rows_view(t.rows)[i as int]);
                assert(csvtext::rows_view(t.rows)[i as int] == csvtext::row_view(
                    t.rows@[i as int],
                ));
                assert(t.rows@[i as int]@.len() == t.header@.len());
                assert(csvtext::row_view(t.rows@[i as int])[ii as int] == t.rows@[i as int]@[ii as int]@);
                assert(csvtext::row_view(t.rows@[i as int])[iname as int] == t.rows@[i as int]@[iname as int]@);
                assert(csvtext::row_view(t.rows@[i as int])[iuser as int] == t.rows@[i as int]@[iuser as int]@);
                assert(data.take(i + 1).len() == i + 1);
                assert(data.take(i + 1).drop_last() =~= data.take(i as int));
                assert(data.take(i + 1).last() == row_v);
            }
            let row = &t.rows[i];
            let rec = UserRecord {
                id: row[ii].clone(),
                name: row[iname].clone(),
                username: row[iuser].clone(),
            };
            m.insert(row[ii].clone(), rec);
            proof {
                assert(m@.map_values(|u: UserRecord| u.view()) =~~= user_map_rec(
                    data.take(i + 1),
                    ii as int,
                    iname as int,
                    iuser as int,
                ));
            }
            i += 1;
        }
        proof {
            assert(data.take(n as int) =~= data);
        }
        Ok(m)
    }

    /// Read the feed-attachment export, bucketing content references by feed
    /// entity and translating version-shaped references through the lookup.
    pub fn load_feed_attachments(
        feed_attachment_text: &str,
        target_feed_item_ids: &Vec<String>,
        content_version_to_document: &StrMap<String>,
    ) -> (r: Result<StrMap<Vec<String>>, CsvError>)
        requires
            content_version_to_document.wf(),
        ensures
            match r {
                Ok(m) => {
                    &&& m.wf()
                    &&& csvtext::table_ok(feed_attachment_text@)
                    &&& csvtext::col(
                        csvtext::header_of(feed_attachment_text@),
                        "FeedEntityId"@,
                    ) is Some
                    &&& csvtext::col(csvtext::header_of(feed_attachment_text@), "RecordId"@) is Some
                    &&& csvtext::col(csvtext::header_of(feed_attachment_text@), "Type"@) is Some
                    &&& m@.map_values(|v: Vec<String>| strings_view(v)) == feed_atts_of(
                        feed_attachment_text@,
                        strings_view(*target_feed_item_ids),
                        content_version_to_document@.map_values(|s: String| s@),
                    )
                },
                Err(CsvError::MissingColumn(c)) => {
                    &&& csvtext::table_ok(feed_attachment_text@)
                    &&& (c@ == "FeedEntityId"@ || c@ == "RecordId"@ || c@ == "Type"@)
                    &&& csvtext::col(csvtext::header_of(feed_attachment_text@), c@) is None
                },
                Err(e) => csvtext::table_err(feed_attachment_text@, e),
            },
    {
        let t = match csvtext::table(feed_attachment_text) {
            Ok(t) => t,
            Err(e) => {
                return Err(e);
            },
        };
        let ife = match csvtext::column_index(&t.header, "FeedEntityId") {
            Some(i) => i,
            None => {
                return Err(CsvError::MissingColumn(String::from_str("FeedEntityId")));
            },
        };
        let irid = match csvtext::column_index(&t.header, "RecordId") {
            Some(i) => i,
            None => {
                return Err(CsvError::MissingColumn(String::from_str("RecordId")));
            },
        };
        let ity = match csvtext::column_index(&t.header, "Type") {
            Some(i) => i,
            None => {
                return Err(CsvError::MissingColumn(String::from_str("Type")));
            },
        };
        let ghost hdr = csvtext::header_of(feed_attachment_text@);
        let ghost data = csvtext::data_of(feed_attachment_text@);
        let ghost targets = strings_view(*target_feed_item_ids);
        let ghost vmap = content_version_to_document@.map_values(|s: String| s@);
        proof {
            csvtext::lemma_col_bounds(hdr, "FeedEntityId"@, 0);
            csvtext::lemma_col_bounds(hdr, "RecordId"@, 0);
            csvtext::lemma_col_bounds(hdr, "Type"@, 0);
        }
        let mut m: StrMap<Vec<String>> = StrMap::new();
        let n = t.rows.len();
        let mut i: usize = 0;
        while i < n
            invariant
                0 <= i <= n,
                n == t.rows@.len(),
                t.wf(),
                m.wf(),
                content_version_to_document.wf(),
                ife < t.header@.len(),
                irid < t.header@.len(),
                ity < t.header@.len(),
                csvtext::rows_view(t.rows) == data,
                csvtext::row_view(t.header) == hdr,
                targets == strings_view(*target_feed_item_ids),
                vmap == content_version_to_document@.map_values(|s: String| s@),
                m@.map_values(|v: Vec<String>| strings_view(v)) == feed_att_buckets_rec(
                    data.take(i as int),
                    ife as int,
                    irid as int,
                    ity as int,
                    targets,
                    vmap,
                ),
            decreases n - i,
        {
            let ghost row_v = data[i as int];
            proof {
                assert(data[i as int] == csvtext::rows_view(t.rows)[i as int]);
                assert(csvtext::rows_view(t.rows)[i as int] == csvtext::row_view(
                    t.rows@[i as int],
                ));
                assert(t.rows@[i as int]@.len() == t.header@.len());
                assert(csvtext::row_view(t.rows@[i as int])[ife as int] == t.rows@[i as int]@[ife as int]@);
                assert(csvtext::row_view(t.rows@[i as int])[irid as int] == t.rows@[i as int]@[irid as int]@);
                assert(csvtext::row_view(t.rows@[i as int])[ity as int] == t.rows@[i as int]@[ity as int]@);
                assert(data.take(i + 1).len() == i + 1);
                assert(data.take(i + 1).drop_last() =~= data.take(i as int));
                assert(data.take(i + 1).last() == row_v);
            }
            let row = &t.rows[i];
            let ty = &row[ity];
            let fe = &row[ife];
            let type_kept = crate::strmap::str_eq(ty.as_str(), "Content") || crate::strmap::str_eq(
                ty.as_str(),
                "InlineImage",
            );
            if type_kept && crate::strmap::vec_contains_str(target_feed_item_ids, fe.as_str()) {
                proof {
                    let x = row_v[ife as int];
                    assert(fe@ == x);
                    let j = choose|j: int|
                        0 <= j < target_feed_item_ids@.len() && target_feed_item_ids@[j]@ == x;
                    assert(targets[j] == x);
                    assert(targets.contains(x));
                }
                let rid = &row[irid];
                let translated: String = if crate::strutil::starts_with_str(rid.as_str(), "068") {
                    match content_version_to_document.get(rid.as_str()) {
                        Some(d) => d.clone(),
                        None => rid.clone(),
                    }
                } else {
                    rid.clone()
                };
                proof {
                    assert(vmap.contains_key(rid@) == content_version_to_document@.contains_key(
                        rid@,
                    ));
                    assert(translated@ == translate_ref(row_v[irid as int], vmap));
                }
                m.push_value(fe.as_str(), translated);
                proof {
                    assert(m@.map_values(|v: Vec<String>| strings_view(v)) =~~= feed_att_buckets_rec(
                        data.take(i + 1),
                        ife as int,
                        irid as int,
                        ity as int,
                        targets,
                        vmap,
                    ));
                }
            } else {
                proof {
                    let x = row_v[ife as int];
                    assert(fe@ == x);
                    if !type_kept {
                        assert(!(row_v[ity as int] == "Content"@ || row_v[ity as int]
                            == "InlineImage"@));
                    } else {
                        if targets.contains(x) {
                            let j = choose|j: int| 0 <= j < targets.len() && targets[j] == x;
                            assert(target_feed_item_ids@[j]@ == x);
                        }
                        assert(!targets.contains(x));
                    }
                }
            }
            i += 1;
        }
        proof {
            assert(data.take(n as int) =~= data);
        }
        Ok(m)
    }

    /// Read the link export, bucketing content references attached to feed
    /// posts (which must be targeted) and feed comments.
    pub fn load_chatter_content_document_links(
        content_document_link_text: &str,
        target_feed_item_ids: &Vec<String>,
    ) -> (r: Result<StrMap<Vec<String>>, CsvError>)
        ensures
            match r {
                Ok(m) => {
                    &&& m.wf()
                    &&& csvtext::table_ok(content_document_link_text@)
                    &&& csvtext::col(
                        csvtext::header_of(content_document_link_text@),
                        "LinkedEntityId"@,
                    ) is Some
                    &&& csvtext::col(
                        csvtext::header_of(content_document_link_text@),
                        "ContentDocumentId"@,
                    ) is Some
                    &&& m@.map_values(|v: Vec<String>| strings_view(v)) == chatter_links_of(
                        content_document_link_text@,
                        strings_view(*target_feed_item_ids),
                    )
                },
                Err(CsvError::MissingColumn(c)) => {
                    &&& csvtext::table_ok(content_document_link_text@)
                    &&& (c@ == "LinkedEntityId"@ || c@ == "ContentDocumentId"@)
                    &&& csvtext::col(csvtext::header_of(content_document_link_text@), c@) is None
                },
                Err(e) => csvtext::table_err(content_document_link_text@, e),
            },
    {
        let t = match csvtext::table(content_document_link_text) {
            Ok(t) => t,
            Err(e) => {
                return Err(e);
            },
        };
        let il = match csvtext::column_index(&t.header, "LinkedEntityId") {
            Some(i) => i,
            None => {
                return Err(CsvError::MissingColumn(String::from_str("LinkedEntityId")));
            },
        };
        let ic = match csvtext::column_index(&t.header, "ContentDocumentId") {
            Some(i) => i,
            None => {
                return Err(CsvError::MissingColumn(String::from_str("ContentDocumentId")));
            },
        };
        let ghost hdr = csvtext::header_of(content_document_link_text@);
        let ghost data = csvtext::data_of(content_document_link_text@);
        let ghost targets = strings_view(*target_feed_item_ids);
        proof {
            csvtext::lemma_col_bounds(hdr, "LinkedEntityId"@, 0);
            csvtext::lemma_col_bounds(hdr, "ContentDocumentId"@, 0);
        }
        let mut m: StrMap<Vec<String>> = StrMap::new();
        let n = t.rows.len();
        let mut i: usize = 0;
        while i < n
            invariant
                0 <= i <= n,
                n == t.rows@.len(),
                t.wf(),
                m.wf(),
                il < t.header@.len(),
                ic < t.header@.len(),
                csvtext::rows_view(t.rows) == data,
                csvtext::row_view(t.header) == hdr,
                targets == strings_view(*target_feed_item_ids),
                m@.map_values(|v: Vec<String>| strings_view(v)) == chatter_link_buckets_rec(
                    data.take(i as int),
                    il as int,
                    ic as int,
                    targets,
                ),
            decreases n - i,
        {
            let ghost row_v = data[i as int];
            proof {
                assert(data[i as int] == csvtext::rows_view(t.rows)[i as int]);
                assert(csvtext::rows_view(t.rows)[i as int] == csvtext::row_view(
                    t.rows@[i as int],
                ));
                assert(t.rows@[i as int]@.len() == t.header@.len());
                assert(csvtext::row_view(t.rows@[i as int])[il as int] == t.rows@[i as int]@[il as int]@);
                assert(csvtext::row_view(t.rows@[i as int])[ic as int] == t.rows@[i as int]@[ic as int]@);
                assert(data.take(i + 1).len() == i + 1);
                assert(data.take(i + 1).drop_last() =~= data.take(i as int));
                assert(data.take(i + 1).last() == row_v);
            }
            let row = &t.rows[i];
            let le = &row[il];
            let mut kept = false;
            if le.as_str().unicode_len() >= 3 {
                let p = le.as_str().substring_char(0, 3);
                proof {
                    assert(row_v[il as int].subrange(0, 3) == p@);
                    reveal_strlit("0D5");
                    reveal_strlit("0D7");
                    assert("0D5"@[2] == '5' && "0D7"@[2] == '7');
                    assert("0D5"@ != "0D7"@);
                }
                if crate::strmap::str_eq(p, "0D5") {
                    if crate::strmap::vec_contains_str(target_feed_item_ids, le.as_str()) {
                        kept = true;
                        proof {
                            let x = row_v[il as int];
                            let j = choose|j: int|
                                0 <= j < target_feed_item_ids@.len() && target_feed_item_ids@[j]@
                                    == x;
                            assert(targets[j] == x);
                            assert(targets.contains(x));
                        }
                    } else {
                        proof {
                            let x = row_v[il as int];
                            if targets.contains(x) {
                                let j = choose|j: int|
                                    0 <= j < targets.len() && targets[j] == x;
                                assert(target_feed_item_ids@[j]@ == x);
                            }
                            assert(!targets.contains(x));
                        }
                    }
                } else if crate::strmap::str_eq(p, "0D7") {
                    kept = true;
                }
            }
            if kept {
                m.push_value(le.as_str(), row[ic].clone());
                proof {
                    assert(m@.map_values(|v: Vec<String>| strings_view(v))
                        =~~= chatter_link_buckets_rec(
                        data.take(i + 1),
                        il as int,
                        ic as int,
                        targets,
                    ));
                }
            }
            i += 1;
        }
        proof {
            assert(data.take(n as int) =~= data);
        }
        Ok(m)
    }

    /// Group resolved link pairs by parent id, deduplicating each parent's
    /// content references; parents keep their order of first appearance, and
    /// no parent's reference list repeats an id.
    pub fn group_records_by_salesforce_id(
        records: &Vec<(String, String)>,
        found_hubspot_records: &StrMap<String>,
    ) -> (r: Vec<ProcessableRecord>)
        ensures
            ({
                let pv = pairs_view(*records);
                let found = found_hubspot_records@.dom();
                &&& r@.len() == sf_order_rec(pv, found).len()
                &&& forall|i: int|
                    0 <= i < r@.len() ==> (#[trigger] r@[i]).salesforce_id@ == sf_order_rec(
                        pv,
                        found,
                    )[i]
                &&& forall|i: int|
                    0 <= i < r@.len() ==> strings_view((#[trigger] r@[i]).content_document_ids)
                        == dedup_rec(sf_buckets_rec(pv, found)[sf_order_rec(pv, found)[i]])
                &&& forall|i: int, p: int, q: int|
                    0 <= i < r@.len() && 0 <= p < q < r@[i].content_document_ids@.len()
                        ==> (#[trigger] r@[i].content_document_ids@[p])@
                        != (#[trigger] r@[i].content_document_ids@[q])@
            }),
    {
        let ghost pv = pairs_view(*records);
        let ghost found = found_hubspot_records@.dom();
        let mut buckets: StrMap<Vec<String>> = StrMap::new();
        let n = records.len();
        let mut i: usize = 0;
        while i < n
            invariant
                0 <= i <= n,
                n == records@.len(),
                buckets.wf(),
                pv == pairs_view(*records),
                found == found_hubspot_records@.dom(),
                buckets@.map_values(|v: Vec<String>| strings_view(v)) == sf_buckets_rec(
                    pv.take(i as int),
                    found,
                ),
                buckets.key_seq() == sf_order_rec(pv.take(i as int), found),
            decreases n - i,
        {
            let ghost pr = pv[i as int];
            proof {
                assert(pr == (records@[i as int].0@, records@[i as int].1@));
                assert(pv.take(i + 1).drop_last() =~= pv.take(i as int));
                assert(pv.take(i + 1).last() == pr);
            }
            let sf = &records[i].0;
            let cd = &records[i].1;
            if found_hubspot_records.contains_key(sf.as_str()) {
                proof {
                    buckets.lemma_dom_keys();
                    let ord = sf_order_rec(pv.take(i as int), found);
                    if buckets@.contains_key(sf@) {
                        let j = choose|j: int|
                            0 <= j < buckets.key_seq().len() && buckets.key_seq()[j] == sf@;
                        assert(ord[j] == sf@);
                        assert(ord.contains(sf@));
                    } else {
                        if ord.contains(sf@) {
                            let j = choose|j: int| 0 <= j < ord.len() && ord[j] == sf@;
                            assert(buckets.key_seq()[j] == sf@);
                        }
                        assert(!ord.contains(sf@));
                    }
                }
                buckets.push_value(sf.as_str(), cd.clone());
                proof {
                    assert(buckets@.map_values(|v: Vec<String>| strings_view(v))
                        =~~= sf_buckets_rec(pv.take(i + 1), found));
                    assert(buckets.key_seq() =~= sf_order_rec(pv.take(i + 1), found));
                }
            } else {
                proof {
                    assert(!found.contains(pr.0));
                }
            }
            i += 1;
        }
        proof {
            assert(pv.take(n as int) =~= pv);
        }
        let ghost buckets_spec = sf_buckets_rec(pv, found);
        let ghost order = sf_order_rec(pv, found);
        let m = buckets.len();
        let mut out: Vec<ProcessableRecord> = Vec::new();
        let mut j: usize = 0;
        while j < m
            invariant
                0 <= j <= m,
                m == buckets.entry_seq().len(),
                buckets.wf(),
                buckets@.map_values(|v: Vec<String>| strings_view(v)) == buckets_spec,
                buckets.key_seq() == order,
                out@.len() == j,
                forall|jj: int|
                    0 <= jj < j ==> (#[trigger] out@[jj]).salesforce_id@ == order[jj],
                forall|jj: int|
                    0 <= jj < j ==> strings_view((#[trigger] out@[jj]).content_document_ids)
                        == dedup_rec(buckets_spec[order[jj]]),
                forall|jj: int, p: int, q: int|
                    0 <= jj < j && 0 <= p < q < out@[jj].content_document_ids@.len()
                        ==> (#[trigger] out@[jj].content_document_ids@[p])@
                        != (#[trigger] out@[jj].content_document_ids@[q])@,
            decreases m - j,
        {
            let key = buckets.key_at(j).clone();
            let ids = buckets.value_at(j);
            let deduped = dedup_ids(ids);
            proof {
                assert(buckets@.contains_key(order[j as int]));
                assert(buckets@.map_values(|v: Vec<String>| strings_view(v))[order[j as int]]
                    == strings_view(*ids));
                lemma_dedup_rec_distinct(strings_view(*ids));
                assert(forall|p: int|
                    0 <= p < deduped@.len() ==> (#[trigger] deduped@[p])@ == strings_view(
                        deduped,
                    )[p]);
            }
            out.push(ProcessableRecord { salesforce_id: key, content_document_ids: deduped });
            j += 1;
        }
        out
    }
}

} // verus!

verus! {

impl CsvProcessor {
    /// Whether any routed link pair references content id `cd`.
    fn tr_contains_cd(tr: &StrMap<Vec<(String, String)>>, cd: &str) -> (r: bool)
        requires
            tr.wf(),
        ensures
            r == target_ids(tr@.map_values(|v: Vec<(String, String)>| pairs_view(v))).contains(
                cd@,
            ),
    {
        let ghost trd = tr@.map_values(|v: Vec<(String, String)>| pairs_view(v));
        let ghost tkeys = tr.key_seq();
        proof {
            tr.lemma_dom_keys();
        }
        let tn = tr.len();
        let mut j: usize = 0;
        while j < tn
            invariant
                0 <= j <= tn,
                tn == tr.entry_seq().len(),
                tr.wf(),
                trd == tr@.map_values(|v: Vec<(String, String)>| pairs_view(v)),
                tkeys == tr.key_seq(),
                forall|jj: int, i: int|
                    #![auto]
                    0 <= jj < j && 0 <= i < trd[tkeys[jj]].len() ==> trd[tkeys[jj]][i].1 != cd@,
                forall|k: Seq<char>|
                    tr@.contains_key(k) ==> exists|jj: int|
                        0 <= jj < tkeys.len() && tkeys[jj] == k,
            decreases tn - j,
        {
            let pairs = tr.value_at(j);
            let pn = pairs.len();
            let mut i: usize = 0;
            while i < pn
                invariant
                    0 <= i <= pn,
                    pn == pairs@.len(),
                    tr.wf(),
                    j < tr.entry_seq().len(),
                    trd == tr@.map_values(|v: Vec<(String, String)>| pairs_view(v)),
                    tkeys == tr.key_seq(),
                    tr@.contains_key(tkeys[j as int]),
                    *pairs == tr@[tkeys[j as int]],
                    forall|ii: int| 0 <= ii < i ==> trd[tkeys[j as int]][ii].1 != cd@,
                decreases pn - i,
            {
                if crate::strmap::str_eq(pairs[i].1.as_str(), cd) {
                    proof {
                        assert(trd.contains_key(tkeys[j as int]));
                        assert(trd[tkeys[j as int]][i as int].1 == cd@);
                        assert(target_ids(trd).contains(cd@));
                    }
                    return true;
                }
                proof {
                    assert(trd[tkeys[j as int]][i as int] == (pairs@[i as int].0@, pairs@[i as int].1@));
                }
                i += 1;
            }
            j += 1;
        }
        proof {
            if target_ids(trd).contains(cd@) {
                let (k, i): (Seq<char>, int) = choose|k: Seq<char>, i: int|
                    #![auto]
                    trd.contains_key(k) && 0 <= i < trd[k].len() && trd[k][i].1 == cd@;
                assert(tr@.contains_key(k));
                let jj = choose|jj: int| 0 <= jj < tkeys.len() && tkeys[jj] == k;
                assert(trd[tkeys[jj]][i].1 == cd@);
            }
        }
        false
    }

    /// Read the content-item export for the targeted content ids, resolving
    /// each payload from the inline field or the payload folder, and drop
    /// link pairs (and then empty buckets) whose content item has no
    /// resolvable payload.
    pub fn get_file_info_and_filter_records(
        content_version_text: &str,
        target_records: &StrMap<Vec<(String, String)>>,
        content_version_folder: Option<&StrMap<Vec<u8>>>,
    ) -> (r: Result<(StrMap<FileInfo>, StrMap<Vec<(String, String)>>), CsvError>)
        requires
            target_records.wf(),
            match content_version_folder {
                Some(f) => f.wf() && forall|k: Seq<char>|
                    f@.contains_key(k) ==> (#[trigger] f@[k])@.len() < 0x1000_0000_0000_0000,
                None => true,
            },
        ensures
            match r {
                Ok((fi, ftr)) => {
                    let trd = target_records@.map_values(
                        |v: Vec<(String, String)>| pairs_view(v),
                    );
                    let folder = folder_view(content_version_folder);
                    let s = content_version_text@;
                    &&& csvtext::table_ok(s)
                    &&& csvtext::col(csvtext::header_of(s), "Id"@) is Some
                    &&& csvtext::col(csvtext::header_of(s), "ContentDocumentId"@) is Some
                    &&& csvtext::col(csvtext::header_of(s), "PathOnClient"@) is Some
                    &&& fi.wf()
                    &&& fi@.map_values(|f: FileInfo| f.view()) == file_info_of(
                        s,
                        target_ids(trd),
                        folder,
                    )
                    &&& ftr.wf()
                    &&& ftr@.map_values(|v: Vec<(String, String)>| pairs_view(v))
                        == filtered_buckets(
                        trd,
                        payload_ids(fi@.map_values(|f: FileInfo| f.view())),
                    )
                },
                Err(CsvError::MissingColumn(c)) => {
                    &&& csvtext::table_ok(content_version_text@)
                    &&& (c@ == "Id"@ || c@ == "ContentDocumentId"@ || c@ == "PathOnClient"@)
                    &&& csvtext::col(csvtext::header_of(content_version_text@), c@) is None
                },
                Err(e) => csvtext::table_err(content_version_text@, e),
            },
    {
        let t = match csvtext::table(content_version_text) {
            Ok(t) => t,
            Err(e) => {
                return Err(e);
            },
        };
        let iid = match csvtext::column_index(&t.header, "Id") {
            Some(i) => i,
            None => {
                return Err(CsvError::MissingColumn(String::from_str("Id")));
            },
        };
        let icd = match csvtext::column_index(&t.header, "ContentDocumentId") {
            Some(i) => i,
            None => {
                return Err(CsvError::MissingColumn(String::from_str("ContentDocumentId")));
            },
        };
        let ipath = match csvtext::column_index(&t.header, "PathOnClient") {
            Some(i) => i,
            None => {
                return Err(CsvError::MissingColumn(String::from_str("PathOnClient")));
            },
        };
        let ivd = csvtext::column_index(&t.header, "VersionData");
        let _hn = t.header.len();
        let ghost hdr = csvtext::header_of(content_version_text@);
        let ghost data = csvtext::data_of(content_version_text@);
        let ghost trd = target_records@.map_values(|v: Vec<(String, String)>| pairs_view(v));
        let ghost targets = target_ids(trd);
        let ghost folder = folder_view(content_version_folder);
        let ghost givd: int = match csvtext::col(hdr, "VersionData"@) {
            Some(i) => i,
            None => -1,
        };
        proof {
            csvtext::lemma_col_bounds(hdr, "Id"@, 0);
            csvtext::lemma_col_bounds(hdr, "ContentDocumentId"@, 0);
            csvtext::lemma_col_bounds(hdr, "PathOnClient"@, 0);
            csvtext::lemma_col_bounds(hdr, "VersionData"@, 0);
            assert(hdr.len() == t.header@.len());
            assert(csvtext::row_view(t.header) == hdr);
            match ivd {
                Some(jv) => {
                    assert(csvtext::col(hdr, "VersionData"@) == Some(jv as int));
                    assert(givd == jv as int);
                    assert(0 <= givd < t.header@.len());
                },
                None => {
                    assert(csvtext::col(hdr, "VersionData"@) is None);
                    assert(givd == -1);
                },
            }
        }
        let mut fi: StrMap<FileInfo> = StrMap::new();
        let n = t.rows.len();
        let mut i: usize = 0;
        while i < n
            invariant
                0 <= i <= n,
                n == t.rows@.len(),
                t.wf(),
                fi.wf(),
                target_records.wf(),
                iid < t.header@.len(),
                icd < t.header@.len(),
                ipath < t.header@.len(),
                match ivd {
                    Some(j) => givd == j && 0 <= givd < t.header@.len(),
                    None => givd == -1,
                },
                csvtext::rows_view(t.rows) == data,
                csvtext::row_view(t.header) == hdr,
                trd == target_records@.map_values(|v: Vec<(String, String)>| pairs_view(v)),
                targets == target_ids(trd),
                folder == folder_view(content_version_folder),
                match content_version_folder {
                    Some(f) => f.wf() && forall|k: Seq<char>|
                        f@.contains_key(k) ==> (#[trigger] f@[k])@.len()
                            < 0x1000_0000_0000_0000,
                    None => true,
                },
                fi@.map_values(|f: FileInfo| f.view()) == file_info_rec(
                    data.take(i as int),
                    iid as int,
                    icd as int,
                    ipath as int,
                    givd,
                    targets,
                    folder,
                ),
            decreases n - i,
        {
            let ghost row_v = data[i as int];
            proof {
                assert(data[i as int] == csvtext::rows_view(t.rows)[i as int]);
                assert(csvtext::rows_view(t.rows)[i as int] == csvtext::row_view(
                    t.rows@[i as int],
                ));
                assert(t.rows@[i as int]@.len() == t.header@.len());
                assert(csvtext::row_view(t.rows@[i as int])[iid as int] == t.rows@[i as int]@[iid as int]@);
                assert(csvtext::row_view(t.rows@[i as int])[icd as int] == t.rows@[i as int]@[icd as int]@);
                assert(csvtext::row_view(t.rows@[i as int])[ipath as int] == t.rows@[i as int]@[ipath as int]@);
                if givd >= 0 {
                    assert(csvtext::row_view(t.rows@[i as int])[givd] == t.rows@[i as int]@[givd]@);
                }
                assert(data.take(i + 1).len() == i + 1);
                assert(data.take(i + 1).drop_last() =~= data.take(i as int));
                assert(data.take(i + 1).last() == row_v);
            }
            let row = &t.rows[i];
            let cd = &row[icd];
            if Self::tr_contains_cd(target_records, cd.as_str()) {
                let inline_present = match ivd {
                    Some(jv) => !row[jv].as_str().is_empty(),
                    None => false,
                };
                let version_data: Option<String> = if inline_present {
                    match ivd {
                        Some(jv) => Some(row[jv].clone()),
                        None => None,
                    }
                } else {
                    match content_version_folder {
                        Some(f) => match f.get(row[iid].as_str()) {
                            Some(bytes) => Some(crate::b64::b64_encode(bytes)),
                            None => None,
                        },
                        None => None,
                    }
                };
                proof {
                    if content_version_folder is Some {
                        let f = content_version_folder->0;
                        assert(folder.contains_key(row_v[iid as int]) == f@.contains_key(
                            row_v[iid as int],
                        ));
                        if f@.contains_key(row_v[iid as int]) {
                            assert(folder[row_v[iid as int]] == f@[row_v[iid as int]]@);
                        }
                    }
                    assert(opt_view(version_data) == vd_of(row_v, iid as int, givd, folder));
                }
                let name = crate::strutil::tail_after_last(row[ipath].as_str(), '/');
                let entry = FileInfo {
                    version_id: row[iid].clone(),
                    path_on_client: name,
                    version_data,
                };
                proof {
                    assert(entry.view() == file_entry_of(
                        row_v,
                        iid as int,
                        ipath as int,
                        givd,
                        folder,
                    ));
                }
                fi.insert(cd.clone(), entry);
                proof {
                    assert(fi@.map_values(|f: FileInfo| f.view()) =~~= file_info_rec(
                        data.take(i + 1),
                        iid as int,
                        icd as int,
                        ipath as int,
                        givd,
                        targets,
                        folder,
                    ));
                }
            } else {
                proof {
                    assert(!targets.contains(row_v[icd as int]));
                }
            }
            i += 1;
        }
        proof {
            assert(data.take(n as int) =~= data);
        }
        let ghost fid = fi@.map_values(|f: FileInfo| f.view());
        let ghost found = payload_ids(fid);
        let ghost tkeys = target_records.key_seq();
        proof {
            target_records.lemma_dom_keys();
        }
        let mut ftr: StrMap<Vec<(String, String)>> = StrMap::new();
        let tn = target_records.len();
        let mut j: usize = 0;
        while j < tn
            invariant
                0 <= j <= tn,
                tn == target_records.entry_seq().len(),
                target_records.wf(),
                fi.wf(),
                ftr.wf(),
                fid == fi@.map_values(|f: FileInfo| f.view()),
                found == payload_ids(fid),
                trd == target_records@.map_values(|v: Vec<(String, String)>| pairs_view(v)),
                tkeys == target_records.key_seq(),
                forall|k: Seq<char>|
                    target_records@.contains_key(k) ==> exists|jj: int|
                        0 <= jj < tkeys.len() && tkeys[jj] == k,
                forall|k: Seq<char>|
                    #[trigger] ftr@.contains_key(k) ==> trd.contains_key(k) && kept_pairs_rec(
                        trd[k],
                        found,
                    ).len() > 0 && pairs_view(ftr@[k]) == kept_pairs_rec(trd[k], found),
                forall|jj: int|
                    0 <= jj < j && kept_pairs_rec(trd[tkeys[jj]], found).len() > 0
                        ==> ftr@.contains_key(#[trigger] tkeys[jj]),
            decreases tn - j,
        {
            let key = target_records.key_at(j).clone();
            let pairs = target_records.value_at(j);
            let ghost bucket = trd[tkeys[j as int]];
            proof {
                assert(target_records@.contains_key(tkeys[j as int]));
                assert(bucket == pairs_view(*pairs));
            }
            let pn = pairs.len();
            let mut kept: Vec<(String, String)> = Vec::new();
            let mut ii: usize = 0;
            while ii < pn
                invariant
                    0 <= ii <= pn,
                    pn == pairs@.len(),
                    fi.wf(),
                    fid == fi@.map_values(|f: FileInfo| f.view()),
                    found == payload_ids(fid),
                    bucket == pairs_view(*pairs),
                    pairs_view(kept) == kept_pairs_rec(bucket.take(ii as int), found),
                decreases pn - ii,
            {
                let ghost pr = bucket[ii as int];
                proof {
                    assert(pr == (pairs@[ii as int].0@, pairs@[ii as int].1@));
                    assert(bucket.take(ii + 1).drop_last() =~= bucket.take(ii as int));
                    assert(bucket.take(ii + 1).last() == pr);
                }
                let has_payload = match fi.get(pairs[ii].1.as_str()) {
                    Some(f) => f.version_data.is_some(),
                    None => false,
                };
                if has_payload {
                    kept.push((pairs[ii].0.clone(), pairs[ii].1.clone()));
                    proof {
                        assert(fid.contains_key(pr.1) && fid[pr.1].2 is Some);
                        assert(found.contains(pr.1));
                        assert(pairs_view(kept) =~= kept_pairs_rec(bucket.take(ii as int), found).push(
                            pr,
                        ));
                    }
                } else {
                    proof {
                        assert(!(fid.contains_key(pr.1) && fid[pr.1].2 is Some));
                        assert(!found.contains(pr.1));
                    }
                }
                ii += 1;
            }
            proof {
                assert(bucket.take(pn as int) =~= bucket);
            }
            if kept.len() > 0 {
                ftr.insert(key, kept);
            }
            proof {
                assert(forall|jj: int|
                    0 <= jj < j && kept_pairs_rec(trd[tkeys[jj]], found).len() > 0
                        ==> ftr@.contains_key(#[trigger] tkeys[jj]));
            }
            j += 1;
        }
        proof {
            assert forall|k: Seq<char>| #[trigger] filtered_buckets(trd, found).contains_key(k)
                implies ftr@.contains_key(k) by {
                assert(trd.contains_key(k));
                assert(target_records@.contains_key(k));
                let jj = choose|jj: int| 0 <= jj < tkeys.len() && tkeys[jj] == k;
                assert(kept_pairs_rec(trd[tkeys[jj]], found).len() > 0);
            }
            assert(ftr@.map_values(|v: Vec<(String, String)>| pairs_view(v)) =~~= filtered_buckets(
                trd,
                found,
            ));
        }
        Ok((fi, ftr))
    }
}

} // verus!

verus! {

/// The routed posts of all prefixes, flattened in bucket order over the
/// first `j` buckets.
pub open spec fn flat_items(m: StrMap<Vec<ChatterFeedItemRecord>>, j: int) -> Seq<
    ChatterFeedItemRecord,
>
    decreases j,
{
    if j <= 0 {
        Seq::empty()
    } else {
        flat_items(m, j - 1) + (if m@.contains_key(m.key_seq()[j - 1]) {
            m@[m.key_seq()[j - 1]]@
        } else {
            Seq::empty()
        })
    }
}

/// Resolved posts bucketed by their full parent id, in encounter order.
pub open spec fn item_buckets_rec(
    s: Seq<ChatterFeedItemRecord>,
    found: Set<Seq<char>>,
) -> Map<Seq<char>, Seq<ChatterFeedItemRecord>>
    decreases s.len(),
{
    if s.len() == 0 {
        Map::empty()
    } else {
        let prev = item_buckets_rec(s.drop_last(), found);
        let it = s.last();
        if found.contains(it.parent_id@) {
            let b = if prev.contains_key(it.parent_id@) {
                prev[it.parent_id@]
            } else {
                Seq::empty()
            };
            prev.insert(it.parent_id@, b.push(it))
        } else {
            prev
        }
    }
}

/// The resolved parents in order of first appearance.
pub open spec fn parent_order_rec(
    s: Seq<ChatterFeedItemRecord>,
    found: Set<Seq<char>>,
) -> Seq<Seq<char>>
    decreases s.len(),
{
    if s.len() == 0 {
        Seq::empty()
    } else {
        let prev = parent_order_rec(s.drop_last(), found);
        let it = s.last();
        if found.contains(it.parent_id@) && !prev.contains(it.parent_id@) {
            prev.push(it.parent_id@)
        } else {
            prev
        }
    }
}

/// The content reference a comment carries, if its related record is
/// version-shaped (translated through the lookup, verbatim on a miss) or
/// already content-shaped; anything else is dropped.
pub open spec fn comment_att_ref(rel: Seq<char>, vmap: Map<Seq<char>, Seq<char>>) -> Option<
    Seq<char>,
> {
    if rel.len() == 0 {
        None
    } else if crate::strutil::spec_starts_with(rel, "068"@) {
        if vmap.contains_key(rel) {
            Some(vmap[rel])
        } else {
            Some(rel)
        }
    } else if crate::strutil::spec_starts_with(rel, "069"@) {
        Some(rel)
    } else {
        None
    }
}

/// Comment attachments bucketed by comment id, in comment order.
pub open spec fn comment_atts_rec(
    cs: Seq<ChatterCommentRecord>,
    vmap: Map<Seq<char>, Seq<char>>,
) -> Map<Seq<char>, Seq<Seq<char>>>
    decreases cs.len(),
{
    if cs.len() == 0 {
        Map::empty()
    } else {
        let prev = comment_atts_rec(cs.drop_last(), vmap);
        let c = cs.last();
        match comment_att_ref(c.related_record_id@, vmap) {
            Some(cd) => {
                let b = if prev.contains_key(c.id@) {
                    prev[c.id@]
                } else {
                    Seq::empty()
                };
                prev.insert(c.id@, b.push(cd))
            },
            None => prev,
        }
    }
}

/// A post's attachment references: link-export and feed-attachment
/// references united, deduplicated, and sorted.
pub open spec fn unit_atts(
    id: Seq<char>,
    lm: Map<Seq<char>, Seq<Seq<char>>>,
    fm: Map<Seq<char>, Seq<Seq<char>>>,
) -> Seq<Seq<char>> {
    let l = if lm.contains_key(id) {
        lm[id]
    } else {
        Seq::empty()
    };
    let f = if fm.contains_key(id) {
        fm[id]
    } else {
        Seq::empty()
    };
    crate::sorting::sort_strings_spec(dedup_rec(l + f))
}

/// What a migration unit must hold for post `it`: the post itself, its
/// comments in chronological order, its deduplicated sorted attachment
/// references, and its per-comment attachments.
pub open spec fn unit_matches(
    u: FeedItemWithComments,
    it: ChatterFeedItemRecord,
    cm: Map<Seq<char>, Seq<ChatterCommentRecord>>,
    lm: Map<Seq<char>, Seq<Seq<char>>>,
    fm: Map<Seq<char>, Seq<Seq<char>>>,
    vmap: Map<Seq<char>, Seq<char>>,
) -> bool {
    let sorted_cs = crate::sorting::sort_comments_spec(
        if cm.contains_key(it.id@) {
            cm[it.id@]
        } else {
            Seq::empty()
        },
    );
    &&& u.feed_item == it
    &&& u.comments@ == sorted_cs
    &&& strings_view(u.feed_item_attachment_ids) == unit_atts(it.id@, lm, fm)
    &&& u.comment_attachments.wf()
    &&& u.comment_attachments@.map_values(|v: Vec<String>| strings_view(v)) == comment_atts_rec(
        sorted_cs,
        vmap,
    )
}

impl CsvProcessor {
    /// Assemble one migration unit per resolved feed post.
    fn build_unit(
        it: ChatterFeedItemRecord,
        comments_by_feed_item: &StrMap<Vec<ChatterCommentRecord>>,
        content_document_links: &StrMap<Vec<String>>,
        feed_attachments: &StrMap<Vec<String>>,
        content_version_to_document: &StrMap<String>,
    ) -> (u: FeedItemWithComments)
        requires
            comments_by_feed_item.wf(),
            content_document_links.wf(),
            feed_attachments.wf(),
            content_version_to_document.wf(),
        ensures
            unit_matches(
                u,
                it,
                comments_by_feed_item@.map_values(|v: Vec<ChatterCommentRecord>| v@),
                content_document_links@.map_values(|v: Vec<String>| strings_view(v)),
                feed_attachments@.map_values(|v: Vec<String>| strings_view(v)),
                content_version_to_document@.map_values(|s: String| s@),
            ),
    {
        let ghost cm = comments_by_feed_item@.map_values(|v: Vec<ChatterCommentRecord>| v@);
        let ghost lm = content_document_links@.map_values(|v: Vec<String>| strings_view(v));
        let ghost fm = feed_attachments@.map_values(|v: Vec<String>| strings_view(v));
        let ghost vmap = content_version_to_document@.map_values(|s: String| s@);
        let raw_comments: Vec<ChatterCommentRecord> = match comments_by_feed_item.get(
            it.id.as_str(),
        ) {
            Some(v) => crate::records::duplicate_comments(v),
            None => Vec::new(),
        };
        proof {
            if cm.contains_key(it.id@) {
                assert(raw_comments@ == cm[it.id@]);
            } else {
                assert(raw_comments@ =~= Seq::<ChatterCommentRecord>::empty());
            }
        }
        let comments = crate::sorting::sort_comments(raw_comments);
        let ghost sorted_cs = comments@;

        let mut combined: Vec<String> = match content_document_links.get(it.id.as_str()) {
            Some(v) => crate::records::duplicate_strings(v),
            None => Vec::new(),
        };
        let ghost l = strings_view(combined);
        proof {
            if lm.contains_key(it.id@) {
                assert(l == lm[it.id@]);
            } else {
                assert(l =~= Seq::<Seq<char>>::empty());
            }
        }
        let mut more: Vec<String> = match feed_attachments.get(it.id.as_str()) {
            Some(v) => crate::records::duplicate_strings(v),
            None => Vec::new(),
        };
        let ghost f = strings_view(more);
        proof {
            if fm.contains_key(it.id@) {
                assert(f == fm[it.id@]);
            } else {
                assert(f =~= Seq::<Seq<char>>::empty());
            }
        }
        combined.append(&mut more);
        proof {
            assert(strings_view(combined) =~= l + f);
        }
        let deduped = dedup_ids(&combined);
        let atts = crate::sorting::sort_strings(deduped);
        proof {
            assert(strings_view(atts) == unit_atts(it.id@, lm, fm));
        }

        let mut ca: StrMap<Vec<String>> = StrMap::new();
        let cn = comments.len();
        let mut k: usize = 0;
        while k < cn
            invariant
                0 <= k <= cn,
                cn == comments@.len(),
                ca.wf(),
                content_version_to_document.wf(),
                sorted_cs == comments@,
                vmap == content_version_to_document@.map_values(|s: String| s@),
                ca@.map_values(|v: Vec<String>| strings_view(v)) == comment_atts_rec(
                    sorted_cs.take(k as int),
                    vmap,
                ),
            decreases cn - k,
        {
            let ghost c = sorted_cs[k as int];
            proof {
                assert(sorted_cs.take(k + 1).drop_last() =~= sorted_cs.take(k as int));
                assert(sorted_cs.take(k + 1).last() == c);
                reveal_strlit("068");
                reveal_strlit("069");
                assert("068"@[2] == '8' && "069"@[2] == '9');
                assert("068"@ != "069"@);
            }
            let rel = &comments[k].related_record_id;
            if !rel.as_str().is_empty() {
                let translated: Option<String> = if crate::strutil::starts_with_str(
                    rel.as_str(),
                    "068",
                ) {
                    match content_version_to_document.get(rel.as_str()) {
                        Some(d) => Some(d.clone()),
                        None => Some(rel.clone()),
                    }
                } else if crate::strutil::starts_with_str(rel.as_str(), "069") {
                    Some(rel.clone())
                } else {
                    None
                };
                proof {
                    assert(vmap.contains_key(rel@) == content_version_to_document@.contains_key(
                        rel@,
                    ));
                    match &translated {
                        Some(cd) => {
                            assert(comment_att_ref(c.related_record_id@, vmap) == Some(cd@));
                        },
                        None => {
                            assert(comment_att_ref(c.related_record_id@, vmap) is None);
                        },
                    }
                }
                match translated {
                    Some(cd) => {
                        ca.push_value(comments[k].id.as_str(), cd);
                        proof {
                            assert(ca@.map_values(|v: Vec<String>| strings_view(v))
                                =~~= comment_atts_rec(sorted_cs.take(k + 1), vmap));
                        }
                    },
                    None => {},
                }
            } else {
                proof {
                    assert(comment_att_ref(c.related_record_id@, vmap) is None);
                }
            }
            k += 1;
        }
        proof {
            assert(sorted_cs.take(cn as int) =~= sorted_cs);
        }
        FeedItemWithComments {
            feed_item: it,
            comments,
            feed_item_attachment_ids: atts,
            comment_attachments: ca,
        }
    }

    /// Read the content-item export for an explicit list of content ids,
    /// resolving payloads as `get_file_info_and_filter_records` does.
    pub fn load_file_info_for_ids(
        content_version_text: &str,
        content_ids: &Vec<String>,
        content_version_folder: Option<&StrMap<Vec<u8>>>,
    ) -> (r: Result<StrMap<FileInfo>, CsvError>)
        requires
            match content_version_folder {
                Some(f) => f.wf() && forall|k: Seq<char>|
                    f@.contains_key(k) ==> (#[trigger] f@[k])@.len() < 0x1000_0000_0000_0000,
                None => true,
            },
        ensures
            match r {
                Ok(fi) => {
                    let s = content_version_text@;
                    &&& csvtext::table_ok(s)
                    &&& csvtext::col(csvtext::header_of(s), "Id"@) is Some
                    &&& csvtext::col(csvtext::header_of(s), "ContentDocumentId"@) is Some
                    &&& csvtext::col(csvtext::header_of(s), "PathOnClient"@) is Some
                    &&& fi.wf()
                    &&& fi@.map_values(|f: FileInfo| f.view()) == file_info_of(
                        s,
                        Set::new(|cd: Seq<char>| strings_view(*content_ids).contains(cd)),
                        folder_view(content_version_folder),
                    )
                },
                Err(CsvError::MissingColumn(c)) => {
                    &&& csvtext::table_ok(content_version_text@)
                    &&& (c@ == "Id"@ || c@ == "ContentDocumentId"@ || c@ == "PathOnClient"@)
                    &&& csvtext::col(csvtext::header_of(content_version_text@), c@) is None
                },
                Err(e) => csvtext::table_err(content_version_text@, e),
            },
    {
        let t = match csvtext::table(content_version_text) {
            Ok(t) => t,
            Err(e) => {
                return Err(e);
            },
        };
        let iid = match csvtext::column_index(&t.header, "Id") {
            Some(i) => i,
            None => {
                return Err(CsvError::MissingColumn(String::from_str("Id")));
            },
        };
        let icd = match csvtext::column_index(&t.header, "ContentDocumentId") {
            Some(i) => i,
            None => {
                return Err(CsvError::MissingColumn(String::from_str("ContentDocumentId")));
            },
        };
        let ipath = match csvtext::column_index(&t.header, "PathOnClient") {
            Some(i) => i,
            None => {
                return Err(CsvError::MissingColumn(String::from_str("PathOnClient")));
            },
        };
        let ivd = csvtext::column_index(&t.header, "VersionData");
        let _hn = t.header.len();
        let ghost hdr = csvtext::header_of(content_version_text@);
        let ghost data = csvtext::data_of(content_version_text@);
        let ghost targets = Set::new(|cd: Seq<char>| strings_view(*content_ids).contains(cd));
        let ghost folder = folder_view(content_version_folder);
        let ghost givd: int = match csvtext::col(hdr, "VersionData"@) {
            Some(i) => i,
            None => -1,
        };
        proof {
            csvtext::lemma_col_bounds(hdr, "Id"@, 0);
            csvtext::lemma_col_bounds(hdr, "ContentDocumentId"@, 0);
            csvtext::lemma_col_bounds(hdr, "PathOnClient"@, 0);
            csvtext::lemma_col_bounds(hdr, "VersionData"@, 0);
            assert(hdr.len() == t.header@.len());
            assert(csvtext::row_view(t.header) == hdr);
        }
        let mut fi: StrMap<FileInfo> = StrMap::new();
        let n = t.rows.len();
        let mut i: usize = 0;
        while i < n
            invariant
                0 <= i <= n,
                n == t.rows@.len(),
                t.wf(),
                fi.wf(),
                iid < t.header@.len(),
                icd < t.header@.len(),
                ipath < t.header@.len(),
                match ivd {
                    Some(j) => givd == j && 0 <= givd < t.header@.len(),
                    None => givd == -1,
                },
                csvtext::rows_view(t.rows) == data,
                csvtext::row_view(t.header) == hdr,
                targets == Set::new(|cd: Seq<char>| strings_view(*content_ids).contains(cd)),
                folder == folder_view(content_version_folder),
                match content_version_folder {
                    Some(f) => f.wf() && forall|k: Seq<char>|
                        f@.contains_key(k) ==> (#[trigger] f@[k])@.len()
                            < 0x1000_0000_0000_0000,
                    None => true,
                },
                fi@.map_values(|f: FileInfo| f.view()) == file_info_rec(
                    data.take(i as int),
                    iid as int,
                    icd as int,
                    ipath as int,
                    givd,
                    targets,
                    folder,
                ),
            decreases n - i,
        {
            let ghost row_v = data[i as int];
            proof {
                assert(data[i as int] == csvtext::rows_view(t.rows)[i as int]);
                assert(csvtext::rows_view(t.rows)[i as int] == csvtext::row_view(
                    t.rows@[i as int],
                ));
                assert(t.rows@[i as int]@.len() == t.header@.len());
                assert(csvtext::row_view(t.rows@[i as int])[iid as int] == t.rows@[i as int]@[iid as int]@);
                assert(csvtext::row_view(t.rows@[i as int])[icd as int] == t.rows@[i as int]@[icd as int]@);
                assert(csvtext::row_view(t.rows@[i as int])[ipath as int] == t.rows@[i as int]@[ipath as int]@);
                if givd >= 0 {
                    assert(csvtext::row_view(t.rows@[i as int])[givd] == t.rows@[i as int]@[givd]@);
                }
                assert(data.take(i + 1).len() == i + 1);
                assert(data.take(i + 1).drop_last() =~= data.take(i as int));
                assert(data.take(i + 1).last() == row_v);
            }
            let row = &t.rows[i];
            let cd = &row[icd];
            let wanted = crate::strmap::vec_contains_str(content_ids, cd.as_str());
            proof {
                if wanted {
                    let j = choose|j: int|
                        0 <= j < content_ids@.len() && content_ids@[j]@ == cd@;
                    assert(strings_view(*content_ids)[j] == cd@);
                    assert(targets.contains(row_v[icd as int]));
                } else {
                    if strings_view(*content_ids).contains(cd@) {
                        let j = choose|j: int|
                            0 <= j < strings_view(*content_ids).len() && strings_view(
                                *content_ids,
                            )[j] == cd@;
                        assert(content_ids@[j]@ == cd@);
                    }
                    assert(!targets.contains(row_v[icd as int]));
                }
            }
            if wanted {
                let inline_present = match ivd {
                    Some(jv) => !row[jv].as_str().is_empty(),
                    None => false,
                };
                let version_data: Option<String> = if inline_present {
                    match ivd {
                        Some(jv) => Some(row[jv].clone()),
                        None => None,
                    }
                } else {
                    match content_version_folder {
                        Some(f) => match f.get(row[iid].as_str()) {
                            Some(bytes) => Some(crate::b64::b64_encode(bytes)),
                            None => None,
                        },
                        None => None,
                    }
                };
                proof {
                    if content_version_folder is Some {
                        let f = content_version_folder->0;
                        assert(folder.contains_key(row_v[iid as int]) == f@.contains_key(
                            row_v[iid as int],
                        ));
                        if f@.contains_key(row_v[iid as int]) {
                            assert(folder[row_v[iid as int]] == f@[row_v[iid as int]]@);
                        }
                    }
                    assert(opt_view(version_data) == vd_of(row_v, iid as int, givd, folder));
                }
                let name = crate::strutil::tail_after_last(row[ipath].as_str(), '/');
                let entry = FileInfo {
                    version_id: row[iid].clone(),
                    path_on_client: name,
                    version_data,
                };
                proof {
                    assert(entry.view() == file_entry_of(
                        row_v,
                        iid as int,
                        ipath as int,
                        givd,
                        folder,
                    ));
                }
                fi.insert(cd.clone(), entry);
                proof {
                    assert(fi@.map_values(|f: FileInfo| f.view()) =~~= file_info_rec(
                        data.take(i + 1),
                        iid as int,
                        icd as int,
                        ipath as int,
                        givd,
                        targets,
                        folder,
                    ));
                }
            }
            i += 1;
        }
        proof {
            assert(data.take(n as int) =~= data);
        }
        Ok(fi)
    }

    /// Join resolved posts with their comments and attachment references
    /// into one record per parent entity, posts in chronological order.
    pub fn group_chatter_records(
        feed_items_by_prefix: &StrMap<Vec<ChatterFeedItemRecord>>,
        comments_by_feed_item: &StrMap<Vec<ChatterCommentRecord>>,
        found_hubspot_records: &StrMap<String>,
        content_document_links: &StrMap<Vec<String>>,
        feed_attachments: &StrMap<Vec<String>>,
        content_version_to_document: &StrMap<String>,
    ) -> (r: Vec<ProcessableChatterRecord>)
        requires
            feed_items_by_prefix.wf(),
            comments_by_feed_item.wf(),
            content_document_links.wf(),
            feed_attachments.wf(),
            content_version_to_document.wf(),
        ensures
            ({
                let flat = flat_items(
                    *feed_items_by_prefix,
                    feed_items_by_prefix.key_seq().len() as int,
                );
                let found = found_hubspot_records@.dom();
                let order = parent_order_rec(flat, found);
                let buckets = item_buckets_rec(flat, found);
                let cm = comments_by_feed_item@.map_values(
                    |v: Vec<ChatterCommentRecord>| v@,
                );
                let lm = content_document_links@.map_values(|v: Vec<String>| strings_view(v));
                let fm = feed_attachments@.map_values(|v: Vec<String>| strings_view(v));
                let vm = content_version_to_document@.map_values(|s: String| s@);
                &&& r@.len() == order.len()
                &&& forall|i: int|
                    0 <= i < r@.len() ==> (#[trigger] r@[i]).salesforce_id@ == order[i]
                &&& forall|i: int|
                    0 <= i < r@.len() ==> (#[trigger] r@[i]).feed_items@.len()
                        == crate::sorting::sort_items_spec(buckets[order[i]]).len()
                &&& forall|i: int, j: int|
                    0 <= i < r@.len() && 0 <= j < r@[i].feed_items@.len() ==> unit_matches(
                        #[trigger] r@[i].feed_items@[j],
                        crate::sorting::sort_items_spec(buckets[order[i]])[j],
                        cm,
                        lm,
                        fm,
                        vm,
                    )
            }),
    {
        let ghost found = found_hubspot_records@.dom();
        let ghost cm = comments_by_feed_item@.map_values(|v: Vec<ChatterCommentRecord>| v@);
        let ghost lm = content_document_links@.map_values(|v: Vec<String>| strings_view(v));
        let ghost fm = feed_attachments@.map_values(|v: Vec<String>| strings_view(v));
        let ghost vm = content_version_to_document@.map_values(|s: String| s@);

        let mut pb: StrMap<Vec<ChatterFeedItemRecord>> = StrMap::new();
        let bn = feed_items_by_prefix.len();
        let mut j: usize = 0;
        while j < bn
            invariant
                0 <= j <= bn,
                bn == feed_items_by_prefix.entry_seq().len(),
                feed_items_by_prefix.wf(),
                pb.wf(),
                found == found_hubspot_records@.dom(),
                pb@.map_values(|v: Vec<ChatterFeedItemRecord>| v@) == item_buckets_rec(
                    flat_items(*feed_items_by_prefix, j as int),
                    found,
                ),
                pb.key_seq() == parent_order_rec(
                    flat_items(*feed_items_by_prefix, j as int),
                    found,
                ),
            decreases bn - j,
        {
            let items = feed_items_by_prefix.value_at(j);
            let ghost base = flat_items(*feed_items_by_prefix, j as int);
            proof {
                assert(feed_items_by_prefix@.contains_key(
                    feed_items_by_prefix.key_seq()[j as int],
                )) by {
                    feed_items_by_prefix.lemma_dom_keys();
                }
                assert(flat_items(*feed_items_by_prefix, j + 1) == base + items@);
            }
            let inn = items.len();
            let mut i: usize = 0;
            while i < inn
                invariant
                    0 <= i <= inn,
                    inn == items@.len(),
                    pb.wf(),
                    found == found_hubspot_records@.dom(),
                    pb@.map_values(|v: Vec<ChatterFeedItemRecord>| v@) == item_buckets_rec(
                        base + items@.take(i as int),
                        found,
                    ),
                    pb.key_seq() == parent_order_rec(base + items@.take(i as int), found),
                decreases inn - i,
            {
                let ghost it = items@[i as int];
                proof {
                    assert((base + items@.take(i + 1)).drop_last() =~= base + items@.take(
                        i as int,
                    ));
                    assert((base + items@.take(i + 1)).last() == it);
                }
                if found_hubspot_records.contains_key(items[i].parent_id.as_str()) {
                    proof {
                        pb.lemma_dom_keys();
                        let ord = parent_order_rec(base + items@.take(i as int), found);
                        if pb@.contains_key(it.parent_id@) {
                            let jj = choose|jj: int|
                                0 <= jj < pb.key_seq().len() && pb.key_seq()[jj]
                                    == it.parent_id@;
                            assert(ord[jj] == it.parent_id@);
                            assert(ord.contains(it.parent_id@));
                        } else {
                            if ord.contains(it.parent_id@) {
                                let jj = choose|jj: int|
                                    0 <= jj < ord.len() && ord[jj] == it.parent_id@;
                                assert(pb.key_seq()[jj] == it.parent_id@);
                            }
                            assert(!ord.contains(it.parent_id@));
                        }
                    }
                    pb.push_value(items[i].parent_id.as_str(), items[i].duplicate());
                    proof {
                        assert(pb@.map_values(|v: Vec<ChatterFeedItemRecord>| v@)
                            =~~= item_buckets_rec(base + items@.take(i + 1), found));
                        assert(pb.key_seq() =~= parent_order_rec(
                            base + items@.take(i + 1),
                            found,
                        ));
                    }
                } else {
                    proof {
                        assert(!found.contains(it.parent_id@));
                    }
                }
                i += 1;
            }
            proof {
                assert(base + items@.take(inn as int) =~= base + items@);
            }
            j += 1;
        }
        let ghost flat = flat_items(
            *feed_items_by_prefix,
            feed_items_by_prefix.key_seq().len() as int,
        );
        let ghost order = parent_order_rec(flat, found);
        let ghost buckets = item_buckets_rec(flat, found);
        proof {
            assert(feed_items_by_prefix.key_seq().len() == bn);
        }

        let pm = pb.len();
        let mut out: Vec<ProcessableChatterRecord> = Vec::new();
        let mut p: usize = 0;
        while p < pm
            invariant
                0 <= p <= pm,
                pm == pb.entry_seq().len(),
                pb.wf(),
                comments_by_feed_item.wf(),
                content_document_links.wf(),
                feed_attachments.wf(),
                content_version_to_document.wf(),
                cm == comments_by_feed_item@.map_values(|v: Vec<ChatterCommentRecord>| v@),
                lm == content_document_links@.map_values(|v: Vec<String>| strings_view(v)),
                fm == feed_attachments@.map_values(|v: Vec<String>| strings_view(v)),
                vm == content_version_to_document@.map_values(|s: String| s@),
                pb@.map_values(|v: Vec<ChatterFeedItemRecord>| v@) == buckets,
                pb.key_seq() == order,
                out@.len() == p,
                forall|i: int|
                    0 <= i < p ==> (#[trigger] out@[i]).salesforce_id@ == order[i],
                forall|i: int|
                    0 <= i < p ==> (#[trigger] out@[i]).feed_items@.len()
                        == crate::sorting::sort_items_spec(buckets[order[i]]).len(),
                forall|i: int, jj: int|
                    0 <= i < p && 0 <= jj < out@[i].feed_items@.len() ==> unit_matches(
                        #[trigger] out@[i].feed_items@[jj],
                        crate::sorting::sort_items_spec(buckets[order[i]])[jj],
                        cm,
                        lm,
                        fm,
                        vm,
                    ),
            decreases pm - p,
        {
            let key = pb.key_at(p).clone();
            let bucket = pb.value_at(p);
            let ghost bseq = buckets[order[p as int]];
            proof {
                pb.lemma_dom_keys();
                assert(pb@.contains_key(order[p as int]));
                assert(bucket@ == bseq);
            }
            let sorted = crate::sorting::sort_items(crate::records::duplicate_feed_items(bucket));
            let ghost sspec = crate::sorting::sort_items_spec(bseq);
            let sn = sorted.len();
            let mut units: Vec<FeedItemWithComments> = Vec::new();
            let mut k: usize = 0;
            while k < sn
                invariant
                    0 <= k <= sn,
                    sn == sorted@.len(),
                    comments_by_feed_item.wf(),
                    content_document_links.wf(),
                    feed_attachments.wf(),
                    content_version_to_document.wf(),
                    cm == comments_by_feed_item@.map_values(
                        |v: Vec<ChatterCommentRecord>| v@,
                    ),
                    lm == content_document_links@.map_values(|v: Vec<String>| strings_view(v)),
                    fm == feed_attachments@.map_values(|v: Vec<String>| strings_view(v)),
                    vm == content_version_to_document@.map_values(|s: String| s@),
                    sorted@ == sspec,
                    units@.len() == k,
                    forall|jj: int|
                        0 <= jj < k ==> unit_matches(
                            #[trigger] units@[jj],
                            sspec[jj],
                            cm,
                            lm,
                            fm,
                            vm,
                        ),
                decreases sn - k,
            {
                let u = Self::build_unit(
                    sorted[k].duplicate(),
                    comments_by_feed_item,
                    content_document_links,
                    feed_attachments,
                    content_version_to_document,
                );
                units.push(u);
                k += 1;
            }
            out.push(ProcessableChatterRecord { salesforce_id: key, feed_items: units });
            p += 1;
        }
        proof {
            assert(order.len() == pb.key_seq().len());
        }
        out
    }
}

} // verus!
