//! What holds of every publish run, proved over the engine's specifications.
use vstd::prelude::*;
use crate::capsule::{
    add_entry, all_distinct, capsule_files, capsule_units, dirs_of, emitted, fragment, group, insert_by_date, is_listed,
    keys_distinct, latest_listing, latest_posts, listing_entry, page_units, post_units,
    sorted_posts, tag_buckets, tag_keys, LATEST_LIMIT,
};
use crate::utils::slug;
use crate::database::{ContentType, Document};

verus! {

/// The file tree after writing `files` in order into `tree`, each write
/// replacing what stood at its path.
pub open spec fn write_all(tree: Map<Seq<char>, Seq<char>>, files: Seq<(Seq<char>, Seq<char>)>) -> Map<
    Seq<char>,
    Seq<char>,
>
    decreases files.len(),
{
    if files.len() == 0 {
        tree
    } else {
        write_all(tree, files.drop_last()).insert(files.last().0, files.last().1)
    }
}

proof fn lemma_write_all_union(tree: Map<Seq<char>, Seq<char>>, files: Seq<(Seq<char>, Seq<char>)>)
    ensures
        write_all(tree, files) == tree.union_prefer_right(write_all(Map::empty(), files)),
    decreases files.len(),
{
    if files.len() > 0 {
        lemma_write_all_union(tree, files.drop_last());
        assert(write_all(tree, files) =~= tree.union_prefer_right(write_all(Map::empty(), files)));
    } else {
        assert(write_all(tree, files) =~= tree.union_prefer_right(write_all(Map::empty(), files)));
    }
}

/// Publishing is idempotent: writing the files of a capsule a second time
/// over the tree that the first run left changes nothing.
pub proof fn lemma_publish_idempotent(
    docs: Seq<Document>,
    capsule: Seq<char>,
    tree: Map<Seq<char>, Seq<char>>,
)
    ensures
        write_all(write_all(tree, capsule_files(capsule, capsule_units(docs))), capsule_files(capsule, capsule_units(docs)))
            == write_all(tree, capsule_files(capsule, capsule_units(docs))),
{
    let f = capsule_files(capsule, capsule_units(docs));
    lemma_write_all_union(tree, f);
    lemma_write_all_union(write_all(tree, f), f);
    let w = write_all(Map::empty(), f);
    assert(tree.union_prefer_right(w).union_prefer_right(w) =~= tree.union_prefer_right(w));
}

/// Positions listed newest first.
pub open spec fn by_date_desc(docs: Seq<Document>, s: Seq<usize>) -> bool {
    forall|a: int, b: int|
        0 <= a < b < s.len() ==> docs[s[a] as int].published.key() >= docs[s[b] as int].published.key()
}

pub open spec fn no_repeats(s: Seq<usize>) -> bool {
    forall|a: int, b: int| 0 <= a < b < s.len() ==> s[a] != s[b]
}

/// How many posts are among the first `n` documents.
pub open spec fn count_posts(docs: Seq<Document>, n: nat) -> nat
    decreases n,
{
    if n == 0 {
        0
    } else {
        count_posts(docs, (n - 1) as nat) + if docs[n - 1].content_type == ContentType::Post {
            1nat
        } else {
            0nat
        }
    }
}

proof fn lemma_insert_by_date(docs: Seq<Document>, s: Seq<usize>, i: usize)
    requires
        by_date_desc(docs, s),
    ensures
        insert_by_date(docs, s, i).len() == s.len() + 1,
        forall|x: usize| #[trigger] insert_by_date(docs, s, i).contains(x) <==> (s.contains(x) || x == i),
        by_date_desc(docs, insert_by_date(docs, s, i)),
        no_repeats(s) && !s.contains(i) ==> no_repeats(insert_by_date(docs, s, i)),
    decreases s.len(),
{
    let r = insert_by_date(docs, s, i);
    if s.len() == 0 {
        assert(r =~= seq![i]);
        assert forall|x: usize| #[trigger] r.contains(x) <==> (s.contains(x) || x == i) by {
            if r.contains(x) {
                let k = choose|k: int| 0 <= k < r.len() && r[k] == x;
                assert(k == 0);
            }
            if x == i {
                assert(r[0] == x);
            }
        }
    } else if docs[s[0] as int].published.key() >= docs[i as int].published.key() {
        let t = s.drop_first();
        assert(by_date_desc(docs, t)) by {
            assert forall|a: int, b: int| 0 <= a < b < t.len() implies docs[t[a] as int].published.key()
                >= docs[t[b] as int].published.key() by {
                assert(t[a] == s[a + 1] && t[b] == s[b + 1]);
            }
        }
        lemma_insert_by_date(docs, t, i);
        let rt = insert_by_date(docs, t, i);
        assert(r == seq![s[0]] + rt);
        assert(s =~= seq![s[0]] + t);
        assert forall|x: usize| #[trigger] r.contains(x) <==> (s.contains(x) || x == i) by {
            if r.contains(x) {
                let k = choose|k: int| 0 <= k < r.len() && r[k] == x;
                if k > 0 {
                    assert(rt[k - 1] == x);
                    assert(rt.contains(x));
                    if t.contains(x) {
                        let m = choose|m: int| 0 <= m < t.len() && t[m] == x;
                        assert(s[m + 1] == x);
                    }
                } else {
                    assert(s[0] == x);
                }
            }
            if s.contains(x) {
                let m = choose|m: int| 0 <= m < s.len() && s[m] == x;
                if m == 0 {
                    assert(r[0] == x);
                } else {
                    assert(t[m - 1] == x);
                    assert(rt.contains(x));
                    let k = choose|k: int| 0 <= k < rt.len() && rt[k] == x;
                    assert(r[k + 1] == x);
                }
            }
            if x == i {
                assert(rt.contains(x));
                let k = choose|k: int| 0 <= k < rt.len() && rt[k] == x;
                assert(r[k + 1] == x);
            }
        }
        assert forall|b: int| 0 <= b < rt.len() implies docs[s[0] as int].published.key()
            >= docs[rt[b] as int].published.key() && (no_repeats(s) && !s.contains(i) ==> rt[b] != s[0]) by {
            assert(rt.contains(rt[b]));
            if t.contains(rt[b]) {
                let m = choose|m: int| 0 <= m < t.len() && t[m] == rt[b];
                assert(s[m + 1] == rt[b]);
            }
        }
        assert(by_date_desc(docs, r)) by {
            assert forall|a: int, b: int| 0 <= a < b < r.len() implies docs[r[a] as int].published.key()
                >= docs[r[b] as int].published.key() by {
                if a > 0 {
                    assert(r[a] == rt[a - 1] && r[b] == rt[b - 1]);
                } else {
                    assert(r[b] == rt[b - 1]);
                }
            }
        }
        if no_repeats(s) && !s.contains(i) {
            assert(!t.contains(i)) by {
                if t.contains(i) {
                    let m = choose|m: int| 0 <= m < t.len() && t[m] == i;
                    assert(s[m + 1] == i);
                }
            }
            assert(no_repeats(t)) by {
                assert forall|a: int, b: int| 0 <= a < b < t.len() implies t[a] != t[b] by {
                    assert(t[a] == s[a + 1] && t[b] == s[b + 1]);
                }
            }
            assert forall|a: int, b: int| 0 <= a < b < r.len() implies r[a] != r[b] by {
                if a > 0 {
                    assert(r[a] == rt[a - 1] && r[b] == rt[b - 1]);
                } else {
                    assert(r[b] == rt[b - 1]);
                }
            }
        }
    } else {
        assert(r == seq![i] + s);
        assert forall|x: usize| #[trigger] r.contains(x) <==> (s.contains(x) || x == i) by {
            if r.contains(x) {
                let k = choose|k: int| 0 <= k < r.len() && r[k] == x;
                if k > 0 {
                    assert(s[k - 1] == x);
                }
            }
            if s.contains(x) {
                let m = choose|m: int| 0 <= m < s.len() && s[m] == x;
                assert(r[m + 1] == x);
            }
            if x == i {
                assert(r[0] == x);
            }
        }
        assert forall|a: int, b: int| 0 <= a < b < r.len() implies docs[r[a] as int].published.key()
            >= docs[r[b] as int].published.key() by {
            if a > 0 {
                assert(r[a] == s[a - 1] && r[b] == s[b - 1]);
            } else {
                assert(r[b] == s[b - 1]);
                assert(docs[s[0] as int].published.key() >= docs[s[b - 1] as int].published.key() || b
                    - 1 == 0);
            }
        }
        if no_repeats(s) && !s.contains(i) {
            assert forall|a: int, b: int| 0 <= a < b < r.len() implies r[a] != r[b] by {
                if a > 0 {
                    assert(r[a] == s[a - 1] && r[b] == s[b - 1]);
                } else {
                    assert(r[b] == s[b - 1]);
                    assert(s.contains(s[b - 1]));
                }
            }
        }
    }
}

/// Posts of one day appear in the order of `docs`.
pub open spec fn stable_by_date(docs: Seq<Document>, s: Seq<usize>) -> bool {
    forall|a: int, b: int|
        0 <= a < b < s.len() && docs[s[a] as int].published.key() == docs[s[b] as int].published.key()
            ==> s[a] < s[b]
}

proof fn lemma_insert_stable(docs: Seq<Document>, s: Seq<usize>, i: usize)
    requires
        by_date_desc(docs, s),
        stable_by_date(docs, s),
        forall|k: int| 0 <= k < s.len() ==> s[k] < i,
    ensures
        stable_by_date(docs, insert_by_date(docs, s, i)),
    decreases s.len(),
{
    lemma_insert_by_date(docs, s, i);
    let r = insert_by_date(docs, s, i);
    if s.len() == 0 {
        assert(r =~= seq![i]);
    } else if docs[s[0] as int].published.key() >= docs[i as int].published.key() {
        let t = s.drop_first();
        assert(by_date_desc(docs, t)) by {
            assert forall|a: int, b: int| 0 <= a < b < t.len() implies docs[t[a] as int].published.key()
                >= docs[t[b] as int].published.key() by {
                assert(t[a] == s[a + 1] && t[b] == s[b + 1]);
            }
        }
        assert(stable_by_date(docs, t)) by {
            assert forall|a: int, b: int|
                0 <= a < b < t.len() && docs[t[a] as int].published.key() == docs[t[b] as int].published.key()
                    implies t[a] < t[b] by {
                assert(t[a] == s[a + 1] && t[b] == s[b + 1]);
            }
        }
        lemma_insert_stable(docs, t, i);
        lemma_insert_by_date(docs, t, i);
        let rt = insert_by_date(docs, t, i);
        assert(r == seq![s[0]] + rt);
        assert forall|a: int, b: int|
            0 <= a < b < r.len() && docs[r[a] as int].published.key() == docs[r[b] as int].published.key()
                implies r[a] < r[b] by {
            if a > 0 {
                assert(r[a] == rt[a - 1] && r[b] == rt[b - 1]);
            } else {
                assert(r[b] == rt[b - 1]);
                assert(rt.contains(rt[b - 1]));
                if t.contains(rt[b - 1]) {
                    let m = choose|m: int| 0 <= m < t.len() && t[m] == rt[b - 1];
                    assert(s[m + 1] == rt[b - 1]);
                }
            }
        }
    } else {
        assert(r == seq![i] + s);
        assert forall|a: int, b: int|
            0 <= a < b < r.len() && docs[r[a] as int].published.key() == docs[r[b] as int].published.key()
                implies r[a] < r[b] by {
            if a > 0 {
                assert(r[a] == s[a - 1] && r[b] == s[b - 1]);
            } else {
                assert(r[b] == s[b - 1]);
                assert(b - 1 == 0 || docs[s[0] as int].published.key() >= docs[s[b - 1] as int].published.key());
            }
        }
    }
}

proof fn lemma_sorted_posts_stable(docs: Seq<Document>, n: nat)
    requires
        n <= docs.len() <= usize::MAX,
    ensures
        stable_by_date(docs, sorted_posts(docs, n)),
    decreases n,
{
    if n > 0 {
        let m = (n - 1) as nat;
        lemma_sorted_posts_stable(docs, m);
        lemma_sorted_posts(docs, m);
        let r = sorted_posts(docs, m);
        if docs[n - 1].content_type == ContentType::Post {
            assert forall|k: int| 0 <= k < r.len() implies r[k] < m as usize by {
                assert(r.contains(r[k]));
            }
            lemma_insert_stable(docs, r, m as usize);
        }
    }
}

/// The posts are published newest first: each post appears exactly once,
/// dates never increase along the order, posts of one day keep the order of
/// `docs`, and no post left out of the latest listing is newer than one in it.
pub proof fn lemma_posts_newest_first(docs: Seq<Document>)
    requires
        docs.len() <= usize::MAX,
    ensures
        forall|x: usize|
            #[trigger] sorted_posts(docs, docs.len()).contains(x) <==> (x < docs.len()
                && docs[x as int].content_type == ContentType::Post),
        no_repeats(sorted_posts(docs, docs.len())),
        by_date_desc(docs, sorted_posts(docs, docs.len())),
        stable_by_date(docs, sorted_posts(docs, docs.len())),
        forall|x: usize, k: int|
            x < docs.len() && docs[x as int].content_type == ContentType::Post
                && !latest_posts(docs).contains(x) && 0 <= k < latest_posts(docs).len()
                ==> docs[x as int].published.key() <= docs[latest_posts(docs)[k] as int].published.key(),
{
    let s = sorted_posts(docs, docs.len());
    lemma_sorted_posts(docs, docs.len());
    lemma_sorted_posts_stable(docs, docs.len());
    let l = latest_posts(docs);
    assert forall|x: usize, k: int|
        x < docs.len() && docs[x as int].content_type == ContentType::Post && !l.contains(x) && 0 <= k
            < l.len() implies docs[x as int].published.key() <= docs[l[k] as int].published.key() by {
        assert(s.contains(x));
        let m = choose|m: int| 0 <= m < s.len() && s[m] == x;
        if m < l.len() {
            assert(l[m] == x);
        }
        assert(l[k] == s[k]);
    }
}

proof fn lemma_sorted_posts(docs: Seq<Document>, n: nat)
    requires
        n <= docs.len() <= usize::MAX,
    ensures
        by_date_desc(docs, sorted_posts(docs, n)),
        no_repeats(sorted_posts(docs, n)),
        sorted_posts(docs, n).len() == count_posts(docs, n),
        forall|x: usize| #[trigger] sorted_posts(docs, n).contains(x) <==> (x < n && docs[x as int].content_type == ContentType::Post),
    decreases n,
{
    if n > 0 {
        let m = (n - 1) as nat;
        lemma_sorted_posts(docs, m);
        let r = sorted_posts(docs, m);
        if docs[n - 1].content_type == ContentType::Post {
            assert(!r.contains(m as usize));
            lemma_insert_by_date(docs, r, m as usize);
        }
        assert forall|x: usize| #[trigger] sorted_posts(docs, n).contains(x) <==> (x < n && docs[x as int].content_type == ContentType::Post) by {
            assert(r.contains(x) <==> (x < m && docs[x as int].content_type == ContentType::Post));
        }
    }
}

proof fn lemma_key_injective(a: Document, b: Document)
    requires
        a.wf(),
        b.wf(),
        a.published != b.published,
    ensures
        a.published.key() != b.published.key(),
{
    let (y1, m1, d1) = (a.published.year as int, a.published.month as int, a.published.day as int);
    let (y2, m2, d2) = (b.published.year as int, b.published.month as int, b.published.day as int);
    if y1 * 10000 + m1 * 100 + d1 == y2 * 10000 + m2 * 100 + d2 {
        assert(y1 == y2) by (nonlinear_arith)
            requires
                y1 * 10000 + m1 * 100 + d1 == y2 * 10000 + m2 * 100 + d2,
                1 <= m1 <= 12, 1 <= d1 <= 31, 1 <= m2 <= 12, 1 <= d2 <= 31,
        ;
        assert(m1 == m2) by (nonlinear_arith)
            requires
                m1 * 100 + d1 == m2 * 100 + d2,
                1 <= d1 <= 31, 1 <= d2 <= 31,
        ;
    }
}

/// The latest listing holds the newest posts: as many as there are posts, at
/// most `LATEST_LIMIT`, and where no two posts share a day, strictly newest
/// first and newer than every post left out; each line is the listing line
/// of its post.
pub proof fn lemma_latest_ordered(docs: Seq<Document>)
    requires
        docs.len() <= usize::MAX,
        forall|i: int| 0 <= i < docs.len() ==> (#[trigger] docs[i]).wf(),
        forall|i: int, j: int|
            0 <= i < docs.len() && 0 <= j < docs.len() && i != j && docs[i].content_type
                == ContentType::Post && docs[j].content_type == ContentType::Post ==> docs[i].published
                != docs[j].published,
    ensures
        latest_posts(docs).len() == if count_posts(docs, docs.len()) <= LATEST_LIMIT {
            count_posts(docs, docs.len())
        } else {
            LATEST_LIMIT as nat
        },
        forall|a: int|
            0 <= a < latest_posts(docs).len() ==> docs[latest_posts(docs)[a] as int].content_type
                == ContentType::Post,
        forall|a: int, b: int|
            0 <= a < b < latest_posts(docs).len() ==> docs[latest_posts(docs)[a] as int].published.key()
                > docs[latest_posts(docs)[b] as int].published.key(),
        latest_listing(docs) == latest_posts(docs).map_values(|j: usize| listing_entry(docs[j as int])),
        forall|x: usize, k: int|
            x < docs.len() && docs[x as int].content_type == ContentType::Post
                && !latest_posts(docs).contains(x) && 0 <= k < latest_posts(docs).len()
                ==> docs[x as int].published.key() < docs[latest_posts(docs)[k] as int].published.key(),
{
    let s = sorted_posts(docs, docs.len());
    lemma_sorted_posts(docs, docs.len());
    lemma_posts_newest_first(docs);
    let l = latest_posts(docs);
    assert forall|a: int| 0 <= a < l.len() implies docs[l[a] as int].content_type == ContentType::Post && l[a] < docs.len() by {
        assert(l[a] == s[a]);
        assert(s.contains(s[a]));
    }
    assert forall|a: int, b: int| 0 <= a < b < l.len() implies docs[l[a] as int].published.key()
        > docs[l[b] as int].published.key() by {
        assert(l[a] == s[a] && l[b] == s[b]);
        assert(s.contains(s[a]) && s.contains(s[b]));
        lemma_key_injective(docs[l[a] as int], docs[l[b] as int]);
    }
    assert forall|x: usize, k: int|
        x < docs.len() && docs[x as int].content_type == ContentType::Post && !l.contains(x) && 0 <= k
            < l.len() implies docs[x as int].published.key() < docs[l[k] as int].published.key() by {
        assert(l[k] == s[k]);
        assert(s.contains(s[k]));
        assert(l[k] != x);
        lemma_key_injective(docs[x as int], docs[l[k] as int]);
    }
}

proof fn lemma_tag_keys_hold(tags: Seq<String>, t: int)
    requires
        0 <= t < tags.len(),
        slug(tags[t]@).len() > 0,
    ensures
        tag_keys(tags).contains(slug(tags[t]@)),
    decreases tags.len(),
{
    let k = slug(tags[t]@);
    let r = tag_keys(tags.drop_last());
    if t == tags.len() - 1 {
        if !r.contains(k) {
            assert(tag_keys(tags) == r.push(k));
            assert(tag_keys(tags)[r.len() as int] == k);
        }
    } else {
        assert(tags.drop_last()[t] == tags[t]);
        lemma_tag_keys_hold(tags.drop_last(), t);
        let j = choose|j: int| 0 <= j < r.len() && r[j] == k;
        assert(tag_keys(tags)[j] == k);
    }
}

proof fn lemma_emitted_holds(docs: Seq<Document>, i: int, k: Seq<char>)
    requires
        0 <= i < docs.len(),
        is_listed(docs[i]),
        tag_keys(docs[i].tags@).contains(k),
    ensures
        emitted(docs).contains((k, listing_entry(docs[i]))),
    decreases docs.len(),
{
    let front = emitted(docs.drop_last());
    let d = docs.last();
    if i == docs.len() - 1 {
        let ks = tag_keys(d.tags@);
        let j = choose|j: int| 0 <= j < ks.len() && ks[j] == k;
        let tail = ks.map_values(|x: Seq<char>| (x, listing_entry(d)));
        assert(emitted(docs) == front + tail);
        assert(emitted(docs)[front.len() + j] == (k, listing_entry(d)));
    } else {
        assert(docs.drop_last()[i] == docs[i]);
        lemma_emitted_holds(docs.drop_last(), i, k);
        let j = choose|j: int| 0 <= j < front.len() && front[j] == (k, listing_entry(docs[i]));
        assert(emitted(docs)[j] == front[j]);
    }
}

proof fn lemma_group(pairs: Seq<(Seq<char>, Seq<char>)>)
    ensures
        keys_distinct(group(pairs)),
        forall|p: int|
            0 <= p < pairs.len() ==> exists|b: int|
                0 <= b < group(pairs).len() && group(pairs)[b].0 == (#[trigger] pairs[p]).0 && group(
                    pairs,
                )[b].1.contains(pairs[p].1),
    decreases pairs.len(),
{
    if pairs.len() > 0 {
        let front = pairs.drop_last();
        lemma_group(front);
        let g = group(front);
        let q = pairs.last();
        let r = group(pairs);
        assert(r == add_entry(g, q));
        if exists|i: int| 0 <= i < g.len() && g[i].0 == q.0 {
            let i = choose|i: int| 0 <= i < g.len() && g[i].0 == q.0;
            assert(r == g.update(i, (g[i].0, g[i].1.push(q.1))));
            assert forall|p: int| 0 <= p < pairs.len() implies exists|b: int|
                0 <= b < r.len() && r[b].0 == (#[trigger] pairs[p]).0 && r[b].1.contains(pairs[p].1) by {
                if p == pairs.len() - 1 {
                    assert(r[i].1[g[i].1.len() as int] == q.1);
                } else {
                    assert(front[p] == pairs[p]);
                    let b = choose|b: int|
                        0 <= b < g.len() && g[b].0 == front[p].0 && g[b].1.contains(front[p].1);
                    let m = choose|m: int| 0 <= m < g[b].1.len() && g[b].1[m] == front[p].1;
                    assert(r[b].1[m] == front[p].1);
                }
            }
        } else {
            assert(r == g.push((q.0, seq![q.1])));
            assert forall|p: int| 0 <= p < pairs.len() implies exists|b: int|
                0 <= b < r.len() && r[b].0 == (#[trigger] pairs[p]).0 && r[b].1.contains(pairs[p].1) by {
                if p == pairs.len() - 1 {
                    assert(r[g.len() as int].1[0] == q.1);
                } else {
                    assert(front[p] == pairs[p]);
                    let b = choose|b: int|
                        0 <= b < g.len() && g[b].0 == front[p].0 && g[b].1.contains(front[p].1);
                    let m = choose|m: int| 0 <= m < g[b].1.len() && g[b].1[m] == front[p].1;
                    assert(r[b].1[m] == front[p].1);
                }
            }
        }
    }
}

/// Every listed document with a tag whose slug is not empty has its listing
/// line in the bucket of that slug, and exactly one bucket has that slug.
pub proof fn lemma_tag_complete(docs: Seq<Document>, i: int, t: int)
    requires
        0 <= i < docs.len(),
        is_listed(docs[i]),
        0 <= t < docs[i].tags@.len(),
        slug(docs[i].tags@[t]@).len() > 0,
    ensures
        exists|b: int|
            0 <= b < tag_buckets(docs).len() && tag_buckets(docs)[b].0 == slug(docs[i].tags@[t]@)
                && tag_buckets(docs)[b].1.contains(listing_entry(docs[i])),
        forall|b1: int, b2: int|
            0 <= b1 < tag_buckets(docs).len() && 0 <= b2 < tag_buckets(docs).len()
                && tag_buckets(docs)[b1].0 == slug(docs[i].tags@[t]@) && tag_buckets(docs)[b2].0
                == slug(docs[i].tags@[t]@) ==> b1 == b2,
{
    let k = slug(docs[i].tags@[t]@);
    lemma_tag_keys_hold(docs[i].tags@, t);
    lemma_emitted_holds(docs, i, k);
    let e = emitted(docs);
    lemma_group(e);
    let p = choose|p: int| 0 <= p < e.len() && e[p] == (k, listing_entry(docs[i]));
    assert(e[p].0 == k);
    let g = group(e);
    assert(exists|b: int| 0 <= b < g.len() && g[b].0 == e[p].0 && g[b].1.contains(e[p].1));
    let b = choose|b: int| 0 <= b < g.len() && g[b].0 == e[p].0 && g[b].1.contains(e[p].1);
    assert(tag_buckets(docs)[b].0 == k && tag_buckets(docs)[b].1.contains(listing_entry(docs[i])));
}

proof fn lemma_fragment_split(a: Seq<Document>, b: Seq<Document>, name: Seq<char>)
    ensures
        fragment(a + b, name) == fragment(a, name) + fragment(b, name),
    decreases b.len(),
{
    if b.len() == 0 {
        assert(a + b =~= a);
        assert(fragment(b, name) =~= Seq::empty());
        assert(fragment(a, name) + Seq::empty() =~= fragment(a, name));
    } else {
        assert((a + b).drop_last() =~= a + b.drop_last());
        assert((a + b).last() == b.last());
        lemma_fragment_split(a, b.drop_last(), name);
        assert(fragment(a + b, name) =~= fragment(a, name) + fragment(b, name));
    }
}

proof fn lemma_pages_split(a: Seq<Document>, b: Seq<Document>, h: Seq<char>, f: Seq<char>)
    ensures
        page_units(a + b, h, f) == page_units(a, h, f) + page_units(b, h, f),
    decreases b.len(),
{
    if b.len() == 0 {
        assert(a + b =~= a);
        assert(page_units(a, h, f) + page_units(b, h, f) =~= page_units(a, h, f));
    } else {
        assert((a + b).drop_last() =~= a + b.drop_last());
        assert((a + b).last() == b.last());
        lemma_pages_split(a, b.drop_last(), h, f);
        assert(page_units(a + b, h, f) =~= page_units(a, h, f) + page_units(b, h, f));
    }
}

proof fn lemma_emitted_split(a: Seq<Document>, b: Seq<Document>)
    ensures
        emitted(a + b) == emitted(a) + emitted(b),
    decreases b.len(),
{
    if b.len() == 0 {
        assert(a + b =~= a);
        assert(emitted(a) + emitted(b) =~= emitted(a));
    } else {
        assert((a + b).drop_last() =~= a + b.drop_last());
        assert((a + b).last() == b.last());
        lemma_emitted_split(a, b.drop_last());
        assert(emitted(a + b) =~= emitted(a) + emitted(b));
    }
}

/// Where a position of `docs` lands once a document is inserted at `p`.
pub open spec fn shifted(p: int, x: usize) -> usize {
    if x < p {
        x
    } else {
        (x + 1) as usize
    }
}

proof fn lemma_insert_by_date_shift(
    docs: Seq<Document>,
    wider: Seq<Document>,
    p: int,
    s: Seq<usize>,
    i: usize,
)
    requires
        i < docs.len() < usize::MAX,
        forall|x: usize| x < docs.len() ==> wider[shifted(p, x) as int] == docs[x as int],
        forall|k: int| 0 <= k < s.len() ==> s[k] < docs.len(),
    ensures
        insert_by_date(wider, s.map_values(|x: usize| shifted(p, x)), shifted(p, i)) == insert_by_date(
            docs,
            s,
            i,
        ).map_values(|x: usize| shifted(p, x)),
    decreases s.len(),
{
    let ss = s.map_values(|x: usize| shifted(p, x));
    if s.len() == 0 {
        assert(insert_by_date(wider, ss, shifted(p, i)) =~= insert_by_date(docs, s, i).map_values(
            |x: usize| shifted(p, x),
        ));
    } else {
        assert(wider[shifted(p, s[0]) as int] == docs[s[0] as int]);
        assert(wider[shifted(p, i) as int] == docs[i as int]);
        assert(ss[0] == shifted(p, s[0]));
        if docs[s[0] as int].published.key() >= docs[i as int].published.key() {
            lemma_insert_by_date_shift(docs, wider, p, s.drop_first(), i);
            assert(ss.drop_first() =~= s.drop_first().map_values(|x: usize| shifted(p, x)));
            assert(insert_by_date(wider, ss, shifted(p, i)) =~= insert_by_date(docs, s, i).map_values(
                |x: usize| shifted(p, x),
            ));
        } else {
            assert(insert_by_date(wider, ss, shifted(p, i)) =~= insert_by_date(docs, s, i).map_values(
                |x: usize| shifted(p, x),
            ));
        }
    }
}

proof fn lemma_sorted_posts_shift(docs: Seq<Document>, p: int, d: Document, n: nat)
    requires
        docs.len() < usize::MAX,
        0 <= p <= docs.len(),
        n <= docs.len(),
        d.content_type == ContentType::Draft,
    ensures
        sorted_posts(docs.insert(p, d), if n <= p { n } else { n + 1 }) == sorted_posts(docs, n).map_values(
            |x: usize| shifted(p, x),
        ),
    decreases n,
{
    let wider = docs.insert(p, d);
    assert forall|x: usize| x < docs.len() implies wider[shifted(p, x) as int] == docs[x as int] by {}
    if n == 0 {
        assert(sorted_posts(docs, 0).map_values(|x: usize| shifted(p, x)) =~= Seq::empty());
    } else {
        let m = (n - 1) as nat;
        lemma_sorted_posts_shift(docs, p, d, m);
        lemma_sorted_posts(docs, m);
        let s = sorted_posts(docs, m);
        assert forall|k: int| 0 <= k < s.len() implies s[k] < docs.len() by {
            assert(s.contains(s[k]));
        }
        let wn: nat = if n <= p { n } else { n + 1 };
        if n == p + 1 {
            assert(wider[p] == d);
            assert(sorted_posts(wider, (p + 1) as nat) == sorted_posts(wider, p as nat));
        }
        assert(sorted_posts(wider, (wn - 1) as nat) == s.map_values(|x: usize| shifted(p, x)));
        assert(wider[wn - 1] == docs[n - 1]);
        assert(shifted(p, m as usize) == (wn - 1) as usize);
        if docs[n - 1].content_type == ContentType::Post {
            lemma_insert_by_date_shift(docs, wider, p, s, m as usize);
        }
    }
}

/// Drafts are never published: inserting a draft anywhere among an owner's
/// documents changes no file of the capsule, no tag bucket and no line of the
/// latest listing.
pub proof fn lemma_drafts_excluded(docs: Seq<Document>, p: int, d: Document, capsule: Seq<char>)
    requires
        docs.len() < usize::MAX,
        0 <= p <= docs.len(),
        d.content_type == ContentType::Draft,
    ensures
        capsule_units(docs.insert(p, d)) == capsule_units(docs),
        capsule_files(capsule, capsule_units(docs.insert(p, d))) == capsule_files(capsule, capsule_units(docs)),
        tag_buckets(docs.insert(p, d)) == tag_buckets(docs),
        latest_listing(docs.insert(p, d)) == latest_listing(docs),
        all_distinct(dirs_of(capsule_units(docs.insert(p, d)))) == all_distinct(dirs_of(capsule_units(docs))),
{
    let wider = docs.insert(p, d);
    let a = docs.take(p);
    let b = docs.skip(p);
    let one = seq![d];
    assert(wider =~= a + one + b);
    assert(docs =~= a + b);
    assert forall|name: Seq<char>| fragment(wider, name) == fragment(docs, name) by {
        lemma_fragment_split(a + one, b, name);
        lemma_fragment_split(a, one, name);
        lemma_fragment_split(a, b, name);
        assert(one.drop_last() =~= Seq::<Document>::empty());
        assert(fragment(Seq::<Document>::empty(), name) == Seq::<char>::empty());
        assert(fragment(one, name) =~= Seq::empty());
        assert(fragment(a, name) + fragment(one, name) =~= fragment(a, name));
    }
    assert forall|h: Seq<char>, f: Seq<char>| page_units(wider, h, f) == page_units(docs, h, f) by {
        lemma_pages_split(a + one, b, h, f);
        lemma_pages_split(a, one, h, f);
        lemma_pages_split(a, b, h, f);
        assert(one.drop_last() =~= Seq::<Document>::empty());
        assert(page_units(Seq::<Document>::empty(), h, f) == Seq::<(Seq<char>, Seq<char>)>::empty());
        assert(page_units(one, h, f) =~= Seq::empty());
        assert(page_units(a, h, f) + page_units(one, h, f) =~= page_units(a, h, f));
    }
    lemma_emitted_split(a + one, b);
    lemma_emitted_split(a, one);
    lemma_emitted_split(a, b);
    assert(one.drop_last() =~= Seq::<Document>::empty());
    assert(emitted(Seq::<Document>::empty()) == Seq::<(Seq<char>, Seq<char>)>::empty());
    assert(emitted(one) =~= Seq::empty());
    assert(emitted(a) + emitted(one) =~= emitted(a));
    assert(emitted(wider) == emitted(docs));
    lemma_sorted_posts_shift(docs, p, d, docs.len());
    lemma_sorted_posts(docs, docs.len());
    let s = sorted_posts(docs, docs.len());
    let ws = sorted_posts(wider, wider.len());
    assert(ws == s.map_values(|x: usize| shifted(p, x)));
    assert forall|k: int| 0 <= k < s.len() implies wider[shifted(p, s[k]) as int] == docs[s[k] as int] by {
        assert(s.contains(s[k]));
    }
    assert forall|h: Seq<char>, f: Seq<char>| post_units(wider, ws, h, f) == post_units(docs, s, h, f) by {
        assert(post_units(wider, ws, h, f) =~= post_units(docs, s, h, f));
    }
    assert(latest_posts(wider) =~= latest_posts(docs).map_values(|x: usize| shifted(p, x)));
    assert(latest_listing(wider) =~= latest_listing(docs)) by {
        let l = latest_posts(docs);
        assert forall|k: int| 0 <= k < l.len() implies wider[shifted(p, l[k]) as int] == docs[l[k] as int] by {
            assert(l[k] == s[k]);
            assert(s.contains(s[k]));
        }
    }
    assert(capsule_units(wider) =~= capsule_units(docs));
}

} // verus!
