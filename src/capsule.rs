//! The publishing engine: from an owner's documents to the files of a capsule.
use vstd::prelude::*;
use vstd::string::*;
use crate::database::{ContentType, Date, Document};
use crate::error::{TrebuchetError, TrebuchetErrorType};
use crate::text::{push_char, push_text, same_text};
use crate::utils::{hyphenate, slug};

verus! {

/// Title of the fragment placed above documents that ask for it.
pub open spec fn header_title() -> Seq<char> {
    "includes.header"@
}

/// Title of the fragment placed below documents that ask for it.
pub open spec fn footer_title() -> Seq<char> {
    "includes.footer"@
}

/// Title of the fragment that becomes the capsule's home page.
pub open spec fn index_title() -> Seq<char> {
    "index.gmi"@
}

/// Pages and posts are published and listed; drafts and includes are not.
pub open spec fn is_listed(d: Document) -> bool {
    d.content_type == ContentType::Page || d.content_type == ContentType::Post
}

/// The contents of every include titled `name`, in the order of `docs`.
pub open spec fn fragment(docs: Seq<Document>, name: Seq<char>) -> Seq<char>
    decreases docs.len(),
{
    if docs.len() == 0 {
        Seq::empty()
    } else {
        let d = docs.last();
        fragment(docs.drop_last(), name) + if d.content_type == ContentType::Include && d.title@
            == name {
            d.content@
        } else {
            Seq::empty()
        }
    }
}

/// The header (when asked for) and a newline, the body, then a newline and
/// the footer (when asked for).
pub open spec fn rendered(
    body: Seq<char>,
    header: Seq<char>,
    footer: Seq<char>,
    use_header: bool,
    use_footer: bool,
) -> Seq<char> {
    (if use_header {
        header.push('\n')
    } else {
        Seq::empty()
    }) + body + (if use_footer {
        seq!['\n'] + footer
    } else {
        Seq::empty()
    })
}

/// The key of a post: its date, a hyphen, and the slug of its title.
pub open spec fn post_key(d: Document) -> Seq<char> {
    d.published.text() + seq!['-'] + slug(d.title@)
}

/// The line that links to a document from a listing: posts carry their date
/// in the link and in the label, pages do not.
pub open spec fn listing_entry(d: Document) -> Seq<char> {
    if d.content_type == ContentType::Post {
        "=> /"@ + post_key(d) + seq![' '] + d.published.text() + " - "@ + d.title@ + seq!['\n']
    } else {
        "=> /"@ + slug(d.title@) + seq![' '] + d.title@ + seq!['\n']
    }
}

/// Composes a body with the shared header and footer.
pub fn render(body: &str, header: &str, footer: &str, use_header: bool, use_footer: bool) -> (r:
    String)
    ensures
        r@ == rendered(body@, header@, footer@, use_header, use_footer),
{
    let mut s = String::new();
    if use_header {
        push_text(&mut s, header);
        push_char(&mut s, '\n');
    }
    push_text(&mut s, body);
    if use_footer {
        push_char(&mut s, '\n');
        push_text(&mut s, footer);
    }
    assert(s@ =~= rendered(body@, header@, footer@, use_header, use_footer));
    s
}

/// Appends the key of a post to `s`.
fn push_post_key(s: &mut String, d: &Document)
    requires
        d.wf(),
    ensures
        final(s)@ == old(s)@ + post_key(*d),
{
    let date = d.published.format();
    push_text(s, date.as_str());
    push_char(s, '-');
    let t = hyphenate(d.title.clone());
    push_text(s, t.as_str());
    assert(final(s)@ =~= old(s)@ + post_key(*d));
}

/// The key of a post, which names its directory.
pub fn post_key_of(d: &Document) -> (r: String)
    requires
        d.wf(),
    ensures
        r@ == post_key(*d),
{
    let mut s = String::new();
    push_post_key(&mut s, d);
    assert(s@ =~= post_key(*d));
    s
}

/// The listing line of a document.
pub fn listing_entry_of(d: &Document) -> (r: String)
    requires
        d.wf(),
    ensures
        r@ == listing_entry(*d),
{
    let mut s = String::new();
    push_text(&mut s, "=> /");
    if d.content_type == ContentType::Post {
        push_post_key(&mut s, d);
        push_char(&mut s, ' ');
        let date = d.published.format();
        push_text(&mut s, date.as_str());
        push_text(&mut s, " - ");
    } else {
        let t = hyphenate(d.title.clone());
        push_text(&mut s, t.as_str());
        push_char(&mut s, ' ');
    }
    push_text(&mut s, d.title.as_str());
    push_char(&mut s, '\n');
    assert(s@ =~= listing_entry(*d));
    s
}

/// The output units of the pages among `docs`, in their order: the slug of
/// the title names the directory, and the body is composed with the
/// fragments as the page asks.
pub open spec fn page_units(docs: Seq<Document>, header: Seq<char>, footer: Seq<char>) -> Seq<
    (Seq<char>, Seq<char>),
>
    decreases docs.len(),
{
    if docs.len() == 0 {
        Seq::empty()
    } else {
        let d = docs.last();
        page_units(docs.drop_last(), header, footer) + if d.content_type == ContentType::Page {
            seq![(slug(d.title@), rendered(d.content@, header, footer, d.header, d.footer))]
        } else {
            Seq::empty()
        }
    }
}

/// A file to be written: its directory within the capsule and its text.
pub struct Unit {
    pub dir: String,
    pub content: String,
}

impl View for Unit {
    type V = (Seq<char>, Seq<char>);

    open spec fn view(&self) -> (Seq<char>, Seq<char>) {
        (self.dir@, self.content@)
    }
}

pub open spec fn units_view(v: Seq<Unit>) -> Seq<(Seq<char>, Seq<char>)> {
    v.map_values(|u: Unit| u@)
}

pub open spec fn docs_wf(docs: Seq<Document>) -> bool {
    forall|i: int| 0 <= i < docs.len() ==> (#[trigger] docs[i]).wf()
}

/// Collects the header, footer and index fragments.
pub fn collect_fragments(docs: &Vec<Document>) -> (r: (String, String, String))
    ensures
        r.0@ == fragment(docs@, header_title()),
        r.1@ == fragment(docs@, footer_title()),
        r.2@ == fragment(docs@, index_title()),
{
    let mut header = String::new();
    let mut footer = String::new();
    let mut index = String::new();
    let n = docs.len();
    for i in 0..n
        invariant
            n == docs@.len(),
            header@ == fragment(docs@.take(i as int), header_title()),
            footer@ == fragment(docs@.take(i as int), footer_title()),
            index@ == fragment(docs@.take(i as int), index_title()),
    {
        let d = &docs[i];
        assert(docs@.take(i + 1).drop_last() == docs@.take(i as int));
        assert(docs@.take(i + 1).last() == docs@[i as int]);
        if d.content_type == ContentType::Include {
            if same_text(d.title.as_str(), "includes.header") {
                push_text(&mut header, d.content.as_str());
            }
            if same_text(d.title.as_str(), "includes.footer") {
                push_text(&mut footer, d.content.as_str());
            }
            if same_text(d.title.as_str(), "index.gmi") {
                push_text(&mut index, d.content.as_str());
            }
        }
        assert(header@ =~= fragment(docs@.take(i + 1), header_title()));
        assert(footer@ =~= fragment(docs@.take(i + 1), footer_title()));
        assert(index@ =~= fragment(docs@.take(i + 1), index_title()));
    }
    assert(docs@.take(n as int) == docs@);
    (header, footer, index)
}

/// Builds the output units of the pages.
pub fn build_pages(docs: &Vec<Document>, header: &str, footer: &str) -> (r: Vec<Unit>)
    ensures
        units_view(r@) == page_units(docs@, header@, footer@),
{
    let mut out: Vec<Unit> = Vec::new();
    let n = docs.len();
    for i in 0..n
        invariant
            n == docs@.len(),
            units_view(out@) == page_units(docs@.take(i as int), header@, footer@),
    {
        let d = &docs[i];
        assert(docs@.take(i + 1).drop_last() == docs@.take(i as int));
        assert(docs@.take(i + 1).last() == docs@[i as int]);
        if d.content_type == ContentType::Page {
            let dir = hyphenate(d.title.clone());
            let content = render(d.content.as_str(), header, footer, d.header, d.footer);
            let ghost before = out@;
            out.push(Unit { dir, content });
            assert(units_view(out@) =~= units_view(before).push(out@.last()@));
        }
        assert(units_view(out@) =~= page_units(docs@.take(i + 1), header@, footer@));
    }
    assert(docs@.take(n as int) == docs@);
    out
}

/// Places post `i` into `s` after every post at least as recent as it, so
/// that newer posts come first and posts of one day keep their order.
pub open spec fn insert_by_date(docs: Seq<Document>, s: Seq<usize>, i: usize) -> Seq<usize>
    decreases s.len(),
{
    if s.len() == 0 {
        seq![i]
    } else if docs[s[0] as int].published.key() >= docs[i as int].published.key() {
        seq![s[0]] + insert_by_date(docs, s.drop_first(), i)
    } else {
        seq![i] + s
    }
}

/// The positions of the posts among the first `n` documents, newest first;
/// posts of one day keep the order of `docs`.
pub open spec fn sorted_posts(docs: Seq<Document>, n: nat) -> Seq<usize>
    decreases n,
{
    if n == 0 {
        Seq::empty()
    } else {
        let r = sorted_posts(docs, (n - 1) as nat);
        if docs[n - 1].content_type == ContentType::Post {
            insert_by_date(docs, r, (n - 1) as usize)
        } else {
            r
        }
    }
}

proof fn lemma_insert_at(docs: Seq<Document>, s: Seq<usize>, i: usize, p: int)
    requires
        0 <= p <= s.len(),
        forall|k: int| 0 <= k < p ==> docs[s[k] as int].published.key() >= docs[i as int].published.key(),
        p < s.len() ==> docs[s[p] as int].published.key() < docs[i as int].published.key(),
    ensures
        insert_by_date(docs, s, i) == s.insert(p, i),
    decreases p,
{
    if p == 0 {
        assert(seq![i] + s =~= s.insert(0, i));
    } else {
        lemma_insert_at(docs, s.drop_first(), i, p - 1);
        assert(seq![s[0]] + s.drop_first().insert(p - 1, i) =~= s.insert(p, i));
    }
}

/// Orders the posts newest first.
pub fn sort_posts(docs: &Vec<Document>) -> (r: Vec<usize>)
    ensures
        r@ == sorted_posts(docs@, docs@.len()),
        forall|k: int| 0 <= k < r@.len() ==> r@[k] < docs@.len(),
{
    let mut out: Vec<usize> = Vec::new();
    let n = docs.len();
    for i in 0..n
        invariant
            n == docs@.len(),
            out@ == sorted_posts(docs@, i as nat),
            forall|k: int| 0 <= k < out@.len() ==> out@[k] < i,
    {
        if docs[i].content_type == ContentType::Post {
            let key_i = date_key(&docs[i].published);
            let mut p: usize = 0;
            while p < out.len()
                invariant
                    n == docs@.len(),
                    i < n,
                    p <= out@.len(),
                    key_i == docs@[i as int].published.key(),
                    forall|k: int| 0 <= k < out@.len() ==> out@[k] < i,
                    forall|k: int|
                        0 <= k < p ==> docs@[out@[k] as int].published.key() >= docs@[i as int].published.key(),
                ensures
                    p <= out@.len(),
                    forall|k: int|
                        0 <= k < p ==> docs@[out@[k] as int].published.key() >= docs@[i as int].published.key(),
                    p < out@.len() ==> docs@[out@[p as int] as int].published.key() < docs@[i as int].published.key(),
                decreases out@.len() - p,
            {
                if date_key(&docs[out[p]].published) < key_i {
                    break;
                }
                p = p + 1;
            }
            proof {
                lemma_insert_at(docs@, out@, i, p as int);
            }
            out.insert(p, i);
        }
        assert(forall|k: int| 0 <= k < out@.len() ==> out@[k] < i + 1);
    }
    out
}

/// The number that orders days as the calendar does.
pub fn date_key(d: &Date) -> (r: u64)
    ensures
        r == d.key(),
{
    d.year as u64 * 10000 + d.month as u64 * 100 + d.day as u64
}

/// How many posts the latest listing holds at most.
pub const LATEST_LIMIT: usize = 10;

/// The output units of the posts, in the order of `order`: the post key
/// names the directory.
pub open spec fn post_units(docs: Seq<Document>, order: Seq<usize>, header: Seq<char>, footer: Seq<char>) -> Seq<(Seq<char>, Seq<char>)> {
    order.map_values(
        |j: usize|
            (
                post_key(docs[j as int]),
                rendered(docs[j as int].content@, header, footer, docs[j as int].header, docs[j as int].footer),
            ),
    )
}

/// The newest posts, at most `LATEST_LIMIT` of them, newest first.
pub open spec fn latest_posts(docs: Seq<Document>) -> Seq<usize> {
    let s = sorted_posts(docs, docs.len());
    if s.len() <= LATEST_LIMIT {
        s
    } else {
        s.take(LATEST_LIMIT as int)
    }
}

/// The listing lines of the newest posts.
pub open spec fn latest_listing(docs: Seq<Document>) -> Seq<Seq<char>> {
    latest_posts(docs).map_values(|j: usize| listing_entry(docs[j as int]))
}

pub open spec fn strings_view(v: Seq<String>) -> Seq<Seq<char>> {
    v.map_values(|s: String| s@)
}

/// Builds the output units of the posts in the given order.
pub fn build_posts(docs: &Vec<Document>, order: &Vec<usize>, header: &str, footer: &str) -> (r: Vec<Unit>)
    requires
        docs_wf(docs@),
        forall|k: int| 0 <= k < order@.len() ==> order@[k] < docs@.len(),
    ensures
        units_view(r@) == post_units(docs@, order@, header@, footer@),
{
    let mut out: Vec<Unit> = Vec::new();
    let n = order.len();
    for i in 0..n
        invariant
            n == order@.len(),
            docs_wf(docs@),
            forall|k: int| 0 <= k < order@.len() ==> order@[k] < docs@.len(),
            units_view(out@) == post_units(docs@, order@.take(i as int), header@, footer@),
    {
        let d = &docs[order[i]];
        assert(docs@[order@[i as int] as int].wf());
        let dir = post_key_of(d);
        let content = render(d.content.as_str(), header, footer, d.header, d.footer);
        let ghost before = out@;
        out.push(Unit { dir, content });
        assert(units_view(out@) =~= units_view(before).push(out@.last()@));
        assert(order@.take(i + 1) =~= order@.take(i as int).push(order@[i as int]));
        assert(units_view(out@) =~= post_units(docs@, order@.take(i + 1), header@, footer@));
    }
    assert(order@.take(n as int) == order@);
    out
}

/// Lists the newest posts, at most `LATEST_LIMIT` of them.
pub fn build_latest(docs: &Vec<Document>, order: &Vec<usize>) -> (r: Vec<String>)
    requires
        docs_wf(docs@),
        forall|k: int| 0 <= k < order@.len() ==> order@[k] < docs@.len(),
    ensures
        strings_view(r@) == (if order@.len() <= LATEST_LIMIT { order@ } else { order@.take(LATEST_LIMIT as int) }).map_values(|j: usize| listing_entry(docs@[j as int])),
{
    let mut out: Vec<String> = Vec::new();
    let n = if order.len() <= LATEST_LIMIT { order.len() } else { LATEST_LIMIT };
    for i in 0..n
        invariant
            n <= order@.len(),
            n == (if order@.len() <= LATEST_LIMIT { order@.len() } else { LATEST_LIMIT as nat }),
            docs_wf(docs@),
            forall|k: int| 0 <= k < order@.len() ==> order@[k] < docs@.len(),
            strings_view(out@) == order@.take(i as int).map_values(|j: usize| listing_entry(docs@[j as int])),
    {
        let d = &docs[order[i]];
        assert(docs@[order@[i as int] as int].wf());
        let e = listing_entry_of(d);
        let ghost before = out@;
        out.push(e);
        assert(strings_view(out@) =~= strings_view(before).push(e@));
        assert(order@.take(i + 1) =~= order@.take(i as int).push(order@[i as int]));
        assert(strings_view(out@) =~= order@.take(i + 1).map_values(|j: usize| listing_entry(docs@[j as int])));
    }
    assert(order@.len() <= LATEST_LIMIT ==> order@.take(n as int) == order@);
    out
}

/// The distinct, nonempty slugs of `tags`, in the order they first appear.
pub open spec fn tag_keys(tags: Seq<String>) -> Seq<Seq<char>>
    decreases tags.len(),
{
    if tags.len() == 0 {
        Seq::empty()
    } else {
        let r = tag_keys(tags.drop_last());
        let k = slug(tags.last()@);
        if k.len() > 0 && !r.contains(k) {
            r.push(k)
        } else {
            r
        }
    }
}

/// What every listed document contributes to the tag listings: one pair of a
/// tag slug and the document's listing line for each of its tag slugs.
pub open spec fn emitted(docs: Seq<Document>) -> Seq<(Seq<char>, Seq<char>)>
    decreases docs.len(),
{
    if docs.len() == 0 {
        Seq::empty()
    } else {
        let d = docs.last();
        emitted(docs.drop_last()) + if is_listed(d) {
            tag_keys(d.tags@).map_values(|k: Seq<char>| (k, listing_entry(d)))
        } else {
            Seq::empty()
        }
    }
}

/// Adds one listing line to the bucket of its tag, or opens a bucket for it.
pub open spec fn add_entry(b: Seq<(Seq<char>, Seq<Seq<char>>)>, p: (Seq<char>, Seq<char>)) -> Seq<
    (Seq<char>, Seq<Seq<char>>),
> {
    if exists|i: int| 0 <= i < b.len() && b[i].0 == p.0 {
        let i = choose|i: int| 0 <= i < b.len() && b[i].0 == p.0;
        b.update(i, (b[i].0, b[i].1.push(p.1)))
    } else {
        b.push((p.0, seq![p.1]))
    }
}

/// Groups pairs by their tag: one bucket per tag, in the order in which the
/// tags first appear, each with its lines in the order of `pairs`.
pub open spec fn group(pairs: Seq<(Seq<char>, Seq<char>)>) -> Seq<(Seq<char>, Seq<Seq<char>>)>
    decreases pairs.len(),
{
    if pairs.len() == 0 {
        Seq::empty()
    } else {
        add_entry(group(pairs.drop_last()), pairs.last())
    }
}

/// The tag buckets of an owner's documents.
pub open spec fn tag_buckets(docs: Seq<Document>) -> Seq<(Seq<char>, Seq<Seq<char>>)> {
    group(emitted(docs))
}

pub open spec fn keys_distinct(b: Seq<(Seq<char>, Seq<Seq<char>>)>) -> bool {
    forall|i: int, j: int| 0 <= i < j < b.len() ==> b[i].0 != b[j].0
}

/// Whether `t` is among the texts of `v`.
fn contains_text(v: &Vec<String>, t: &String) -> (r: bool)
    ensures
        r == strings_view(v@).contains(t@),
{
    let n = v.len();
    for i in 0..n
        invariant
            n == v@.len(),
            forall|k: int| 0 <= k < i ==> v@[k]@ != t@,
    {
        if v[i] == *t {
            assert(strings_view(v@)[i as int] == t@);
            return true;
        }
    }
    proof {
        if strings_view(v@).contains(t@) {
            let k = choose|k: int| 0 <= k < strings_view(v@).len() && strings_view(v@)[k] == t@;
            assert(v@[k]@ == t@);
        }
    }
    false
}

/// The distinct, nonempty slugs of a document's tags.
pub fn doc_tag_keys(tags: &Vec<String>) -> (r: Vec<String>)
    ensures
        strings_view(r@) == tag_keys(tags@),
{
    let mut out: Vec<String> = Vec::new();
    let n = tags.len();
    for i in 0..n
        invariant
            n == tags@.len(),
            strings_view(out@) == tag_keys(tags@.take(i as int)),
    {
        assert(tags@.take(i + 1).drop_last() == tags@.take(i as int));
        assert(tags@.take(i + 1).last() == tags@[i as int]);
        let k = hyphenate(tags[i].clone());
        let empty = k.as_str().unicode_len() == 0;
        if !empty && !contains_text(&out, &k) {
            out.push(k);
            assert(strings_view(out@) =~= tag_keys(tags@.take(i + 1)));
        }
    }
    assert(tags@.take(n as int) == tags@);
    out
}

pub open spec fn pairs_view(v: Seq<(String, String)>) -> Seq<(Seq<char>, Seq<char>)> {
    v.map_values(|p: (String, String)| (p.0@, p.1@))
}

/// Emits the pairs of tag slug and listing line of every listed document.
pub fn emit_tag_pairs(docs: &Vec<Document>) -> (r: Vec<(String, String)>)
    requires
        docs_wf(docs@),
    ensures
        pairs_view(r@) == emitted(docs@),
{
    let mut out: Vec<(String, String)> = Vec::new();
    let n = docs.len();
    for i in 0..n
        invariant
            n == docs@.len(),
            docs_wf(docs@),
            pairs_view(out@) == emitted(docs@.take(i as int)),
    {
        let d = &docs[i];
        assert(docs@.take(i + 1).drop_last() == docs@.take(i as int));
        assert(docs@.take(i + 1).last() == docs@[i as int]);
        assert(d.wf());
        if d.content_type == ContentType::Page || d.content_type == ContentType::Post {
            let keys = doc_tag_keys(&d.tags);
            let entry = listing_entry_of(d);
            let ghost before = out@;
            let m = keys.len();
            for j in 0..m
                invariant
                    m == keys@.len(),
                    entry@ == listing_entry(*d),
                    pairs_view(out@) == pairs_view(before) + strings_view(keys@).take(j as int).map_values(
                        |k: Seq<char>| (k, listing_entry(*d)),
                    ),
            {
                let ghost mid = out@;
                out.push((keys[j].clone(), entry.clone()));
                assert(pairs_view(out@) =~= pairs_view(mid).push((keys@[j as int]@, entry@)));
                assert(strings_view(keys@).take(j + 1) =~= strings_view(keys@).take(j as int).push(keys@[j as int]@));
                assert(pairs_view(out@) =~= pairs_view(before) + strings_view(keys@).take(j + 1).map_values(
                    |k: Seq<char>| (k, listing_entry(*d)),
                ));
            }
            assert(strings_view(keys@).take(m as int) == strings_view(keys@));
        }
        assert(pairs_view(out@) =~= emitted(docs@.take(i + 1)));
    }
    assert(docs@.take(n as int) == docs@);
    out
}

/// The listing lines gathered under one tag slug.
pub struct TagBucket {
    pub tag: String,
    pub entries: Vec<String>,
}

impl View for TagBucket {
    type V = (Seq<char>, Seq<Seq<char>>);

    open spec fn view(&self) -> (Seq<char>, Seq<Seq<char>>) {
        (self.tag@, strings_view(self.entries@))
    }
}

pub open spec fn buckets_view(v: Seq<TagBucket>) -> Seq<(Seq<char>, Seq<Seq<char>>)> {
    v.map_values(|b: TagBucket| b@)
}

proof fn lemma_add_found(b: Seq<(Seq<char>, Seq<Seq<char>>)>, p: (Seq<char>, Seq<char>), i: int)
    requires
        keys_distinct(b),
        0 <= i < b.len(),
        b[i].0 == p.0,
    ensures
        add_entry(b, p) == b.update(i, (b[i].0, b[i].1.push(p.1))),
        keys_distinct(add_entry(b, p)),
{
    let j = choose|j: int| 0 <= j < b.len() && b[j].0 == p.0;
    assert(j == i);
}

proof fn lemma_add_new(b: Seq<(Seq<char>, Seq<Seq<char>>)>, p: (Seq<char>, Seq<char>))
    requires
        keys_distinct(b),
        forall|k: int| 0 <= k < b.len() ==> b[k].0 != p.0,
    ensures
        add_entry(b, p) == b.push((p.0, seq![p.1])),
        keys_distinct(add_entry(b, p)),
{
}

/// Groups the pairs into one bucket per tag.
pub fn group_pairs(pairs: Vec<(String, String)>) -> (r: Vec<TagBucket>)
    ensures
        buckets_view(r@) == group(pairs_view(pairs@)),
{
    let mut out: Vec<TagBucket> = Vec::new();
    let n = pairs.len();
    for i in 0..n
        invariant
            n == pairs@.len(),
            buckets_view(out@) == group(pairs_view(pairs@).take(i as int)),
            keys_distinct(buckets_view(out@)),
    {
        let ghost b = buckets_view(out@);
        let ghost pv = pairs_view(pairs@);
        assert(pv.take(i + 1).drop_last() =~= pv.take(i as int));
        assert(pv.take(i + 1).last() == pv[i as int]);
        let tag = &pairs[i].0;
        let entry = pairs[i].1.clone();
        let m = out.len();
        let mut p: usize = 0;
        while p < m
            invariant
                m == out@.len(),
                p <= m,
                b == buckets_view(out@),
                tag@ == pv[i as int].0,
                forall|k: int| 0 <= k < p ==> b[k].0 != tag@,
            ensures
                p <= m,
                forall|k: int| 0 <= k < p ==> b[k].0 != tag@,
                p < m ==> b[p as int].0 == tag@,
            decreases m - p,
        {
            if out[p].tag == *tag {
                break;
            }
            p = p + 1;
        }
        if p < m {
            proof {
                lemma_add_found(b, pv[i as int], p as int);
            }
            let mut bucket = out.remove(p);
            bucket.entries.push(entry);
            assert(strings_view(bucket.entries@) =~= b[p as int].1.push(pv[i as int].1));
            out.insert(p, bucket);
            assert(buckets_view(out@) =~= b.update(p as int, (b[p as int].0, b[p as int].1.push(pv[i as int].1))));
        } else {
            proof {
                lemma_add_new(b, pv[i as int]);
            }
            let mut entries: Vec<String> = Vec::new();
            entries.push(entry);
            assert(strings_view(entries@) =~= seq![pv[i as int].1]);
            out.push(TagBucket { tag: tag.clone(), entries });
            assert(buckets_view(out@) =~= b.push((pv[i as int].0, seq![pv[i as int].1])));
        }
    }
    assert(pairs_view(pairs@).take(n as int) =~= pairs_view(pairs@));
    out
}

/// What the classifier makes of an owner's documents.
pub struct Grouping {
    pub header: String,
    pub footer: String,
    pub index: String,
    pub pages: Vec<Unit>,
    pub posts: Vec<Unit>,
    pub tags: Vec<TagBucket>,
    pub latest: Vec<String>,
}

/// Classifies an owner's documents: the shared fragments, the pages, the
/// posts newest first, the tag buckets and the latest listing.
pub fn classify(docs: &Vec<Document>) -> (g: Grouping)
    requires
        docs_wf(docs@),
    ensures
        g.header@ == fragment(docs@, header_title()),
        g.footer@ == fragment(docs@, footer_title()),
        g.index@ == fragment(docs@, index_title()),
        units_view(g.pages@) == page_units(docs@, g.header@, g.footer@),
        units_view(g.posts@) == post_units(docs@, sorted_posts(docs@, docs@.len()), g.header@, g.footer@),
        buckets_view(g.tags@) == tag_buckets(docs@),
        strings_view(g.latest@) == latest_listing(docs@),
{
    let (header, footer, index) = collect_fragments(docs);
    let pages = build_pages(docs, header.as_str(), footer.as_str());
    let order = sort_posts(docs);
    let posts = build_posts(docs, &order, header.as_str(), footer.as_str());
    let latest = build_latest(docs, &order);
    let pairs = emit_tag_pairs(docs);
    let tags = group_pairs(pairs);
    Grouping { header, footer, index, pages, posts, tags, latest }
}

/// The lines of a listing, one after the other.
pub open spec fn concat(s: Seq<Seq<char>>) -> Seq<char>
    decreases s.len(),
{
    if s.len() == 0 {
        Seq::empty()
    } else {
        concat(s.drop_last()) + s.last()
    }
}

/// The output units of the tag buckets: `tag-` and the tag slug name the
/// directory, and the listing lines make the text.
pub open spec fn tag_units(b: Seq<(Seq<char>, Seq<Seq<char>>)>) -> Seq<(Seq<char>, Seq<char>)> {
    b.map_values(|t: (Seq<char>, Seq<Seq<char>>)| ("tag-"@ + t.0, concat(t.1)))
}

/// Every output unit of a capsule, in the order they are written: tags,
/// pages, posts, then the home page, whose directory is the capsule itself.
pub open spec fn capsule_units(docs: Seq<Document>) -> Seq<(Seq<char>, Seq<char>)> {
    let header = fragment(docs, header_title());
    let footer = fragment(docs, footer_title());
    tag_units(tag_buckets(docs)) + page_units(docs, header, footer) + post_units(
        docs,
        sorted_posts(docs, docs.len()),
        header,
        footer,
    ) + seq![(Seq::<char>::empty(), fragment(docs, index_title()))]
}

pub open spec fn dirs_of(u: Seq<(Seq<char>, Seq<char>)>) -> Seq<Seq<char>> {
    u.map_values(|x: (Seq<char>, Seq<char>)| x.0)
}

/// Whether the text at `j` already occurs before it.
pub open spec fn repeats_at(s: Seq<Seq<char>>, j: int) -> bool {
    exists|i: int| 0 <= i < j && s[i] == s[j]
}

pub open spec fn all_distinct(s: Seq<Seq<char>>) -> bool {
    forall|i: int, j: int| 0 <= i < j < s.len() ==> s[i] != s[j]
}

/// Where a unit's file lies under the content root: `{capsule}/{dir}/index`,
/// or `{capsule}/index` for the home page.
pub open spec fn path_of(capsule: Seq<char>, dir: Seq<char>) -> Seq<char> {
    if dir.len() == 0 {
        capsule + "/index"@
    } else {
        capsule + seq!['/'] + dir + "/index"@
    }
}

/// A file of the capsule: its path under the content root and its text.
pub struct OutputFile {
    pub path: String,
    pub content: String,
}

impl View for OutputFile {
    type V = (Seq<char>, Seq<char>);

    open spec fn view(&self) -> (Seq<char>, Seq<char>) {
        (self.path@, self.content@)
    }
}

pub open spec fn files_view(v: Seq<OutputFile>) -> Seq<(Seq<char>, Seq<char>)> {
    v.map_values(|f: OutputFile| f@)
}

/// The files of a capsule whose units are `u`.
pub open spec fn capsule_files(capsule: Seq<char>, u: Seq<(Seq<char>, Seq<char>)>) -> Seq<(Seq<char>, Seq<char>)> {
    u.map_values(|x: (Seq<char>, Seq<char>)| (path_of(capsule, x.0), x.1))
}

/// Joins the lines of a listing.
fn concat_lines(v: &Vec<String>) -> (r: String)
    ensures
        r@ == concat(strings_view(v@)),
{
    let mut s = String::new();
    let n = v.len();
    for i in 0..n
        invariant
            n == v@.len(),
            s@ == concat(strings_view(v@).take(i as int)),
    {
        assert(strings_view(v@).take(i + 1).drop_last() =~= strings_view(v@).take(i as int));
        push_text(&mut s, v[i].as_str());
    }
    assert(strings_view(v@).take(n as int) =~= strings_view(v@));
    s
}

/// Builds the output units of the tag buckets.
pub fn build_tag_units(tags: &Vec<TagBucket>) -> (r: Vec<Unit>)
    ensures
        units_view(r@) == tag_units(buckets_view(tags@)),
{
    let mut out: Vec<Unit> = Vec::new();
    let n = tags.len();
    for i in 0..n
        invariant
            n == tags@.len(),
            units_view(out@) == tag_units(buckets_view(tags@).take(i as int)),
    {
        let mut dir = String::new();
        push_text(&mut dir, "tag-");
        push_text(&mut dir, tags[i].tag.as_str());
        let content = concat_lines(&tags[i].entries);
        let ghost before = out@;
        out.push(Unit { dir, content });
        assert(units_view(out@) =~= units_view(before).push(out@.last()@));
        assert(buckets_view(tags@).take(i + 1) =~= buckets_view(tags@).take(i as int).push(tags@[i as int]@));
        assert(units_view(out@) =~= tag_units(buckets_view(tags@).take(i + 1)));
    }
    assert(buckets_view(tags@).take(n as int) =~= buckets_view(tags@));
    out
}

/// The first position whose directory repeats an earlier one, if any.
pub fn first_repeat(units: &Vec<Unit>) -> (r: Option<usize>)
    ensures
        r is None ==> all_distinct(dirs_of(units_view(units@))),
        r matches Some(j) ==> j < units@.len() && repeats_at(dirs_of(units_view(units@)), j as int)
            && forall|k: int| 0 <= k < j ==> !repeats_at(dirs_of(units_view(units@)), k),
{
    let ghost d = dirs_of(units_view(units@));
    let n = units.len();
    for j in 0..n
        invariant
            n == units@.len(),
            d == dirs_of(units_view(units@)),
            forall|k: int| 0 <= k < j ==> !repeats_at(d, k),
    {
        for i in 0..j
            invariant
                j < n,
                n == units@.len(),
                d == dirs_of(units_view(units@)),
                forall|k: int| 0 <= k < i ==> d[k] != d[j as int],
                forall|k: int| 0 <= k < j ==> !repeats_at(d, k),
        {
            if units[i].dir == units[j].dir {
                assert(d[i as int] == d[j as int]);
                assert(repeats_at(d, j as int));
                return Some(j);
            }
        }
    }
    assert forall|i: int, j: int| 0 <= i < j < d.len() implies d[i] != d[j] by {
        assert(!repeats_at(d, j));
    }
    None
}

/// The path of a unit's file under the content root.
pub fn resolve_path(capsule: &str, dir: &str) -> (r: String)
    ensures
        r@ == path_of(capsule@, dir@),
{
    let mut s = String::new();
    push_text(&mut s, capsule);
    if dir.unicode_len() == 0 {
        push_text(&mut s, "/index");
    } else {
        push_char(&mut s, '/');
        push_text(&mut s, dir);
        push_text(&mut s, "/index");
    }
    assert(s@ =~= path_of(capsule@, dir@));
    s
}

/// Lays out the capsule of an owner: every file to be written, in order,
/// under the content root. Fails with `NotFound` when the owner has no
/// documents, and with `ConflictError`, naming the directory, when two units
/// would be written to one place.
pub fn plan_capsule(docs: &Vec<Document>, capsule: &String) -> (r: Result<Vec<OutputFile>, TrebuchetError>)
    requires
        docs_wf(docs@),
    ensures
        docs@.len() == 0 <==> (r matches Err(e) && e.kind == TrebuchetErrorType::NotFound),
        docs@.len() > 0 && !all_distinct(dirs_of(capsule_units(docs@))) <==> (r matches Err(e)
            && e.kind == TrebuchetErrorType::ConflictError),
        r matches Err(e) ==> (e.kind == TrebuchetErrorType::ConflictError ==> exists|j: int|
            0 <= j < capsule_units(docs@).len() && repeats_at(dirs_of(capsule_units(docs@)), j)
                && (forall|k: int| 0 <= k < j ==> !repeats_at(dirs_of(capsule_units(docs@)), k))
                && e.message@ == capsule_units(docs@)[j].0),
        docs@.len() > 0 && all_distinct(dirs_of(capsule_units(docs@))) ==> r is Ok,
        r matches Err(e) ==> e.kind == TrebuchetErrorType::NotFound || e.kind
            == TrebuchetErrorType::ConflictError,
        r matches Ok(files) ==> files_view(files@) == capsule_files(capsule@, capsule_units(docs@)),
{
    if docs.len() == 0 {
        return Err(TrebuchetError { kind: TrebuchetErrorType::NotFound, message: "the owner has no documents to publish".to_owned() });
    }
    let g = classify(docs);
    let mut units = build_tag_units(&g.tags);
    let mut pages = g.pages;
    let mut posts = g.posts;
    units.append(&mut pages);
    units.append(&mut posts);
    units.push(Unit { dir: String::new(), content: g.index });
    let ghost all = capsule_units(docs@);
    assert(units_view(units@) =~= all);
    match first_repeat(&units) {
        Some(j) => {
            let message = units[j].dir.clone();
            assert(all[j as int].0 == dirs_of(all)[j as int]);
            return Err(TrebuchetError { kind: TrebuchetErrorType::ConflictError, message });
        },
        None => {},
    }
    let mut files: Vec<OutputFile> = Vec::new();
    let n = units.len();
    for i in 0..n
        invariant
            n == units@.len(),
            units_view(units@) == all,
            files_view(files@) == capsule_files(capsule@, all.take(i as int)),
    {
        let path = resolve_path(capsule.as_str(), units[i].dir.as_str());
        let content = units[i].content.clone();
        let ghost before = files@;
        files.push(OutputFile { path, content });
        assert(files_view(files@) =~= files_view(before).push(files@.last()@));
        assert(all.take(i + 1) =~= all.take(i as int).push(all[i as int]));
        assert(files_view(files@) =~= capsule_files(capsule@, all.take(i + 1)));
    }
    assert(all.take(n as int) =~= all);
    Ok(files)
}

} // verus!
