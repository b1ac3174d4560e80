//! The records an owner keeps: documents, their kinds and their dates.
use vstd::prelude::*;
use chrono::Datelike;
use crate::error::{TrebuchetError, TrebuchetErrorType};
use crate::text::{push_char, push_text, is_ascii_digit, same_text};
use vstd::string::*;
use crate::utils::User;

verus! {

/// What a document is, which decides where it is placed when a capsule is
/// published.
#[derive(Clone, Copy, Debug, PartialEq, Eq, Structural)]
pub enum ContentType {
    Draft,
    Include,
    Page,
    Post,
}

/// A calendar day, written `YYYY-MM-DD` in paths and listings.
#[derive(Clone, Copy, Debug, PartialEq, Eq, Structural)]
pub struct Date {
    pub year: u32,
    pub month: u32,
    pub day: u32,
}

/// The word that names a kind of document in the record store.
pub open spec fn content_type_text(t: ContentType) -> Seq<char> {
    match t {
        ContentType::Draft => "draft"@,
        ContentType::Include => "include"@,
        ContentType::Page => "page"@,
        ContentType::Post => "post"@,
    }
}

impl ContentType {
    /// The word that names this kind in the record store.
    pub fn as_text(&self) -> (r: String)
        ensures
            r@ == content_type_text(*self),
    {
        match self {
            ContentType::Draft => "draft".to_owned(),
            ContentType::Include => "include".to_owned(),
            ContentType::Page => "page".to_owned(),
            ContentType::Post => "post".to_owned(),
        }
    }

    /// The kind that a word of the record store names, if any.
    pub fn from_text(s: &str) -> (r: Option<ContentType>)
        ensures
            r matches Some(t) ==> content_type_text(t) == s@,
            r is None ==> forall|t: ContentType| content_type_text(t) != s@,
    {
        if same_text(s, "draft") {
            Some(ContentType::Draft)
        } else if same_text(s, "include") {
            Some(ContentType::Include)
        } else if same_text(s, "page") {
            Some(ContentType::Page)
        } else if same_text(s, "post") {
            Some(ContentType::Post)
        } else {
            proof {
                assert forall|t: ContentType| content_type_text(t) != s@ by {
                    match t {
                        ContentType::Draft => {},
                        ContentType::Include => {},
                        ContentType::Page => {},
                        ContentType::Post => {},
                    }
                }
            }
            None
        }
    }
}

/// One record of an owner: a page, a post, a draft or a fragment that other
/// documents include.
pub struct Document {
    pub owner: String,
    pub title: String,
    pub tags: Vec<String>,
    pub published: Date,
    pub updated: String,
    pub content: String,
    pub header: bool,
    pub footer: bool,
    pub content_type: ContentType,
}

impl Document {
    pub open spec fn wf(self) -> bool {
        self.published.wf()
    }
}

/// The decimal digit for `n`, which is below ten.
pub open spec fn digit(n: int) -> char {
    ((48 + n) as u8) as char
}

impl Date {
    /// A four-digit year, a month from 1 to 12 and a day from 1 to 31.
    pub open spec fn wf(self) -> bool {
        &&& self.year <= 9999
        &&& 1 <= self.month <= 12
        &&& 1 <= self.day <= 31
    }

    /// A number that orders days as the calendar does.
    pub open spec fn key(self) -> int {
        self.year * 10000 + self.month * 100 + self.day
    }

    /// The day written as `YYYY-MM-DD`.
    pub open spec fn text(self) -> Seq<char> {
        let y = self.year as int;
        let m = self.month as int;
        let d = self.day as int;
        seq![
            digit(y / 1000), digit(y / 100 % 10), digit(y / 10 % 10), digit(y % 10),
            '-', digit(m / 10), digit(m % 10),
            '-', digit(d / 10), digit(d % 10),
        ]
    }

    /// Writes the day as `YYYY-MM-DD`.
    pub fn format(&self) -> (r: String)
        requires
            self.wf(),
        ensures
            r@ == self.text(),
    {
        let mut s = String::new();
        push_char(&mut s, digit_char(self.year / 1000));
        push_char(&mut s, digit_char(self.year / 100 % 10));
        push_char(&mut s, digit_char(self.year / 10 % 10));
        push_char(&mut s, digit_char(self.year % 10));
        push_char(&mut s, '-');
        push_char(&mut s, digit_char(self.month / 10));
        push_char(&mut s, digit_char(self.month % 10));
        push_char(&mut s, '-');
        push_char(&mut s, digit_char(self.day / 10));
        push_char(&mut s, digit_char(self.day % 10));
        assert(s@ =~= self.text());
        s
    }
}

/// The separator between tags in the record store.
pub open spec fn tag_separator() -> Seq<char> {
    seq![':', ':', ':']
}

/// The tags written one after the other with the separator between them.
pub open spec fn join_tags(tags: Seq<Seq<char>>) -> Seq<char>
    decreases tags.len(),
{
    if tags.len() == 0 {
        Seq::empty()
    } else if tags.len() == 1 {
        tags[0]
    } else {
        join_tags(tags.drop_last()) + tag_separator() + tags.last()
    }
}

/// Whether a separator starts at position `i` of `s`.
pub open spec fn separator_at(s: Seq<char>, i: int) -> bool {
    0 <= i && i + 3 <= s.len() && s[i] == ':' && s[i + 1] == ':' && s[i + 2] == ':'
}

/// The pieces of `s` from `start` on, cut at each separator found scanning
/// from `i` to the end; `start..i` holds no separator.
pub open spec fn split_from(s: Seq<char>, start: int, i: int) -> Seq<Seq<char>>
    decreases s.len() - i,
{
    if i >= s.len() {
        seq![s.subrange(start, s.len() as int)]
    } else if separator_at(s, i) {
        seq![s.subrange(start, i)] + split_from(s, i + 3, i + 3)
    } else {
        split_from(s, start, i + 1)
    }
}

/// The tags that a column of the record store holds: none for an empty
/// column, else its pieces between separators, read from left to right.
pub open spec fn split_tags(s: Seq<char>) -> Seq<Seq<char>> {
    if s.len() == 0 {
        Seq::empty()
    } else {
        split_from(s, 0, 0)
    }
}

pub open spec fn texts_view(v: Seq<String>) -> Seq<Seq<char>> {
    v.map_values(|t: String| t@)
}

/// Writes tags as one column of the record store.
pub fn encode_tags(tags: &Vec<String>) -> (r: String)
    ensures
        r@ == join_tags(texts_view(tags@)),
{
    let mut s = String::new();
    let n = tags.len();
    for i in 0..n
        invariant
            n == tags@.len(),
            s@ == join_tags(texts_view(tags@).take(i as int)),
    {
        let ghost t = texts_view(tags@).take(i + 1);
        assert(t.drop_last() =~= texts_view(tags@).take(i as int));
        if i > 0 {
            push_text(&mut s, ":::");
            proof {
                reveal_strlit(":::");
            }
        }
        push_text(&mut s, tags[i].as_str());
        assert(s@ =~= join_tags(t));
    }
    assert(texts_view(tags@).take(n as int) =~= texts_view(tags@));
    s
}

/// Reads the tags of one column of the record store.
pub fn decode_tags(s: &str) -> (r: Vec<String>)
    ensures
        texts_view(r@) == split_tags(s@),
{
    let mut out: Vec<String> = Vec::new();
    let n = s.unicode_len();
    if n == 0 {
        assert(texts_view(out@) =~= split_tags(s@));
        return out;
    }
    let mut start: usize = 0;
    let mut i: usize = 0;
    while i < n
        invariant
            n == s@.len(),
            start <= i <= n,
            texts_view(out@) + split_from(s@, start as int, i as int) == split_from(s@, 0, 0),
        decreases n - i,
    {
        if n - i >= 3 && s.get_char(i) == ':' && s.get_char(i + 1) == ':' && s.get_char(i + 2) == ':' {
            let piece = s.substring_char(start, i).to_owned();
            let ghost before = out@;
            out.push(piece);
            assert(texts_view(out@) =~= texts_view(before).push(piece@));
            assert(texts_view(out@) + split_from(s@, (i + 3) as int, (i + 3) as int) =~= texts_view(before)
                + split_from(s@, start as int, i as int));
            i = i + 3;
            start = i;
        } else {
            i = i + 1;
        }
    }
    let piece = s.substring_char(start, n).to_owned();
    let ghost before = out@;
    out.push(piece);
    assert(texts_view(out@) =~= texts_view(before) + split_from(s@, start as int, i as int));
    out
}

proof fn lemma_scan_segment(s: Seq<char>, start: int, i: int, j: int)
    requires
        0 <= start <= i <= j <= s.len(),
        forall|k: int| i <= k < j ==> s[k] != ':',
        j == s.len() || separator_at(s, j),
    ensures
        split_from(s, start, i) == if j == s.len() {
            seq![s.subrange(start, j)]
        } else {
            seq![s.subrange(start, j)] + split_from(s, j + 3, j + 3)
        },
    decreases j - i,
{
    if i < j {
        lemma_scan_segment(s, start, i + 1, j);
    }
}

proof fn lemma_join_front(tags: Seq<Seq<char>>)
    requires
        tags.len() >= 2,
    ensures
        join_tags(tags) == tags[0] + tag_separator() + join_tags(tags.drop_first()),
    decreases tags.len(),
{
    if tags.len() == 2 {
        assert(tags.drop_last().len() == 1);
        assert(tags.drop_first().len() == 1);
        assert(join_tags(tags.drop_first()) == tags[1]);
        assert(join_tags(tags.drop_last()) == tags[0]);
        assert(join_tags(tags) =~= tags[0] + tag_separator() + join_tags(tags.drop_first()));
    } else {
        lemma_join_front(tags.drop_last());
        assert(tags.drop_last().drop_first() =~= tags.drop_first().drop_last());
        assert(tags.drop_first().last() == tags.last());
        assert(join_tags(tags) =~= tags[0] + tag_separator() + join_tags(tags.drop_first()));
    }
}

proof fn lemma_split_joined(s: Seq<char>, k: int, tags: Seq<Seq<char>>)
    requires
        0 <= k <= s.len(),
        tags.len() >= 1,
        s.subrange(k, s.len() as int) == join_tags(tags),
        forall|t: int, c: int| 0 <= t < tags.len() && 0 <= c < tags[t].len() ==> tags[t][c] != ':',
    ensures
        split_from(s, k, k) == tags,
    decreases tags.len(),
{
    let rest = s.subrange(k, s.len() as int);
    if tags.len() == 1 {
        assert(join_tags(tags) == tags[0]);
        assert forall|c: int| k <= c < s.len() implies s[c] != ':' by {
            assert(rest[c - k] == s[c]);
        }
        lemma_scan_segment(s, k, k, s.len() as int);
        assert(seq![s.subrange(k, s.len() as int)] =~= tags);
    } else {
        lemma_join_front(tags);
        let j = k + tags[0].len();
        let tail = tags.drop_first();
        assert(rest == tags[0] + tag_separator() + join_tags(tail));
        assert(rest.len() == tags[0].len() + 3 + join_tags(tail).len());
        assert forall|c: int| k <= c < j implies s[c] != ':' by {
            assert(rest[c - k] == tags[0][c - k]);
        }
        assert(rest[j - k] == ':' && rest[j - k + 1] == ':' && rest[j - k + 2] == ':');
        assert(separator_at(s, j));
        lemma_scan_segment(s, k, k, j);
        assert(s.subrange(k, j) =~= tags[0]);
        assert forall|c: int| 0 <= c < join_tags(tail).len() implies s.subrange(j + 3, s.len() as int)[c]
            == join_tags(tail)[c] by {
            assert(rest[j - k + 3 + c] == join_tags(tail)[c]);
        }
        assert(s.subrange(j + 3, s.len() as int) =~= join_tags(tail));
        lemma_split_joined(s, j + 3, tail);
        assert(seq![tags[0]] + tail =~= tags);
    }
}

/// Reading back a column of tags gives the tags that were written, where each
/// tag is nonempty and holds no colon.
pub proof fn lemma_tags_round_trip(tags: Seq<Seq<char>>)
    requires
        forall|t: int| 0 <= t < tags.len() ==> tags[t].len() > 0,
        forall|t: int, c: int| 0 <= t < tags.len() && 0 <= c < tags[t].len() ==> tags[t][c] != ':',
    ensures
        split_tags(join_tags(tags)) == tags,
{
    let s = join_tags(tags);
    if tags.len() == 0 {
        assert(split_tags(s) =~= tags);
    } else {
        if tags.len() == 1 {
            assert(s == tags[0]);
        } else {
            lemma_join_front(tags);
        }
        assert(s.len() > 0);
        assert(s.subrange(0, s.len() as int) =~= s);
        lemma_split_joined(s, 0, tags);
    }
}

/// The value of a decimal digit.
pub open spec fn digit_value(c: char) -> int {
    c as int - 48
}

/// The day that `s` writes as `YYYY-MM-DD`, if it writes one with a month from
/// 1 to 12 and a day from 1 to 31.
pub open spec fn parse_date(s: Seq<char>) -> Option<Date> {
    if s.len() == 10 && is_ascii_digit(s[0]) && is_ascii_digit(s[1]) && is_ascii_digit(s[2])
        && is_ascii_digit(s[3]) && s[4] == '-' && is_ascii_digit(s[5]) && is_ascii_digit(s[6]) && s[7]
        == '-' && is_ascii_digit(s[8]) && is_ascii_digit(s[9]) {
        let y = digit_value(s[0]) * 1000 + digit_value(s[1]) * 100 + digit_value(s[2]) * 10
            + digit_value(s[3]);
        let m = digit_value(s[5]) * 10 + digit_value(s[6]);
        let d = digit_value(s[8]) * 10 + digit_value(s[9]);
        if 1 <= m <= 12 && 1 <= d <= 31 {
            Some(Date { year: y as u32, month: m as u32, day: d as u32 })
        } else {
            None
        }
    } else {
        None
    }
}

fn digit_at(s: &str, i: usize) -> (r: Option<u32>)
    requires
        i < s@.len(),
    ensures
        r is Some <==> is_ascii_digit(s@[i as int]),
        r matches Some(v) ==> v == digit_value(s@[i as int]) && v < 10,
{
    let c = s.get_char(i);
    if '0' <= c && c <= '9' {
        Some(c as u32 - 48)
    } else {
        None
    }
}

impl Date {
    /// Reads a day written as `YYYY-MM-DD`.
    pub fn parse(s: &str) -> (r: Option<Date>)
        ensures
            r == parse_date(s@),
            r matches Some(d) ==> d.wf(),
    {
        if s.unicode_len() != 10 {
            return None;
        }
        if s.get_char(4) != '-' || s.get_char(7) != '-' {
            return None;
        }
        let (y0, y1, y2, y3, m0, m1, d0, d1) = match (
            digit_at(s, 0),
            digit_at(s, 1),
            digit_at(s, 2),
            digit_at(s, 3),
            digit_at(s, 5),
            digit_at(s, 6),
            digit_at(s, 8),
            digit_at(s, 9),
        ) {
            (Some(y0), Some(y1), Some(y2), Some(y3), Some(m0), Some(m1), Some(d0), Some(d1)) => (
                y0,
                y1,
                y2,
                y3,
                m0,
                m1,
                d0,
                d1,
            ),
            _ => {
                return None;
            },
        };
        let year = y0 * 1000 + y1 * 100 + y2 * 10 + y3;
        let month = m0 * 10 + m1;
        let day = d0 * 10 + d1;
        if 1 <= month && month <= 12 && 1 <= day && day <= 31 {
            Some(Date { year, month, day })
        } else {
            None
        }
    }
}

proof fn lemma_digit(n: int)
    requires
        0 <= n < 10,
    ensures
        digit_value(digit(n)) == n,
        is_ascii_digit(digit(n)),
{
}

proof fn lemma_four_digits(y: int)
    requires
        0 <= y <= 9999,
    ensures
        (y / 1000) * 1000 + (y / 100 % 10) * 100 + (y / 10 % 10) * 10 + y % 10 == y,
        0 <= y / 1000 < 10,
{
    let q = y / 10;
    assert(y == q * 10 + y % 10);
    assert(q / 10 == y / 100);
    assert(q == (q / 10) * 10 + q % 10);
    let r = y / 100;
    assert(r / 10 == y / 1000);
    assert(r == (r / 10) * 10 + r % 10);
}

/// Writing a day and reading it back gives the same day.
pub proof fn lemma_date_round_trip(d: Date)
    requires
        d.wf(),
    ensures
        parse_date(d.text()) == Some(d),
{
    let y = d.year as int;
    let m = d.month as int;
    let dd = d.day as int;
    let (a0, a1, a2, a3) = (y / 1000, y / 100 % 10, y / 10 % 10, y % 10);
    let (b0, b1, c0, c1) = (m / 10, m % 10, dd / 10, dd % 10);
    assert(0 <= a0 < 10 && 0 <= a1 < 10 && 0 <= a2 < 10 && 0 <= a3 < 10);
    assert(0 <= b0 < 10 && 0 <= b1 < 10 && 0 <= c0 < 10 && 0 <= c1 < 10);
    lemma_digit(a0);
    lemma_digit(a1);
    lemma_digit(a2);
    lemma_digit(a3);
    lemma_digit(b0);
    lemma_digit(b1);
    lemma_digit(c0);
    lemma_digit(c1);
    let t = d.text();
    assert(t[0] == digit(a0) && t[1] == digit(a1) && t[2] == digit(a2) && t[3] == digit(a3));
    assert(t[5] == digit(b0) && t[6] == digit(b1) && t[8] == digit(c0) && t[9] == digit(c1));
    lemma_four_digits(y);
    assert(b0 * 10 + b1 == m);
    assert(c0 * 10 + c1 == dd);
}

/// Relies on chrono's `Local::now` and `Datelike`: the year, the month (from
/// 1 to 12) and the day of the month (from 1 to 31) of today's local date.
#[verifier::external_body]
fn local_today() -> (r: (i32, u32, u32))
    ensures
        1 <= r.1 <= 12,
        1 <= r.2 <= 31,
{
    let d = chrono::Local::now().date_naive();
    (d.year(), d.month(), d.day())
}

/// Relies on chrono's `Utc::now` and its formatting: the current time in UTC,
/// written `%Y-%m-%d %H:%M:%S`, where the year takes at least four characters
/// and every other field two.
#[verifier::external_body]
fn utc_timestamp() -> (r: String)
    ensures
        r@.len() >= 19,
{
    chrono::Utc::now().format("%Y-%m-%d %H:%M:%S").to_string()
}

impl Date {
    /// The day with the given year, month and day of the month, where those
    /// make a four-digit year, a month from 1 to 12 and a day from 1 to 31.
    pub fn from_calendar(year: i32, month: u32, day: u32) -> (r: Option<Date>)
        ensures
            r is Some <==> (0 <= year <= 9999 && 1 <= month <= 12 && 1 <= day <= 31),
            r matches Some(d) ==> d.wf() && d.year == year && d.month == month && d.day == day,
    {
        if 0 <= year && year <= 9999 && 1 <= month && month <= 12 && 1 <= day && day <= 31 {
            Some(Date { year: year as u32, month, day })
        } else {
            None
        }
    }

    /// Today's local date, where its year has four digits.
    pub fn today() -> (r: Option<Date>)
        ensures
            r matches Some(d) ==> d.wf(),
    {
        let (y, m, d) = local_today();
        Date::from_calendar(y, m, d)
    }
}

/// Content of the footer that a new capsule starts with.
pub open spec fn default_footer() -> Seq<char> {
    "\n-------\n{{ tags-list }}\n=> /index.gmi Home\n=> /archive Archive\n=> /orbit Other capsules in my orbit\n=> gemini://trebuchet.hugh.run Made with Trebuchet\n"@
}

/// Content of the home page that a new capsule starts with.
pub open spec fn default_index() -> Seq<char> {
    "# My Gemini Capsule\n\nWelcome to my Gemini capsule, published with Trebuchet.\n\n{{ latest }}\n"@
}

/// Content of the page of other capsules that a new capsule starts with.
pub open spec fn default_orbit() -> Seq<char> {
    "# Other Gemini capsules in my orbit\n\n=> gemini://gemini.circumlunar.space/capcom CAPCOM: an aggregator for Atom feeds of Gemini content\n=> gemini://trebuchet.hugh.run Trebuchet: a web application for publishing Gemini capsules\n"@
}

/// A document of `owner` with the given title, content and kind, no tags,
/// both fragments asked for, and the given dates.
pub open spec fn is_new_document(
    d: Document,
    owner: Seq<char>,
    title: Seq<char>,
    content: Seq<char>,
    content_type: ContentType,
    published: Date,
    updated: Seq<char>,
) -> bool {
    &&& d.owner@ == owner
    &&& d.title@ == title
    &&& d.tags@.len() == 0
    &&& d.content@ == content
    &&& d.content_type == content_type
    &&& d.published == published
    &&& d.updated@ == updated
    &&& d.header
    &&& d.footer
}

/// The documents that a new capsule starts with: its footer, its home page
/// and a page of other capsules.
pub open spec fn is_default_set(docs: Seq<Document>, owner: Seq<char>, published: Date, updated: Seq<char>) -> bool {
    &&& docs.len() == 3
    &&& is_new_document(docs[0], owner, "includes.footer"@, default_footer(), ContentType::Include, published, updated)
    &&& is_new_document(docs[1], owner, "index.gmi"@, default_index(), ContentType::Include, published, updated)
    &&& is_new_document(docs[2], owner, "Orbit"@, default_orbit(), ContentType::Page, published, updated)
}

fn create_document(
    email: &String,
    title: String,
    tags: Vec<String>,
    content: String,
    content_type: ContentType,
    published: Date,
    updated: &String,
) -> (r: Document)
    ensures
        r.owner@ == email@,
        r.title == title,
        r.tags == tags,
        r.content == content,
        r.content_type == content_type,
        r.published == published,
        r.updated@ == updated@,
        r.header,
        r.footer,
{
    Document {
        owner: email.clone(),
        title,
        tags,
        published,
        updated: updated.clone(),
        content,
        header: true,
        footer: true,
        content_type,
    }
}

/// The documents that a new capsule of `owner` starts with, dated as given.
pub fn default_documents(owner: &String, published: Date, updated: &String) -> (r: Vec<Document>)
    ensures
        is_default_set(r@, owner@, published, updated@),
{
    let mut docs: Vec<Document> = Vec::new();
    docs.push(create_document(owner, "includes.footer".to_owned(), Vec::new(), "\n-------\n{{ tags-list }}\n=> /index.gmi Home\n=> /archive Archive\n=> /orbit Other capsules in my orbit\n=> gemini://trebuchet.hugh.run Made with Trebuchet\n".to_owned(), ContentType::Include, published, updated));
    docs.push(create_document(owner, "index.gmi".to_owned(), Vec::new(), "# My Gemini Capsule\n\nWelcome to my Gemini capsule, published with Trebuchet.\n\n{{ latest }}\n".to_owned(), ContentType::Include, published, updated));
    docs.push(create_document(owner, "Orbit".to_owned(), Vec::new(), "# Other Gemini capsules in my orbit\n\n=> gemini://gemini.circumlunar.space/capcom CAPCOM: an aggregator for Atom feeds of Gemini content\n=> gemini://trebuchet.hugh.run Trebuchet: a web application for publishing Gemini capsules\n".to_owned(), ContentType::Page, published, updated));
    docs
}

/// The documents that a new capsule of `user` starts with, dated today.
/// Fails with `IoError` where the clock reads a year outside four digits.
pub fn initiate_capsule(user: &User) -> (r: Result<Vec<Document>, TrebuchetError>)
    ensures
        r matches Ok(docs) ==> docs@.len() == 3 && docs@[0].published.wf() && docs@[0].updated@.len()
            >= 19 && is_default_set(
            docs@,
            user.email@,
            docs@[0].published,
            docs@[0].updated@,
        ),
        r matches Err(e) ==> e.kind == TrebuchetErrorType::IoError,
{
    match Date::today() {
        Some(published) => {
            let updated = utc_timestamp();
            Ok(default_documents(&user.email, published, &updated))
        },
        None => Err(TrebuchetError {
            kind: TrebuchetErrorType::IoError,
            message: "the clock reads a year outside 0 to 9999".to_owned(),
        }),
    }
}

/// Decides the outcome of marking an account confirmed from the number of
/// records the update changed: exactly one is success.
pub fn confirm_user(user: User, rows_affected: usize) -> (r: Result<User, TrebuchetError>)
    ensures
        rows_affected == 1 <==> r is Ok,
        r matches Ok(u) ==> u == user,
        r matches Err(e) ==> (rows_affected == 0 ==> e.kind == TrebuchetErrorType::NotFound && e.message@
            == "No matching rows found"@) && (rows_affected > 1 ==> e.kind
            == TrebuchetErrorType::TooManyMatches && e.message@
            == "More than one row matches but only one row should!"@),
{
    if rows_affected == 1 {
        Ok(user)
    } else if rows_affected == 0 {
        Err(TrebuchetError {
            kind: TrebuchetErrorType::NotFound,
            message: "No matching rows found".to_owned(),
        })
    } else {
        Err(TrebuchetError {
            kind: TrebuchetErrorType::TooManyMatches,
            message: "More than one row matches but only one row should!".to_owned(),
        })
    }
}

fn digit_char(n: u32) -> (r: char)
    requires
        n < 10,
    ensures
        r == digit(n as int),
{
    ((n as u8) + 48) as char
}

} // verus!
