use trebuchet::capsule::{
    classify, listing_entry_of, plan_capsule, post_key_of, render, resolve_path, OutputFile,
};
use trebuchet::database::{default_documents, ContentType, Date, Document};
use trebuchet::error::TrebuchetErrorType;

fn doc(title: &str, kind: ContentType, date: (i32, u32, u32), tags: &[&str], content: &str) -> Document {
    Document {
        owner: "a@x.com".to_string(),
        title: title.to_string(),
        tags: tags.iter().map(|t| t.to_string()).collect(),
        published: Date::from_calendar(date.0, date.1, date.2).unwrap(),
        updated: "2024-01-01 00:00:00".to_string(),
        content: content.to_string(),
        header: false,
        footer: true,
        content_type: kind,
    }
}

fn file<'a>(files: &'a [OutputFile], path: &str) -> Option<&'a str> {
    files.iter().find(|f| f.path == path).map(|f| f.content.as_str())
}

fn scenario() -> Vec<Document> {
    vec![
        doc("includes.footer", ContentType::Include, (2024, 1, 1), &[], "BYE"),
        doc("About", ContentType::Page, (2023, 6, 1), &[], "About body"),
        doc("Hi", ContentType::Post, (2024, 1, 1), &["intro"], "Hi body"),
    ]
}

#[test]
fn render_with_both_fragments() {
    assert_eq!(render("B", "H", "F", true, true), "H\nB\nF");
}

#[test]
fn render_without_fragments() {
    assert_eq!(render("B", "H", "F", false, false), "B");
    assert_eq!(render("B", "H", "F", true, false), "H\nB");
    assert_eq!(render("B", "H", "F", false, true), "B\nF");
}

#[test]
fn render_with_absent_header() {
    assert_eq!(render("B", "", "F", true, true), "\nB\nF");
}

#[test]
fn scenario_owner_with_footer_page_and_post() {
    let files = plan_capsule(&scenario(), &"cap".to_string()).ok().unwrap();
    assert_eq!(file(&files, "cap/about/index"), Some("About body\nBYE"));
    assert_eq!(file(&files, "cap/2024-01-01-hi/index"), Some("Hi body\nBYE"));
    assert_eq!(file(&files, "cap/tag-intro/index"), Some("=> /2024-01-01-hi 2024-01-01 - Hi\n"));
    assert_eq!(file(&files, "cap/index"), Some(""));
    assert_eq!(files.len(), 4);
    let order: Vec<&str> = files.iter().map(|f| f.path.as_str()).collect();
    assert_eq!(order, vec!["cap/tag-intro/index", "cap/about/index", "cap/2024-01-01-hi/index", "cap/index"]);
}

#[test]
fn conflicting_page_slugs_fail() {
    let docs = vec![
        doc("Cafe", ContentType::Page, (2024, 1, 1), &[], "one"),
        doc("cafe!", ContentType::Page, (2024, 1, 2), &[], "two"),
    ];
    let e = plan_capsule(&docs, &"cap".to_string()).err().unwrap();
    assert_eq!(e.kind, TrebuchetErrorType::ConflictError);
    assert_eq!(e.message, "cafe");
}

#[test]
fn accented_title_does_not_share_a_slug_with_plain_one() {
    let docs = vec![
        doc("Café", ContentType::Page, (2024, 1, 1), &[], "one"),
        doc("cafe", ContentType::Page, (2024, 1, 2), &[], "two"),
    ];
    let files = plan_capsule(&docs, &"cap".to_string()).ok().unwrap();
    assert_eq!(file(&files, "cap/caf/index"), Some("one\n"));
    assert_eq!(file(&files, "cap/cafe/index"), Some("two\n"));
}

#[test]
fn page_with_tag_slug_conflicts_with_tag_listing() {
    let docs = vec![
        doc("tag news", ContentType::Page, (2024, 1, 1), &[], "one"),
        doc("Post", ContentType::Post, (2024, 1, 2), &["news"], "two"),
    ];
    let e = plan_capsule(&docs, &"cap".to_string()).err().unwrap();
    assert_eq!(e.kind, TrebuchetErrorType::ConflictError);
    assert_eq!(e.message, "tag-news");
}

#[test]
fn owner_without_documents_is_not_found() {
    let e = plan_capsule(&Vec::new(), &"cap".to_string()).err().unwrap();
    assert_eq!(e.kind, TrebuchetErrorType::NotFound);
}

#[test]
fn publishing_twice_gives_identical_files() {
    let a = plan_capsule(&scenario(), &"cap".to_string()).ok().unwrap();
    let b = plan_capsule(&scenario(), &"cap".to_string()).ok().unwrap();
    assert_eq!(a.len(), b.len());
    for (x, y) in a.iter().zip(b.iter()) {
        assert_eq!(x.path, y.path);
        assert_eq!(x.content, y.content);
    }
}

#[test]
fn latest_holds_ten_newest_posts_in_order() {
    let days = [7u32, 3, 12, 1, 9, 5, 11, 2, 8, 4, 10, 6];
    let mut docs = vec![doc("Home", ContentType::Page, (2020, 1, 1), &[], "home")];
    for d in days {
        docs.push(doc(&format!("Post {}", d), ContentType::Post, (2024, 3, d), &[], "x"));
    }
    let g = classify(&docs);
    assert_eq!(g.latest.len(), 10);
    let expected: Vec<String> = (3..=12u32)
        .rev()
        .map(|d| format!("=> /2024-03-{:02}-post-{} 2024-03-{:02} - Post {}\n", d, d, d, d))
        .collect();
    assert_eq!(g.latest, expected);
    assert_eq!(g.posts.len(), 12);
    assert_eq!(g.posts[0].dir, "2024-03-12-post-12");
    assert_eq!(g.posts[11].dir, "2024-03-01-post-1");
}

#[test]
fn latest_with_few_posts_holds_them_all() {
    let docs = vec![
        doc("Old", ContentType::Post, (2023, 1, 1), &[], "x"),
        doc("New", ContentType::Post, (2024, 1, 1), &[], "y"),
    ];
    let g = classify(&docs);
    assert_eq!(g.latest.len(), 2);
    assert_eq!(g.latest[0], "=> /2024-01-01-new 2024-01-01 - New\n");
    assert_eq!(g.latest[1], "=> /2023-01-01-old 2023-01-01 - Old\n");
}

#[test]
fn posts_of_one_day_keep_their_order() {
    let docs = vec![
        doc("First", ContentType::Post, (2024, 1, 1), &[], "x"),
        doc("Second", ContentType::Post, (2024, 1, 1), &[], "y"),
    ];
    let g = classify(&docs);
    assert_eq!(g.posts[0].dir, "2024-01-01-first");
    assert_eq!(g.posts[1].dir, "2024-01-01-second");
}

#[test]
fn every_tag_slug_gets_one_bucket_with_each_document_once() {
    let docs = vec![
        doc("Hi", ContentType::Post, (2024, 1, 1), &["Intro", "intro!", "Misc"], "a"),
        doc("About", ContentType::Page, (2024, 1, 2), &["misc"], "b"),
        doc("Footer", ContentType::Include, (2024, 1, 2), &["misc"], "c"),
        doc("Loose", ContentType::Page, (2024, 1, 3), &["!!!"], "d"),
    ];
    let g = classify(&docs);
    assert_eq!(g.tags.len(), 2);
    assert_eq!(g.tags[0].tag, "intro");
    assert_eq!(g.tags[0].entries, vec!["=> /2024-01-01-hi 2024-01-01 - Hi\n".to_string()]);
    assert_eq!(g.tags[1].tag, "misc");
    assert_eq!(
        g.tags[1].entries,
        vec!["=> /2024-01-01-hi 2024-01-01 - Hi\n".to_string(), "=> /about About\n".to_string()]
    );
}

#[test]
fn drafts_appear_nowhere() {
    let mut docs = scenario();
    let with_draft = {
        let mut v = scenario();
        v.insert(1, doc("Secret", ContentType::Draft, (2025, 1, 1), &["intro", "hidden"], "secret"));
        v
    };
    let a = plan_capsule(&docs, &"cap".to_string()).ok().unwrap();
    let b = plan_capsule(&with_draft, &"cap".to_string()).ok().unwrap();
    assert_eq!(a.len(), b.len());
    for (x, y) in a.iter().zip(b.iter()) {
        assert_eq!(x.path, y.path);
        assert_eq!(x.content, y.content);
    }
    assert!(b.iter().all(|f| !f.content.contains("secret") && !f.path.contains("secret")));
    let g = classify(&with_draft);
    assert!(g.tags.iter().all(|t| t.tag != "hidden"));
    assert_eq!(g.latest.len(), 1);
    docs.clear();
}

#[test]
fn fragments_are_composed_as_each_document_asks() {
    let mut page = doc("Page", ContentType::Page, (2024, 1, 1), &[], "body");
    page.header = true;
    page.footer = false;
    let docs = vec![
        doc("includes.header", ContentType::Include, (2024, 1, 1), &[], "TOP"),
        page,
        doc("index.gmi", ContentType::Include, (2024, 1, 1), &[], "# Home"),
    ];
    let files = plan_capsule(&docs, &"cap".to_string()).ok().unwrap();
    assert_eq!(file(&files, "cap/page/index"), Some("TOP\nbody"));
    assert_eq!(file(&files, "cap/index"), Some("# Home"));
}

#[test]
fn includes_are_recognised_by_kind_as_well_as_title() {
    let docs = vec![
        doc("includes.footer", ContentType::Page, (2024, 1, 1), &[], "not a footer"),
        doc("Real", ContentType::Page, (2024, 1, 1), &[], "body"),
    ];
    let g = classify(&docs);
    assert_eq!(g.footer, "");
    assert_eq!(g.pages.len(), 2);
}

#[test]
fn keys_paths_and_entries() {
    let post = doc("Hello World", ContentType::Post, (2024, 12, 25), &[], "x");
    assert_eq!(post_key_of(&post), "2024-12-25-hello-world");
    assert_eq!(listing_entry_of(&post), "=> /2024-12-25-hello-world 2024-12-25 - Hello World\n");
    let page = doc("About Me", ContentType::Page, (2024, 12, 25), &[], "x");
    assert_eq!(listing_entry_of(&page), "=> /about-me About Me\n");
    assert_eq!(resolve_path("cap", "about-me"), "cap/about-me/index");
    assert_eq!(resolve_path("cap", ""), "cap/index");
}

#[test]
fn new_capsule_publishes_index_and_orbit() {
    let date = Date::from_calendar(2024, 3, 1).unwrap();
    let docs = default_documents(&"a@x.com".to_string(), date, &"2024-03-01 10:00:00".to_string());
    let files = plan_capsule(&docs, &"cap".to_string()).ok().unwrap();
    let paths: Vec<&str> = files.iter().map(|f| f.path.as_str()).collect();
    assert_eq!(paths, vec!["cap/orbit/index", "cap/index"]);
    let orbit = file(&files, "cap/orbit/index").unwrap();
    assert_eq!(orbit, format!("\n{}\n{}", docs[2].content, docs[0].content));
    assert_eq!(file(&files, "cap/index"), Some(docs[1].content.as_str()));
}

#[test]
fn tag_with_empty_slug_is_dropped_without_failing() {
    let docs = vec![doc("Note", ContentType::Page, (2024, 1, 1), &["!!!", "ok"], "n")];
    let files = plan_capsule(&docs, &"cap".to_string()).ok().unwrap();
    assert!(file(&files, "cap/tag-/index").is_none());
    assert_eq!(file(&files, "cap/tag-ok/index"), Some("=> /note Note\n"));
}
