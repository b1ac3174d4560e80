use trebuchet::database::{
    confirm_user, decode_tags, default_documents, encode_tags, initiate_capsule, ContentType, Date,
};
use trebuchet::error::TrebuchetErrorType;
use trebuchet::utils::User;

fn user() -> User {
    User { email: "a@x.com".to_string(), capsule: "cap".to_string(), token: "t".to_string() }
}

#[test]
fn date_is_written_with_fixed_width() {
    let d = Date::from_calendar(2024, 1, 5).unwrap();
    assert_eq!(d.format(), "2024-01-05");
    let early = Date::from_calendar(7, 12, 31).unwrap();
    assert_eq!(early.format(), "0007-12-31");
}

#[test]
fn date_out_of_range_is_refused() {
    assert!(Date::from_calendar(10000, 1, 1).is_none());
    assert!(Date::from_calendar(-1, 1, 1).is_none());
    assert!(Date::from_calendar(2024, 13, 1).is_none());
    assert!(Date::from_calendar(2024, 1, 0).is_none());
}

#[test]
fn date_is_read_back() {
    let d = Date::parse("2024-02-29").unwrap();
    assert_eq!(d, Date { year: 2024, month: 2, day: 29 });
    assert_eq!(Date::parse(&d.format()), Some(d));
    assert!(Date::parse("2024-2-29").is_none());
    assert!(Date::parse("2024-13-01").is_none());
    assert!(Date::parse("2024/01/01").is_none());
    assert!(Date::parse("").is_none());
}

#[test]
fn today_has_a_valid_date() {
    let d = Date::today().unwrap();
    assert!(d.month >= 1 && d.month <= 12);
    assert!(d.day >= 1 && d.day <= 31);
    assert!(d.year >= 2024);
}

#[test]
fn content_type_words() {
    assert_eq!(ContentType::Post.as_text(), "post");
    assert_eq!(ContentType::Include.as_text(), "include");
    assert_eq!(ContentType::from_text("page"), Some(ContentType::Page));
    assert_eq!(ContentType::from_text("draft"), Some(ContentType::Draft));
    assert_eq!(ContentType::from_text("Page"), None);
}

#[test]
fn default_documents_of_a_new_capsule() {
    let date = Date::from_calendar(2024, 3, 1).unwrap();
    let docs = default_documents(&"a@x.com".to_string(), date, &"2024-03-01 10:00:00".to_string());
    assert_eq!(docs.len(), 3);
    assert_eq!(docs[0].title, "includes.footer");
    assert_eq!(docs[0].content_type, ContentType::Include);
    assert!(docs[0].content.contains("{{ tags-list }}"));
    assert_eq!(docs[1].title, "index.gmi");
    assert!(docs[1].content.starts_with("# My Gemini Capsule"));
    assert_eq!(docs[2].title, "Orbit");
    assert_eq!(docs[2].content_type, ContentType::Page);
    assert!(docs.iter().all(|d| d.owner == "a@x.com" && d.published == date && d.header && d.footer));
}

#[test]
fn initiate_capsule_dates_documents_today() {
    let docs = initiate_capsule(&user()).ok().unwrap();
    assert_eq!(docs.len(), 3);
    assert_eq!(docs[0].published, Date::today().unwrap());
    assert_eq!(docs[0].updated.chars().count(), 19);
}

#[test]
fn confirmation_needs_exactly_one_row() {
    assert_eq!(confirm_user(user(), 1).ok().unwrap().email, "a@x.com");
    let none = confirm_user(user(), 0).err().unwrap();
    assert_eq!(none.kind, TrebuchetErrorType::NotFound);
    assert_eq!(none.message, "No matching rows found");
    let many = confirm_user(user(), 2).err().unwrap();
    assert_eq!(many.kind, TrebuchetErrorType::TooManyMatches);
}

#[test]
fn tags_are_joined_with_triple_colons() {
    let tags = vec!["rust".to_string(), "web dev".to_string(), "gemini".to_string()];
    assert_eq!(encode_tags(&tags), "rust:::web dev:::gemini");
    assert_eq!(encode_tags(&Vec::new()), "");
    assert_eq!(encode_tags(&vec!["one".to_string()]), "one");
}

#[test]
fn tags_are_split_back() {
    assert_eq!(decode_tags("rust:::web dev:::gemini"), vec!["rust", "web dev", "gemini"]);
    assert_eq!(decode_tags("one"), vec!["one"]);
    assert!(decode_tags("").is_empty());
    assert_eq!(decode_tags("a::::b"), vec!["a", ":b"]);
    assert_eq!(decode_tags(":::"), vec!["", ""]);
    let tags = vec!["x".to_string(), "y z".to_string()];
    assert_eq!(decode_tags(&encode_tags(&tags)), tags);
}

#[test]
fn user_initiates_capsule_with_default_documents() {
    let docs = user().initiate_capsule().ok().unwrap();
    assert_eq!(docs.len(), 3);
    assert!(docs.iter().all(|d| d.owner == "a@x.com"));
    assert_eq!(docs[2].title, "Orbit");
}
