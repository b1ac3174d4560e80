use trebuchet::error::{build_token_error, TrebuchetError, TrebuchetErrorType};
use trebuchet::utils::{hyphenate, EmailType, User};

#[test]
fn utils_build_user_returns_user() {
    let built_user = User::new("hello@email.com".to_string(), "capsule_name".to_string());
    let user_two = User {
        email: "hello@email.com".to_string(),
        capsule: "capsule_name".to_string(),
        token: "randomstring".to_string(),
    };

    assert_eq!(built_user.email, user_two.email);
    assert_eq!(built_user.capsule, user_two.capsule);
}

#[test]
fn new_user_token_is_fifty_two_letters_or_digits() {
    let u = User::new("a@x.com".to_string(), "cap".to_string());
    assert_eq!(u.token.chars().count(), 52);
    assert!(u.token.chars().all(|c| c.is_ascii_alphanumeric()));
    let v = User::new("a@x.com".to_string(), "cap".to_string());
    assert_ne!(u.token, v.token);
}

#[test]
fn slug_ignores_case_and_punctuation() {
    assert_eq!(hyphenate("My Cool Post!".to_string()), "my-cool-post");
    assert_eq!(hyphenate("my cool post!!!".to_string()), "my-cool-post");
}

#[test]
fn slug_of_edge_cases() {
    assert_eq!(hyphenate(String::new()), "");
    assert_eq!(hyphenate("!!!".to_string()), "");
    assert_eq!(hyphenate("Café".to_string()), "caf");
    assert_eq!(hyphenate("Rust 2024 Notes".to_string()), "rust-2024-notes");
    assert_eq!(hyphenate("a  b".to_string()), "a--b");
}

fn user() -> User {
    User { email: "a@x.com".to_string(), capsule: "cap".to_string(), token: "tok123".to_string() }
}

#[test]
fn confirmation_email_text() {
    let text = user().initiate_login(EmailType::Confirm);
    assert_eq!(
        text,
        "Hello!\n\nYou are being invited to publish a Gemini capsule named cap, via https://example.com.\n\nOpen the link below to confirm.\n\n<a href=\"https://example.com/Confirm?token=tok123\">https://example.com/Confirm?token=tok123</a>"
    );
}

#[test]
fn login_email_text() {
    let text = user().initiate_login(EmailType::LogIn);
    assert_eq!(
        text,
        "Hello!\n\nYou or someone else initiated a login at https://example.com.\n\nOpen the link below to complete your login.\n\n<a href=\"https://example.com/LogIn?token=tok123\">https://example.com/LogIn?token=tok123</a>\n\nIf this was not you, ignore this email or advise your server administrator."
    );
}

#[test]
fn deletion_email_text() {
    let text = user().initiate_login(EmailType::Delete);
    assert_eq!(
        text,
        "Hello\n\nYour Gemini capsule named cap, served from https://example.com, has been deleted."
    );
}

#[test]
fn matching_token_keeps_user() {
    let r = user().match_token(&"tok123".to_string(), None);
    let u = r.ok().unwrap();
    assert_eq!(u.email, "a@x.com");
}

#[test]
fn mismatched_tokens_give_token_errors() {
    let used = user().match_token(&"other".to_string(), Some(true)).err().unwrap();
    assert_eq!(used.kind, TrebuchetErrorType::TokenError);
    assert_eq!(used.message, "Token already used");
    let expired = user().match_token(&"other".to_string(), Some(false)).err().unwrap();
    assert_eq!(expired.message, "Token has expired");
    let unknown = user().match_token(&"other".to_string(), None).err().unwrap();
    assert_eq!(unknown.message, "Token not recognised");
}

#[test]
fn token_error_is_built() {
    let e = build_token_error("bad".to_string());
    assert_eq!(e.kind, TrebuchetErrorType::TokenError);
    assert_eq!(e.message, "bad");
}

#[test]
fn error_descriptions() {
    let e = TrebuchetError { kind: TrebuchetErrorType::NotFound, message: String::new() };
    assert_eq!(e.description(), "No rows match in database");
    let c = TrebuchetError { kind: TrebuchetErrorType::ConflictError, message: String::new() };
    assert_eq!(c.description(), "Two documents resolve to the same output path");
    let i = TrebuchetError { kind: TrebuchetErrorType::IoError, message: String::new() };
    assert_eq!(i.description(), "Error from IO process");
}
