//! Slugs, accounts and the messages sent to account owners.
use vstd::prelude::*;
use vstd::string::*;
use rand::Rng;
use crate::database::{initiate_capsule, is_default_set, Document};
use crate::error::{build_token_error, TrebuchetError, TrebuchetErrorType};
use crate::text::{push_char, push_text, is_ascii_alnum, ascii_lower, to_ascii_lower};

verus! {

/// Whether a character survives slugging: ASCII letters, digits and spaces.
pub open spec fn slug_keeps(c: char) -> bool {
    is_ascii_alnum(c) || c == ' '
}

/// What a kept character becomes in a slug: spaces become hyphens and
/// letters are lower-cased.
pub open spec fn slug_char(c: char) -> char {
    if c == ' ' {
        '-'
    } else {
        ascii_lower(c)
    }
}

/// The slug of a text: every character outside ASCII letters, digits and the
/// space is dropped, letters are lower-cased and spaces become hyphens.
pub open spec fn slug(s: Seq<char>) -> Seq<char>
    decreases s.len(),
{
    if s.len() == 0 {
        Seq::empty()
    } else {
        let rest = slug(s.drop_last());
        if slug_keeps(s.last()) {
            rest.push(slug_char(s.last()))
        } else {
            rest
        }
    }
}

/// Turns a title or a tag into its slug.
pub fn hyphenate(tag: String) -> (r: String)
    ensures
        r@ == slug(tag@),
{
    let n = tag.as_str().unicode_len();
    let mut out = String::new();
    for i in 0..n
        invariant
            n == tag@.len(),
            out@ == slug(tag@.take(i as int)),
    {
        let c = tag.as_str().get_char(i);
        assert(tag@.take(i + 1).drop_last() == tag@.take(i as int));
        if c == ' ' {
            push_char(&mut out, '-');
        } else if ('a' <= c && c <= 'z') || ('A' <= c && c <= 'Z') || ('0' <= c && c <= '9') {
            let l = to_ascii_lower(c);
            push_char(&mut out, l);
        }
    }
    assert(tag@.take(n as int) == tag@);
    out
}

/// An account: the owner's address, the directory of their capsule and the
/// one-time token that confirms what they ask for.
pub struct User {
    pub email: String,
    pub capsule: String,
    pub token: String,
}

/// The messages sent to an owner.
#[derive(Clone, Copy, Debug, PartialEq, Eq, Structural)]
pub enum EmailType {
    Confirm,
    Delete,
    LogIn,
}

/// How many characters a one-time token has.
pub const TOKEN_LENGTH: usize = 52;

/// Relies on rand's `Alphanumeric` distribution, sampled from `thread_rng`:
/// each draw is one of the ASCII letters and digits.
#[verifier::external_body]
fn random_alphanumeric() -> (r: u8)
    ensures
        is_ascii_alnum(r as char),
{
    rand::thread_rng().sample(rand::distributions::Alphanumeric)
}

/// A fresh one-time token of ASCII letters and digits.
fn create_otp() -> (r: String)
    ensures
        r@.len() == TOKEN_LENGTH,
        forall|i: int| 0 <= i < r@.len() ==> is_ascii_alnum(#[trigger] r@[i]),
{
    let mut s = String::new();
    for i in 0..TOKEN_LENGTH
        invariant
            s@.len() == i,
            forall|k: int| 0 <= k < s@.len() ==> is_ascii_alnum(#[trigger] s@[k]),
    {
        let b = random_alphanumeric();
        push_char(&mut s, b as char);
    }
    s
}

/// The address that links in messages point to.
pub open spec fn root_domain() -> Seq<char> {
    "https://example.com"@
}

/// The name of a message kind, as it appears in links.
pub open spec fn email_kind_name(t: EmailType) -> Seq<char> {
    match t {
        EmailType::Confirm => "Confirm"@,
        EmailType::Delete => "Delete"@,
        EmailType::LogIn => "LogIn"@,
    }
}

/// The link that carries a token back for a kind of message.
pub open spec fn email_link(t: EmailType, token: Seq<char>) -> Seq<char> {
    root_domain() + "/"@ + email_kind_name(t) + "?token="@ + token
}

/// The text of a message to the owner of `capsule`.
pub open spec fn email_text(t: EmailType, capsule: Seq<char>, token: Seq<char>) -> Seq<char> {
    let link = email_link(t, token);
    match t {
        EmailType::Confirm => "Hello!\n\nYou are being invited to publish a Gemini capsule named "@ + capsule
            + ", via "@ + root_domain() + ".\n\nOpen the link below to confirm.\n\n<a href=\""@ + link
            + "\">"@ + link + "</a>"@,
        EmailType::Delete => "Hello\n\nYour Gemini capsule named "@ + capsule + ", served from "@
            + root_domain() + ", has been deleted."@,
        EmailType::LogIn => "Hello!\n\nYou or someone else initiated a login at "@ + root_domain()
            + ".\n\nOpen the link below to complete your login.\n\n<a href=\""@ + link + "\">"@ + link
            + "</a>\n\nIf this was not you, ignore this email or advise your server administrator."@,
    }
}

/// How a token that was presented compares with what is on record.
pub open spec fn token_outcome(presented: Seq<char>, stored: Seq<char>, expired_used: Option<bool>) -> Result<(), Seq<char>> {
    if presented == stored {
        Ok(())
    } else {
        match expired_used {
            Some(true) => Err("Token already used"@),
            Some(false) => Err("Token has expired"@),
            None => Err("Token not recognised"@),
        }
    }
}

impl User {
    /// A new account with a fresh one-time token.
    pub fn new(email: String, capsule: String) -> (r: User)
        ensures
            r.email == email,
            r.capsule == capsule,
            r.token@.len() == TOKEN_LENGTH,
            forall|i: int| 0 <= i < r.token@.len() ==> is_ascii_alnum(#[trigger] r.token@[i]),
    {
        User { email, capsule, token: create_otp() }
    }

    /// The message that starts a login or a confirmation, ready to be sent.
    pub fn initiate_login(&self, etype: EmailType) -> (r: String)
        ensures
            r@ == email_text(etype, self.capsule@, self.token@),
    {
        self.build_email(etype)
    }

    /// The documents that this account's new capsule starts with, dated today.
    /// Fails with `IoError` where the clock reads a year outside four digits.
    pub fn initiate_capsule(&self) -> (r: Result<Vec<Document>, TrebuchetError>)
        ensures
            r matches Ok(docs) ==> docs@.len() == 3 && docs@[0].published.wf() && is_default_set(
                docs@,
                self.email@,
                docs@[0].published,
                docs@[0].updated@,
            ),
            r matches Err(e) ==> e.kind == TrebuchetErrorType::IoError,
    {
        initiate_capsule(self)
    }

    /// The text of a message to this account's owner.
    fn build_email(&self, email_type: EmailType) -> (r: String)
        ensures
            r@ == email_text(email_type, self.capsule@, self.token@),
    {
        let mut link = String::new();
        push_text(&mut link, "https://example.com");
        push_text(&mut link, "/");
        match email_type {
            EmailType::Confirm => push_text(&mut link, "Confirm"),
            EmailType::Delete => push_text(&mut link, "Delete"),
            EmailType::LogIn => push_text(&mut link, "LogIn"),
        }
        push_text(&mut link, "?token=");
        push_text(&mut link, self.token.as_str());
        assert(link@ =~= email_link(email_type, self.token@));
        let mut m = String::new();
        match email_type {
            EmailType::Confirm => {
                push_text(&mut m, "Hello!\n\nYou are being invited to publish a Gemini capsule named ");
                push_text(&mut m, self.capsule.as_str());
                push_text(&mut m, ", via ");
                push_text(&mut m, "https://example.com");
                push_text(&mut m, ".\n\nOpen the link below to confirm.\n\n<a href=\"");
                push_text(&mut m, link.as_str());
                push_text(&mut m, "\">");
                push_text(&mut m, link.as_str());
                push_text(&mut m, "</a>");
            },
            EmailType::Delete => {
                push_text(&mut m, "Hello\n\nYour Gemini capsule named ");
                push_text(&mut m, self.capsule.as_str());
                push_text(&mut m, ", served from ");
                push_text(&mut m, "https://example.com");
                push_text(&mut m, ", has been deleted.");
            },
            EmailType::LogIn => {
                push_text(&mut m, "Hello!\n\nYou or someone else initiated a login at ");
                push_text(&mut m, "https://example.com");
                push_text(&mut m, ".\n\nOpen the link below to complete your login.\n\n<a href=\"");
                push_text(&mut m, link.as_str());
                push_text(&mut m, "\">");
                push_text(&mut m, link.as_str());
                push_text(&mut m, "</a>\n\nIf this was not you, ignore this email or advise your server administrator.");
            },
        }
        assert(m@ =~= email_text(email_type, self.capsule@, self.token@));
        m
    }

    /// Checks the token presented by this account against the one on record.
    /// Where they differ, `expired_used` tells whether the presented token is
    /// among the expired ones and, if so, whether it was used.
    pub fn match_token(self, stored: &String, expired_used: Option<bool>) -> (r: Result<User, TrebuchetError>)
        ensures
            token_outcome(self.token@, stored@, expired_used) is Ok <==> r is Ok,
            r matches Ok(u) ==> u == self,
            r matches Err(e) ==> e.kind == TrebuchetErrorType::TokenError
                && Err::<(), Seq<char>>(e.message@) == token_outcome(self.token@, stored@, expired_used),
    {
        if self.token == *stored {
            Ok(self)
        } else {
            match expired_used {
                Some(true) => Err(build_token_error("Token already used".to_owned())),
                Some(false) => Err(build_token_error("Token has expired".to_owned())),
                None => Err(build_token_error("Token not recognised".to_owned())),
            }
        }
    }
}

} // verus!
