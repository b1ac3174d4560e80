//! Errors reported by the library and by the program around it.
use vstd::prelude::*;

verus! {

/// The kinds of failure.
#[derive(Clone, Copy, Debug, PartialEq, Eq, Structural)]
pub enum TrebuchetErrorType {
    EmailError,
    IoError,
    NotFound,
    SqliteError,
    TooManyMatches,
    TokenError,
    ConflictError,
}

/// A failure: its kind and a message that says what failed.
#[derive(Debug)]
pub struct TrebuchetError {
    pub kind: TrebuchetErrorType,
    pub message: String,
}

/// The sentence that describes a kind of failure.
pub open spec fn kind_text(kind: TrebuchetErrorType) -> Seq<char> {
    match kind {
        TrebuchetErrorType::EmailError => "Error sending email"@,
        TrebuchetErrorType::IoError => "Error from IO process"@,
        TrebuchetErrorType::NotFound => "No rows match in database"@,
        TrebuchetErrorType::SqliteError => "sqlite returned an error"@,
        TrebuchetErrorType::TooManyMatches => "Too many matches in database"@,
        TrebuchetErrorType::TokenError => "Error checking token"@,
        TrebuchetErrorType::ConflictError => "Two documents resolve to the same output path"@,
    }
}

impl TrebuchetError {
    /// The sentence that describes the kind of this failure.
    pub fn description(&self) -> (r: String)
        ensures
            r@ == kind_text(self.kind),
    {
        let text = match self.kind {
            TrebuchetErrorType::EmailError => "Error sending email",
            TrebuchetErrorType::IoError => "Error from IO process",
            TrebuchetErrorType::NotFound => "No rows match in database",
            TrebuchetErrorType::SqliteError => "sqlite returned an error",
            TrebuchetErrorType::TooManyMatches => "Too many matches in database",
            TrebuchetErrorType::TokenError => "Error checking token",
            TrebuchetErrorType::ConflictError => "Two documents resolve to the same output path",
        };
        text.to_owned()
    }
}

/// A failure in checking a token, with the given message.
pub fn build_token_error(msg: String) -> (r: TrebuchetError)
    ensures
        r.kind == TrebuchetErrorType::TokenError,
        r.message == msg,
{
    TrebuchetError { kind: TrebuchetErrorType::TokenError, message: msg }
}

} // verus!
