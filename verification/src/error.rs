//! The one error type of keys, transactions and commands.

use vstd::prelude::*;
use crate::text::joined;

verus! {

/// What the operations on keys, transactions and commands return.
pub type Result<T> = std::result::Result<T, Error>;

/// Why a key, a transaction or a command was refused.
#[derive(Debug)]
pub enum Error {
    /// The bytes or the text are not a key.
    Key(String),
    /// The bytes are not a message.
    Malformed(String),
    /// The signature does not match the message and the key.
    BadSignature,
    /// The nonce in a signed message was unknown, already used, or expired.
    BadChallenge,
    /// The message was signed for a different server than this one.
    WrongServer,
    /// The signer's key is not in the configured admin list.
    NotAdmin,
}

/// An [`Error`] with its text as a sequence of characters.
pub enum ErrorView {
    Key(Seq<char>),
    Malformed(Seq<char>),
    BadSignature,
    BadChallenge,
    WrongServer,
    NotAdmin,
}

impl View for Error {
    type V = ErrorView;

    open spec fn view(&self) -> ErrorView {
        match self {
            Error::Key(s) => ErrorView::Key(s@),
            Error::Malformed(s) => ErrorView::Malformed(s@),
            Error::BadSignature => ErrorView::BadSignature,
            Error::BadChallenge => ErrorView::BadChallenge,
            Error::WrongServer => ErrorView::WrongServer,
            Error::NotAdmin => ErrorView::NotAdmin,
        }
    }
}

impl ErrorView {
    /// The error as one line of text.
    pub open spec fn text(self) -> Seq<char> {
        match self {
            ErrorView::Key(s) => "key: "@ + s,
            ErrorView::Malformed(s) => "malformed message: "@ + s,
            ErrorView::BadSignature => "signature verification failed"@,
            ErrorView::BadChallenge => "challenge invalid or expired"@,
            ErrorView::WrongServer => "command was not addressed to this server"@,
            ErrorView::NotAdmin => "signer is not an authorized administrator"@,
        }
    }
}

impl Error {
    /// Writes the error as one line of text.
    pub fn to_string(&self) -> (r: String)
        ensures
            r@ == self@.text(),
            match self {
                Error::Key(s) => r@ == "key: "@ + s@,
                Error::Malformed(s) => r@ == "malformed message: "@ + s@,
                Error::BadSignature => r@ == "signature verification failed"@,
                Error::BadChallenge => r@ == "challenge invalid or expired"@,
                Error::WrongServer => r@ == "command was not addressed to this server"@,
                Error::NotAdmin => r@ == "signer is not an authorized administrator"@,
            },
    {
        match self {
            Error::Key(s) => joined("key: ", s.as_str()),
            Error::Malformed(s) => joined("malformed message: ", s.as_str()),
            Error::BadSignature => "signature verification failed".to_string(),
            Error::BadChallenge => "challenge invalid or expired".to_string(),
            Error::WrongServer => "command was not addressed to this server".to_string(),
            Error::NotAdmin => "signer is not an authorized administrator".to_string(),
        }
    }
}

/// Errors of the same kind with the same text, and no others, look the same; and
/// an error's line of text ends with what it quotes.
pub proof fn errors_are_told_apart(a: Error, b: Error)
    ensures
        a@ == b@ <==> match (a, b) {
            (Error::Key(s), Error::Key(t)) => s@ == t@,
            (Error::Malformed(s), Error::Malformed(t)) => s@ == t@,
            (Error::BadSignature, Error::BadSignature) => true,
            (Error::BadChallenge, Error::BadChallenge) => true,
            (Error::WrongServer, Error::WrongServer) => true,
            (Error::NotAdmin, Error::NotAdmin) => true,
            _ => false,
        },
        match a {
            Error::Key(s) => a@ == ErrorView::Key(s@) && a@.text() == "key: "@ + s@,
            Error::Malformed(s) => a@ == ErrorView::Malformed(s@) && a@.text()
                == "malformed message: "@ + s@,
            Error::BadSignature => a@ == ErrorView::BadSignature,
            Error::BadChallenge => a@ == ErrorView::BadChallenge,
            Error::WrongServer => a@ == ErrorView::WrongServer,
            Error::NotAdmin => a@ == ErrorView::NotAdmin,
        },
{
}

} // verus!
