//! The rules of the identity-management commands.

use vstd::prelude::*;
use vstd::utf8::encode_utf8;
use crate::encoding::base58_encoded;
use crate::key::PubKey;

verus! {

/// What `provision` says where the YubiKey was not asked for.
pub open spec fn provision_refusal() -> Seq<char> {
    "provision writes a key to a YubiKey; pass --yubikey to say so. For a software identity you want `sqnr keygen`."@
}

/// Whether `provision` may go on.
///
/// Only ever on a YubiKey: there is nothing to provision for a file identity,
/// and `keygen` is that path. Requiring the flag explicitly means the
/// destructive command cannot be reached by leaving one off.
pub fn provision(yubikey: bool) -> (r: Result<(), String>)
    ensures
        match r {
            Ok(_) => yubikey,
            Err(e) => !yubikey && e@ == provision_refusal(),
        },
        r is Ok <==> yubikey,
        r matches Err(e) ==> e@
            == "provision writes a key to a YubiKey; pass --yubikey to say so. For a software identity you want `sqnr keygen`."@,
{
    if !yubikey {
        return Err(
            "provision writes a key to a YubiKey; pass --yubikey to say so. For a software identity you want `sqnr keygen`.".to_string(),
        );
    }
    Ok(())
}

/// How `keygen` goes on.
#[derive(Debug, PartialEq, Eq)]
pub enum Keygen {
    /// Ask for a new passphrase.
    AskPassphrase,
    /// Ask for the passphrase again.
    AskAgain(String),
    /// Generate the identity: under this passphrase, or in plaintext.
    Generate(Option<String>),
    /// Give up.
    Refuse(String),
}

/// A [`Keygen`] as sequences.
pub enum KeygenView {
    AskPassphrase,
    AskAgain(Seq<char>),
    Generate(Option<Seq<char>>),
    Refuse(Seq<char>),
}

impl View for Keygen {
    type V = KeygenView;

    open spec fn view(&self) -> KeygenView {
        match self {
            Keygen::AskPassphrase => KeygenView::AskPassphrase,
            Keygen::AskAgain(p) => KeygenView::AskAgain(p@),
            Keygen::Generate(Some(p)) => KeygenView::Generate(Some(p@)),
            Keygen::Generate(None) => KeygenView::Generate(None),
            Keygen::Refuse(e) => KeygenView::Refuse(e@),
        }
    }
}

impl KeygenView {
    /// How it goes on when the operator has entered `text`. A passphrase has at
    /// least 8 bytes and is entered the same way twice. Where nothing was asked
    /// for nothing changes.
    pub open spec fn after(self, text: Seq<char>) -> KeygenView {
        match self {
            KeygenView::AskPassphrase => if encode_utf8(text).len() < 8 {
                KeygenView::Refuse("passphrase must be at least 8 characters"@)
            } else {
                KeygenView::AskAgain(text)
            },
            KeygenView::AskAgain(p) => if p != text {
                KeygenView::Refuse("passphrases do not match"@)
            } else {
                KeygenView::Generate(Some(p))
            },
            _ => self,
        }
    }
}

impl Keygen {
    /// A plaintext identity takes no passphrase, so none is asked for.
    pub fn start(plaintext: bool) -> (r: Self)
        ensures
            r@ == if plaintext {
                KeygenView::Generate(None)
            } else {
                KeygenView::AskPassphrase
            },
            plaintext ==> r == Keygen::Generate(None),
            !plaintext ==> r == Keygen::AskPassphrase,
    {
        if plaintext {
            Keygen::Generate(None)
        } else {
            Keygen::AskPassphrase
        }
    }

    /// Goes on with what the operator entered.
    pub fn entered(self, text: String) -> (r: Self)
        ensures
            r@ == self@.after(text@),
            match self {
                Keygen::AskPassphrase => if encode_utf8(text@).len() >= 8 {
                    r matches Keygen::AskAgain(p) && p@ == text@
                } else {
                    r matches Keygen::Refuse(e) && e@ == "passphrase must be at least 8 characters"@
                },
                Keygen::AskAgain(p) => if p@ == text@ {
                    r matches Keygen::Generate(Some(q)) && q@ == p@
                } else {
                    r matches Keygen::Refuse(e) && e@ == "passphrases do not match"@
                },
                _ => r == self,
            },
    {
        match self {
            Keygen::AskPassphrase => {
                if text.as_str().as_bytes().len() < 8 {
                    return Keygen::Refuse("passphrase must be at least 8 characters".to_string());
                }
                Keygen::AskAgain(text)
            },
            Keygen::AskAgain(pass) => {
                if pass != text {
                    return Keygen::Refuse("passphrases do not match".to_string());
                }
                Keygen::Generate(Some(pass))
            },
            done => done,
        }
    }
}

/// An identity is sealed only under a passphrase of at least 8 bytes that was
/// entered the same way twice, and both entries are asked for.
pub proof fn passphrases_are_long_and_confirmed(first: Seq<char>, second: Seq<char>)
    ensures
        KeygenView::AskPassphrase.after(first).after(second) matches KeygenView::Generate(p) ==> p
            == Some(first) && first == second && encode_utf8(first).len() >= 8,
        encode_utf8(first).len() >= 8 && first == second
            ==> KeygenView::AskPassphrase.after(first).after(second) == KeygenView::Generate(
            Some(first),
        ),
        !(KeygenView::AskPassphrase.after(first) is Generate),
{
}

/// What `keygen` prints of a new identity in the file called `path`.
pub open spec fn keygen_text(path: Seq<char>, plaintext: bool, public: Seq<u8>) -> Seq<char> {
    "created "@ + path + "\n"@ + (if plaintext {
        "WARNING: this key is UNENCRYPTED (no passphrase); protect the file.\n"@
    } else {
        ""@
    }) + "public key: "@ + base58_encoded(public)
        + "\n\nAdd this key to the server's `admins` list to authorize it.\n"@
}

/// Writes what `keygen` prints.
pub fn keygen_report(path: &str, plaintext: bool, public: &PubKey) -> (r: String)
    ensures
        r@ == keygen_text(path@, plaintext, public@),
        r@ == "created "@ + path@ + "\n"@ + (if plaintext {
            "WARNING: this key is UNENCRYPTED (no passphrase); protect the file.\n"@
        } else {
            ""@
        }) + "public key: "@ + base58_encoded(public@)
            + "\n\nAdd this key to the server's `admins` list to authorize it.\n"@,
{
    let mut out = "created ".to_string();
    out.append(path);
    out.append("\n");
    if plaintext {
        out.append("WARNING: this key is UNENCRYPTED (no passphrase); protect the file.\n");
    } else {
        out.append("");
    }
    out.append("public key: ");
    out.append(public.to_base58().as_str());
    out.append("\n\nAdd this key to the server's `admins` list to authorize it.\n");
    out
}

/// Which identity file a command uses.
#[derive(Debug, PartialEq, Eq)]
pub enum IdentityPath<P> {
    /// The one that was named.
    Named(P),
    /// The default one.
    Default,
}

/// Where `keygen` writes: a file named for it wins over all else.
pub fn keygen_path<P>(file: Option<P>, flag: Option<P>, config: Option<P>) -> (r: IdentityPath<P>)
    ensures
        r == match (file, flag, config) {
            (Some(p), _, _) => IdentityPath::Named(p),
            (None, Some(p), _) => IdentityPath::Named(p),
            (None, None, Some(p)) => IdentityPath::Named(p),
            (None, None, None) => IdentityPath::Default,
        },
{
    match file {
        Some(p) => IdentityPath::Named(p),
        None => identity_path(flag, config),
    }
}

/// The flag wins over the configuration, and the configuration over the default.
pub fn identity_path<P>(flag: Option<P>, config: Option<P>) -> (r: IdentityPath<P>)
    ensures
        r == match (flag, config) {
            (Some(p), _) => IdentityPath::Named(p),
            (None, Some(p)) => IdentityPath::Named(p),
            (None, None) => IdentityPath::Default,
        },
{
    match flag {
        Some(p) => IdentityPath::Named(p),
        None => match config {
            Some(p) => IdentityPath::Named(p),
            None => IdentityPath::Default,
        },
    }
}

/// A passphrase that is too short, or not the same the second time, is refused
/// in words of its own, and what was entered is kept as it was entered.
pub proof fn entries_are_kept_or_refused(first: Seq<char>, second: Seq<char>)
    ensures
        encode_utf8(first).len() >= 8 ==> KeygenView::AskPassphrase.after(first)
            == KeygenView::AskAgain(first),
        encode_utf8(first).len() < 8 ==> KeygenView::AskPassphrase.after(first)
            == KeygenView::Refuse("passphrase must be at least 8 characters"@),
        first == second ==> KeygenView::AskAgain(first).after(second) == KeygenView::Generate(
            Some(first),
        ),
        first != second ==> KeygenView::AskAgain(first).after(second) == KeygenView::Refuse(
            "passphrases do not match"@,
        ),
        KeygenView::Generate(None).after(first) == KeygenView::Generate(None),
        KeygenView::Generate(Some(first)).after(second) == KeygenView::Generate(Some(first)),
        KeygenView::Refuse(first).after(second) == KeygenView::Refuse(first),
{
}

/// A keygen is viewed whole.
pub proof fn keygens_are_viewed_whole(k: Keygen)
    ensures
        match k {
            Keygen::AskPassphrase => k@ == KeygenView::AskPassphrase,
            Keygen::AskAgain(p) => k@ == KeygenView::AskAgain(p@),
            Keygen::Generate(Some(p)) => k@ == KeygenView::Generate(Some(p@)),
            Keygen::Generate(None) => k@ == KeygenView::Generate(None),
            Keygen::Refuse(e) => k@ == KeygenView::Refuse(e@),
        },
{
}

/// The report of a new identity names its file and its key, and warns if and only
/// if the key is in plaintext.
pub proof fn reports_name_file_and_key(path: Seq<char>, public: Seq<u8>)
    ensures
        ({
            let file = "created "@ + path + "\n"@;
            let key = "public key: "@ + base58_encoded(public)
                + "\n\nAdd this key to the server's `admins` list to authorize it.\n"@;
            let warning = "WARNING: this key is UNENCRYPTED (no passphrase); protect the file.\n"@;
            &&& keygen_text(path, false, public) == file + key
            &&& keygen_text(path, true, public) == file + warning + key
        }),
{
    reveal_strlit("");
    let file = "created "@ + path + "\n"@;
    let key = "public key: "@ + base58_encoded(public)
        + "\n\nAdd this key to the server's `admins` list to authorize it.\n"@;
    let warning = "WARNING: this key is UNENCRYPTED (no passphrase); protect the file.\n"@;
    assert(keygen_text(path, false, public) =~= file + key);
    assert(keygen_text(path, true, public) =~= file + warning + key);
}

} // verus!
