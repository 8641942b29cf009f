//! What identifies clients and screens, and the secrets that the terminal
//! issues for them.

use vstd::prelude::*;
use vstd::string::StringSliceAdditionalSpecFns;
use vstd::utf8::encode_utf8;
use crate::common::foundation::encode_argument::zeroes;
use crate::common::foundation::identifiers::ClientID;
use crate::common::foundation::identifiers::OwnedClientID;

verus! {

/// The bytes of an optional string: none for an absent one.
pub open spec fn optional_string_bytes(value: Option<String>) -> Seq<u8> {
    match value {
        None => Seq::empty(),
        Some(s) => encode_utf8(s@),
    }
}

fn owned_option(value: &Option<String>) -> (r: Option<String>)
    ensures
        r == *value,
{
    match value {
        Some(s) => Some(s.clone()),
        None => None,
    }
}

fn borrowed_option(value: &Option<String>) -> (r: Option<&str>)
    ensures
        r is Some == value is Some,
        r is Some ==> r->0@ == value->0@,
{
    match value {
        Some(s) => Some(s.as_str()),
        None => None,
    }
}

/// What identifies a client: its client ID, and the screens that its
/// standard streams are connected to, if any.
#[derive(Debug)]
pub struct ClientIdentity {
    id: OwnedClientID,
    stdin_screen_id: Option<String>,
    stdout_screen_id: Option<String>,
    stderr_screen_id: Option<String>,
}

impl Clone for ClientIdentity {
    fn clone(&self) -> (r: Self)
        ensures
            r == *self,
    {
        ClientIdentity {
            id: self.id.clone(),
            stdin_screen_id: owned_option(&self.stdin_screen_id),
            stdout_screen_id: owned_option(&self.stdout_screen_id),
            stderr_screen_id: owned_option(&self.stderr_screen_id),
        }
    }
}

impl ClientIdentity {
    /// The client ID.
    pub closed spec fn id_bytes(&self) -> Seq<u8> {
        self.id.bytes()
    }

    /// The screen that the client's standard input is connected to.
    pub closed spec fn stdin_screen(&self) -> Option<String> {
        self.stdin_screen_id
    }

    /// The screen that the client's standard output is connected to.
    pub closed spec fn stdout_screen(&self) -> Option<String> {
        self.stdout_screen_id
    }

    /// The screen that the client's standard error is connected to.
    pub closed spec fn stderr_screen(&self) -> Option<String> {
        self.stderr_screen_id
    }

    /// Makes the identity of a client whose standard streams are not
    /// connected to the terminal. These are added by the `with_...` methods.
    pub fn new(id: &ClientID<'_>) -> (r: Self)
        ensures
            r.id_bytes() == id.bytes(),
            r.stdin_screen() is None,
            r.stdout_screen() is None,
            r.stderr_screen() is None,
    {
        ClientIdentity {
            id: OwnedClientID::from(id),
            stdin_screen_id: None,
            stdout_screen_id: None,
            stderr_screen_id: None,
        }
    }

    /// Sets the screen that the client's standard input is connected to.
    pub fn with_stdin(self, screen_id: &str) -> (r: ClientIdentity)
        ensures
            r.id_bytes() == self.id_bytes(),
            r.stdin_screen() is Some && r.stdin_screen()->0@ == screen_id@,
            r.stdout_screen() == self.stdout_screen(),
            r.stderr_screen() == self.stderr_screen(),
    {
        ClientIdentity {
            id: self.id,
            stdin_screen_id: Some(screen_id.to_owned()),
            stdout_screen_id: self.stdout_screen_id,
            stderr_screen_id: self.stderr_screen_id,
        }
    }

    /// Sets the screen that the client's standard output is connected to.
    pub fn with_stdout(self, screen_id: &str) -> (r: ClientIdentity)
        ensures
            r.id_bytes() == self.id_bytes(),
            r.stdin_screen() == self.stdin_screen(),
            r.stdout_screen() is Some && r.stdout_screen()->0@ == screen_id@,
            r.stderr_screen() == self.stderr_screen(),
    {
        ClientIdentity {
            id: self.id,
            stdin_screen_id: self.stdin_screen_id,
            stdout_screen_id: Some(screen_id.to_owned()),
            stderr_screen_id: self.stderr_screen_id,
        }
    }

    /// Sets the screen that the client's standard error is connected to.
    pub fn with_stderr(self, screen_id: &str) -> (r: ClientIdentity)
        ensures
            r.id_bytes() == self.id_bytes(),
            r.stdin_screen() == self.stdin_screen(),
            r.stdout_screen() == self.stdout_screen(),
            r.stderr_screen() is Some && r.stderr_screen()->0@ == screen_id@,
    {
        ClientIdentity {
            id: self.id,
            stdin_screen_id: self.stdin_screen_id,
            stdout_screen_id: self.stdout_screen_id,
            stderr_screen_id: Some(screen_id.to_owned()),
        }
    }

    /// Returns the ID of this client.
    pub fn client_id(&self) -> (r: ClientID<'_>)
        ensures
            r.bytes() == self.id_bytes(),
    {
        self.id.as_ref()
    }

    /// Returns the ID of the screen that this client's standard input is
    /// connected to, if any.
    pub fn stdin_screen_id(&self) -> (r: Option<&str>)
        ensures
            r is Some == self.stdin_screen() is Some,
            r is Some ==> r->0@ == self.stdin_screen()->0@,
    {
        borrowed_option(&self.stdin_screen_id)
    }

    /// Returns the ID of the screen that this client's standard output is
    /// connected to, if any.
    pub fn stdout_screen_id(&self) -> (r: Option<&str>)
        ensures
            r is Some == self.stdout_screen() is Some,
            r is Some ==> r->0@ == self.stdout_screen()->0@,
    {
        borrowed_option(&self.stdout_screen_id)
    }

    /// Returns the ID of the screen that this client's standard error is
    /// connected to, if any.
    pub fn stderr_screen_id(&self) -> (r: Option<&str>)
        ensures
            r is Some == self.stderr_screen() is Some,
            r is Some ==> r->0@ == self.stderr_screen()->0@,
    {
        borrowed_option(&self.stderr_screen_id)
    }
}

/// What the URL-safe base64 encoding with padding makes of a byte string.
pub uninterp spec fn base64_url_safe(bytes: Seq<u8>) -> Seq<char>;

/// `base64::encode_config` with `base64::URL_SAFE`: the URL-safe base64
/// encoding, with padding, of the bytes. The encoding of a byte string is
/// always the same, and has four characters for every three bytes, or part
/// of three bytes. For inputs of a size near the largest number the outside
/// function fails; these are left out.
#[verifier::external_body]
fn encode_base64_url_safe(bytes: &[u8]) -> (r: String)
    requires
        bytes@.len() <= 0x10000,
    ensures
        r@ == base64_url_safe(bytes@),
        r@.len() == 4 * ((bytes@.len() + 2) / 3),
{
    base64::encode_config(bytes, base64::URL_SAFE)
}

/// `getrandom::getrandom`: fills the buffer with random bytes from the
/// system's random number source and says whether that worked. Nothing is
/// known of the bytes, neither where it worked nor where it did not.
#[verifier::external_body]
fn fill_random(buf: &mut [u8]) -> (filled: bool)
    ensures
        final(buf)@.len() == old(buf)@.len(),
{
    getrandom::getrandom(buf).is_ok()
}

/// The number of random bytes in a secret.
pub const SECRET_BYTES: usize = 24;

/// The secret that is made of the given random bytes: their URL-safe base64
/// encoding.
pub fn secret_from_random(random: &[u8]) -> (r: String)
    requires
        random@.len() == SECRET_BYTES,
    ensures
        r@ == base64_url_safe(random@),
        r@.len() == 32,
{
    encode_base64_url_safe(random)
}

/// A new secret, made of 24 random bytes, or `None` if the system has no
/// random bytes to give. A secret has 32 characters.
pub fn generate_secret() -> (r: Option<String>)
    ensures
        r is Some ==> r->0@.len() == 32,
        r is Some ==> exists|random: Seq<u8>|
            random.len() == SECRET_BYTES && r->0@ == #[trigger] base64_url_safe(random),
{
    let mut random = zeroes(SECRET_BYTES);
    if fill_random(random.as_mut_slice()) {
        Some(secret_from_random(random.as_slice()))
    } else {
        None
    }
}

/// The credentials that the terminal issues for a client.
#[derive(Clone, Debug)]
pub struct ClientCredentials {
    secret: String,
}

impl ClientCredentials {
    /// The secret.
    pub closed spec fn secret_text(&self) -> Seq<char> {
        self.secret@
    }

    /// The credentials with the given secret.
    pub fn from_secret(secret: String) -> (r: Self)
        ensures
            r.secret_text() == secret@,
    {
        ClientCredentials { secret }
    }

    /// Makes new credentials with a random secret. Returns `None` if the
    /// system has no random bytes to give.
    pub fn generate() -> (r: Option<Self>)
        ensures
            r is Some ==> r->0.secret_text().len() == 32,
            r is Some ==> exists|random: Seq<u8>|
                random.len() == SECRET_BYTES && r->0.secret_text() == #[trigger] base64_url_safe(
                    random,
                ),
    {
        match generate_secret() {
            Some(secret) => Some(ClientCredentials { secret }),
            None => None,
        }
    }

    /// Returns the secret with which the client can authenticate with the
    /// terminal.
    pub fn secret(&self) -> (r: &str)
        ensures
            r@ == self.secret_text(),
    {
        self.secret.as_str()
    }
}

/// What identifies a screen.
#[derive(Debug)]
pub struct ScreenIdentity {
    id: String,
}

impl Clone for ScreenIdentity {
    fn clone(&self) -> (r: Self)
        ensures
            r == *self,
    {
        ScreenIdentity { id: self.id.clone() }
    }
}

impl ScreenIdentity {
    /// The screen ID.
    pub closed spec fn id_text(&self) -> Seq<char> {
        self.id@
    }

    /// Makes the identity of the screen with the given ID.
    pub fn new(id: &str) -> (r: Self)
        ensures
            r.id_text() == id@,
    {
        ScreenIdentity { id: id.to_owned() }
    }

    /// Returns the ID of this screen.
    pub fn screen_id(&self) -> (r: &str)
        ensures
            r@ == self.id_text(),
    {
        self.id.as_str()
    }

    /// Whether both identities name the same screen.
    pub fn same_as(&self, other: &ScreenIdentity) -> (r: bool)
        ensures
            r == (self.id_text() == other.id_text()),
    {
        self.id == other.id
    }
}

/// The credentials that the terminal issues for a screen: one secret for
/// its standard input and one for its standard output.
#[derive(Clone, Debug)]
pub struct ScreenCredentials {
    stdin_secret: String,
    stdout_secret: String,
}

impl ScreenCredentials {
    /// The secret for the standard input.
    pub closed spec fn stdin_text(&self) -> Seq<char> {
        self.stdin_secret@
    }

    /// The secret for the standard output.
    pub closed spec fn stdout_text(&self) -> Seq<char> {
        self.stdout_secret@
    }

    /// The credentials with the given secrets.
    pub fn from_secrets(stdin_secret: String, stdout_secret: String) -> (r: Self)
        ensures
            r.stdin_text() == stdin_secret@,
            r.stdout_text() == stdout_secret@,
    {
        ScreenCredentials { stdin_secret, stdout_secret }
    }

    /// Makes new credentials with random secrets. Returns `None` if the
    /// system has no random bytes to give.
    pub fn generate() -> (r: Option<Self>)
        ensures
            r is Some ==> r->0.stdin_text().len() == 32 && r->0.stdout_text().len() == 32,
            r is Some ==> exists|a: Seq<u8>, b: Seq<u8>|
                a.len() == SECRET_BYTES && b.len() == SECRET_BYTES && r->0.stdin_text()
                    == #[trigger] base64_url_safe(a) && r->0.stdout_text()
                    == #[trigger] base64_url_safe(b),
    {
        let stdin_secret = match generate_secret() {
            Some(secret) => secret,
            None => {
                return None;
            },
        };
        let stdout_secret = match generate_secret() {
            Some(secret) => secret,
            None => {
                return None;
            },
        };
        Some(ScreenCredentials { stdin_secret, stdout_secret })
    }

    /// Returns the secret with which a client can attach to this screen's
    /// standard input.
    pub fn stdin_secret(&self) -> (r: &str)
        ensures
            r@ == self.stdin_text(),
    {
        self.stdin_secret.as_str()
    }

    /// Returns the secret with which a client can attach to this screen's
    /// standard output.
    pub fn stdout_secret(&self) -> (r: &str)
        ensures
            r@ == self.stdout_text(),
    {
        self.stdout_secret.as_str()
    }
}

} // verus!
