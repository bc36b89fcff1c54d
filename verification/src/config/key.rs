//! Machine identity key (`machine.key`).
//!
//! This private key identifies the machine in the mesh and must not be shared
//! across machines. The public part is the [`EndpointId`], which is used to
//! connect to other peers.
//!
//! The key is stored base64-encoded.

use vstd::prelude::*;

use crate::net::endpoint::EndpointId;

verus! {

/// What [`data_encoding`]'s `BASE64` writes bytes as.
pub uninterp spec fn base64_encoded(bytes: Seq<u8>) -> Seq<char>;

/// What [`data_encoding`]'s `BASE64` reads from the bytes of a text.
pub uninterp spec fn base64_decoded(text: Seq<u8>) -> Option<Seq<u8>>;

/// The public key [`iroh::SecretKey::public`] derives from secret key bytes.
pub uninterp spec fn public_key(secret: Seq<u8>) -> Seq<u8>;

/// Whether bytes are the public key of some secret key.
pub open spec fn is_public_key(bytes: Seq<u8>) -> bool {
    bytes.len() == 32 && exists|secret: Seq<u8>|
        secret.len() == 32 && #[trigger] public_key(secret) == bytes
}

/// [`data_encoding::Encoding::encode`] of `BASE64`. What it writes holds no
/// whitespace (the alphabet is letters, digits, `+`, `/` and `=`), and `decode`
/// reads the same bytes back.
#[verifier::external_body]
fn encode_base64(bytes: &[u8]) -> (text: String)
    requires
        bytes@.len() <= usize::MAX / 512,
    ensures
        text@ == base64_encoded(bytes@),
        base64_decoded(vstd::utf8::encode_utf8(text@)) == Some(bytes@),
        forall|i: int|
            0 <= i < vstd::utf8::encode_utf8(text@).len() ==> !ascii_blank(
                #[trigger] vstd::utf8::encode_utf8(text@)[i],
            ),
        vstd::utf8::encode_utf8(text@).len() <= 4 * (bytes@.len() / 3 + 1),
{
    data_encoding::BASE64.encode(bytes)
}

/// [`data_encoding::Encoding::decode`] of `BASE64`, a function of the bytes
/// alone; malformed input gives nothing.
#[verifier::external_body]
fn decode_base64(text: &[u8]) -> (bytes: Option<Vec<u8>>)
    requires
        text@.len() <= usize::MAX / 8,
    ensures
        match bytes {
            Some(b) => base64_decoded(text@) == Some(b@),
            None => base64_decoded(text@) is None,
        },
{
    match data_encoding::BASE64.decode(text) {
        Ok(bytes) => Some(bytes),
        Err(_) => None,
    }
}

/// [`iroh::SecretKey::generate`]: the bytes of a new random secret key. They
/// differ from call to call, so nothing is claimed of them.
#[verifier::external_body]
fn random_secret() -> [u8; 32] {
    iroh::SecretKey::generate().to_bytes()
}

/// [`iroh::SecretKey::public`], a function of the secret bytes alone.
#[verifier::external_body]
fn derive_public(secret: &[u8; 32]) -> (public: [u8; 32])
    ensures
        public@ == public_key(secret@),
{
    *iroh::SecretKey::from_bytes(secret).public().as_bytes()
}

/// The bytes `u8::is_ascii_whitespace` accepts.
pub open spec fn ascii_blank(b: u8) -> bool {
    b == 32 || b == 9 || b == 10 || b == 12 || b == 13
}

/// Bytes without leading blanks.
pub open spec fn trimmed_start(s: Seq<u8>) -> Seq<u8>
    decreases s.len(),
{
    if s.len() > 0 && ascii_blank(s[0]) {
        trimmed_start(s.skip(1))
    } else {
        s
    }
}

/// Bytes without trailing blanks.
pub open spec fn trimmed_end(s: Seq<u8>) -> Seq<u8>
    decreases s.len(),
{
    if s.len() > 0 && ascii_blank(s.last()) {
        trimmed_end(s.drop_last())
    } else {
        s
    }
}

/// Bytes without surrounding blanks.
pub open spec fn trimmed(s: Seq<u8>) -> Seq<u8> {
    trimmed_end(trimmed_start(s))
}

/// Why a key file's contents are no key.
#[derive(Clone, Copy, PartialEq, Eq, Structural, Debug)]
pub enum KeyError {
    /// The contents are not base64.
    Malformed,
    /// The contents decode to another number of bytes than a key has.
    WrongLength,
}

impl KeyError {
    /// The error as shown to the user.
    pub fn message(&self) -> (text: String)
        ensures
            text@ == match *self {
                KeyError::Malformed => "failed to decode machine key"@,
                KeyError::WrongLength => "failed to decode machine key: should be 32 bytes"@,
            },
    {
        match self {
            KeyError::Malformed => "failed to decode machine key".to_owned(),
            KeyError::WrongLength => "failed to decode machine key: should be 32 bytes".to_owned(),
        }
    }
}

/// The key that a file's contents spell: base64 of 32 bytes, blanks around it
/// aside.
pub open spec fn read_key(content: Seq<char>) -> Result<Seq<u8>, KeyError> {
    let text = trimmed(vstd::utf8::encode_utf8(content));
    if text.len() > usize::MAX / 8 {
        Err(KeyError::Malformed)
    } else {
        match base64_decoded(text) {
            None => Err(KeyError::Malformed),
            Some(bytes) => if bytes.len() == 32 {
                Ok(bytes)
            } else {
                Err(KeyError::WrongLength)
            },
        }
    }
}

/// The machine's secret identity key in the mesh.
pub struct MachineKey {
    secret: [u8; 32],
}

impl View for MachineKey {
    type V = Seq<u8>;

    closed spec fn view(&self) -> Seq<u8> {
        self.secret@
    }
}

fn is_blank(b: u8) -> (r: bool)
    ensures
        r == ascii_blank(b),
{
    b == 32 || b == 9 || b == 10 || b == 12 || b == 13
}

/// Strips surrounding blanks.
fn trim(bytes: &[u8]) -> (r: &[u8])
    ensures
        r@ == trimmed(bytes@),
{
    let mut start: usize = 0;
    assert(bytes@.skip(0) =~= bytes@);
    while start < bytes.len() && is_blank(bytes[start])
        invariant
            start <= bytes@.len(),
            trimmed_start(bytes@) == trimmed_start(bytes@.skip(start as int)),
        decreases bytes@.len() - start,
    {
        assert(bytes@.skip(start as int).skip(1) =~= bytes@.skip(start + 1));
        start = start + 1;
    }
    let mut end: usize = bytes.len();
    assert(bytes@.subrange(start as int, end as int) =~= bytes@.skip(start as int));
    while start < end && is_blank(bytes[end - 1])
        invariant
            start <= end <= bytes@.len(),
            trimmed(bytes@) == trimmed_end(bytes@.subrange(start as int, end as int)),
        decreases end,
    {
        assert(bytes@.subrange(start as int, end as int).drop_last() =~= bytes@.subrange(
            start as int,
            end - 1,
        ));
        end = end - 1;
    }
    vstd::slice::slice_subrange(bytes, start, end)
}

proof fn lemma_no_blanks_to_trim(s: Seq<u8>)
    requires
        forall|i: int| 0 <= i < s.len() ==> !ascii_blank(#[trigger] s[i]),
    ensures
        trimmed(s) == s,
{
}

impl MachineKey {
    /// Parses a base64-encoded key (32 bytes, ed25519).
    pub fn from_base64(content: &str) -> (r: Result<Self, KeyError>)
        ensures
            match r {
                Ok(key) => read_key(content@) == Ok::<Seq<u8>, KeyError>(key@),
                Err(e) => read_key(content@) == Err::<Seq<u8>, KeyError>(e),
            },
    {
        let text = trim(content.as_bytes());
        if text.len() > usize::MAX / 8 {
            return Err(KeyError::Malformed);
        }
        match decode_base64(text) {
            None => Err(KeyError::Malformed),
            Some(bytes) => {
                if bytes.len() != 32 {
                    return Err(KeyError::WrongLength);
                }
                let mut secret: [u8; 32] = [0u8; 32];
                let mut i: usize = 0;
                while i < 32
                    invariant
                        i <= 32,
                        bytes@.len() == 32,
                        forall|j: int| 0 <= j < i ==> secret@[j] == bytes@[j],
                    decreases 32 - i,
                {
                    secret[i] = bytes[i];
                    i = i + 1;
                }
                assert(secret@ =~= bytes@);
                Ok(MachineKey::from_bytes(secret))
            },
        }
    }

    /// Generates a new key from random secret bytes: of these only their number
    /// is claimed.
    pub fn generate() -> (key: Self)
        ensures
            key@.len() == 32,
    {
        MachineKey::from_bytes(random_secret())
    }

    /// The key with these secret bytes.
    pub fn from_bytes(secret: [u8; 32]) -> (key: Self)
        ensures
            key@ == secret@,
    {
        MachineKey { secret }
    }

    /// The key as its file holds it. Reading it back gives this key.
    pub fn to_base64(&self) -> (text: String)
        ensures
            text@ == base64_encoded(self@),
            read_key(text@) == Ok::<Seq<u8>, KeyError>(self@),
    {
        let text = encode_base64(&self.secret);
        proof {
            lemma_no_blanks_to_trim(vstd::utf8::encode_utf8(text@));
        }
        text
    }

    /// This machine's public identity on the mesh.
    pub fn endpoint_id(&self) -> (endpoint: EndpointId)
        ensures
            endpoint@ == public_key(self@),
            is_public_key(endpoint@),
    {
        EndpointId::from_bytes(derive_public(&self.secret))
    }

    /// The secret key, needed to bring up the endpoint.
    pub fn secret(&self) -> (secret: &[u8; 32])
        ensures
            secret@ == self@,
    {
        &self.secret
    }
}

} // verus!
