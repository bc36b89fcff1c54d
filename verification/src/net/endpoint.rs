//! Endpoint ids: the public keys by which machines are known.

use vstd::prelude::*;

use crate::order::{Duplicate, Key, Rel, Same, relate_bytes, same_bytes};

verus! {

/// Length of an endpoint id in bytes.
pub const ENDPOINT_LEN: usize = 32;

/// A machine's public identity on the mesh: the 32 bytes of its public key.
#[derive(Clone, Copy, PartialEq, Eq, PartialOrd, Ord, Hash, Debug)]
pub struct EndpointId {
    bytes: [u8; 32],
}

/// The lowercase hex digit of a half byte.
pub open spec fn hex_digit(n: nat) -> char {
    if n < 10 {
        (48 + n) as char
    } else {
        (87 + n) as char
    }
}

/// Bytes in lowercase hex, two characters each.
pub open spec fn hex_lower(bytes: Seq<u8>) -> Seq<char> {
    Seq::new(
        2 * bytes.len(),
        |i: int|
            if i % 2 == 0 {
                hex_digit((bytes[i / 2] / 16) as nat)
            } else {
                hex_digit((bytes[i / 2] % 16) as nat)
            },
    )
}

/// What [`iroh::EndpointId`]'s `FromStr` makes of a text: the key's bytes, or
/// nothing where the text is no key.
pub uninterp spec fn parsed_endpoint(text: Seq<char>) -> Option<Seq<u8>>;

/// The key a text stands for. Texts no parser could take stand for none.
pub open spec fn endpoint_of(text: Seq<char>) -> Option<Seq<u8>> {
    if vstd::utf8::encode_utf8(text).len() <= usize::MAX / 8 {
        parsed_endpoint(text)
    } else {
        None
    }
}

/// [`data_encoding::Encoding::encode`] of `HEXLOWER`: two lowercase hex digits
/// per byte, high half first.
#[verifier::external_body]
pub(crate) fn encode_hex(bytes: &[u8]) -> (text: String)
    requires
        bytes@.len() <= usize::MAX / 512,
    ensures
        text@ == hex_lower(bytes@),
{
    data_encoding::HEXLOWER.encode(bytes)
}

/// The `FromStr` of [`iroh::EndpointId`], a function of the text alone. It
/// refuses texts that are neither hex nor base32, and bytes that are no valid
/// public key; which ones that is, is left to the name. What
/// [`iroh::SecretKey::public`] derives is valid: its lowercase hex reads back to
/// the same bytes.
#[verifier::external_body]
fn parse_key(text: &str) -> (key: Option<[u8; 32]>)
    requires
        vstd::utf8::encode_utf8(text@).len() <= usize::MAX / 8,
    ensures
        match key {
            Some(bytes) => parsed_endpoint(text@) == Some(bytes@) && forall|public: Seq<u8>|
                text@ == #[trigger] hex_lower(public) && crate::config::key::is_public_key(public) ==> bytes@
                    == public,
            None => parsed_endpoint(text@) is None && forall|public: Seq<u8>|
                text@ == #[trigger] hex_lower(public) ==> !crate::config::key::is_public_key(public),
        },
{
    match text.parse::<iroh::EndpointId>() {
        Ok(key) => Some(*key.as_bytes()),
        Err(_) => None,
    }
}

impl View for EndpointId {
    type V = Seq<u8>;

    closed spec fn view(&self) -> Seq<u8> {
        self.bytes@
    }
}

impl EndpointId {
    /// The endpoint with these key bytes.
    pub fn from_bytes(bytes: [u8; 32]) -> (endpoint: Self)
        ensures
            endpoint@ == bytes@,
    {
        EndpointId { bytes }
    }

    /// The key bytes.
    pub fn as_bytes(&self) -> (bytes: &[u8; 32])
        ensures
            bytes@ == self@,
    {
        &self.bytes
    }

    /// The endpoint as written: its key in lowercase hex.
    pub fn to_text(&self) -> (text: String)
        ensures
            text@ == hex_lower(self@),
    {
        encode_hex(&self.bytes)
    }

    /// Reads an endpoint id, in any form its key can be written in. A machine's
    /// id reads back from what [`EndpointId::to_text`] writes it as.
    pub fn parse(text: &str) -> (endpoint: Option<Self>)
        ensures
            match endpoint {
                Some(e) => endpoint_of(text@) == Some(e@),
                None => endpoint_of(text@) is None,
            },
            forall|bytes: Seq<u8>|
                text@ == #[trigger] hex_lower(bytes) && crate::config::key::is_public_key(bytes)
                    ==> (endpoint matches Some(e) && e@ == bytes),
    {
        proof {
            assert forall|bytes: Seq<u8>|
                text@ == #[trigger] hex_lower(bytes) && crate::config::key::is_public_key(
                    bytes,
                ) implies vstd::utf8::encode_utf8(text@).len() == 64 by {
                lemma_hex_lower_len(bytes);
            }
        }
        if text.as_bytes().len() > usize::MAX / 8 {
            return None;
        }
        match parse_key(text) {
            Some(bytes) => Some(EndpointId { bytes }),
            None => None,
        }
    }
}

impl Duplicate for EndpointId {
    fn duplicate(&self) -> (copy: Self) {
        *self
    }
}

impl Same for EndpointId {
    fn same(&self, other: &Self) -> (same: bool) {
        same_bytes(&self.bytes, &other.bytes)
    }
}

impl Key for EndpointId {
    open spec fn before(a: Seq<u8>, b: Seq<u8>) -> bool {
        crate::order::bytes_before(a, b)
    }

    proof fn irreflexive(a: Seq<u8>) {
        crate::order::bytes_irreflexive(a);
    }

    proof fn chains(a: Seq<u8>, b: Seq<u8>, c: Seq<u8>) {
        crate::order::bytes_chain(a, b, c);
    }

    proof fn connected(a: Seq<u8>, b: Seq<u8>) {
        crate::order::bytes_connected(a, b);
    }

    fn relate(&self, other: &Self) -> (rel: Rel) {
        relate_bytes(&self.bytes, &other.bytes)
    }
}

proof fn lemma_hex_lower_len(bytes: Seq<u8>)
    ensures
        vstd::utf8::encode_utf8(hex_lower(bytes)).len() == 2 * bytes.len(),
{
    let text = hex_lower(bytes);
    assert forall|i: int| 0 <= i < text.len() implies (#[trigger] text[i]) as u32 <= 127 by {
        let byte = bytes[i / 2];
        assert(byte / 16 < 16 && byte % 16 < 16);
    }
    assert(vstd::utf8::is_ascii_chars(text));
    vstd::utf8::is_ascii_chars_encode_utf8(text);
}

/// Two ids written the same are the same.
pub proof fn hex_lower_is_injective(a: Seq<u8>, b: Seq<u8>)
    requires
        hex_lower(a) == hex_lower(b),
    ensures
        a == b,
{
    assert(hex_lower(a).len() == 2 * a.len());
    assert(hex_lower(b).len() == 2 * b.len());
    assert forall|i: int| 0 <= i < a.len() implies a[i] == b[i] by {
        lemma_hex_lower_at(a, i);
        lemma_hex_lower_at(b, i);
        lemma_hex_digit_is_injective((a[i] / 16) as nat, (b[i] / 16) as nat);
        lemma_hex_digit_is_injective((a[i] % 16) as nat, (b[i] % 16) as nat);
    }
    assert(a =~= b);
}

proof fn lemma_hex_lower_at(bytes: Seq<u8>, i: int)
    requires
        0 <= i < bytes.len(),
    ensures
        hex_lower(bytes)[2 * i] == hex_digit((bytes[i] / 16) as nat),
        hex_lower(bytes)[2 * i + 1] == hex_digit((bytes[i] % 16) as nat),
{
    let high = 2 * i;
    let low = 2 * i + 1;
    assert(high / 2 == i && high % 2 == 0);
    assert(low / 2 == i && low % 2 == 1);
}

proof fn lemma_hex_digit_is_injective(m: nat, n: nat)
    requires
        m < 16,
        n < 16,
        hex_digit(m) == hex_digit(n),
    ensures
        m == n,
{
    assert(hex_digit(m) as int == if m < 10 { 48 + m } else { 87 + m });
    assert(hex_digit(n) as int == if n < 10 { 48 + n } else { 87 + n });
}

/// Bytes are written two digits each, high half first.
pub proof fn hex_keeps_the_bytes(bytes: Seq<u8>, i: int)
    requires
        0 <= i < bytes.len(),
    ensures
        hex_lower(bytes).len() == 2 * bytes.len(),
        hex_lower(bytes)[2 * i] == hex_digit((bytes[i] / 16) as nat),
        hex_lower(bytes)[2 * i + 1] == hex_digit((bytes[i] % 16) as nat),
        hex_digit(0) == '0',
        hex_digit(9) == '9',
        hex_digit(10) == 'a',
        hex_digit(15) == 'f',
{
}

} // verus!
