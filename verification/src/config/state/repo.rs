//! Repos registered on this machine and their mesh-wide identity.

use vstd::prelude::*;

use crate::config::path::FsPath;
use crate::net::endpoint::encode_hex;
use crate::order::{Duplicate, Key, Rel, Same, relate_text, same_text};

verus! {

/// Length of a repo id in hex characters (16 random bytes).
pub const REPO_ID_LEN: usize = 32;

/// Mesh-wide identifier of a repo, shared by all machines syncing it.
/// Randomly generated.
///
/// Ids also arrive from remote machines (sync announcements), so reading one
/// enforces the generated form: names and ids crossing that boundary must
/// never carry control characters or unbounded length.
#[derive(PartialEq, Eq, PartialOrd, Ord, Hash, Debug)]
pub struct RepoId {
    hex: String,
}

/// A repo registered on this machine.
#[derive(PartialEq, Eq, Debug)]
pub struct Repo {
    /// Mesh-wide identifier of the repo.
    pub id: RepoId,
    /// Local repository root (the directory containing `.jj`), in canonical
    /// form.
    pub path: FsPath,
}

/// A registered repo: its id and where it is.
#[verifier::ext_equal]
pub struct RepoView {
    pub id: Seq<char>,
    pub path: Seq<u8>,
}

/// Whether a byte is a lowercase hex digit.
pub open spec fn hex_byte(b: u8) -> bool {
    48 <= b <= 57 || 97 <= b <= 102
}

/// Whether a text has the form of a generated repo id.
pub open spec fn valid_repo_id(text: Seq<char>) -> bool {
    let bytes = vstd::utf8::encode_utf8(text);
    &&& bytes.len() == REPO_ID_LEN
    &&& forall|i: int| 0 <= i < bytes.len() ==> hex_byte(#[trigger] bytes[i])
}

/// What a malformed repo id is answered.
pub open spec fn repo_id_error() -> Seq<char> {
    "repo ids are 32 lowercase hex characters"@
}

/// [`rand::random`]: 16 random bytes. They differ from call to call, so
/// nothing is claimed of them.
#[verifier::external_body]
fn random_bytes() -> [u8; 16] {
    rand::random::<[u8; 16]>()
}

impl View for RepoId {
    type V = Seq<char>;

    closed spec fn view(&self) -> Seq<char> {
        self.hex@
    }
}

impl View for Repo {
    type V = RepoView;

    open spec fn view(&self) -> RepoView {
        RepoView { id: self.id@, path: self.path@ }
    }
}

impl RepoId {
    #[verifier::type_invariant]
    spec fn generated_form(self) -> bool {
        valid_repo_id(self.hex@)
    }

    /// Generates a random repo id: the id of random bytes, whichever they are.
    pub fn generate() -> (id: Self)
        ensures
            valid_repo_id(id@),
    {
        let bytes = random_bytes();
        proof {
            lemma_hex_lower_is_valid(bytes@);
        }
        RepoId::from_bytes(bytes)
    }

    /// The id that bytes make: their lowercase hex, so different bytes make
    /// different ids.
    pub fn from_bytes(bytes: [u8; 16]) -> (id: Self)
        ensures
            id@ == crate::net::endpoint::hex_lower(bytes@),
    {
        let hex = encode_hex(&bytes);
        proof {
            lemma_hex_lower_is_valid(bytes@);
        }
        RepoId { hex }
    }

    /// Reads a repo id, refusing anything but the generated form.
    pub fn try_from(value: String) -> (r: Result<Self, String>)
        ensures
            match r {
                Ok(id) => valid_repo_id(value@) && id@ == value@,
                Err(e) => !valid_repo_id(value@) && e@ == repo_id_error(),
            },
    {
        let bytes = value.as_str().as_bytes();
        if bytes.len() != REPO_ID_LEN {
            return Err("repo ids are 32 lowercase hex characters".to_owned());
        }
        let mut i: usize = 0;
        while i < bytes.len()
            invariant
                i <= bytes@.len(),
                bytes@ == vstd::utf8::encode_utf8(value@),
                forall|j: int| 0 <= j < i ==> hex_byte(#[trigger] bytes@[j]),
            decreases bytes@.len() - i,
        {
            let b: u8 = bytes[i];
            if !((48 <= b && b <= 57) || (97 <= b && b <= 102)) {
                assert(!hex_byte(bytes@[i as int]));
                return Err("repo ids are 32 lowercase hex characters".to_owned());
            }
            i = i + 1;
        }
        Ok(RepoId { hex: value })
    }

    /// The id as written.
    pub fn as_str(&self) -> (text: &str)
        ensures
            text@ == self@,
            valid_repo_id(self@),
    {
        proof {
            use_type_invariant(self);
        }
        self.hex.as_str()
    }
}

impl Duplicate for RepoId {
    fn duplicate(&self) -> (copy: Self) {
        proof {
            use_type_invariant(self);
        }
        RepoId { hex: self.hex.clone() }
    }
}

impl Same for RepoId {
    fn same(&self, other: &Self) -> (same: bool) {
        same_text(self.hex.as_str(), other.hex.as_str())
    }
}

impl Key for RepoId {
    open spec fn before(a: Seq<char>, b: Seq<char>) -> bool {
        crate::order::text_before(a, b)
    }

    proof fn irreflexive(a: Seq<char>) {
        <String as Key>::irreflexive(a);
    }

    proof fn chains(a: Seq<char>, b: Seq<char>, c: Seq<char>) {
        <String as Key>::chains(a, b, c);
    }

    proof fn connected(a: Seq<char>, b: Seq<char>) {
        <String as Key>::connected(a, b);
    }

    fn relate(&self, other: &Self) -> (rel: Rel) {
        relate_text(self.hex.as_str(), other.hex.as_str())
    }
}

impl Duplicate for Repo {
    fn duplicate(&self) -> (copy: Self) {
        Repo { id: self.id.duplicate(), path: self.path.duplicate() }
    }
}

impl Same for Repo {
    fn same(&self, other: &Self) -> (same: bool) {
        self.id.same(&other.id) && self.path.same(&other.path)
    }
}

/// The hex of 16 bytes has the form of a repo id.
proof fn lemma_hex_lower_is_valid(bytes: Seq<u8>)
    requires
        bytes.len() == 16,
    ensures
        valid_repo_id(crate::net::endpoint::hex_lower(bytes)),
{
    let text = crate::net::endpoint::hex_lower(bytes);
    assert forall|i: int| 0 <= i < text.len() implies 48 <= (#[trigger] text[i]) as int <= 102
        && hex_byte(text[i] as u8) by {}
    assert(vstd::utf8::is_ascii_chars(text));
    vstd::utf8::is_ascii_chars_encode_utf8(text);
}

/// A text is a repo id exactly when it is 32 bytes long and each is a digit or
/// one of the letters from `a` to `f`.
pub proof fn repo_ids_are_lowercase_hex(text: Seq<char>)
    ensures
        valid_repo_id(text) <==> vstd::utf8::encode_utf8(text).len() == 32 && forall|i: int|
            0 <= i < vstd::utf8::encode_utf8(text).len() ==> {
                let b = #[trigger] vstd::utf8::encode_utf8(text)[i];
                ('0' as u8 <= b <= '9' as u8) || ('a' as u8 <= b <= 'f' as u8)
            },
{
}

} // verus!
