//! Orders on keys: byte strings, text and endpoint ids all compare byte by
//! byte, the way their Rust types do.

use vstd::prelude::*;


verus! {

/// How one key stands to another.
#[derive(Clone, Copy, PartialEq, Eq, Structural, Debug)]
pub enum Rel {
    Before,
    Same,
    After,
}

/// A value that can be copied without losing anything of its view.
pub trait Duplicate: View + Sized {
    fn duplicate(&self) -> (copy: Self)
        ensures
            copy@ == self@,
    ;
}

/// A value that can be compared for equality of views.
pub trait Same: View + Sized {
    fn same(&self, other: &Self) -> (same: bool)
        ensures
            same == (self@ == other@),
    ;
}

/// A map key: its views carry a strict total order.
pub trait Key: Duplicate {
    /// Whether `a` comes strictly before `b`.
    spec fn before(a: Self::V, b: Self::V) -> bool;

    /// No key comes before itself.
    proof fn irreflexive(a: Self::V)
        ensures
            !Self::before(a, a),
    ;

    /// The order chains.
    proof fn chains(a: Self::V, b: Self::V, c: Self::V)
        requires
            Self::before(a, b),
            Self::before(b, c),
        ensures
            Self::before(a, c),
    ;

    /// Two different keys are always ordered.
    proof fn connected(a: Self::V, b: Self::V)
        ensures
            a == b || Self::before(a, b) || Self::before(b, a),
    ;

    /// Compares two keys.
    fn relate(&self, other: &Self) -> (rel: Rel)
        ensures
            match rel {
                Rel::Before => Self::before(self@, other@),
                Rel::Same => self@ == other@,
                Rel::After => Self::before(other@, self@),
            },
    ;
}

/// Byte-lexicographic order: the first differing byte decides, and a proper
/// prefix comes first.
pub open spec fn bytes_before(a: Seq<u8>, b: Seq<u8>) -> bool
    decreases a.len(),
{
    if b.len() == 0 {
        false
    } else if a.len() == 0 {
        true
    } else if a[0] != b[0] {
        a[0] < b[0]
    } else {
        bytes_before(a.skip(1), b.skip(1))
    }
}

/// Order of text: by the bytes of its UTF-8 encoding.
pub open spec fn text_before(a: Seq<char>, b: Seq<char>) -> bool {
    bytes_before(vstd::utf8::encode_utf8(a), vstd::utf8::encode_utf8(b))
}

pub proof fn bytes_irreflexive(a: Seq<u8>)
    ensures
        !bytes_before(a, a),
    decreases a.len(),
{
    if a.len() > 0 {
        bytes_irreflexive(a.skip(1));
    }
}

pub proof fn bytes_chain(a: Seq<u8>, b: Seq<u8>, c: Seq<u8>)
    requires
        bytes_before(a, b),
        bytes_before(b, c),
    ensures
        bytes_before(a, c),
    decreases a.len(),
{
    if a.len() > 0 && a[0] == b[0] && b[0] == c[0] {
        bytes_chain(a.skip(1), b.skip(1), c.skip(1));
    }
}

pub proof fn bytes_connected(a: Seq<u8>, b: Seq<u8>)
    ensures
        a == b || bytes_before(a, b) || bytes_before(b, a),
    decreases a.len(),
{
    if a.len() == 0 || b.len() == 0 {
        if a.len() == b.len() {
            assert(a =~= b);
        }
    } else if a[0] == b[0] {
        bytes_connected(a.skip(1), b.skip(1));
        if a.skip(1) == b.skip(1) {
            assert(a =~= seq![a[0]] + a.skip(1));
            assert(b =~= seq![b[0]] + b.skip(1));
        }
    }
}

/// Text with equal encodings is equal.
pub proof fn encoding_is_injective(a: Seq<char>, b: Seq<char>)
    requires
        vstd::utf8::encode_utf8(a) == vstd::utf8::encode_utf8(b),
    ensures
        a == b,
{
    vstd::utf8::encode_utf8_decode_utf8(a);
    vstd::utf8::encode_utf8_decode_utf8(b);
}

pub proof fn text_connected(a: Seq<char>, b: Seq<char>)
    ensures
        a == b || text_before(a, b) || text_before(b, a),
{
    bytes_connected(vstd::utf8::encode_utf8(a), vstd::utf8::encode_utf8(b));
    if vstd::utf8::encode_utf8(a) == vstd::utf8::encode_utf8(b) {
        encoding_is_injective(a, b);
    }
}

/// Compares two byte strings.
pub fn relate_bytes(a: &[u8], b: &[u8]) -> (rel: Rel)
    ensures
        match rel {
            Rel::Before => bytes_before(a@, b@),
            Rel::Same => a@ == b@,
            Rel::After => bytes_before(b@, a@),
        },
{
    let mut i: usize = 0;
    assert(a@.skip(0) =~= a@);
    assert(b@.skip(0) =~= b@);
    while i < a.len() && i < b.len()
        invariant
            i <= a@.len(),
            i <= b@.len(),
            a@.take(i as int) == b@.take(i as int),
            bytes_before(a@, b@) == bytes_before(a@.skip(i as int), b@.skip(i as int)),
            bytes_before(b@, a@) == bytes_before(b@.skip(i as int), a@.skip(i as int)),
        decreases a@.len() - i,
    {
        let ghost sa = a@.skip(i as int);
        let ghost sb = b@.skip(i as int);
        assert(sa[0] == a@[i as int] && sb[0] == b@[i as int]);
        if a[i] < b[i] {
            return Rel::Before;
        }
        if a[i] > b[i] {
            return Rel::After;
        }
        proof {
            assert(sa.skip(1) =~= a@.skip(i + 1));
            assert(sb.skip(1) =~= b@.skip(i + 1));
            assert(a@.take(i + 1) =~= a@.take(i as int).push(a@[i as int]));
            assert(b@.take(i + 1) =~= b@.take(i as int).push(b@[i as int]));
        }
        i = i + 1;
    }
    proof {
        assert(a@.skip(i as int).len() == a@.len() - i);
        assert(b@.skip(i as int).len() == b@.len() - i);
    }
    if i < b.len() {
        Rel::Before
    } else if i < a.len() {
        Rel::After
    } else {
        assert(a@.take(i as int) =~= a@);
        assert(b@.take(i as int) =~= b@);
        Rel::Same
    }
}

/// Compares two texts.
pub fn relate_text(a: &str, b: &str) -> (rel: Rel)
    ensures
        match rel {
            Rel::Before => text_before(a@, b@),
            Rel::Same => a@ == b@,
            Rel::After => text_before(b@, a@),
        },
{
    let rel = relate_bytes(a.as_bytes(), b.as_bytes());
    proof {
        if rel == Rel::Same {
            encoding_is_injective(a@, b@);
        }
    }
    rel
}

/// Whether two texts are equal.
pub fn same_text(a: &str, b: &str) -> (same: bool)
    ensures
        same == (a@ == b@),
{
    let rel = relate_text(a, b);
    proof {
        bytes_irreflexive(vstd::utf8::encode_utf8(a@));
    }
    rel == Rel::Same
}

/// Whether two byte strings are equal.
pub fn same_bytes(a: &[u8], b: &[u8]) -> (same: bool)
    ensures
        same == (a@ == b@),
{
    let rel = relate_bytes(a, b);
    proof {
        bytes_irreflexive(a@);
    }
    rel == Rel::Same
}

impl Duplicate for String {
    fn duplicate(&self) -> (copy: Self) {
        self.clone()
    }
}

impl Same for String {
    fn same(&self, other: &Self) -> (same: bool) {
        same_text(self.as_str(), other.as_str())
    }
}

impl Key for String {
    open spec fn before(a: Seq<char>, b: Seq<char>) -> bool {
        text_before(a, b)
    }

    proof fn irreflexive(a: Seq<char>) {
        bytes_irreflexive(vstd::utf8::encode_utf8(a));
    }

    proof fn chains(a: Seq<char>, b: Seq<char>, c: Seq<char>) {
        bytes_chain(vstd::utf8::encode_utf8(a), vstd::utf8::encode_utf8(b), vstd::utf8::encode_utf8(c));
    }

    proof fn connected(a: Seq<char>, b: Seq<char>) {
        text_connected(a, b);
    }

    fn relate(&self, other: &Self) -> (rel: Rel) {
        relate_text(self.as_str(), other.as_str())
    }
}

/// The first byte that differs decides, and a beginning comes before what
/// continues it.
pub proof fn the_first_difference_decides(
    start: Seq<u8>,
    a: u8,
    a_rest: Seq<u8>,
    b: u8,
    b_rest: Seq<u8>,
)
    requires
        a < b,
    ensures
        bytes_before(start + (seq![a] + a_rest), start + (seq![b] + b_rest)),
        !bytes_before(start + (seq![b] + b_rest), start + (seq![a] + a_rest)),
        bytes_before(start, start + (seq![a] + a_rest)),
        !bytes_before(start + (seq![a] + a_rest), start),
    decreases start.len(),
{
    let low = start + (seq![a] + a_rest);
    let high = start + (seq![b] + b_rest);
    if start.len() > 0 {
        the_first_difference_decides(start.skip(1), a, a_rest, b, b_rest);
        assert(low.skip(1) =~= start.skip(1) + (seq![a] + a_rest));
        assert(high.skip(1) =~= start.skip(1) + (seq![b] + b_rest));
    } else {
        assert(low =~= seq![a] + a_rest);
        assert(high =~= seq![b] + b_rest);
    }
}

} // verus!
