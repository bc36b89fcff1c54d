//! File system paths as the library carries them: their bytes.

use vstd::prelude::*;

use vstd::std_specs::cmp::PartialEqSpecImpl;

use crate::order::{Duplicate, Same, same_bytes};

verus! {

/// A path, as the bytes the file system knows it by. Two paths are equal when
/// their components are, however they are spelled.
#[derive(Eq, Debug)]
pub struct FsPath {
    bytes: Vec<u8>,
}

/// What [`String::from_utf8_lossy`] makes of bytes: their text, with a
/// replacement character for each malformed part.
pub uninterp spec fn lossy_text(bytes: Seq<u8>) -> Seq<char>;

/// [`String::from_utf8_lossy`]: well-formed bytes are read as they are.
#[verifier::external_body]
fn text_of_bytes(bytes: &[u8]) -> (text: String)
    ensures
        text@ == lossy_text(bytes@),
        vstd::utf8::valid_utf8(bytes@) ==> text@ == vstd::utf8::decode_utf8(bytes@),
{
    String::from_utf8_lossy(bytes).into_owned()
}

/// `name` below `base`: an absolute name stands alone, and a separator goes
/// between the two unless one is there.
pub open spec fn joined(base: Seq<u8>, name: Seq<u8>) -> Seq<u8> {
    if name.len() > 0 && name[0] == 47u8 {
        name
    } else if base.len() == 0 || base.last() == 47u8 {
        base + name
    } else {
        base.push(47u8) + name
    }
}

/// `name` below `base`, with the name given as text.
pub open spec fn joined_name(base: Seq<u8>, name: Seq<char>) -> Seq<u8> {
    joined(base, vstd::utf8::encode_utf8(name))
}

/// How long the first component of a path is.
pub open spec fn component_len(path: Seq<u8>) -> nat
    decreases path.len(),
{
    if path.len() == 0 || path[0] == 47u8 {
        0
    } else {
        1 + component_len(path.skip(1))
    }
}

/// The first component of a path.
pub open spec fn component(path: Seq<u8>) -> Seq<u8> {
    path.take(component_len(path) as int)
}

/// A path without separators and `.` components at its start.
pub open spec fn trimmed_start(path: Seq<u8>) -> Seq<u8>
    decreases path.len(),
{
    if path.len() == 0 {
        path
    } else if path[0] == 47u8 || component(path) == seq![46u8] {
        trimmed_start(path.skip(1))
    } else {
        path
    }
}

/// Where the last component of a path starts.
pub open spec fn last_start(path: Seq<u8>) -> nat
    decreases path.len(),
{
    if path.len() == 0 || path.last() == 47u8 {
        path.len()
    } else {
        last_start(path.drop_last())
    }
}

/// The last component of a path.
pub open spec fn last_component(path: Seq<u8>) -> Seq<u8> {
    path.skip(last_start(path) as int)
}

/// A path without separators and `.` components at its end. A lone `.` that a
/// relative path starts with stays.
pub open spec fn trimmed_end(path: Seq<u8>) -> Seq<u8>
    decreases path.len(),
{
    if path.len() == 0 {
        path
    } else if path.last() == 47u8 || (path.len() > 1 && last_component(path) == seq![46u8]) {
        trimmed_end(path.drop_last())
    } else {
        path
    }
}

/// What follows the components of `base` in `path`, none where `path` does not
/// start with them.
pub open spec fn after_components(path: Seq<u8>, base: Seq<u8>) -> Option<Seq<u8>>
    decreases base.len(), path.len(),
{
    if base.len() == 0 {
        Some(path)
    } else if path.len() > 0 && component_len(base) > 0 && component(path) == component(base) {
        proof {
            lemma_trimmed_shorter(base.skip(component_len(base) as int));
            lemma_component_len(base);
        }
        after_components(
            trimmed_start(path.skip(component_len(path) as int)),
            trimmed_start(base.skip(component_len(base) as int)),
        )
    } else {
        None
    }
}

/// Whether a path is absolute.
pub open spec fn absolute(path: Seq<u8>) -> bool {
    path.len() > 0 && path[0] == 47u8
}

/// The components of a path that are not `.`.
pub open spec fn names(path: Seq<u8>) -> Seq<Seq<u8>>
    decreases path.len(),
{
    let start = trimmed_start(path);
    if start.len() == 0 {
        Seq::empty()
    } else {
        proof {
            lemma_trimmed_shorter(path);
            lemma_component_len(start);
        }
        seq![component(start)] + names(start.skip(component_len(start) as int))
    }
}

/// The components of a path, below the root where it is absolute. Repeated and
/// trailing separators make none, nor does `.` anywhere but at the start of a
/// relative path.
pub open spec fn components(path: Seq<u8>) -> Seq<Seq<u8>> {
    if component(path) == seq![46u8] {
        seq![seq![46u8]] + names(path)
    } else {
        names(path)
    }
}

/// Whether two spellings name one path: both are absolute or neither is, and
/// their components are the same.
pub open spec fn same_path(a: Seq<u8>, b: Seq<u8>) -> bool {
    absolute(a) == absolute(b) && components(a) == components(b)
}

/// A path relative to one above it, component by component; none where the
/// other is not above it.
pub open spec fn below(path: Seq<u8>, base: Seq<u8>) -> Option<Seq<u8>> {
    if base.len() == 0 {
        if absolute(path) && trimmed_end(path).len() == 0 {
            Some(seq![47u8])
        } else {
            Some(trimmed_end(path))
        }
    } else if absolute(path) != absolute(base) {
        None
    } else {
        let rest = if absolute(path) {
            after_components(trimmed_start(path), trimmed_start(base))
        } else {
            after_components(path, base)
        };
        match rest {
            Some(rest) => Some(trimmed_end(rest)),
            None => None,
        }
    }
}

/// The final component of a path, if it is a name.
pub open spec fn name_in(path: Seq<u8>) -> Option<Seq<u8>> {
    let name = last_component(trimmed_end(path));
    if name.len() == 0 || name == seq![46u8] || name == seq![46u8, 46u8] {
        None
    } else {
        Some(name)
    }
}

/// A component ends at the first separator.
pub proof fn lemma_component_len(path: Seq<u8>)
    ensures
        component_len(path) <= path.len(),
        forall|i: int| 0 <= i < component_len(path) ==> #[trigger] path[i] != 47u8,
        component_len(path) < path.len() ==> path[component_len(path) as int] == 47u8,
    decreases path.len(),
{
    if path.len() > 0 && path[0] != 47u8 {
        let rest = path.skip(1);
        lemma_component_len(rest);
        assert forall|i: int| 0 <= i < component_len(path) implies #[trigger] path[i] != 47u8 by {
            if i > 0 {
                assert(rest[i - 1] == path[i]);
            }
        }
        if component_len(path) < path.len() {
            assert(rest[component_len(rest) as int] == path[component_len(path) as int]);
        }
    }
}

/// Trimming only shortens, up to where a component starts.
pub proof fn lemma_trimmed_shorter(path: Seq<u8>)
    ensures
        trimmed_start(path).len() <= path.len(),
        trimmed_start(path).len() > 0 ==> trimmed_start(path)[0] != 47u8,
    decreases path.len(),
{
    if path.len() > 0 {
        lemma_trimmed_shorter(path.skip(1));
    }
}

/// Sequences are equal when they start alike and go on alike.
proof fn lemma_led_by(a: Seq<u8>, s: Seq<Seq<u8>>, b: Seq<u8>, t: Seq<Seq<u8>>)
    ensures
        (seq![a] + s == seq![b] + t) == (a == b && s == t),
{
    let left = seq![a] + s;
    let right = seq![b] + t;
    assert(left.skip(1) =~= s);
    assert(right.skip(1) =~= t);
    assert(left[0] == a);
    assert(right[0] == b);
}

/// No component but one at the start of a path is `.`.
proof fn lemma_names(path: Seq<u8>)
    ensures
        names(path).len() > 0 ==> names(path)[0] != seq![46u8],
{
    lemma_trimmed(path);
}

/// What is left after trimming does not start with a `.` component.
proof fn lemma_trimmed(path: Seq<u8>)
    ensures
        trimmed_start(path).len() > 0 ==> component(trimmed_start(path)) != seq![46u8],
    decreases path.len(),
{
    if path.len() > 0 {
        lemma_trimmed(path.skip(1));
    }
}

/// Components are the same when both start with `.` or neither does, and the
/// others are the same.
proof fn lemma_components(a: Seq<u8>, b: Seq<u8>)
    ensures
        (components(a) == components(b)) == ((component(a) == seq![46u8]) == (component(b)
            == seq![46u8]) && names(a) == names(b)),
{
    let dot = seq![46u8];
    lemma_names(a);
    lemma_names(b);
    lemma_led_by(dot, names(a), dot, names(b));
    assert((seq![dot] + names(a))[0] == dot);
    assert((seq![dot] + names(b))[0] == dot);
}

/// Being one path is an equivalence of spellings.
pub proof fn same_path_is_an_equivalence(a: Seq<u8>, b: Seq<u8>, c: Seq<u8>)
    ensures
        same_path(a, a),
        same_path(a, b) ==> same_path(b, a),
        same_path(a, b) && same_path(b, c) ==> same_path(a, c),
{
}

/// What a path ends in does not matter where it is separators and `.` components
/// alone.
pub proof fn trailing_separators_do_not_matter(path: Seq<u8>, tail: Seq<u8>)
    requires
        path.len() > 0,
        absolute(tail),
        names(tail).len() == 0,
    ensures
        same_path(path, path + tail),
{
    lemma_component_before(path, tail);
    lemma_names_before(path, tail);
}

proof fn lemma_component_before(path: Seq<u8>, tail: Seq<u8>)
    requires
        absolute(tail),
    ensures
        component_len(path + tail) == component_len(path),
        component(path + tail) == component(path),
    decreases path.len(),
{
    let whole = path + tail;
    if path.len() > 0 && path[0] != 47u8 {
        assert(whole.skip(1) =~= path.skip(1) + tail);
        lemma_component_before(path.skip(1), tail);
    }
    lemma_component_len(path);
    assert(component(whole) =~= component(path));
}

proof fn lemma_trimmed_before(path: Seq<u8>, tail: Seq<u8>)
    requires
        absolute(tail),
        trimmed_start(tail).len() == 0,
    ensures
        trimmed_start(path).len() == 0 ==> trimmed_start(path + tail).len() == 0,
        trimmed_start(path).len() > 0 ==> trimmed_start(path + tail) == trimmed_start(path) + tail,
    decreases path.len(),
{
    let whole = path + tail;
    if path.len() == 0 {
        assert(whole =~= tail);
    } else {
        assert(whole.skip(1) =~= path.skip(1) + tail);
        lemma_component_before(path, tail);
        lemma_trimmed_before(path.skip(1), tail);
    }
}

proof fn lemma_names_before(path: Seq<u8>, tail: Seq<u8>)
    requires
        absolute(tail),
        names(tail).len() == 0,
    ensures
        names(path + tail) == names(path),
    decreases path.len(),
{
    let start = trimmed_start(path);
    lemma_trimmed_before(path, tail);
    if start.len() > 0 {
        lemma_trimmed_shorter(path);
        lemma_component_len(start);
        lemma_component_before(start, tail);
        let rest = start.skip(component_len(start) as int);
        assert((start + tail).skip(component_len(start) as int) =~= rest + tail);
        lemma_names_before(rest, tail);
    }
}

impl View for FsPath {
    type V = Seq<u8>;

    closed spec fn view(&self) -> Seq<u8> {
        self.bytes@
    }
}

/// Copies bytes into a vector.
pub fn bytes_to_vec(bytes: &[u8]) -> (copy: Vec<u8>)
    ensures
        copy@ == bytes@,
{
    let mut copy: Vec<u8> = Vec::new();
    let mut i: usize = 0;
    while i < bytes.len()
        invariant
            i <= bytes@.len(),
            copy@ == bytes@.take(i as int),
        decreases bytes@.len() - i,
    {
        copy.push(bytes[i]);
        assert(bytes@.take(i + 1) =~= bytes@.take(i as int).push(bytes@[i as int]));
        i = i + 1;
    }
    assert(bytes@.take(i as int) =~= bytes@);
    copy
}

/// Where the component that starts at `from` ends.
fn component_end(bytes: &[u8], from: usize) -> (end: usize)
    requires
        from <= bytes@.len(),
    ensures
        from <= end <= bytes@.len(),
        end == from + component_len(bytes@.skip(from as int)),
    decreases bytes@.len() - from,
{
    let ghost rest = bytes@.skip(from as int);
    if from == bytes.len() || bytes[from] == 47u8 {
        return from;
    }
    assert(rest.skip(1) =~= bytes@.skip(from + 1));
    component_end(bytes, from + 1)
}

/// Where the path goes on once separators and `.` components are passed over.
fn skip_trimmed(bytes: &[u8], from: usize) -> (start: usize)
    requires
        from <= bytes@.len(),
    ensures
        from <= start <= bytes@.len(),
        bytes@.skip(start as int) == trimmed_start(bytes@.skip(from as int)),
    decreases bytes@.len() - from,
{
    let ghost rest = bytes@.skip(from as int);
    if from == bytes.len() {
        return from;
    }
    assert(rest.skip(1) =~= bytes@.skip(from + 1));
    let end: usize = component_end(bytes, from);
    let dot: bool = end - from == 1 && bytes[from] == 46u8;
    proof {
        if dot {
            assert(component(rest) =~= seq![46u8]);
        } else if component(rest) == seq![46u8] {
            assert(component(rest).len() == 1);
            assert(component(rest)[0] == rest[0]);
        }
    }
    if bytes[from] == 47u8 || dot {
        skip_trimmed(bytes, from + 1)
    } else {
        from
    }
}

/// Whether a path starts with a `.` component.
fn starts_here(bytes: &[u8]) -> (r: bool)
    ensures
        r == (component(bytes@) == seq![46u8]),
{
    let end: usize = component_end(bytes, 0);
    assert(bytes@.skip(0) =~= bytes@);
    let r: bool = end == 1 && bytes[0] == 46u8;
    proof {
        if r {
            assert(component(bytes@) =~= seq![46u8]);
        } else if component(bytes@) == seq![46u8] {
            assert(component(bytes@).len() == 1);
            assert(component(bytes@)[0] == bytes@[0]);
        }
    }
    r
}

/// Whether two ranges hold the same bytes.
fn same_range(a: &[u8], i: usize, i_end: usize, b: &[u8], j: usize, j_end: usize) -> (r: bool)
    requires
        i <= i_end <= a@.len(),
        j <= j_end <= b@.len(),
        i_end == i + component_len(a@.skip(i as int)),
        j_end == j + component_len(b@.skip(j as int)),
    ensures
        r == (component(a@.skip(i as int)) == component(b@.skip(j as int))),
{
    let ghost own = component(a@.skip(i as int));
    let ghost other = component(b@.skip(j as int));
    assert(own =~= a@.subrange(i as int, i_end as int));
    assert(other =~= b@.subrange(j as int, j_end as int));
    same_bytes(
        vstd::slice::slice_subrange(a, i, i_end),
        vstd::slice::slice_subrange(b, j, j_end),
    )
}

/// Where the last component starts.
fn last_component_start(bytes: &[u8]) -> (start: usize)
    ensures
        start <= bytes@.len(),
        start == last_start(bytes@),
{
    let mut start: usize = bytes.len();
    assert(bytes@.take(start as int) =~= bytes@);
    while start > 0 && bytes[start - 1] != 47u8
        invariant
            start <= bytes@.len(),
            last_start(bytes@) == last_start(bytes@.take(start as int)),
        decreases start,
    {
        assert(bytes@.take(start as int).drop_last() =~= bytes@.take(start - 1));
        start = start - 1;
    }
    start
}

/// The path from `from` on, without separators and `.` components at its end.
fn without_tail(bytes: &[u8], from: usize) -> (path: FsPath)
    requires
        from <= bytes@.len(),
    ensures
        path@ == trimmed_end(bytes@.skip(from as int)),
{
    let mut rest: Vec<u8> = bytes_to_vec(vstd::slice::slice_subrange(bytes, from, bytes.len()));
    assert(rest@ =~= bytes@.skip(from as int));
    let mut going: bool = true;
    while going
        invariant
            trimmed_end(rest@) == trimmed_end(bytes@.skip(from as int)),
            !going ==> rest@ == trimmed_end(rest@),
        decreases rest@.len() + if going { 1nat } else { 0nat },
    {
        let len: usize = rest.len();
        if len == 0 {
            going = false;
        } else {
            let start: usize = last_component_start(rest.as_slice());
            let dot: bool = len - start == 1 && rest[len - 1] == 46u8;
            let ghost last = last_component(rest@);
            proof {
                if dot {
                    assert(last =~= seq![46u8]);
                } else if last == seq![46u8] {
                    assert(last.len() == 1);
                    assert(last[0] == rest@.last());
                }
            }
            if rest[len - 1] == 47u8 || (len > 1 && dot) {
                let ghost before = rest@;
                let _ = rest.pop();
                assert(rest@ =~= before.drop_last());
            } else {
                going = false;
            }
        }
    }
    FsPath { bytes: rest }
}

impl FsPath {
    /// The path with these bytes.
    pub fn from_bytes(bytes: Vec<u8>) -> (path: Self)
        ensures
            path@ == bytes@,
    {
        FsPath { bytes }
    }

    /// The path a text names.
    pub fn new(text: &str) -> (path: Self)
        ensures
            path@ == vstd::utf8::encode_utf8(text@),
    {
        FsPath { bytes: bytes_to_vec(text.as_bytes()) }
    }

    /// The path's bytes.
    pub fn as_bytes(&self) -> (bytes: &[u8])
        ensures
            bytes@ == self@,
    {
        self.bytes.as_slice()
    }

    /// The path as shown to the user.
    pub fn display(&self) -> (text: String)
        ensures
            text@ == lossy_text(self@),
            vstd::utf8::valid_utf8(self@) ==> text@ == vstd::utf8::decode_utf8(self@),
    {
        text_of_bytes(self.bytes.as_slice())
    }

    /// Whether the path is absolute.
    pub fn is_absolute(&self) -> (r: bool)
        ensures
            r == absolute(self@),
    {
        self.bytes.len() > 0 && self.bytes[0] == 47u8
    }

    /// Whether both spell one path.
    pub fn same_path(&self, other: &FsPath) -> (r: bool)
        ensures
            r == same_path(self@, other@),
    {
        if self.is_absolute() != other.is_absolute() {
            return false;
        }
        let own_dot: bool = starts_here(self.bytes.as_slice());
        let other_dot: bool = starts_here(other.bytes.as_slice());
        proof {
            lemma_components(self@, other@);
        }
        if own_dot != other_dot {
            return false;
        }
        let mut i: usize = 0;
        let mut j: usize = 0;
        assert(self@.skip(0) =~= self@);
        assert(other@.skip(0) =~= other@);
        loop
            invariant
                i <= self.bytes@.len(),
                j <= other.bytes@.len(),
                same_path(self@, other@) == (names(self@.skip(i as int)) == names(
                    other@.skip(j as int),
                )),
            decreases self.bytes@.len() - i,
        {
            let start: usize = skip_trimmed(self.bytes.as_slice(), i);
            let other_start: usize = skip_trimmed(other.bytes.as_slice(), j);
            let ghost own_names = names(self@.skip(i as int));
            let ghost other_names = names(other@.skip(j as int));
            if start == self.bytes.len() || other_start == other.bytes.len() {
                proof {
                    if own_names == other_names {
                        assert(own_names.len() == other_names.len());
                    }
                }
                return start == self.bytes.len() && other_start == other.bytes.len();
            }
            let end: usize = component_end(self.bytes.as_slice(), start);
            let other_end: usize = component_end(other.bytes.as_slice(), other_start);
            let ghost own = self@.skip(start as int);
            let ghost others = other@.skip(other_start as int);
            proof {
                lemma_trimmed_shorter(self@.skip(i as int));
                lemma_component_len(own);
                assert(own.skip(component_len(own) as int) =~= self@.skip(end as int));
                assert(others.skip(component_len(others) as int) =~= other@.skip(other_end as int));
                lemma_led_by(
                    component(own),
                    names(self@.skip(end as int)),
                    component(others),
                    names(other@.skip(other_end as int)),
                );
            }
            if !same_range(
                self.bytes.as_slice(),
                start,
                end,
                other.bytes.as_slice(),
                other_start,
                other_end,
            ) {
                return false;
            }
            i = end;
            j = other_end;
        }
    }

    /// The path relative to one above it.
    pub fn strip_prefix(&self, base: &FsPath) -> (rest: Option<FsPath>)
        ensures
            match rest {
                Some(r) => below(self@, base@) == Some(r@),
                None => below(self@, base@) is None,
            },
    {
        if base.bytes.len() == 0 {
            let whole = without_tail(self.bytes.as_slice(), 0);
            assert(self@.skip(0) =~= self@);
            if self.is_absolute() && whole.bytes.len() == 0 {
                let mut root: Vec<u8> = Vec::new();
                root.push(47u8);
                assert(root@ =~= seq![47u8]);
                return Some(FsPath { bytes: root });
            }
            return Some(whole);
        }
        if self.is_absolute() != base.is_absolute() {
            return None;
        }
        let mut i: usize = 0;
        let mut j: usize = 0;
        assert(self@.skip(0) =~= self@);
        assert(base@.skip(0) =~= base@);
        if self.is_absolute() {
            i = skip_trimmed(self.bytes.as_slice(), 0);
            j = skip_trimmed(base.bytes.as_slice(), 0);
        }
        let ghost wanted = after_components(self@.skip(i as int), base@.skip(j as int));
        while j < base.bytes.len()
            invariant
                i <= self.bytes@.len(),
                j <= base.bytes@.len(),
                wanted == after_components(self@.skip(i as int), base@.skip(j as int)),
                below(self@, base@) == match wanted {
                    Some(rest) => Some(trimmed_end(rest)),
                    None => None,
                },
            decreases base.bytes@.len() - j,
        {
            let ghost path = self@.skip(i as int);
            let ghost above = base@.skip(j as int);
            let own: usize = component_end(self.bytes.as_slice(), i);
            let other: usize = component_end(base.bytes.as_slice(), j);
            if i >= self.bytes.len() || other == j || !same_range(
                self.bytes.as_slice(),
                i,
                own,
                base.bytes.as_slice(),
                j,
                other,
            ) {
                return None;
            }
            assert(path.skip(component_len(path) as int) =~= self@.skip(own as int));
            assert(above.skip(component_len(above) as int) =~= base@.skip(other as int));
            i = skip_trimmed(self.bytes.as_slice(), own);
            j = skip_trimmed(base.bytes.as_slice(), other);
        }
        assert(base@.skip(j as int).len() == 0);
        Some(without_tail(self.bytes.as_slice(), i))
    }

    /// The final component of the path, if it is a name.
    pub fn file_name(&self) -> (name: Option<FsPath>)
        ensures
            match name {
                Some(n) => name_in(self@) == Some(n@),
                None => name_in(self@) is None,
            },
    {
        let whole = without_tail(self.bytes.as_slice(), 0);
        assert(self@.skip(0) =~= self@);
        let start: usize = last_component_start(whole.bytes.as_slice());
        let name = bytes_to_vec(
            vstd::slice::slice_subrange(whole.bytes.as_slice(), start, whole.bytes.len()),
        );
        assert(name@ =~= last_component(whole@));
        let dot: bool = name.len() == 1 && name[0] == 46u8;
        let dots: bool = name.len() == 2 && name[0] == 46u8 && name[1] == 46u8;
        assert(dot <==> name@ =~= seq![46u8]);
        assert(dots <==> name@ =~= seq![46u8, 46u8]);
        if name.len() == 0 || dot || dots {
            None
        } else {
            Some(FsPath { bytes: name })
        }
    }

    /// `name` below this path.
    pub fn join(&self, name: &str) -> (path: Self)
        ensures
            path@ == joined_name(self@, name@),
    {
        let name_bytes = name.as_bytes();
        let mut bytes: Vec<u8> = Vec::new();
        let absolute: bool = name_bytes.len() > 0 && name_bytes[0] == 47u8;
        if !absolute {
            bytes = bytes_to_vec(self.bytes.as_slice());
            let len: usize = bytes.len();
            if len > 0 && bytes[len - 1] != 47u8 {
                bytes.push(47u8);
            }
        }
        let mut rest: Vec<u8> = bytes_to_vec(name_bytes);
        bytes.append(&mut rest);
        assert(bytes@ =~= joined_name(self@, name@));
        FsPath { bytes }
    }
}

impl PartialEq for FsPath {
    fn eq(&self, other: &Self) -> (r: bool) {
        self.same_path(other)
    }
}

impl PartialEqSpecImpl for FsPath {
    open spec fn obeys_eq_spec() -> bool {
        true
    }

    open spec fn eq_spec(&self, other: &Self) -> bool {
        same_path(self@, other@)
    }
}

impl Duplicate for FsPath {
    fn duplicate(&self) -> (copy: Self) {
        FsPath { bytes: bytes_to_vec(self.bytes.as_slice()) }
    }
}

impl Same for FsPath {
    /// Whether both are spelled the same.
    fn same(&self, other: &Self) -> (same: bool) {
        same_bytes(self.bytes.as_slice(), other.bytes.as_slice())
    }
}

/// An absolute name replaces the path it is joined to; any other stands behind
/// it, with exactly one separator added where the path does not end in one.
pub proof fn joining_adds_one_separator(base: Seq<u8>, name: Seq<u8>)
    ensures
        ({
            let path = joined(base, name);
            let slash = base.len() > 0 && base.last() != 47u8;
            &&& absolute(name) ==> path == name
            &&& !absolute(name) && !slash ==> path == base + name
            &&& !absolute(name) && slash ==> path == base + seq![47u8] + name
            &&& !absolute(name) && absolute(base) ==> absolute(path)
        }),
{
    assert(base.push(47u8) + name =~= base + seq![47u8] + name);
}

/// A path's final name holds no separator, is neither `.` nor `..`, and stands
/// at the end of the path once separators and `.` there are gone.
pub proof fn final_names_are_names(path: Seq<u8>)
    ensures
        name_in(path) is Some ==> {
            let name = name_in(path)->Some_0;
            let whole = trimmed_end(path);
            &&& name.len() > 0
            &&& name != seq![46u8]
            &&& name != seq![46u8, 46u8]
            &&& forall|i: int| 0 <= i < name.len() ==> #[trigger] name[i] != 47u8
            &&& name == whole.skip(whole.len() - name.len())
            &&& whole.len() > name.len() ==> whole[whole.len() - name.len() - 1] == 47u8
        },
{
    let whole = trimmed_end(path);
    lemma_last_start(whole);
    let name = last_component(whole);
    assert forall|i: int| 0 <= i < name.len() implies #[trigger] name[i] != 47u8 by {
        assert(name[i] == whole[last_start(whole) + i]);
    }
}

proof fn lemma_last_start(path: Seq<u8>)
    ensures
        last_start(path) <= path.len(),
        forall|i: int| last_start(path) <= i < path.len() ==> #[trigger] path[i] != 47u8,
        last_start(path) > 0 ==> path[last_start(path) - 1] == 47u8,
    decreases path.len(),
{
    if path.len() > 0 && path.last() != 47u8 {
        let rest = path.drop_last();
        lemma_last_start(rest);
        assert forall|i: int| last_start(path) <= i < path.len() implies #[trigger] path[i]
            != 47u8 by {
            if i < rest.len() {
                assert(rest[i] == path[i]);
            }
        }
        if last_start(path) > 0 {
            assert(rest[last_start(path) - 1] == path[last_start(path) - 1]);
        }
    }
}

} // verus!
