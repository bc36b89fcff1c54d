//! Hygiene for strings shown to the user.
//!
//! Names and messages arriving from remote machines end up as terminal
//! output, so everything crossing that boundary is bounded in length and
//! masked of characters that could hide or reorder what the user sees.
//! Local diagnostics (jj stderr) embed repo bytes and get the same mask.

use vstd::prelude::*;

use crate::text::join2;

verus! {

/// Maximum length of a peer or repo name, in bytes.
pub const MAX_NAME_LEN: usize = 64;

/// Maximum length kept by [`sanitize_bounded`], in characters. At least the
/// daemon's per-repo error budget, so stored errors pass through uncut.
pub const MAX_SANITIZED_LEN: usize = 256;

/// Whether a character can hide or reorder text in terminal output: controls,
/// zero-width and bidi formatting.
pub open spec fn confusable(c: char) -> bool {
    ||| c <= '\u{1F}'
    ||| '\u{7F}' <= c <= '\u{9F}'
    ||| '\u{200B}' <= c <= '\u{200F}'
    ||| '\u{202A}' <= c <= '\u{202E}'
    ||| '\u{2066}' <= c <= '\u{2069}'
    ||| c == '\u{FEFF}'
}

/// Why a name is not usable.
#[derive(Clone, Copy, PartialEq, Eq, Structural, Debug)]
pub enum NameFault {
    /// The name is empty.
    Empty,
    /// The name is longer than [`MAX_NAME_LEN`] bytes.
    TooLong,
    /// The name contains control or invisible characters.
    Confusable,
}

/// A refused name: what it would have named, and why it was refused.
#[derive(PartialEq, Eq, Debug)]
pub struct NameError {
    pub kind: String,
    pub fault: NameFault,
}

/// The first fault of a name, if any.
pub open spec fn name_fault(name: Seq<char>) -> Option<NameFault> {
    if name.len() == 0 {
        Some(NameFault::Empty)
    } else if vstd::utf8::encode_utf8(name).len() > MAX_NAME_LEN {
        Some(NameFault::TooLong)
    } else if exists|i: int| 0 <= i < name.len() && confusable(#[trigger] name[i]) {
        Some(NameFault::Confusable)
    } else {
        None
    }
}

/// Whether a name is usable.
pub open spec fn valid_name(name: Seq<char>) -> bool {
    name_fault(name) is None
}

/// What a refused name is reported as.
pub open spec fn name_error_text(kind: Seq<char>, fault: NameFault) -> Seq<char> {
    kind + (match fault {
        NameFault::Empty => " name cannot be empty"@,
        NameFault::TooLong => " name is longer than 64 bytes"@,
        NameFault::Confusable => " name contains control or invisible characters"@,
    })
}

impl NameError {
    /// The error as shown to the user.
    pub fn message(&self) -> (text: String)
        ensures
            text@ == name_error_text(self.kind@, self.fault),
    {
        match self.fault {
            NameFault::Empty => join2(self.kind.as_str(), " name cannot be empty"),
            NameFault::TooLong => join2(self.kind.as_str(), " name is longer than 64 bytes"),
            NameFault::Confusable => join2(
                self.kind.as_str(),
                " name contains control or invisible characters",
            ),
        }
    }
}

/// Whether a character can hide or reorder text in terminal output: controls,
/// zero-width and bidi formatting.
pub fn is_confusable(c: char) -> (r: bool)
    ensures
        r == confusable(c),
{
    c <= '\u{1F}' || ('\u{7F}' <= c && c <= '\u{9F}') || ('\u{200B}' <= c && c <= '\u{200F}') || (
    '\u{202A}' <= c && c <= '\u{202E}') || ('\u{2066}' <= c && c <= '\u{2069}') || c == '\u{FEFF}'
}

/// Checks that a peer or repo name is usable; `kind` names it in errors.
/// Also applied to names arriving from remote machines (announcements).
pub fn validate_name(kind: &str, name: &str) -> (r: Result<(), NameError>)
    ensures
        match r {
            Ok(()) => valid_name(name@),
            Err(e) => name_fault(name@) == Some(e.fault) && e.kind@ == kind@,
        },
{
    if name.is_empty() {
        return Err(NameError { kind: kind.to_owned(), fault: NameFault::Empty });
    }
    if name.as_bytes().len() > MAX_NAME_LEN {
        return Err(NameError { kind: kind.to_owned(), fault: NameFault::TooLong });
    }
    for c in it: name.chars()
        invariant
            it.seq() == name@,
            name@.len() > 0,
            vstd::utf8::encode_utf8(name@).len() <= MAX_NAME_LEN,
            forall|i: int| 0 <= i < it.index() ==> !confusable(#[trigger] name@[i]),
    {
        if is_confusable(c) {
            assert(confusable(name@[it.index()]));
            return Err(NameError { kind: kind.to_owned(), fault: NameFault::Confusable });
        }
    }
    Ok(())
}

/// A character as shown: itself, or `?` where it could mislead.
pub open spec fn masked(c: char) -> char {
    if confusable(c) {
        '?'
    } else {
        c
    }
}

/// Text as shown on one line.
pub open spec fn sanitized(text: Seq<char>) -> Seq<char> {
    text.map_values(|c: char| masked(c))
}

/// Text as shown where its size is not ours to trust.
pub open spec fn sanitized_bounded(text: Seq<char>) -> Seq<char> {
    if text.len() > MAX_SANITIZED_LEN {
        sanitized(text).take(MAX_SANITIZED_LEN as int).push('\u{2026}')
    } else {
        sanitized(text)
    }
}

/// Makes a string safe to surface as one line: characters that could hide or
/// reorder terminal output become `?`, so tampering stays visible.
pub fn sanitize(text: &str) -> (clean: String)
    ensures
        clean@ == sanitized(text@),
{
    let mut clean = String::new();
    for c in it: text.chars()
        invariant
            it.seq() == text@,
            clean@ == sanitized(text@.take(it.index())),
    {
        clean.push(if is_confusable(c) { '?' } else { c });
        assert(sanitized(text@.take(it.index() + 1)) =~= sanitized(text@.take(it.index())).push(
            masked(c),
        ));
    }
    assert(text@.take(text@.len() as int) =~= text@);
    clean
}

/// [`sanitize`] plus a length bound with a `…` marker, for strings not ours to
/// trust for size (peer messages, log lines).
pub fn sanitize_bounded(text: &str) -> (clean: String)
    ensures
        clean@ == sanitized_bounded(text@),
{
    let clean = sanitize(text);
    if clean.as_str().unicode_len() > MAX_SANITIZED_LEN {
        let mut cut = clean.as_str().substring_char(0, MAX_SANITIZED_LEN).to_owned();
        cut.push('\u{2026}');
        cut
    } else {
        clean
    }
}

/// Sanitized text holds nothing that could mislead, at its full length.
pub proof fn sanitized_is_clean(text: Seq<char>)
    ensures
        sanitized(text).len() == text.len(),
        forall|i: int| 0 <= i < text.len() ==> !confusable(#[trigger] sanitized(text)[i]),
{
}

/// Sanitizing twice is sanitizing once.
pub proof fn sanitized_is_stable(text: Seq<char>)
    ensures
        sanitized(sanitized(text)) == sanitized(text),
{
    assert(sanitized(sanitized(text)) =~= sanitized(text));
}

/// A valid name is shown as it is.
pub proof fn valid_names_pass_unmasked(name: Seq<char>)
    requires
        valid_name(name),
    ensures
        sanitized(name) == name,
        sanitized_bounded(name) == name,
{
    assert forall|i: int| 0 <= i < name.len() implies masked(#[trigger] name[i]) == name[i] by {}
    assert(sanitized(name) =~= name);
    lemma_chars_take_bytes(name);
}

/// Bounded text holds nothing that could mislead, and at most one character
/// more than the bound.
pub proof fn sanitized_bounded_is_clean(text: Seq<char>)
    ensures
        sanitized_bounded(text).len() <= MAX_SANITIZED_LEN + 1,
        forall|i: int|
            0 <= i < sanitized_bounded(text).len() ==> !confusable(
                #[trigger] sanitized_bounded(text)[i],
            ),
{
}

/// Every character takes at least one byte.
pub proof fn lemma_chars_take_bytes(text: Seq<char>)
    ensures
        text.len() <= vstd::utf8::encode_utf8(text).len(),
    decreases text.len(),
{
    reveal_with_fuel(vstd::utf8::encode_utf8, 2);
    if text.len() > 0 {
        lemma_chars_take_bytes(text.drop_first());
    }
}

/// What can mislead is exactly the control characters (the first and the second
/// block of them) and the zero-width and bidi formatting ones.
pub proof fn misleading_characters(c: char)
    ensures
        confusable(c) <==> {
            let code = c as u32;
            ||| code < 0x20
            ||| 0x7F <= code < 0xA0
            ||| 0x200B <= code <= 0x200F
            ||| 0x202A <= code <= 0x202E
            ||| 0x2066 <= code <= 0x2069
            ||| code == 0xFEFF
        },
{
}

/// A name is usable when it has a character, takes at most 64 bytes, and none of
/// its characters can mislead. A refusal names the first of these that fails.
pub proof fn usable_names(name: Seq<char>)
    ensures
        valid_name(name) <==> name.len() > 0 && vstd::utf8::encode_utf8(name).len() <= 64 && (
        forall|i: int| 0 <= i < name.len() ==> !confusable(#[trigger] name[i])),
        name_fault(name) == Some(NameFault::Empty) <==> name.len() == 0,
        name_fault(name) == Some(NameFault::TooLong) <==> name.len() > 0
            && vstd::utf8::encode_utf8(name).len() > 64,
        name_fault(name) == Some(NameFault::Confusable) <==> 0 < name.len()
            && vstd::utf8::encode_utf8(name).len() <= 64 && exists|i: int|
            0 <= i < name.len() && confusable(#[trigger] name[i]),
{
}

/// Sanitizing replaces what can mislead, each by one `?`, and touches nothing
/// else. Only text that is too long is cut, and then marked.
pub proof fn sanitizing_masks_only_what_misleads(text: Seq<char>, i: int)
    requires
        0 <= i < text.len(),
    ensures
        sanitized(text)[i] == if confusable(text[i]) {
            '?'
        } else {
            text[i]
        },
        i < 256 ==> sanitized_bounded(text)[i] == sanitized(text)[i],
        text.len() <= 256 ==> sanitized_bounded(text).len() == text.len(),
        text.len() > 256 ==> sanitized_bounded(text).len() == 257 && sanitized_bounded(text)[256]
            == '\u{2026}',
{
}

} // verus!
