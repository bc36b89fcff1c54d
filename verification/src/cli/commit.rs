//! The commit a build names itself by.

use vstd::prelude::*;

use crate::text::trim;

verus! {

/// The text made of characters.
fn text_of(chars: &Vec<char>) -> (text: String)
    ensures
        text@ == chars@,
{
    let mut text = String::new();
    let mut i: usize = 0;
    assert(text@ =~= chars@.take(0));
    while i < chars.len()
        invariant
            i <= chars@.len(),
            text@ == chars@.take(i as int),
        decreases chars@.len() - i,
    {
        text.push(chars[i]);
        assert(chars@.take(i + 1) =~= chars@.take(i as int).push(chars@[i as int]));
        i = i + 1;
    }
    assert(chars@.take(i as int) =~= chars@);
    text
}

/// The commit a build is labelled with: what `git rev-parse` said, marked when
/// the tree has changes, or that it is not known.
pub open spec fn git_label(head: Option<Seq<char>>, dirty: bool) -> Seq<char> {
    match head {
        Some(said) => if dirty {
            crate::text::trimmed(said) + "+"@
        } else {
            crate::text::trimmed(said)
        },
        None => "unknown"@,
    }
}

/// The label of a build: the commit given for it, unless that is empty, or the
/// one git tells.
pub open spec fn build_label(
    given: Option<Seq<char>>,
    head: Option<Seq<char>>,
    dirty: bool,
) -> Seq<char> {
    if given is Some && given->Some_0.len() > 0 {
        given->Some_0
    } else {
        git_label(head, dirty)
    }
}

/// Labels a build from what git said of it: the output of `git rev-parse` where
/// it succeeded, and whether `git status` listed changes.
pub fn git_commit(head: &Option<String>, dirty: bool) -> (label: String)
    ensures
        label@ == git_label(crate::net::sync::text_view(*head), dirty),
{
    match head {
        Some(said) => {
            let mut label = text_of(&trim(said.as_str()));
            if dirty {
                label.append("+");
            }
            label
        },
        None => "unknown".to_owned(),
    }
}

/// Labels a build, preferring the commit given for it.
pub fn label(given: &Option<String>, head: &Option<String>, dirty: bool) -> (label: String)
    ensures
        label@ == build_label(
            crate::net::sync::text_view(*given),
            crate::net::sync::text_view(*head),
            dirty,
        ),
{
    if let Some(given) = given {
        if !given.as_str().is_empty() {
            return given.clone();
        }
    }
    git_commit(head, dirty)
}

/// A build whose commit git cannot tell is never taken for another build.
pub proof fn unknown_builds_are_not_compared(dirty: bool, own: Seq<char>)
    ensures
        !crate::daemon::control::client::mismatched(build_label(None, None, dirty), own),
{
    assert("unknown"@.is_prefix_of("unknown"@)) by {
        assert("unknown"@ =~= "unknown"@.subrange(0, "unknown"@.len() as int));
    }
}

/// A build is labelled with the commit it was given where that is not empty,
/// else with git's, marked where there are changes, and as unknown where git
/// tells nothing.
pub proof fn given_commits_win(given: Option<Seq<char>>, head: Option<Seq<char>>, dirty: bool)
    ensures
        ({
            let label = build_label(given, head, dirty);
            let told = given is Some && given->Some_0.len() > 0;
            &&& told ==> Some(label) == given
            &&& !told && head is None ==> label == "unknown"@
            &&& !told && head is Some && !dirty ==> label == crate::text::trimmed(head->Some_0)
            &&& !told && head is Some && dirty ==> label == crate::text::trimmed(head->Some_0)
                + "+"@
        }),
{
}

} // verus!
