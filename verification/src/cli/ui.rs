//! Shared presentation helpers for the CLI output.
//!
//! Output is made of styled spans, so every command renders the same palette;
//! the terminal layer decides whether the styles show. Peer-provided text must
//! pass through [`crate::config::name::sanitize`] before it is printed or styled.

use vstd::prelude::*;

use crate::config::path::FsPath;
use crate::text::{chars_of, decimal_text, join2};

verus! {

/// How a span is shown.
#[derive(Clone, Copy, PartialEq, Eq, Structural, Debug)]
pub enum Style {
    Plain,
    /// Bold section heading.
    Heading,
    /// Healthy or successful state.
    Good,
    /// State that needs attention without being an error.
    Warn,
    /// Heading of what needs attention.
    Alert,
    /// Failing state.
    Bad,
    /// De-emphasized detail.
    Dim,
}

/// A piece of output in one style.
#[derive(PartialEq, Eq, Debug)]
pub struct Span {
    pub style: Style,
    pub text: String,
}

/// A span by content.
#[verifier::ext_equal]
pub struct SpanView {
    pub style: Style,
    pub text: Seq<char>,
}

impl View for Span {
    type V = SpanView;

    open spec fn view(&self) -> SpanView {
        SpanView { style: self.style, text: self.text@ }
    }
}

/// A span of a style.
pub open spec fn span(style: Style, text: Seq<char>) -> SpanView {
    SpanView { style, text }
}

/// Spans by content.
pub open spec fn spans_view(spans: Seq<Span>) -> Seq<SpanView> {
    spans.map_values(|s: Span| s@)
}

/// A line of output.
pub struct Line {
    pub spans: Vec<Span>,
}

impl View for Line {
    type V = Seq<SpanView>;

    open spec fn view(&self) -> Seq<SpanView> {
        spans_view(self.spans@)
    }
}

/// Lines by content.
pub open spec fn lines_view(lines: Seq<Line>) -> Seq<Seq<SpanView>> {
    lines.map_values(|l: Line| l@)
}

impl Line {
    /// An empty line.
    pub fn blank() -> (line: Self)
        ensures
            line@ == Seq::<SpanView>::empty(),
    {
        let line = Line { spans: Vec::new() };
        assert(line@ =~= Seq::empty());
        line
    }

    /// A line of plain text.
    pub fn plain(text: &str) -> (line: Self)
        ensures
            line@ == seq![span(Style::Plain, text@)],
    {
        let mut line = Line::blank();
        line.add(Style::Plain, text);
        line
    }

    /// Adds a span at the end.
    pub fn add(&mut self, style: Style, text: &str)
        ensures
            final(self)@ == old(self)@.push(span(style, text@)),
    {
        let ghost before = self.spans@;
        self.spans.push(Span { style, text: text.to_owned() });
        assert(spans_view(self.spans@) =~= spans_view(before).push(span(style, text@)));
    }

    /// Adds spans at the end.
    pub fn extend(&mut self, more: Vec<Span>)
        ensures
            final(self)@ == old(self)@ + spans_view(more@),
    {
        let ghost before = self.spans@;
        let mut rest = more;
        self.spans.append(&mut rest);
        assert(spans_view(self.spans@) =~= spans_view(before) + spans_view(more@));
    }
}

/// A duration in seconds, compactly (`43s`, `12m 3s`, `2h 4m`...).
pub open spec fn duration_text(secs: nat) -> Seq<char> {
    if secs < 60 {
        crate::text::decimal(secs) + "s"@
    } else if secs < 3600 {
        crate::text::decimal(secs / 60) + "m "@ + crate::text::decimal(secs % 60) + "s"@
    } else if secs < 86400 {
        crate::text::decimal(secs / 3600) + "h "@ + crate::text::decimal((secs % 3600) / 60) + "m"@
    } else {
        crate::text::decimal(secs / 86400) + "d "@ + crate::text::decimal((secs % 86400) / 3600)
            + "h"@
    }
}

/// Two numbers, each with its unit.
fn two_units(first: u64, first_unit: &str, second: u64, second_unit: &str) -> (text: String)
    ensures
        text@ == crate::text::decimal(first as nat) + first_unit@ + crate::text::decimal(
            second as nat,
        ) + second_unit@,
{
    let mut text = join2(decimal_text(first).as_str(), first_unit);
    text.append(decimal_text(second).as_str());
    text.append(second_unit);
    text
}

/// Formats a duration in seconds compactly (`43s`, `12m 3s`, `2h 4m`...).
pub fn format_duration(secs: u64) -> (text: String)
    ensures
        text@ == duration_text(secs as nat),
{
    if secs < 60 {
        join2(decimal_text(secs).as_str(), "s")
    } else if secs < 3600 {
        two_units(secs / 60, "m ", secs % 60, "s")
    } else if secs < 86400 {
        two_units(secs / 3600, "h ", (secs % 3600) / 60, "m")
    } else {
        two_units(secs / 86400, "d ", (secs % 86400) / 3600, "h")
    }
}

/// The length in bytes of the longest among texts.
pub open spec fn widest(texts: Seq<Seq<char>>) -> nat
    decreases texts.len(),
{
    if texts.len() == 0 {
        0
    } else {
        let rest = widest(texts.drop_last());
        let last = vstd::utf8::encode_utf8(texts.last()).len();
        if last > rest {
            last
        } else {
            rest
        }
    }
}

/// Texts by content.
pub open spec fn texts_view(texts: Seq<String>) -> Seq<Seq<char>> {
    texts.map_values(|t: String| t@)
}

/// Width of the longest name, for column alignment.
pub fn name_width(names: &Vec<String>) -> (width: usize)
    ensures
        width == widest(texts_view(names@)),
{
    let ghost all = texts_view(names@);
    let mut width: usize = 0;
    let mut i: usize = 0;
    while i < names.len()
        invariant
            i <= names@.len(),
            all == texts_view(names@),
            width == widest(all.take(i as int)),
        decreases names@.len() - i,
    {
        assert(all.take(i + 1).drop_last() =~= all.take(i as int));
        let len: usize = names[i].as_str().as_bytes().len();
        if len > width {
            width = len;
        }
        i = i + 1;
    }
    assert(all.take(i as int) =~= all);
    width
}

/// A text filled up with spaces to a width in characters.
pub open spec fn filled(text: Seq<char>, width: nat) -> Seq<char> {
    if text.len() < width {
        text + Seq::new((width - text.len()) as nat, |i: int| ' ')
    } else {
        text
    }
}

/// Fills a text up with spaces to a width, for column alignment.
pub fn fill(text: &str, width: usize) -> (padded: String)
    ensures
        padded@ == filled(text@, width as nat),
{
    let mut len: usize = chars_of(text).len();
    let mut padded = text.to_owned();
    assert(padded@ =~= text@ + Seq::new(0, |i: int| ' '));
    while len < width
        invariant
            len >= text@.len(),
            len <= width || len == text@.len(),
            padded@ == text@ + Seq::new((len - text@.len()) as nat, |i: int| ' '),
        decreases width - len,
    {
        padded.push(' ');
        len = len + 1;
        assert(padded@ =~= text@ + Seq::new((len - text@.len()) as nat, |i: int| ' '));
    }
    assert(text@ + Seq::new(0, |i: int| ' ') =~= text@);
    padded
}

/// A path with the home directory shortened to `~`.
pub open spec fn shortened(path: Seq<u8>, home: Option<Seq<u8>>) -> Seq<char> {
    match home {
        Some(home) => match crate::config::path::below(path, home) {
            Some(rest) => if rest.len() == 0 {
                "~"@
            } else {
                "~/"@ + crate::config::path::lossy_text(rest)
            },
            None => crate::config::path::lossy_text(path),
        },
        None => crate::config::path::lossy_text(path),
    }
}

/// Displays a path with the home directory, if known, shortened to `~`.
pub fn display_path(path: &FsPath, home: &Option<FsPath>) -> (text: String)
    ensures
        text@ == shortened(
            path@,
            match home {
                Some(h) => Some(h@),
                None => None,
            },
        ),
{
    if let Some(home) = home {
        if let Some(rest) = path.strip_prefix(home) {
            if rest.as_bytes().len() == 0 {
                return "~".to_owned();
            }
            return join2("~/", rest.display().as_str());
        }
    }
    path.display()
}

/// A column is as wide as its widest text: none is wider, and one is as wide.
pub proof fn columns_fit_their_texts(texts: Seq<Seq<char>>, i: int)
    ensures
        0 <= i < texts.len() ==> vstd::utf8::encode_utf8(texts[i]).len() <= widest(texts),
        texts.len() == 0 ==> widest(texts) == 0,
        texts.len() > 0 ==> exists|j: int|
            0 <= j < texts.len() && vstd::utf8::encode_utf8(#[trigger] texts[j]).len() == widest(
                texts,
            ),
    decreases texts.len(),
{
    if texts.len() > 0 {
        let rest = texts.drop_last();
        columns_fit_their_texts(rest, i);
        assert(texts[texts.len() - 1] == texts.last());
        if rest.len() > 0 && widest(texts) == widest(rest) {
            let j = choose|j: int|
                0 <= j < rest.len() && vstd::utf8::encode_utf8(#[trigger] rest[j]).len() == widest(
                    rest,
                );
            assert(texts[j] == rest[j]);
        }
        if 0 <= i < rest.len() {
            assert(texts[i] == rest[i]);
        }
    }
}

/// A filled text starts with the text, is as wide as asked where the text is not
/// wider, and holds only spaces behind it.
pub proof fn filling_adds_only_spaces(text: Seq<char>, width: nat, i: int)
    ensures
        ({
            let full = filled(text, width);
            &&& full.len() >= text.len()
            &&& full.take(text.len() as int) == text
            &&& text.len() <= width ==> full.len() == width
            &&& text.len() > width ==> full == text
            &&& text.len() <= i < full.len() ==> full[i] == ' '
        }),
{
    assert(filled(text, width).take(text.len() as int) =~= text);
}

/// A duration is named by its two largest units, whatever is left below them:
/// days and hours, hours and minutes, or minutes and seconds.
pub proof fn durations_name_their_largest_units(days: nat, hours: nat, minutes: nat, seconds: nat)
    requires
        hours < 24,
        minutes < 60,
        seconds < 60,
    ensures
        ({
            let text = duration_text(86400 * days + 3600 * hours + 60 * minutes + seconds);
            &&& days > 0 ==> text == crate::text::decimal(days) + "d "@ + crate::text::decimal(
                hours,
            ) + "h"@
            &&& days == 0 && hours > 0 ==> text == crate::text::decimal(hours) + "h "@
                + crate::text::decimal(minutes) + "m"@
            &&& days == 0 && hours == 0 && minutes > 0 ==> text == crate::text::decimal(minutes)
                + "m "@ + crate::text::decimal(seconds) + "s"@
            &&& days == 0 && hours == 0 && minutes == 0 ==> text == crate::text::decimal(seconds)
                + "s"@
        }),
{
    let secs = 86400 * days + 3600 * hours + 60 * minutes + seconds;
    assert(secs / 86400 == days);
    assert((secs % 86400) / 3600 == hours);
    if days == 0 {
        assert(secs / 3600 == hours);
        assert((secs % 3600) / 60 == minutes);
        if hours == 0 {
            assert(secs / 60 == minutes);
            assert(secs % 60 == seconds);
        }
    }
}

/// Only what lies below the home directory is shown relative to it, the
/// directory itself as `~`.
pub proof fn only_home_is_shortened(path: Seq<u8>, home: Seq<u8>)
    ensures
        shortened(path, None) == crate::config::path::lossy_text(path),
        crate::config::path::below(path, home) is None ==> shortened(path, Some(home))
            == crate::config::path::lossy_text(path),
        crate::config::path::below(path, home) == Some(Seq::<u8>::empty()) ==> shortened(
            path,
            Some(home),
        ) == "~"@,
        crate::config::path::below(path, home) is Some && crate::config::path::below(
            path,
            home,
        )->Some_0.len() > 0 ==> "~/"@.is_prefix_of(shortened(path, Some(home))),
{
    if crate::config::path::below(path, home) is Some {
        let rest = crate::config::path::below(path, home)->Some_0;
        if rest.len() > 0 {
            let text = "~/"@ + crate::config::path::lossy_text(rest);
            assert("~/"@ =~= text.subrange(0, "~/"@.len() as int));
        } else {
            assert(rest =~= Seq::<u8>::empty());
        }
    }
}

} // verus!
