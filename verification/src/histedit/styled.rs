//! Text with colors.

use vstd::prelude::*;

use ansi_to_tui::IntoText;

verus! {

/// A piece of text and how it looks. Colors go by the names that `ratatui` has
/// for them; modifiers are the bits of those to add and of those to remove.
#[derive(Debug)]
pub struct StyledSpan {
    pub text: String,
    pub foreground: Option<String>,
    pub background: Option<String>,
    pub underline: Option<String>,
    pub added: u16,
    pub removed: u16,
}

/// What [`StyledSpan`] stands for.
#[verifier::ext_equal]
pub struct StyledSpanView {
    pub text: Seq<char>,
    pub foreground: Option<Seq<char>>,
    pub background: Option<Seq<char>>,
    pub underline: Option<Seq<char>>,
    pub added: u16,
    pub removed: u16,
}

/// What the name of a color that may be missing stands for.
pub open spec fn color_view(color: Option<String>) -> Option<Seq<char>> {
    match color {
        Some(name) => Some(name@),
        None => None,
    }
}

impl View for StyledSpan {
    type V = StyledSpanView;

    open spec fn view(&self) -> StyledSpanView {
        StyledSpanView {
            text: self.text@,
            foreground: color_view(self.foreground),
            background: color_view(self.background),
            underline: color_view(self.underline),
            added: self.added,
            removed: self.removed,
        }
    }
}

/// What lines of pieces stand for.
pub open spec fn line_views(lines: Seq<Vec<StyledSpan>>) -> Seq<Seq<StyledSpanView>> {
    lines.map_values(|line: Vec<StyledSpan>| line@.map_values(|span: StyledSpan| span@))
}

/// The lines that `ansi_to_tui` makes of bytes with escape sequences in them.
pub uninterp spec fn styled_lines(bytes: Seq<u8>) -> Seq<Seq<StyledSpanView>>;

/// `ansi_to_tui::IntoText::into_text` reads bytes as text, with colors and
/// modifiers where escape sequences set them. It never fails, and what comes
/// out depends on the bytes alone.
#[verifier::external_body]
pub(crate) fn styled_text(bytes: &Vec<u8>) -> (lines: Vec<Vec<StyledSpan>>)
    ensures
        line_views(lines@) == styled_lines(bytes@),
{
    let lines = bytes.into_text().unwrap().lines.into_iter();
    lines.map(|line| line.spans.into_iter().map(|span| StyledSpan {
        text: span.content.into_owned(),
        foreground: span.style.fg.map(|color| color.to_string()),
        background: span.style.bg.map(|color| color.to_string()),
        underline: span.style.underline_color.map(|color| color.to_string()),
        added: span.style.add_modifier.bits(),
        removed: span.style.sub_modifier.bits(),
    }).collect()).collect()
}

} // verus!
