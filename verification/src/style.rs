//! The styles that a calendar page draws with.
use vstd::prelude::*;

verus! {

/// How strongly a stroke or a text stands out.
#[derive(Clone, Copy, Debug, PartialEq, Eq, Structural)]
pub enum Color {
    Strong,
    Normal,
    Weak,
}

/// Thickness of a line.
#[derive(Clone, Copy, Debug, PartialEq, Eq, Structural)]
pub enum Width {
    Thin,
    Normal,
    Thick,
}

/// The two built-in PDF fonts that the pages use.
#[derive(Clone, Copy, Debug, PartialEq, Eq, Structural)]
pub enum Font {
    TimesBold,
    TimesRoman,
}

} // verus!
