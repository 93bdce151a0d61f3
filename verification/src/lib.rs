//! The layout logic of a printable calendar: which dates a month grid shows,
//! what a page draws and in which order, and the PDF style state that keeps
//! colour and line width operations from repeating.
pub mod calendar;
pub mod style;
pub mod pdf_ops;
pub mod page;
