//! Core of a multi-document viewer: a tab/session manager and a
//! pointer-driven text-selection engine for rendered document pages.
//!
//! All geometry is carried in fixed-point integers: a coordinate is an `i64`
//! counting thousandths of the underlying unit (document points for page
//! space, image pixels for screen space).  The presentation layer converts
//! its native floating-point measurements to and from this representation.

pub mod geometry;
pub mod layout;
pub mod pdf;
pub mod render;
pub mod tabs;
pub mod state;
pub mod text_selection;
