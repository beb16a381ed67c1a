//! Declarative layout and rendering for character-addressable surfaces.
//!
//! A host describes its interface as an immutable [`layout::Layout`] tree. The
//! engine first resolves how much room every node needs
//! ([`layout::Layout::resolve_size`]), then assigns concrete rectangles and
//! emits flat draw commands ([`layout::SizedLayout::resolve_draw_commands`]),
//! which a [`canvas::TextCanvas`] executes.
//!
//! Text is measured and drawn in extended grapheme clusters, one cell each,
//! whatever width a terminal gives a cluster.
pub mod animation;
pub mod canvas;
pub mod layout;
pub mod rendering;
pub mod text;
