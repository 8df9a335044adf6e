//! Rendering of a sparse, irregularly sampled series of glucose readings
//! into a fixed-width textual strip: one character per 15-minute slot.
//!
//! The [`view`] module groups timestamped samples into slots and walks a
//! window of slots — a rolling recent window or a full calendar day —
//! emitting one glyph per slot. The [`glyph`] module fixes the four glyph
//! kinds and their characters, and the [`time`] module does the slot and
//! calendar arithmetic on epoch-second instants.

pub mod glyph;
pub mod time;
pub mod view;
