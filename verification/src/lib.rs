//! Derives a new filename for a photo from the text of an EXIF metadata
//! sidecar file and a user-supplied naming pattern.
//!
//! The pipeline: parse `key: value` metadata text into a mapping, derive
//! calendar, clock and filename variables from the `CreateDate` and
//! `FileName` fields, overlay the raw metadata on top of the derived
//! variables, and substitute the merged mapping into a `{name}` pattern.
pub mod text;
pub mod vars;
pub mod datetime;
pub mod filename;
pub mod metadata;
pub mod template;
pub mod pipeline;
