//! Decoder for the combined names of an installer package's directory table.
//!
//! A directory field has the shape `[<source>:]<target>`, and each of the two
//! names has the shape `[<short>|]<long>`. The types in [`directory`] are
//! borrowed views that split such a field on demand; [`text`] holds the
//! splitting itself, stated over the characters of a string.

pub mod text;
pub mod directory;
