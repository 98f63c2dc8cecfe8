//! Configuration for how a value tree is serialized and written out.

use vstd::prelude::*;

verus! {

/// Options for serializing and writing GBLN documents: compact ("mini") or
/// pretty output, and XZ compression of the written bytes.
#[derive(Debug, Clone, PartialEq, Eq, Structural)]
pub struct GblnConfig {
    /// Serialize without structural whitespace.
    pub mini_mode: bool,
    /// Compress the serialized bytes with XZ.
    pub compress: bool,
    /// XZ compression level, 0 through 9.
    pub compression_level: u8,
    /// Indentation width for pretty output (ignored in mini mode).
    pub indent: usize,
    /// Drop comments when producing the on-disk format.
    pub strip_comments: bool,
}

impl GblnConfig {
    /// Production configuration: mini mode, XZ compression at level 6.
    pub fn new() -> (r: GblnConfig)
        ensures
            r.mini_mode && r.compress && r.compression_level == 6 && r.indent == 2
                && r.strip_comments,
    {
        GblnConfig {
            mini_mode: true,
            compress: true,
            compression_level: 6,
            indent: 2,
            strip_comments: true,
        }
    }

    /// Development configuration: pretty output, uncompressed, comments kept.
    pub fn development() -> (r: GblnConfig)
        ensures
            !r.mini_mode && !r.compress && r.compression_level == 6 && r.indent == 2
                && !r.strip_comments,
    {
        GblnConfig {
            mini_mode: false,
            compress: false,
            compression_level: 6,
            indent: 2,
            strip_comments: false,
        }
    }

    /// The on-disk interchange configuration; the same as [`GblnConfig::new`].
    pub fn io_format() -> (r: GblnConfig)
        ensures
            r.mini_mode && r.compress && r.compression_level == 6 && r.indent == 2
                && r.strip_comments,
    {
        GblnConfig::new()
    }

    /// Set mini mode.
    pub fn mini(self, enabled: bool) -> (r: GblnConfig)
        ensures
            r == (GblnConfig { mini_mode: enabled, ..self }),
    {
        GblnConfig { mini_mode: enabled, ..self }
    }

    /// Set whether written bytes are compressed.
    pub fn compress(self, enabled: bool) -> (r: GblnConfig)
        ensures
            r == (GblnConfig { compress: enabled, ..self }),
    {
        GblnConfig { compress: enabled, ..self }
    }

    /// Set the compression level; values above 9 are clamped to 9.
    pub fn compression_level(self, level: u8) -> (r: GblnConfig)
        ensures
            r == (GblnConfig {
                compression_level: if level <= 9 { level } else { 9 },
                ..self
            }),
    {
        let clamped: u8 = if level <= 9 { level } else { 9 };
        GblnConfig { compression_level: clamped, ..self }
    }

    /// Set the indentation width for pretty output.
    pub fn indent(self, width: usize) -> (r: GblnConfig)
        ensures
            r == (GblnConfig { indent: width, ..self }),
    {
        GblnConfig { indent: width, ..self }
    }

    /// Set whether comments are dropped in the on-disk format.
    pub fn strip_comments(self, strip: bool) -> (r: GblnConfig)
        ensures
            r == (GblnConfig { strip_comments: strip, ..self }),
    {
        GblnConfig { strip_comments: strip, ..self }
    }
}

impl Default for GblnConfig {
    /// The default configuration; the same as [`GblnConfig::new`].
    fn default() -> (r: GblnConfig)
        ensures
            r.mini_mode && r.compress && r.compression_level == 6 && r.indent == 2
                && r.strip_comments,
    {
        GblnConfig::new()
    }
}

} // verus!
