//! Parser and query surface for Valve's textual key-value format (VDF/ACF).
//!
//! The format describes Steam app manifests and library-folder listings as a
//! nested tree of quoted tokens.  `acf` holds the value model and the
//! recursive-descent parser; `steamapps` holds the library bookkeeping built
//! on top of it.
pub mod acf;
pub mod grammar;
pub mod laws;
pub mod steamapps;
