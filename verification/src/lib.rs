//! The storage engine of a plausibly deniable database, and small pieces of
//! the system around it.
//!
//! The engine keeps pages of secrets on raw flash. Every byte it leaves
//! there is sealed under the key of a basis or is random noise, so that a
//! slot that is free and a slot of a basis that is not open look the same.
//! Several bases share one region; each is opened with its own password. A
//! write that is cut off by a loss of power leaves the page as it was or as
//! written, never something in between.
//!
//! The parts of the engine, from the leaves up:
//!
//! - [`cipher`]: the primitives taken from outside, with what is assumed of
//!   them;
//! - [`bytes`], [`checksum`], [`flags`], [`key`]: fixed-width fields, the
//!   weak checksum, the flags byte, key derivation;
//! - [`pte`] and [`page`]: the codecs of a table entry and of a page;
//! - [`fscb`]: the allocator of physical pages;
//! - [`mbbb`]: the staged commit;
//! - [`flash`]: the image of the region;
//! - [`engine`], [`table`], [`store`], [`basis`]: the store, the steps that
//!   change it, reading and writing pages, opening and closing bases;
//! - [`recovery`]: what a mount finds after a write was cut off;
//! - [`writes`]: the writes of a page write, in the order in which they
//!   must reach flash.
//!
//! Around it: [`carton`] packs buffers for shipping to a server, [`tts`]
//! and [`vault`] hold the decisions of two message loops, [`packaging`] the
//! rules for checking a published package, [`version`] the version report.

pub mod basis;
pub mod bytes;
pub mod carton;
pub mod checksum;
pub mod cipher;
pub mod engine;
pub mod error;
pub mod flags;
pub mod flash;
pub mod fscb;
pub mod key;
pub mod mbbb;
pub mod packaging;
pub mod page;
pub mod pte;
pub mod recovery;
pub mod store;
pub mod table;
pub mod tts;
pub mod vault;
pub mod version;
pub mod writes;
