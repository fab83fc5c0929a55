//! Reconstruction and parsing of Starknet state updates published as
//! EIP-4844 blobs.
//!
//! A blob holds the values of a polynomial over the scalar field of
//! BLS12-381; [`transform`] takes them back to the coefficients, which are the
//! sequence of field elements that the sequencer wrote ([`evaluation`] and
//! [`domain`] show that it does). Newer sequences are compressed; [`decomp`]
//! undoes the bucketed packing. [`parser`] reads the state diff out of the
//! flat sequence, unpacking the word of every contract by the layout of its
//! format version ([`packing`]) and resolving the indices of stateful
//! compression against the dictionary of [`lookup`]. [`process`] ties these
//! steps together, and [`state_diff`] holds the result with its projection.
//!
//! The remaining modules decide what the program around the library does
//! without doing it: the text of blobs ([`blob_util`]), the files of the
//! cache ([`cache`], [`dump`]), the fetching of blobs ([`download`]), the scan
//! of the chain ([`chain`]) and the options of a run ([`config`]).
//!
//! Field elements are [`felt::Felt`]; their arithmetic is that of
//! `num_bigint`, reached through the functions of [`arith`].

pub mod arith;
pub mod blob_util;
pub mod cache;
pub mod chain;
pub mod config;
pub mod decomp;
pub mod domain;
pub mod download;
pub mod dump;
pub mod evaluation;
pub mod felt;
pub mod lookup;
pub mod packing;
pub mod parser;
pub mod process;
pub mod state_diff;
pub mod transform;
