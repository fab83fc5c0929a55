//! The options of a run and the settings of its configuration file.

use vstd::prelude::*;

verus! {

/// The options of the command line.
#[derive(Debug, Clone)]
pub struct Cli {
    /// The path of the configuration file.
    pub config_file: String,
    /// The first block to search for; never zero.
    pub from_block: u64,
    /// The number of blocks of one query; never zero.
    pub block_count: u64,
    /// Process the blobs that were fetched.
    pub parse: bool,
    /// Keep the stages of processing in the cache directory.
    pub dump: bool,
    /// Parse the sequences of the cache directory before connecting.
    pub parse_local: bool,
    /// Parse and annotate the uncompressed sequences of the cache
    /// directory, and do not connect.
    pub annotate_only: bool,
    pub no_connect: bool,
    /// Query once, whatever comes back.
    pub single_shot: bool,
    /// Keep the blobs that were fetched in the cache directory.
    pub save: bool,
    /// Write the projection of every state diff to the cache directory.
    pub json: bool,
    /// Remove the files of state updates that were processed.
    pub prune: bool,
}

/// The settings of the configuration file.
#[derive(Debug, Clone)]
pub struct Config {
    pub rpc_url: String,
    pub blob_url_base: String,
    pub cache_dir: String,
    pub pathfinder_rpc_url: String,
    pub db_file: String,
}

/// A range of blocks, both ends included.
#[derive(Debug, Clone, Copy, PartialEq, Eq, Structural)]
pub struct BlockWindow {
    pub from_block: u64,
    pub to_block: u64,
}

impl Cli {
    /// The options that others imply are set: the projection asks for
    /// parsing, and to annotate only asks for the local sequences, for
    /// keeping the stages and for no connection.
    pub fn apply_implications(&mut self)
        ensures
            final(self).parse == (old(self).parse || old(self).json),
            final(self).parse_local == (old(self).parse_local || old(self).annotate_only),
            final(self).dump == (old(self).dump || old(self).annotate_only),
            final(self).no_connect == (old(self).no_connect || old(self).annotate_only),
            final(self).config_file == old(self).config_file,
            final(self).from_block == old(self).from_block,
            final(self).block_count == old(self).block_count,
            final(self).annotate_only == old(self).annotate_only,
            final(self).single_shot == old(self).single_shot,
            final(self).save == old(self).save,
            final(self).json == old(self).json,
            final(self).prune == old(self).prune,
    {
        if self.json && !self.parse {
            self.parse = true;
        }
        if self.annotate_only && (!self.parse_local || !self.dump || !self.no_connect) {
            self.parse_local = true;
            self.dump = true;
            self.no_connect = true;
        }
    }

    /// The blocks of the first query, unless their numbers leave the
    /// `u64`.
    pub fn first_window(&self) -> (r: Option<BlockWindow>)
        ensures
            r == spec_window(self.from_block, self.block_count),
    {
        window(self.from_block, self.block_count)
    }
}

/// The `count` blocks from `from` on.
pub open spec fn spec_window(from: u64, count: u64) -> Option<BlockWindow> {
    if count >= 1 && from + count - 1 <= u64::MAX {
        Some(BlockWindow { from_block: from, to_block: (from + count - 1) as u64 })
    } else {
        None
    }
}

/// The `count` blocks from `from` on, unless there is none or their
/// numbers leave the `u64`.
pub fn window(from: u64, count: u64) -> (r: Option<BlockWindow>)
    ensures
        r == spec_window(from, count),
{
    if count == 0 {
        return None;
    }
    if from > u64::MAX - (count - 1) {
        return None;
    }
    Some(BlockWindow { from_block: from, to_block: from + (count - 1) })
}

impl BlockWindow {
    /// The window of as many blocks that follows this one.
    pub fn next(&self, block_count: u64) -> (r: Option<BlockWindow>)
        ensures
            r == (if self.to_block < u64::MAX {
                spec_window((self.to_block + 1) as u64, block_count)
            } else {
                None
            }),
    {
        if self.to_block == u64::MAX {
            return None;
        }
        window(self.to_block + 1, block_count)
    }
}

} // verus!
