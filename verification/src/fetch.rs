//! Decisions of the fetch pipeline that need no I/O: where scanning resumes,
//! how a fetched header window is folded into the forward header stream, and
//! the handle to a local blocks directory.

use vstd::prelude::*;

use crate::types::{BlockHash, BlockHeight};

verus! {

/// An 80-byte block header, reduced to what the pipeline reads of it: its own
/// hash and the hash it chains from.
#[derive(Clone, Copy, Debug)]
pub struct Header {
    pub block_hash: BlockHash,
    pub prev_block_hash: BlockHash,
}

/// What one fetched header window contributes to the stream: the headers to
/// emit and the hash to continue from, if the window carried anything new.
pub struct HeaderWindow {
    pub emit: Vec<Header>,
    pub next_hash: Option<BlockHash>,
}

/// The headers a window contributes: all of them, except that every window
/// after the first repeats the previous window's last header first, which is
/// dropped.
pub open spec fn spec_window_emit(headers: Seq<Header>, skip_first: bool) -> Seq<Header> {
    if skip_first && headers.len() > 0 {
        headers.skip(1)
    } else {
        headers
    }
}

/// Fold one fetched window into the stream: drop the duplicated first header
/// of every window after the first, and continue from the last header kept.
/// An empty remainder signals that the node's tip was reached.
pub fn accept_header_window(headers: Vec<Header>, skip_first: bool) -> (r: HeaderWindow)
    ensures
        r.emit@ == spec_window_emit(headers@, skip_first),
        r.next_hash == if spec_window_emit(headers@, skip_first).len() == 0 {
            None::<BlockHash>
        } else {
            Some(spec_window_emit(headers@, skip_first).last().block_hash)
        },
{
    let n = headers.len();
    let mut emit: Vec<Header> = Vec::new();
    let start: usize = if skip_first && n > 0 {
        1
    } else {
        0
    };
    let mut i: usize = start;
    while i < n
        invariant
            start <= i <= n,
            n == headers@.len(),
            emit@ == headers@.subrange(start as int, i as int),
        decreases n - i,
    {
        emit.push(headers[i]);
        proof {
            assert(headers@.subrange(start as int, i + 1) =~= headers@.subrange(
                start as int,
                i as int,
            ).push(headers@[i as int]));
        }
        i = i + 1;
    }
    proof {
        assert(spec_window_emit(headers@, skip_first) =~= headers@.subrange(
            start as int,
            n as int,
        ));
    }
    let next_hash = if emit.len() == 0 {
        None
    } else {
        Some(emit[emit.len() - 1].block_hash)
    };
    HeaderWindow { emit, next_hash }
}

/// Where scanning resumes: one past the committed tip, or the genesis height
/// for an empty store.
pub fn next_start_height(tip: Option<(BlockHeight, BlockHash)>) -> (r: BlockHeight)
    requires
        match tip {
            Some((h, _)) => h < 0xffff_ffffu32,
            None => true,
        },
    ensures
        r as int == match tip {
            Some((h, _)) => h + 1,
            None => 0int,
        },
{
    match tip {
        Some((h, _)) => h + 1,
        None => 0,
    }
}

/// A directory of raw block files, named by the operator; reading it is the
/// runtime's work.
pub struct BlocksDirReader {
    blocks_dir: String,
}

impl BlocksDirReader {
    pub closed spec fn spec_blocks_dir(&self) -> Seq<char> {
        self.blocks_dir@
    }

    /// Adopt a path string as the blocks directory.
    pub fn try_open(blocks_dir: String) -> (r: Result<BlocksDirReader, ()>)
        ensures
            match r {
                Ok(reader) => reader.spec_blocks_dir() == blocks_dir@,
                Err(_) => false,
            },
    {
        Ok(BlocksDirReader { blocks_dir })
    }

    /// The configured directory.
    pub fn blocks_dir(&self) -> (r: &String)
        ensures
            r@ == self.spec_blocks_dir(),
    {
        &self.blocks_dir
    }
}

} // verus!
