//! Windows over the concatenation of a job's files.

use vstd::prelude::*;

verus! {

/// A real piece of a job: the window `[idx * piece_size, (idx + 1) * piece_size)`.
#[derive(Debug, Clone, Copy, PartialEq, Eq, Structural)]
pub struct TorrentPiece {
    pub idx: usize,
    pub piece_size: u64,
}

/// A window that need not start on a piece boundary: `[offset, offset + piece_size)`.
/// It stands for a run of real pieces read as one and has no digest of its own.
#[derive(Debug, Clone, Copy, PartialEq, Eq, Structural)]
pub struct VirtualPiece {
    pub offset: u64,
    pub piece_size: u64,
}

/// A window addressed either by piece index or by byte offset.
#[derive(Debug, Clone, Copy, PartialEq, Eq, Structural)]
pub enum Piece {
    /// Addressed by byte offset.
    VirtualPiece(VirtualPiece),
    /// Addressed by piece index.
    TorrentPiece(TorrentPiece),
}

impl TorrentPiece {
    /// The first byte position of the piece in the concatenation.
    pub open spec fn start(self) -> int {
        self.idx * self.piece_size
    }

    /// The run `pieces` shares one piece size and its indices go up by one.
    pub open spec fn consecutive(pieces: Seq<TorrentPiece>) -> bool {
        forall|k: int|
            0 <= k < pieces.len() ==> {
                &&& (#[trigger] pieces[k]).piece_size == pieces[0].piece_size
                &&& pieces[k].idx == pieces[0].idx + k
            }
    }

    /// Where the window that a non-empty consecutive run covers starts: at
    /// the start of its first piece.
    pub open spec fn merged_start(pieces: Seq<TorrentPiece>) -> int {
        pieces[0].idx * pieces[0].piece_size
    }

    /// How long the window that a non-empty consecutive run covers is: as
    /// long as all its pieces together.
    pub open spec fn merged_size(pieces: Seq<TorrentPiece>) -> int {
        pieces.len() * pieces[0].piece_size
    }

    /// Merges a run of consecutive pieces into the one window that covers them
    /// all. An empty run has no window. The window must fit in 64 bits.
    pub fn merge(list: &[TorrentPiece]) -> (merged: Option<VirtualPiece>)
        requires
            Self::consecutive(list@),
            list@.len() > 0 ==> Self::merged_start(list@) <= u64::MAX,
            list@.len() > 0 ==> Self::merged_size(list@) <= u64::MAX,
        ensures
            list@.len() == 0 <==> merged is None,
            merged matches Some(v) ==> {
                &&& v.offset == Self::merged_start(list@)
                &&& v.piece_size == Self::merged_size(list@)
            },
    {
        if list.len() == 0 {
            return None;
        }
        let first_piece = list[0];
        Some(
            VirtualPiece {
                offset: first_piece.idx as u64 * first_piece.piece_size,
                piece_size: list.len() as u64 * first_piece.piece_size,
            },
        )
    }
}

impl Piece {
    /// The first byte position of the window in the concatenation.
    pub open spec fn start(self) -> int {
        match self {
            Piece::VirtualPiece(v) => v.offset as int,
            Piece::TorrentPiece(t) => t.start(),
        }
    }

    /// The length of the window in bytes.
    pub open spec fn size(self) -> u64 {
        match self {
            Piece::VirtualPiece(v) => v.piece_size,
            Piece::TorrentPiece(t) => t.piece_size,
        }
    }
}

/// Merging the `k` pieces `i, i + 1, .., i + k - 1` of size `p` gives the
/// window of `k * p` bytes that starts at `i * p`, and that window ends where
/// the last of the pieces ends.
pub proof fn lemma_merge_window(pieces: Seq<TorrentPiece>, i: int, k: int, p: int)
    requires
        k > 0,
        pieces.len() == k,
        forall|j: int| 0 <= j < k ==> (#[trigger] pieces[j]).idx == i + j && pieces[j].piece_size == p,
    ensures
        TorrentPiece::consecutive(pieces),
        TorrentPiece::merged_start(pieces) == i * p,
        TorrentPiece::merged_size(pieces) == k * p,
        TorrentPiece::merged_start(pieces) == pieces[0].start(),
        TorrentPiece::merged_start(pieces) + TorrentPiece::merged_size(pieces) == pieces[k - 1].start() + p,
{
    assert(i * p + k * p == (i + (k - 1)) * p + p) by (nonlinear_arith);
}

} // verus!
