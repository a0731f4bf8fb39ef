//! The repair of one missing piece: where its bytes may be read in the source
//! job, and whether the bytes read may be written to the destination job.

use crate::address::{
    covering_range, covering_span, file_block_to_pieces, locate, piece_run, piece_to_file_block,
};
use crate::block::FileBlock;
use crate::digest::{digest_matches, sha1_digest};
use crate::equivalence::{both_sides_named, convert_filename, counterpart, pairs_model, PairModel};
use crate::error::RepairError;
use crate::piece::{Piece, TorrentPiece, VirtualPiece};
use crate::torrent::{Torrent, TorrentModel};
use vstd::prelude::*;
use vstd::slice::{slice_subrange, slice_to_vec};

verus! {

/// What it takes to restore one piece: the window to read in a file of the
/// source job, and the block of a file of the destination job that the
/// verified part of it is for.
#[derive(Debug, PartialEq, Eq)]
pub struct Transfer {
    /// The index of the destination piece.
    pub piece: usize,
    /// The file of the source job to read.
    pub src_file: String,
    /// The range of `src_file` to read: the run of source pieces that covers
    /// `block`.
    pub window: FileBlock,
    /// The file of the destination job to write.
    pub dst_file: String,
    /// The range of `dst_file` that the piece starts at and spans.
    pub block: FileBlock,
    /// The digest that the bytes of `block` must have.
    pub expected: [u8; 20],
}

/// The mathematical model of a [`Transfer`].
pub struct TransferModel {
    pub piece: usize,
    pub src_file: Seq<char>,
    pub window: FileBlock,
    pub dst_file: Seq<char>,
    pub block: FileBlock,
    pub expected: Seq<u8>,
}

impl View for Transfer {
    type V = TransferModel;

    open spec fn view(&self) -> TransferModel {
        TransferModel {
            piece: self.piece,
            src_file: self.src_file@,
            window: self.window,
            dst_file: self.dst_file@,
            block: self.block,
            expected: self.expected@,
        }
    }
}

/// Every piece of `job` from `first` up to, not including, `end` is
/// downloaded.
pub open spec fn all_downloaded(job: TorrentModel, first: int, end: int) -> bool {
    forall|k: int| first <= k < end ==> job.downloaded(k)
}

/// The pieces of `job` from `first` up to, not including, `end`, merged into
/// one window.
pub open spec fn merged_window(job: TorrentModel, first: int, end: int) -> Piece {
    Piece::VirtualPiece(
        VirtualPiece {
            offset: (first * job.piece_size) as u64,
            piece_size: ((end - first) * job.piece_size) as u64,
        },
    )
}

/// How piece `idx` of `dst` is to be restored from `src`, or why it is passed
/// over. In order:
/// the piece, with the length that it has in `dst`, is resolved to a block of
/// a file of `dst`;
/// the file's counterpart in `src` is looked up in `pairs`;
/// the run of pieces of `src` that covers the same block of the counterpart
/// is found;
/// every piece of the run must be downloaded;
/// the run, merged into one window, must lie in the counterpart and cover
/// the block.
pub open spec fn plan(src: TorrentModel, dst: TorrentModel, pairs: Seq<PairModel>, idx: usize) -> Result<
    TransferModel,
    RepairError,
> {
    if idx >= dst.piece_count() {
        Err(RepairError::AddressOutOfRange)
    } else {
        match locate(dst.files, dst.piece_window(idx)) {
            Err(e) => Err(e),
            Ok((in_dst, block)) => match counterpart(pairs, dst.files[in_dst].name) {
                Err(_) => Err(RepairError::NoEquivalentFile),
                Ok(src_file) => match covering_span(src, src_file, block) {
                    Err(e) => Err(e),
                    Ok((first, end)) => if !all_downloaded(src, first, end) {
                        Err(RepairError::SourceUnavailable)
                    } else {
                        match locate(src.files, merged_window(src, first, end)) {
                            Err(e) => Err(e),
                            Ok((in_src, window)) => if src.files[in_src].name == src_file
                                && window.covers(block) {
                                Ok(
                                    TransferModel {
                                        piece: idx,
                                        src_file: src_file,
                                        window: window,
                                        dst_file: dst.files[in_dst].name,
                                        block: block,
                                        expected: dst.digests[idx as int],
                                    },
                                )
                            } else {
                                Err(RepairError::ContainmentViolation)
                            },
                        }
                    },
                },
            },
        }
    }
}

/// Plans the repair of piece `idx` of `dst` from `src`. Nothing is read or
/// written: the result says what to read and where the verified bytes go, or
/// why the piece is passed over.
#[verifier::loop_isolation(false)]
pub fn plan_piece(
    src: &Torrent,
    dst: &Torrent,
    same_files: &[(Vec<String>, Vec<String>)],
    idx: usize,
) -> (planned: Result<Transfer, RepairError>)
    requires
        both_sides_named(pairs_model(same_files@)),
    ensures
        match plan(src@, dst@, pairs_model(same_files@), idx) {
            Ok(t) => planned matches Ok(p) && p@ == t,
            Err(e) => planned matches Err(f) && f == e,
        },
{
    proof {
        use_type_invariant(src);
        use_type_invariant(dst);
    }
    let hashes = dst.pieces_hashes();
    let dst_piece = match dst.piece(idx) {
        Some(piece) => piece,
        None => {
            return Err(RepairError::AddressOutOfRange);
        },
    };
    let expected: [u8; 20] = hashes[idx];
    let (filename, dst_file_block) = match piece_to_file_block(dst, &dst_piece) {
        Ok(found) => found,
        Err(e) => {
            return Err(e);
        },
    };
    let src_filename = match convert_filename(same_files, filename.as_str()) {
        Ok(name) => name,
        Err(_) => {
            return Err(RepairError::NoEquivalentFile);
        },
    };
    let (first, end) = match covering_range(src, src_filename.as_str(), &dst_file_block) {
        Ok(span) => span,
        Err(e) => {
            return Err(e);
        },
    };
    let recorded = src.pieces_states().len();
    if end > recorded as u128 {
        assert(!src@.downloaded(end - 1));
        return Err(RepairError::SourceUnavailable);
    }
    let src_pieces = match file_block_to_pieces(src, src_filename.as_str(), &dst_file_block) {
        Ok(pieces) => pieces,
        Err(e) => {
            return Err(e);
        },
    };
    let mut k: usize = 0;
    while k < src_pieces.len()
        invariant
            k <= src_pieces.len(),
            forall|j: int| first <= j < first + k ==> src@.downloaded(j),
        decreases src_pieces.len() - k,
    {
        if !src.piece_is_downloaded(&src_pieces[k]) {
            return Err(RepairError::SourceUnavailable);
        }
        k += 1;
    }
    proof {
        let size = src@.piece_size as int;
        let count = src@.piece_count() as int;
        assert(size <= count * size) by (nonlinear_arith)
            requires
                count >= 1,
                size > 0,
        ;
        assert(first * size <= count * size && (end - first) * size <= count * size
            && (end - first) * size >= 0 && first * size >= 0) by (nonlinear_arith)
            requires
                0 <= first < end <= count,
                size > 0,
        ;
    }
    let virt_src_piece = match TorrentPiece::merge(src_pieces.as_slice()) {
        Some(virt) => virt,
        None => {
            // The block is not empty, so the run that covers it is not.
            assert(false);
            return Err(RepairError::ContainmentViolation);
        },
    };
    let (window_file, virt_src_file_block) = match piece_to_file_block(
        src,
        &Piece::VirtualPiece(virt_src_piece),
    ) {
        Ok(found) => found,
        Err(e) => {
            return Err(e);
        },
    };
    if window_file == src_filename && virt_src_file_block.contains(&dst_file_block) {
        Ok(
            Transfer {
                piece: idx,
                src_file: src_filename,
                window: virt_src_file_block,
                dst_file: filename,
                block: dst_file_block,
                expected,
            },
        )
    } else {
        Err(RepairError::ContainmentViolation)
    }
}

/// The part of `data`, read from the window of `transfer`, that is for its
/// block, if it may be written. The read must have the window's length and
/// the window must cover the block; the part must hash to the expected
/// digest.
pub open spec fn checked(transfer: TransferModel, data: Seq<u8>) -> Result<Seq<u8>, RepairError> {
    if !transfer.window.covers(transfer.block) {
        Err(RepairError::ContainmentViolation)
    } else if data.len() != transfer.window.size {
        Err(RepairError::IOFailure)
    } else {
        let part = block_part(transfer, data);
        if sha1_digest(part) == transfer.expected {
            Ok(part)
        } else {
            Err(RepairError::DigestMismatch)
        }
    }
}

/// The bytes of `data` that lie in the block of `transfer`, `data` being the
/// bytes of its window.
pub open spec fn block_part(transfer: TransferModel, data: Seq<u8>) -> Seq<u8> {
    data.subrange(
        transfer.block.offset - transfer.window.offset,
        transfer.block.offset - transfer.window.offset + transfer.block.size,
    )
}

/// Checks the bytes read from the window of `transfer` and hands out the
/// part that is for its block, only if that part hashes to the expected
/// digest.
pub fn verify_read(transfer: &Transfer, data: &[u8]) -> (verified: Result<Vec<u8>, RepairError>)
    ensures
        match checked(transfer@, data@) {
            Ok(part) => verified matches Ok(v) && v@ == part,
            Err(e) => verified matches Err(f) && f == e,
        },
        verified matches Ok(v) ==> sha1_digest(v@) == transfer@.expected,
{
    if !transfer.window.contains(&transfer.block) {
        return Err(RepairError::ContainmentViolation);
    }
    if data.len() as u64 != transfer.window.size {
        return Err(RepairError::IOFailure);
    }
    let data_offset: usize = (transfer.block.offset - transfer.window.offset) as usize;
    let part = slice_subrange(data, data_offset, data_offset + transfer.block.size as usize);
    if digest_matches(part, &transfer.expected) {
        Ok(slice_to_vec(part))
    } else {
        Err(RepairError::DigestMismatch)
    }
}

} // verus!
