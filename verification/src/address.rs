//! Conversion between windows of a job's concatenation and byte ranges
//! inside its files.

use crate::block::FileBlock;
use crate::error::RepairError;
use crate::layout::{
    file_at, file_holds, file_start, first_named, lemma_file_at_in_range, lemma_file_holds_unique,
    lemma_file_start_all, lemma_file_start_next, lemma_file_start_ordered, lemma_file_start_zero,
    lemma_first_named_unique, lemma_position_of, piece_ceil, piece_floor, position_of, FileModel,
};
use crate::piece::{Piece, TorrentPiece};
use crate::torrent::{files_model, FileEntry, PieceState, Torrent, TorrentModel};
use vstd::arithmetic::div_mod::lemma_fundamental_div_mod_converse;
use vstd::prelude::*;

verus! {

/// Where a window starts: the file that holds its first byte, and the block
/// of the window's length that starts at that byte, counted from the start of
/// the file. A window that starts at or after the end of the last file is out
/// of range.
pub open spec fn locate(files: Seq<FileModel>, piece: Piece) -> Result<(int, FileBlock), RepairError> {
    match file_at(files, piece.start()) {
        Some(i) => Ok(
            (
                i,
                FileBlock {
                    offset: (piece.start() - file_start(files, i)) as u64,
                    size: piece.size(),
                },
            ),
        ),
        None => Err(RepairError::AddressOutOfRange),
    }
}

/// The pieces `first, first + 1, .., end - 1`, each of size `piece_size`.
pub open spec fn piece_run(first: int, end: int, piece_size: nat) -> Seq<TorrentPiece> {
    Seq::new(
        (end - first) as nat,
        |k: int| TorrentPiece { idx: (first + k) as usize, piece_size: piece_size as u64 },
    )
}

/// The position in the concatenation at which `block` of file `i` starts.
pub open spec fn block_start(files: Seq<FileModel>, i: int, block: FileBlock) -> int {
    file_start(files, i) + block.offset
}

/// The index one past the last piece that `block` of file `i` touches.
pub open spec fn covering_end(job: TorrentModel, i: int, block: FileBlock) -> int {
    piece_ceil(block_start(job.files, i, block) + block.size, job.piece_size as int)
}

/// The index of the piece that holds the first byte of `block` of file `i`.
pub open spec fn covering_first(job: TorrentModel, i: int, block: FileBlock) -> int {
    piece_floor(block_start(job.files, i, block), job.piece_size as int)
}

/// The run of pieces of `job` that `block` of the first file called `name`
/// touches, as the index of its first piece and the index one past its last.
pub open spec fn covering_span(job: TorrentModel, name: Seq<char>, block: FileBlock) -> Result<
    (int, int),
    RepairError,
> {
    match position_of(job.files, name) {
        None => Err(RepairError::FileNotFound),
        Some(i) => if block.offset > job.files[i].size {
            Err(RepairError::OffsetBeyondFile)
        } else {
            Ok((covering_first(job, i, block), covering_end(job, i, block)))
        },
    }
}

/// The pieces of `job` that `block` of the first file called `name` touches,
/// in ascending order.
pub open spec fn covering_pieces(job: TorrentModel, name: Seq<char>, block: FileBlock) -> Result<
    Seq<TorrentPiece>,
    RepairError,
> {
    match covering_span(job, name, block) {
        Ok((first, end)) => Ok(piece_run(first, end, job.piece_size)),
        Err(e) => Err(e),
    }
}

/// Every index of the covering run can be written as a `usize`.
pub open spec fn covering_fits(job: TorrentModel, name: Seq<char>, block: FileBlock) -> bool {
    covering_span(job, name, block) matches Ok((_, end)) ==> end <= usize::MAX
}

/// The indices below `len`, in ascending order.
pub open spec fn indices(len: nat) -> Seq<usize> {
    Seq::new(len, |k: int| k as usize)
}

/// The pieces from `lo` to `hi`, both included, that have a recorded state
/// other than downloaded, in ascending order.
pub open spec fn missing_between(states: Seq<PieceState>, lo: int, hi: int) -> Seq<usize> {
    indices(states.len()).filter(
        |k: usize| lo <= k <= hi && k < states.len() && states[k as int] != PieceState::Downloaded,
    )
}

/// The index of the piece that holds the first byte of file `i`.
pub open spec fn file_first_piece(job: TorrentModel, i: int) -> int {
    piece_floor(file_start(job.files, i) as int, job.piece_size as int)
}

/// The last piece index that is looked at for file `i`: as many whole piece
/// lengths past its first piece as fit in the file.
pub open spec fn file_last_piece(job: TorrentModel, i: int) -> int {
    file_first_piece(job, i) + job.files[i].size as int / job.piece_size as int
}

/// The missing pieces of the first file called `name`, in ascending order.
pub open spec fn missing_pieces(job: TorrentModel, name: Seq<char>) -> Result<Seq<usize>, RepairError> {
    match position_of(job.files, name) {
        None => Err(RepairError::FileNotFound),
        Some(i) => Ok(missing_between(job.states, file_first_piece(job, i), file_last_piece(job, i))),
    }
}

/// Finds the file that holds the first byte of `piece` and the block of the
/// piece's length that starts there. Index-addressed and offset-addressed
/// windows are resolved alike, by their first byte.
pub fn piece_to_file_block(torrent: &Torrent, piece: &Piece) -> (located: Result<
    (String, FileBlock),
    RepairError,
>)
    ensures
        match locate(torrent@.files, *piece) {
            Ok((i, block)) => located matches Ok((name, b)) && name@ == torrent@.files[i].name && b
                == block,
            Err(e) => located matches Err(f) && f == e,
        },
{
    let content = torrent.content();
    let ghost files = torrent@.files;
    let (start, size): (u128, u64) = match *piece {
        Piece::TorrentPiece(p) => {
            assert(p.idx * p.piece_size <= u64::MAX * u64::MAX) by (nonlinear_arith)
                requires
                    0 <= p.idx <= u64::MAX,
                    0 <= p.piece_size <= u64::MAX,
            ;
            (p.idx as u128 * p.piece_size as u128, p.piece_size)
        },
        Piece::VirtualPiece(p) => (p.offset as u128, p.piece_size),
    };
    let mut offset: u128 = start;
    let mut i: usize = 0;
    proof {
        lemma_file_start_zero(files);
    }
    while i < content.len()
        invariant
            i <= content.len(),
            files == files_model(content@),
            files == torrent@.files,
            offset + file_start(files, i as int) == start,
            start == piece.start(),
            size == piece.size(),
        decreases content.len() - i,
    {
        proof {
            lemma_file_start_next(files, i as int);
        }
        let file = &content[i];
        if offset < file.size as u128 {
            proof {
                lemma_file_at_in_range(files, start as int);
                lemma_file_holds_unique(files, i as int, file_at(files, start as int)->0, start as int);
            }
            return Ok((file.name.clone(), FileBlock { offset: offset as u64, size }));
        }
        offset -= file.size as u128;
        i += 1;
    }
    proof {
        lemma_file_start_all(files);
        lemma_file_at_in_range(files, start as int);
    }
    Err(RepairError::AddressOutOfRange)
}

/// The index of the first file called `path` and the position at which it
/// starts.
fn find_file(content: &[FileEntry], path: &str) -> (found: Option<(usize, u128)>)
    ensures
        match position_of(files_model(content@), path@) {
            Some(i) => found matches Some((index, start)) && index == i && start == file_start(
                files_model(content@),
                i,
            ) && 0 <= i < content@.len(),
            None => found is None,
        },
{
    let ghost files = files_model(content@);
    let wanted = path.to_owned();
    let mut offset: u128 = 0;
    let mut i: usize = 0;
    proof {
        lemma_file_start_zero(files);
        lemma_position_of(files, path@);
    }
    while i < content.len()
        invariant
            i <= content.len(),
            files == files_model(content@),
            wanted@ == path@,
            offset == file_start(files, i as int),
            offset <= i * u64::MAX,
            forall|j: int| 0 <= j < i ==> (#[trigger] files[j]).name != path@,
            position_of(files, path@) matches Some(p) ==> first_named(files, path@, p),
            position_of(files, path@) is None ==> forall|j: int|
                0 <= j < files.len() ==> (#[trigger] files[j]).name != path@,
        decreases content.len() - i,
    {
        proof {
            lemma_file_start_next(files, i as int);
            assert((i + 1) * u64::MAX <= usize::MAX * u64::MAX && i * u64::MAX + u64::MAX == (i + 1)
                * u64::MAX) by (nonlinear_arith)
                requires
                    0 <= i < usize::MAX,
            ;
        }
        if content[i].name == wanted {
            proof {
                lemma_first_named_unique(files, path@, i as int, position_of(files, path@)->0);
            }
            return Some((i, offset));
        }
        offset += content[i].size as u128;
        i += 1;
    }
    None
}

/// The position in the concatenation at which the first file called `path`
/// starts. That position must fit in 64 bits.
pub fn get_file_offset(torrent_content: &[FileEntry], path: &str) -> (start: Result<u64, RepairError>)
    requires
        position_of(files_model(torrent_content@), path@) matches Some(i) ==> file_start(
            files_model(torrent_content@),
            i,
        ) <= u64::MAX,
    ensures
        match position_of(files_model(torrent_content@), path@) {
            Some(i) => start == Ok::<u64, RepairError>(
                file_start(files_model(torrent_content@), i) as u64,
            ),
            None => start == Err::<u64, RepairError>(RepairError::FileNotFound),
        },
{
    match find_file(torrent_content, path) {
        Some((_, offset)) => Ok(offset as u64),
        None => Err(RepairError::FileNotFound),
    }
}

/// The run of pieces that `file_block` of the file called `path` touches:
/// the index of its first piece and the index one past its last.
pub fn covering_range(torrent: &Torrent, path: &str, file_block: &FileBlock) -> (span: Result<
    (u128, u128),
    RepairError,
>)
    ensures
        match covering_span(torrent@, path@, *file_block) {
            Ok((first, end)) => span matches Ok((f, e)) && f == first && e == end && first <= end,
            Err(e) => span matches Err(f) && f == e,
        },
        file_block.size > 0 ==> (covering_span(torrent@, path@, *file_block) matches Ok(
            (first, end),
        ) ==> first < end),
{
    proof {
        use_type_invariant(torrent);
    }
    let content = torrent.content();
    let piece_size = torrent.piece_size();
    let ghost job = torrent@;
    let (i, start) = match find_file(content.as_slice(), path) {
        Some(found) => found,
        None => {
            return Err(RepairError::FileNotFound);
        },
    };
    if file_block.offset > content[i].size {
        return Err(RepairError::OffsetBeyondFile);
    }
    proof {
        lemma_file_start_next(job.files, i as int);
        lemma_file_start_ordered(job.files, i as int + 1, job.files.len() as int);
    }
    let position: u128 = start + file_block.offset as u128;
    let first: u128 = position / piece_size as u128;
    let end: u128 = (position + file_block.size as u128 + piece_size as u128 - 1) / piece_size as u128;
    assert(first <= end && (file_block.size > 0 ==> first < end)) by (nonlinear_arith)
        requires
            first == position as int / piece_size as int,
            end == (position as int + file_block.size as int + piece_size as int - 1)
                / piece_size as int,
            piece_size > 0,
            position >= 0,
            file_block.size >= 0,
    ;
    Ok((first, end))
}

/// The pieces of `torrent` that `file_block` of the file called `path`
/// touches: none, one or several, in ascending order, each with the job's
/// own piece size.
pub fn file_block_to_pieces(torrent: &Torrent, path: &str, file_block: &FileBlock) -> (pieces:
    Result<Vec<TorrentPiece>, RepairError>)
    requires
        covering_fits(torrent@, path@, *file_block),
    ensures
        match covering_pieces(torrent@, path@, *file_block) {
            Ok(run) => pieces matches Ok(v) && v@ == run,
            Err(e) => pieces matches Err(f) && f == e,
        },
{
    let piece_size = torrent.piece_size();
    let (first, end) = match covering_range(torrent, path, file_block) {
        Ok(span) => span,
        Err(e) => {
            return Err(e);
        },
    };
    let first_idx: usize = first as usize;
    let end_idx: usize = end as usize;
    let mut result: Vec<TorrentPiece> = Vec::new();
    let mut idx: usize = first_idx;
    while idx < end_idx
        invariant
            first_idx <= idx <= end_idx,
            result@ == piece_run(first_idx as int, idx as int, piece_size as nat),
        decreases end_idx - idx,
    {
        result.push(TorrentPiece { idx, piece_size });
        idx += 1;
    }
    Ok(result)
}

/// The pieces of `torrent` that are not downloaded among those looked at for
/// the file called `path`, in ascending order: from the piece that holds the
/// file's first byte on, as many pieces further as whole piece lengths fit in
/// the file.
pub fn get_missing_pieces(torrent: &Torrent, path: &str) -> (missing: Result<Vec<usize>, RepairError>)
    ensures
        match missing_pieces(torrent@, path@) {
            Ok(run) => missing matches Ok(v) && v@ == run,
            Err(e) => missing matches Err(f) && f == e,
        },
{
    proof {
        use_type_invariant(torrent);
    }
    let content = torrent.content();
    let piece_size = torrent.piece_size();
    let states = torrent.pieces_states();
    let ghost job = torrent@;
    let (i, offset) = match find_file(content.as_slice(), path) {
        Some(found) => found,
        None => {
            return Err(RepairError::FileNotFound);
        },
    };
    proof {
        lemma_file_start_next(job.files, i as int);
        lemma_file_start_ordered(job.files, i as int + 1, job.files.len() as int);
    }
    let offset: u64 = offset as u64;
    let starting_idx: u64 = offset / piece_size;
    let n_pieces: u64 = content[i].size / piece_size;
    proof {
        assert(starting_idx + n_pieces <= u64::MAX) by (nonlinear_arith)
            requires
                starting_idx == offset / piece_size,
                n_pieces == content[i as int].size / piece_size,
                offset + content[i as int].size <= u64::MAX,
                piece_size > 0,
        ;
    }
    let last_idx: u64 = starting_idx + n_pieces;
    let ghost pred = |k: usize|
        starting_idx <= k <= last_idx && k < states@.len() && states@[k as int]
            != PieceState::Downloaded;
    let mut result: Vec<usize> = Vec::new();
    let mut idx: usize = 0;
    proof {
        assert(indices(0).filter(pred) =~= Seq::<usize>::empty()) by {
            reveal(Seq::filter);
        }
    }
    while idx < states.len()
        invariant
            idx <= states.len(),
            result@ == indices(idx as nat).filter(pred),
            pred == |k: usize|
                starting_idx <= k <= last_idx && k < states@.len() && states@[k as int]
                    != PieceState::Downloaded,
        decreases states.len() - idx,
    {
        proof {
            let upto = indices((idx + 1) as nat);
            assert(upto.drop_last() =~= indices(idx as nat));
            reveal(Seq::filter);
        }
        let wanted = match states[idx] {
            PieceState::Downloaded => false,
            PieceState::NotDownloaded => true,
        };
        if idx as u64 >= starting_idx && idx as u64 <= last_idx && wanted {
            result.push(idx);
        }
        idx += 1;
    }
    Ok(result)
}

/// Round trip of addressing. Take piece `idx` of a consistent job, either as
/// a full-size window addressed by its index or with the length that the piece
/// has, find the file and block at which it starts, and ask which pieces that
/// block of that file touches: the answer is piece `idx`, and no other. The
/// file that holds the start of the piece must be the first of its name, since
/// a name stands for the first file that bears it.
pub proof fn lemma_round_trip(job: TorrentModel, idx: usize, window: Piece)
    requires
        job.consistent(),
        idx < job.piece_count(),
        window == Piece::TorrentPiece(TorrentPiece { idx, piece_size: job.piece_size as u64 })
            || window == job.piece_window(idx),
        locate(job.files, window) matches Ok((i, _)) ==> first_named(
            job.files,
            job.files[i].name,
            i,
        ),
    ensures
        locate(job.files, window) matches Ok((i, block)) && covering_pieces(
            job,
            job.files[i].name,
            block,
        ) == Ok::<Seq<TorrentPiece>, RepairError>(
            seq![TorrentPiece { idx, piece_size: job.piece_size as u64 }],
        ),
{
    let files = job.files;
    let size = job.piece_size as int;
    let count = job.piece_count() as int;
    let start = idx * size;
    let length = window.size() as int;
    assert(0 <= idx * size <= (count - 1) * size && size <= count * size) by (nonlinear_arith)
        requires
            0 <= idx <= count - 1,
            size > 0,
    ;
    assert((count - 1) * size == count * size - size) by (nonlinear_arith);
    lemma_file_at_in_range(files, start);
    let i = file_at(files, start)->0;
    lemma_file_start_next(files, i);
    lemma_file_start_ordered(files, i + 1, files.len() as int);
    let block = FileBlock { offset: (start - file_start(files, i)) as u64, size: window.size() };
    lemma_position_of(files, files[i].name);
    lemma_first_named_unique(files, files[i].name, i, position_of(files, files[i].name)->0);
    lemma_fundamental_div_mod_converse(idx * size, size, idx as int, 0);
    assert(idx * size + length + size - 1 == (idx + 1) * size + (length - 1)) by (nonlinear_arith);
    lemma_fundamental_div_mod_converse(
        idx * size + length + size - 1,
        size,
        idx + 1,
        length - 1,
    );
    assert(piece_run(idx as int, idx + 1, job.piece_size) =~= seq![
        TorrentPiece { idx, piece_size: job.piece_size as u64 },
    ]);
}

/// What `missing_between` holds: exactly the recorded pieces from `lo` to
/// `hi` that are not downloaded, each once, in ascending order.
pub proof fn lemma_missing_between(states: Seq<PieceState>, lo: int, hi: int)
    requires
        states.len() <= usize::MAX,
    ensures
        forall|k: usize|
            missing_between(states, lo, hi).contains(k) <==> lo <= k <= hi && k < states.len()
                && states[k as int] != PieceState::Downloaded,
        forall|a: int, b: int|
            0 <= a < b < missing_between(states, lo, hi).len() ==> missing_between(states, lo, hi)[a]
                < missing_between(states, lo, hi)[b],
{
    let pred = |k: usize|
        lo <= k <= hi && k < states.len() && states[k as int] != PieceState::Downloaded;
    lemma_filter_ascending(states.len(), pred);
    let all = indices(states.len());
    let kept = all.filter(pred);
    assert forall|k: usize| kept.contains(k) <==> pred(k) by {
        if kept.contains(k) {
            let at = choose|at: int| 0 <= at < kept.len() && kept[at] == k;
            all.lemma_filter_pred(pred, at);
        }
        if pred(k) {
            all.lemma_filter_contains(pred, k as int);
        }
    }
}

/// Filtering the ascending indices keeps them ascending and below `len`.
proof fn lemma_filter_ascending(len: nat, pred: spec_fn(usize) -> bool)
    requires
        len <= usize::MAX + 1,
    ensures
        forall|a: int, b: int|
            0 <= a < b < indices(len).filter(pred).len() ==> indices(len).filter(pred)[a] < indices(
                len,
            ).filter(pred)[b],
        forall|a: int|
            0 <= a < indices(len).filter(pred).len() ==> (#[trigger] indices(len).filter(pred)[a])
                < len,
    decreases len,
{
    let all = indices(len);
    let kept = all.filter(pred);
    if len == 0 {
        assert(kept.len() == 0) by {
            reveal(Seq::filter);
        }
    } else {
        let shorter = (len - 1) as nat;
        let before = indices(shorter).filter(pred);
        assert(all.drop_last() =~= indices(shorter));
        assert(kept == if pred(all.last()) {
            before.push(all.last())
        } else {
            before
        }) by {
            reveal(Seq::filter);
        }
        lemma_filter_ascending(shorter, pred);
    }
}

} // verus!
