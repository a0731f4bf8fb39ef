use torrent_merge::address::{
    covering_range, file_block_to_pieces, get_file_offset, get_missing_pieces, piece_to_file_block,
};
use torrent_merge::block::FileBlock;
use torrent_merge::error::RepairError;
use torrent_merge::piece::{Piece, TorrentPiece, VirtualPiece};
use torrent_merge::torrent::{FileEntry, PieceState, Torrent, TorrentProperty};

fn job(files: &[(&str, u64)], piece_size: u64, states: Vec<PieceState>) -> Torrent {
    let content: Vec<FileEntry> = files
        .iter()
        .map(|(name, size)| FileEntry { name: name.to_string(), size: *size })
        .collect();
    let hashes = vec![[0u8; 20]; states.len()];
    let properties = TorrentProperty {
        save_path: Some("/data".to_string()),
        piece_size,
        pieces_have: 0,
        pieces_num: states.len() as i64,
    };
    Torrent::new("job".to_string(), properties, content, states, hashes, Some("/tmp".to_string()))
        .expect("a consistent job")
}

fn index(idx: usize, piece_size: u64) -> Piece {
    Piece::TorrentPiece(TorrentPiece { idx, piece_size })
}

#[test]
fn piece_in_single_file() {
    let b = job(&[("a.bin", 65536)], 16384, vec![PieceState::Downloaded; 4]);
    assert_eq!(
        piece_to_file_block(&b, &index(2, 16384)),
        Ok(("a.bin".to_string(), FileBlock { offset: 32768, size: 16384 }))
    );
}

#[test]
fn block_to_larger_source_pieces() {
    let a = job(&[("a.bin", 65536)], 32768, vec![PieceState::Downloaded; 2]);
    let block = FileBlock { offset: 32768, size: 16384 };
    assert_eq!(
        file_block_to_pieces(&a, "a.bin", &block),
        Ok(vec![TorrentPiece { idx: 1, piece_size: 32768 }])
    );
}

#[test]
fn piece_in_later_file() {
    let t = job(&[("x", 10), ("empty", 0), ("y", 30)], 8, vec![PieceState::Downloaded; 5]);
    assert_eq!(
        piece_to_file_block(&t, &index(0, 8)),
        Ok(("x".to_string(), FileBlock { offset: 0, size: 8 }))
    );
    assert_eq!(
        piece_to_file_block(&t, &index(1, 8)),
        Ok(("x".to_string(), FileBlock { offset: 8, size: 8 }))
    );
    assert_eq!(
        piece_to_file_block(&t, &index(2, 8)),
        Ok(("y".to_string(), FileBlock { offset: 6, size: 8 }))
    );
    assert_eq!(
        piece_to_file_block(&t, &index(4, 8)),
        Ok(("y".to_string(), FileBlock { offset: 22, size: 8 }))
    );
}

#[test]
fn piece_past_the_end_is_out_of_range() {
    let t = job(&[("x", 10), ("y", 30)], 8, vec![PieceState::Downloaded; 5]);
    assert_eq!(piece_to_file_block(&t, &index(5, 8)), Err(RepairError::AddressOutOfRange));
    assert_eq!(
        piece_to_file_block(&t, &index(usize::MAX, u64::MAX)),
        Err(RepairError::AddressOutOfRange)
    );
    let none = job(&[], 8, vec![]);
    assert_eq!(piece_to_file_block(&none, &index(0, 8)), Err(RepairError::AddressOutOfRange));
}

#[test]
fn virtual_piece_resolves_like_a_real_one() {
    let t = job(&[("x", 10), ("y", 30)], 8, vec![PieceState::Downloaded; 5]);
    let by_offset = Piece::VirtualPiece(VirtualPiece { offset: 16, piece_size: 24 });
    assert_eq!(
        piece_to_file_block(&t, &by_offset),
        Ok(("y".to_string(), FileBlock { offset: 6, size: 24 }))
    );
    assert_eq!(
        piece_to_file_block(&t, &index(2, 8)),
        piece_to_file_block(&t, &Piece::VirtualPiece(VirtualPiece { offset: 16, piece_size: 8 }))
    );
    let at_end = Piece::VirtualPiece(VirtualPiece { offset: 40, piece_size: 1 });
    assert_eq!(piece_to_file_block(&t, &at_end), Err(RepairError::AddressOutOfRange));
}

#[test]
fn block_needs_zero_one_or_several_pieces() {
    let t = job(&[("x", 10), ("y", 30)], 8, vec![PieceState::Downloaded; 5]);
    assert_eq!(file_block_to_pieces(&t, "y", &FileBlock { offset: 6, size: 0 }), Ok(vec![]));
    assert_eq!(
        file_block_to_pieces(&t, "y", &FileBlock { offset: 6, size: 8 }),
        Ok(vec![TorrentPiece { idx: 2, piece_size: 8 }])
    );
    assert_eq!(
        file_block_to_pieces(&t, "y", &FileBlock { offset: 0, size: 8 }),
        Ok(vec![TorrentPiece { idx: 1, piece_size: 8 }, TorrentPiece { idx: 2, piece_size: 8 }])
    );
    assert_eq!(
        file_block_to_pieces(&t, "x", &FileBlock { offset: 7, size: 18 }),
        Ok(vec![
            TorrentPiece { idx: 0, piece_size: 8 },
            TorrentPiece { idx: 1, piece_size: 8 },
            TorrentPiece { idx: 2, piece_size: 8 },
            TorrentPiece { idx: 3, piece_size: 8 },
        ])
    );
}

#[test]
fn block_errors() {
    let t = job(&[("x", 10), ("y", 30)], 8, vec![PieceState::Downloaded; 5]);
    let block = FileBlock { offset: 0, size: 8 };
    assert_eq!(file_block_to_pieces(&t, "z", &block), Err(RepairError::FileNotFound));
    assert_eq!(
        file_block_to_pieces(&t, "x", &FileBlock { offset: 11, size: 8 }),
        Err(RepairError::OffsetBeyondFile)
    );
    // A block may start exactly at the end of its file.
    assert_eq!(
        file_block_to_pieces(&t, "x", &FileBlock { offset: 10, size: 1 }),
        Ok(vec![TorrentPiece { idx: 1, piece_size: 8 }])
    );
}

#[test]
fn a_name_stands_for_its_first_file() {
    let t = job(&[("x", 8), ("x", 8)], 8, vec![PieceState::Downloaded; 2]);
    assert_eq!(get_file_offset(t.content(), "x"), Ok(0));
    assert_eq!(
        file_block_to_pieces(&t, "x", &FileBlock { offset: 0, size: 8 }),
        Ok(vec![TorrentPiece { idx: 0, piece_size: 8 }])
    );
}

#[test]
fn round_trip_includes_the_piece() {
    let t = job(&[("x", 10), ("empty", 0), ("y", 30), ("z", 3)], 8, vec![PieceState::Downloaded; 6]);
    for idx in 0..6 {
        let piece = TorrentPiece { idx, piece_size: 8 };
        let (name, block) = piece_to_file_block(&t, &Piece::TorrentPiece(piece)).unwrap();
        let pieces = file_block_to_pieces(&t, &name, &block).unwrap();
        assert_eq!(pieces, vec![piece]);
    }
}

#[test]
fn file_offsets() {
    let t = job(&[("x", 10), ("empty", 0), ("y", 30)], 8, vec![PieceState::Downloaded; 5]);
    assert_eq!(get_file_offset(t.content(), "x"), Ok(0));
    assert_eq!(get_file_offset(t.content(), "empty"), Ok(10));
    assert_eq!(get_file_offset(t.content(), "y"), Ok(10));
    assert_eq!(get_file_offset(t.content(), "nope"), Err(RepairError::FileNotFound));
    assert_eq!(get_file_offset(&[], "x"), Err(RepairError::FileNotFound));
}

#[test]
fn missing_pieces_of_a_file() {
    let (d, n) = (PieceState::Downloaded, PieceState::NotDownloaded);
    // x holds positions 0..10, y holds 10..40; pieces of 8 bytes.
    let t = job(&[("x", 10), ("y", 30)], 8, vec![n, d, n, n, d]);
    // x: from piece 0, one whole piece length further: pieces 0 and 1.
    assert_eq!(get_missing_pieces(&t, "x"), Ok(vec![0]));
    // y: from piece 1, three whole piece lengths further: pieces 1 to 4.
    assert_eq!(get_missing_pieces(&t, "y"), Ok(vec![2, 3]));
    assert_eq!(get_missing_pieces(&t, "z"), Err(RepairError::FileNotFound));
    let done = job(&[("x", 10), ("y", 30)], 8, vec![d; 5]);
    assert_eq!(get_missing_pieces(&done, "y"), Ok(vec![]));
}

#[test]
fn missing_pieces_stop_at_the_recorded_states() {
    let n = PieceState::NotDownloaded;
    // One file of exactly two pieces: piece 0 and two piece lengths further
    // would reach piece 2, which the job does not have.
    let t = job(&[("x", 16)], 8, vec![n, n]);
    assert_eq!(get_missing_pieces(&t, "x"), Ok(vec![0, 1]));
}

#[test]
fn covering_range_by_floor_and_ceiling() {
    let t = job(&[("x", 10), ("y", 30)], 8, vec![PieceState::Downloaded; 5]);
    assert_eq!(covering_range(&t, "x", &FileBlock { offset: 0, size: 8 }), Ok((0, 1)));
    assert_eq!(covering_range(&t, "x", &FileBlock { offset: 0, size: 9 }), Ok((0, 2)));
    assert_eq!(covering_range(&t, "x", &FileBlock { offset: 7, size: 1 }), Ok((0, 1)));
    assert_eq!(covering_range(&t, "x", &FileBlock { offset: 7, size: 2 }), Ok((0, 2)));
    assert_eq!(covering_range(&t, "y", &FileBlock { offset: 6, size: 0 }), Ok((2, 2)));
    assert_eq!(covering_range(&t, "y", &FileBlock { offset: 5, size: 0 }), Ok((1, 2)));
    assert_eq!(covering_range(&t, "y", &FileBlock { offset: 30, size: 100 }), Ok((5, 18)));
    assert_eq!(
        covering_range(&t, "y", &FileBlock { offset: 31, size: 1 }),
        Err(RepairError::OffsetBeyondFile)
    );
    assert_eq!(
        covering_range(&t, "z", &FileBlock { offset: 0, size: 1 }),
        Err(RepairError::FileNotFound)
    );
}

#[test]
fn covering_range_of_a_block_that_reaches_past_64_bits() {
    let t = job(&[("x", 10), ("y", 30)], 8, vec![PieceState::Downloaded; 5]);
    let block = FileBlock { offset: 30, size: u64::MAX };
    assert_eq!(covering_range(&t, "y", &block), Ok((5, ((1u128 << 64) + 39 + 7) / 8)));
}
