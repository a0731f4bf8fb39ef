use sha1::{Digest, Sha1};
use std::collections::HashMap;
use torrent_merge::block::FileBlock;
use torrent_merge::engine::{Action, Event, Repair, RepairReport};
use torrent_merge::equivalence::find_same_size_files;
use torrent_merge::error::RepairError;
use torrent_merge::repair::{plan_piece, verify_read, Transfer};
use torrent_merge::torrent::{FileEntry, PieceState, Torrent, TorrentProperty};

const KIB: u64 = 1024;

fn bytes(len: usize, seed: u8) -> Vec<u8> {
    (0..len).map(|i| ((i * 31 + i / 7) as u8).wrapping_add(seed)).collect()
}

fn sha1(data: &[u8]) -> [u8; 20] {
    Sha1::digest(data).into()
}

/// A job whose digests are those of `data`, the concatenation of its files.
fn job(
    name: &str,
    files: &[(&str, u64)],
    piece_size: u64,
    states: Vec<PieceState>,
    data: &[u8],
) -> Torrent {
    let content: Vec<FileEntry> = files
        .iter()
        .map(|(name, size)| FileEntry { name: name.to_string(), size: *size })
        .collect();
    let hashes: Vec<[u8; 20]> = data.chunks(piece_size as usize).map(sha1).collect();
    assert_eq!(hashes.len(), states.len());
    let have = states.iter().filter(|s| **s == PieceState::Downloaded).count() as i64;
    let properties = TorrentProperty {
        save_path: Some(format!("/complete/{}", name)),
        piece_size,
        pieces_have: have,
        pieces_num: states.len() as i64,
    };
    Torrent::new(name.to_string(), properties, content, states, hashes, Some("/staging".to_string()))
        .expect("a consistent job")
}

struct Disk {
    files: HashMap<String, Vec<u8>>,
    refuse_writes: bool,
}

fn read(disk: &Disk, path: &str, block: FileBlock) -> Event {
    let Some(file) = disk.files.get(path) else {
        return Event::Failed;
    };
    let start = block.offset as usize;
    let end = start + block.size as usize;
    if end > file.len() {
        return Event::Failed;
    }
    Event::ReadDone(file[start..end].to_vec())
}

fn write(disk: &mut Disk, path: &str, offset: u64, data: &[u8]) -> Event {
    if disk.refuse_writes {
        return Event::Failed;
    }
    let Some(file) = disk.files.get_mut(path) else {
        return Event::Failed;
    };
    let start = offset as usize;
    file[start..start + data.len()].copy_from_slice(data);
    Event::WriteDone
}

/// Runs the machine against `disk` and returns its report and its actions
/// from the pause of the destination job on.
fn drive(run: Repair, disk: &mut Disk) -> (RepairReport, Vec<Action>) {
    let (mut run, first) = run.step(Event::Resume);
    assert_eq!(first, Action::Pause { hash: "b".to_string() });
    let mut event = Event::Paused;
    let mut log = Vec::new();
    for _ in 0..10_000 {
        let (next, action) = run.step(event);
        run = next;
        log.push(action.clone());
        event = match action {
            Action::Continue => Event::Resume,
            Action::Pause { .. } => panic!("paused twice"),
            Action::Read { path, block } => read(disk, &path, block),
            Action::Write { path, offset, data } => write(disk, &path, offset, &data),
            Action::Finish { report, recheck } => {
                assert!(run.is_finished());
                assert_eq!(run.report(), report);
                assert_eq!(recheck, "b");
                return (report, log);
            }
        };
    }
    panic!("the run did not finish");
}

fn finish(report: RepairReport) -> Action {
    Action::Finish { report, recheck: "b".to_string() }
}

fn writes(log: &[Action]) -> usize {
    log.iter().filter(|a| matches!(a, Action::Write { .. })).count()
}

fn reads(log: &[Action]) -> usize {
    log.iter().filter(|a| matches!(a, Action::Read { .. })).count()
}

fn downloaded(n: usize) -> Vec<PieceState> {
    vec![PieceState::Downloaded; n]
}

fn all_but(n: usize, missing: &[usize]) -> Vec<PieceState> {
    let mut states = downloaded(n);
    for idx in missing {
        states[*idx] = PieceState::NotDownloaded;
    }
    states
}

/// Source of two pieces of 32 KiB, destination of four pieces of 16 KiB, one
/// file of 64 KiB in both.
fn two_jobs(src_data: &[u8], dst_data: &[u8], missing: &[usize]) -> (Torrent, Torrent) {
    let src = job("a", &[("a.bin", 64 * KIB)], 32 * KIB, downloaded(2), src_data);
    let dst = job("b", &[("a.bin", 64 * KIB)], 16 * KIB, all_but(4, missing), dst_data);
    (src, dst)
}

fn disk_of(src_data: &[u8], dst_on_disk: &[u8]) -> Disk {
    let mut files = HashMap::new();
    files.insert("/complete/a/a.bin".to_string(), src_data.to_vec());
    files.insert("/staging/a.bin".to_string(), dst_on_disk.to_vec());
    Disk { files, refuse_writes: false }
}

fn with_hole(data: &[u8], piece: usize, piece_size: usize) -> Vec<u8> {
    let mut holed = data.to_vec();
    for b in &mut holed[piece * piece_size..(piece + 1) * piece_size] {
        *b = 0;
    }
    holed
}

#[test]
fn a_missing_piece_is_restored_from_a_larger_source_piece() {
    let data = bytes(65536, 1);
    let (src, dst) = two_jobs(&data, &data, &[2]);
    let mut disk = disk_of(&data, &with_hole(&data, 2, 16384));
    let run = Repair::new(src, dst).unwrap();
    let (report, log) = drive(run, &mut disk);
    assert_eq!(
        log,
        vec![
            Action::Continue,
            Action::Read {
                path: "/complete/a/a.bin".to_string(),
                block: FileBlock { offset: 32768, size: 32768 },
            },
            Action::Write {
                path: "/staging/a.bin".to_string(),
                offset: 32768,
                data: data[32768..49152].to_vec(),
            },
            Action::Continue,
            finish(report),
        ]
    );
    assert_eq!(report, RepairReport { restored: 1, ..RepairReport::new() });
    assert_eq!(disk.files["/staging/a.bin"], data);
}

#[test]
fn the_plan_of_the_missing_piece() {
    let data = bytes(65536, 1);
    let (src, dst) = two_jobs(&data, &data, &[2]);
    let pairs = find_same_size_files(&src, &dst);
    assert_eq!(
        plan_piece(&src, &dst, &pairs, 2),
        Ok(Transfer {
            piece: 2,
            src_file: "a.bin".to_string(),
            window: FileBlock { offset: 32768, size: 32768 },
            dst_file: "a.bin".to_string(),
            block: FileBlock { offset: 32768, size: 16384 },
            expected: sha1(&data[32768..49152]),
        })
    );
    assert_eq!(plan_piece(&src, &dst, &pairs, 4), Err(RepairError::AddressOutOfRange));
    assert_eq!(plan_piece(&src, &dst, &[], 2), Err(RepairError::NoEquivalentFile));
}

#[test]
fn no_write_without_match() {
    let data = bytes(65536, 1);
    let mut other = data.clone();
    other[40000] ^= 0x80;
    let (src, dst) = two_jobs(&other, &data, &[2]);
    let before = with_hole(&data, 2, 16384);
    let mut disk = disk_of(&other, &before);
    let (report, log) = drive(Repair::new(src, dst).unwrap(), &mut disk);
    assert_eq!(reads(&log), 1);
    assert_eq!(writes(&log), 0);
    assert_eq!(report, RepairReport { digest_mismatch: 1, ..RepairReport::new() });
    assert_eq!(disk.files["/staging/a.bin"], before);
}

#[test]
fn only_the_matching_pieces_are_written() {
    let data = bytes(65536, 3);
    let mut other = data.clone();
    other[5] ^= 1;
    let (src, dst) = two_jobs(&other, &data, &[0, 1, 3]);
    let mut before = data.clone();
    for piece in [0, 1, 3] {
        before = with_hole(&before, piece, 16384);
    }
    let mut disk = disk_of(&other, &before);
    let (report, log) = drive(Repair::new(src, dst).unwrap(), &mut disk);
    assert_eq!(report, RepairReport { restored: 2, digest_mismatch: 1, ..RepairReport::new() });
    assert_eq!(writes(&log), 2);
    let mut after = data.clone();
    after = with_hole(&after, 0, 16384);
    assert_eq!(disk.files["/staging/a.bin"], after);
}

#[test]
fn a_second_run_restores_nothing_more() {
    let data = bytes(65536, 1);
    let (src, dst) = two_jobs(&data, &data, &[1, 2]);
    let mut disk = disk_of(&data, &with_hole(&with_hole(&data, 1, 16384), 2, 16384));
    let (first, _) = drive(Repair::new(src, dst).unwrap(), &mut disk);
    assert_eq!(first.restored, 2);
    assert_eq!(disk.files["/staging/a.bin"], data);
    // The session has checked the job again: the restored pieces are downloaded.
    let (src, dst) = two_jobs(&data, &data, &[]);
    let (second, log) = drive(Repair::new(src, dst).unwrap(), &mut disk);
    assert_eq!(second, RepairReport::new());
    assert_eq!(log, vec![Action::Continue, finish(RepairReport::new())]);
    assert_eq!(disk.files["/staging/a.bin"], data);
}

#[test]
fn a_second_run_on_the_same_snapshots_writes_the_same_bytes() {
    let data = bytes(65536, 1);
    let mut disk = disk_of(&data, &with_hole(&data, 2, 16384));
    let (src, dst) = two_jobs(&data, &data, &[2]);
    let (first, first_log) = drive(Repair::new(src, dst).unwrap(), &mut disk);
    let after_first = disk.files["/staging/a.bin"].clone();
    let (src, dst) = two_jobs(&data, &data, &[2]);
    let (second, second_log) = drive(Repair::new(src, dst).unwrap(), &mut disk);
    assert_eq!(first, second);
    assert_eq!(first_log, second_log);
    assert_eq!(disk.files["/staging/a.bin"], after_first);
}

#[test]
fn nothing_shared_nothing_attempted() {
    let a = bytes(64, 1);
    let b = bytes(48, 2);
    let src = job("a", &[("x", 40), ("y", 24)], 16, downloaded(4), &a);
    let dst = job("b", &[("x", 41), ("z", 7)], 16, all_but(3, &[0, 1, 2]), &b);
    assert_eq!(find_same_size_files(&src, &dst), Vec::new());
    let mut disk = Disk { files: HashMap::new(), refuse_writes: false };
    let (report, log) = drive(Repair::new(src, dst).unwrap(), &mut disk);
    assert_eq!(report, RepairReport::new());
    assert_eq!(report.restored, 0);
    assert_eq!(report.source_unavailable, 0);
    assert_eq!(log, vec![Action::Continue, finish(RepairReport::new())]);
}

#[test]
fn an_unavailable_source_piece_is_counted_and_not_read() {
    let data = bytes(65536, 1);
    let src = job("a", &[("a.bin", 64 * KIB)], 32 * KIB, all_but(2, &[1]), &data);
    let dst = job("b", &[("a.bin", 64 * KIB)], 16 * KIB, all_but(4, &[0, 2, 3]), &data);
    // Both jobs are incomplete, so both lie under the staging root, and the
    // file of the one is the file of the other.
    let mut files = HashMap::new();
    files.insert("/staging/a.bin".to_string(), data.clone());
    let mut disk = Disk { files, refuse_writes: false };
    let (report, log) = drive(Repair::new(src, dst).unwrap(), &mut disk);
    assert_eq!(
        report,
        RepairReport { restored: 1, source_unavailable: 2, ..RepairReport::new() }
    );
    assert_eq!(reads(&log), 1);
}

#[test]
fn a_window_that_starts_in_another_file_is_outside_the_block() {
    // Source: 8 bytes of padding, then the shared file. Destination: the
    // shared file alone. Pieces of 16 bytes in both.
    let shared = bytes(64, 5);
    let mut src_data = bytes(8, 9);
    src_data.extend_from_slice(&shared);
    let src = job("a", &[("pad", 8), ("f", 64)], 16, downloaded(5), &src_data);
    let dst = job("b", &[("f", 64)], 16, all_but(4, &[0, 1]), &shared);
    let mut files = HashMap::new();
    files.insert("/complete/a/f".to_string(), shared.clone());
    files.insert("/complete/a/pad".to_string(), src_data[..8].to_vec());
    files.insert("/staging/f".to_string(), with_hole(&with_hole(&shared, 0, 16), 1, 16));
    let mut disk = Disk { files, refuse_writes: false };
    let (report, log) = drive(Repair::new(src, dst).unwrap(), &mut disk);
    assert_eq!(
        report,
        RepairReport { restored: 1, containment_violation: 1, ..RepairReport::new() }
    );
    assert_eq!(log[1], Action::Continue);
    assert_eq!(
        log[2],
        Action::Read { path: "/complete/a/f".to_string(), block: FileBlock { offset: 8, size: 32 } }
    );
    assert_eq!(
        log[3],
        Action::Write { path: "/staging/f".to_string(), offset: 16, data: shared[16..32].to_vec() }
    );
    assert_eq!(disk.files["/staging/f"], with_hole(&shared, 0, 16));
}

#[test]
fn a_failed_read_is_counted_and_the_run_goes_on() {
    let data = bytes(65536, 1);
    let (src, dst) = two_jobs(&data, &data, &[0, 2]);
    let before = with_hole(&with_hole(&data, 0, 16384), 2, 16384);
    let mut files = HashMap::new();
    files.insert("/staging/a.bin".to_string(), before.clone());
    let mut disk = Disk { files, refuse_writes: false };
    let (report, log) = drive(Repair::new(src, dst).unwrap(), &mut disk);
    assert_eq!(report, RepairReport { io_failure: 2, ..RepairReport::new() });
    assert_eq!(reads(&log), 2);
    assert_eq!(writes(&log), 0);
    assert_eq!(disk.files["/staging/a.bin"], before);
}

#[test]
fn a_failed_write_is_not_a_restored_piece() {
    let data = bytes(65536, 1);
    let (src, dst) = two_jobs(&data, &data, &[2]);
    let before = with_hole(&data, 2, 16384);
    let mut disk = disk_of(&data, &before);
    disk.refuse_writes = true;
    let (report, log) = drive(Repair::new(src, dst).unwrap(), &mut disk);
    assert_eq!(report, RepairReport { io_failure: 1, ..RepairReport::new() });
    assert_eq!(writes(&log), 1);
    assert_eq!(disk.files["/staging/a.bin"], before);
}

#[test]
fn an_answer_that_does_not_fit_the_action_is_a_failure() {
    let data = bytes(65536, 1);
    let (src, dst) = two_jobs(&data, &data, &[2, 3]);
    let run = Repair::new(src, dst).unwrap();
    let (run, _) = run.step(Event::Paused);
    let (run, action) = run.step(Event::Resume);
    assert!(matches!(action, Action::Read { .. }));
    // The read is answered as if it had been a write.
    let (run, action) = run.step(Event::WriteDone);
    assert_eq!(action, Action::Continue);
    assert_eq!(run.report(), RepairReport { io_failure: 1, ..RepairReport::new() });
    let (run, action) = run.step(Event::Resume);
    assert!(matches!(action, Action::Read { .. }));
    let (run, action) = run.step(Event::ReadDone(data[32768..].to_vec()));
    assert!(matches!(action, Action::Write { .. }));
    // The write is answered with bytes.
    let (run, action) = run.step(Event::ReadDone(Vec::new()));
    assert_eq!(action, Action::Continue);
    assert_eq!(run.report(), RepairReport { io_failure: 2, ..RepairReport::new() });
    let (run, action) = run.step(Event::Resume);
    assert_eq!(action, finish(run.report()));
    let (run, action) = run.step(Event::Failed);
    assert_eq!(action, finish(run.report()));
    assert!(run.is_finished());
}

#[test]
fn nothing_is_asked_before_the_destination_is_paused() {
    let data = bytes(65536, 1);
    let (src, dst) = two_jobs(&data, &data, &[2]);
    let mut run = Repair::new(src, dst).unwrap();
    let pause = Action::Pause { hash: "b".to_string() };
    for event in [Event::Resume, Event::Failed, Event::WriteDone, Event::ReadDone(vec![1, 2, 3])] {
        let (next, action) = run.step(event);
        assert_eq!(action, pause);
        assert_eq!(next.report(), RepairReport::new());
        assert!(!next.is_finished());
        run = next;
    }
    let (run, action) = run.step(Event::Paused);
    assert_eq!(action, Action::Continue);
    let (_, action) = run.step(Event::Resume);
    assert!(matches!(action, Action::Read { .. }));
}

#[test]
fn a_shorter_last_piece_is_restored_with_its_own_length() {
    // 60 bytes in pieces of 16: the last piece holds 12 bytes. The source has
    // the same file in pieces of 20.
    let data = bytes(60, 6);
    let src = job("a", &[("f", 60)], 20, downloaded(3), &data);
    let dst = job("b", &[("f", 60)], 16, all_but(4, &[3]), &data);
    let pairs = find_same_size_files(&src, &dst);
    assert_eq!(
        plan_piece(&src, &dst, &pairs, 3),
        Ok(Transfer {
            piece: 3,
            src_file: "f".to_string(),
            window: FileBlock { offset: 40, size: 20 },
            dst_file: "f".to_string(),
            block: FileBlock { offset: 48, size: 12 },
            expected: sha1(&data[48..60]),
        })
    );
    let mut files = HashMap::new();
    files.insert("/complete/a/f".to_string(), data.clone());
    let mut holed = data.clone();
    for b in &mut holed[48..] {
        *b = 0;
    }
    files.insert("/staging/f".to_string(), holed);
    let mut disk = Disk { files, refuse_writes: false };
    let (report, _) = drive(Repair::new(src, dst).unwrap(), &mut disk);
    assert_eq!(report, RepairReport { restored: 1, ..RepairReport::new() });
    assert_eq!(disk.files["/staging/f"], data);
}

#[test]
fn a_window_past_the_end_of_the_source_file_fails_to_read() {
    // The source's last piece is shorter than its piece size, so the window
    // of full pieces reaches past the end of the file.
    let data = bytes(60, 6);
    let src = job("a", &[("f", 60)], 32, downloaded(2), &data);
    let dst = job("b", &[("f", 60)], 16, all_but(4, &[2]), &data);
    let mut files = HashMap::new();
    files.insert("/complete/a/f".to_string(), data.clone());
    let before = with_hole(&data, 2, 16);
    files.insert("/staging/f".to_string(), before.clone());
    let mut disk = Disk { files, refuse_writes: false };
    let (report, log) = drive(Repair::new(src, dst).unwrap(), &mut disk);
    assert_eq!(
        log[1],
        Action::Read { path: "/complete/a/f".to_string(), block: FileBlock { offset: 32, size: 32 } }
    );
    assert_eq!(report, RepairReport { io_failure: 1, ..RepairReport::new() });
    assert_eq!(disk.files["/staging/f"], before);
}

#[test]
fn a_job_without_storage_root_stops_the_run() {
    let data = bytes(64, 1);
    let src = job("a", &[("f", 64)], 16, downloaded(4), &data);
    let dst = Torrent::new(
        "b".to_string(),
        TorrentProperty {
            save_path: Some("/complete/b".to_string()),
            piece_size: 16,
            pieces_have: 3,
            pieces_num: 4,
        },
        vec![FileEntry { name: "f".to_string(), size: 64 }],
        all_but(4, &[1]),
        data.chunks(16).map(sha1).collect(),
        None,
    )
    .unwrap();
    assert!(matches!(Repair::new(src, dst), Err(RepairError::IOFailure)));
}

fn transfer(window: FileBlock, block: FileBlock, expected: [u8; 20]) -> Transfer {
    Transfer {
        piece: 0,
        src_file: "s".to_string(),
        window,
        dst_file: "d".to_string(),
        block,
        expected,
    }
}

#[test]
fn the_part_of_the_window_that_is_for_the_block() {
    let data = bytes(32, 4);
    let window = FileBlock { offset: 8, size: 32 };
    let block = FileBlock { offset: 16, size: 16 };
    let t = transfer(window, block, sha1(&data[8..24]));
    assert_eq!(verify_read(&t, &data), Ok(data[8..24].to_vec()));
    let whole = transfer(window, window, sha1(&data));
    assert_eq!(verify_read(&whole, &data), Ok(data.clone()));
}

#[test]
fn bytes_with_another_digest_are_not_handed_out() {
    let data = bytes(32, 4);
    let window = FileBlock { offset: 8, size: 32 };
    let block = FileBlock { offset: 16, size: 16 };
    let t = transfer(window, block, sha1(&data[8..24]));
    let mut other = data.clone();
    other[8] ^= 1;
    assert_eq!(verify_read(&t, &other), Err(RepairError::DigestMismatch));
    other[8] ^= 1;
    other[7] ^= 1;
    assert_eq!(verify_read(&t, &other), Ok(data[8..24].to_vec()));
    let of_window = transfer(window, block, sha1(&data));
    assert_eq!(verify_read(&of_window, &data), Err(RepairError::DigestMismatch));
}

#[test]
fn a_read_of_the_wrong_length_is_a_failure() {
    let data = bytes(32, 4);
    let window = FileBlock { offset: 8, size: 32 };
    let block = FileBlock { offset: 16, size: 16 };
    let t = transfer(window, block, sha1(&data[8..24]));
    assert_eq!(verify_read(&t, &data[..31]), Err(RepairError::IOFailure));
    assert_eq!(verify_read(&t, &[]), Err(RepairError::IOFailure));
    let mut longer = data.clone();
    longer.push(0);
    assert_eq!(verify_read(&t, &longer), Err(RepairError::IOFailure));
}

#[test]
fn a_window_that_does_not_cover_the_block_is_refused() {
    let data = bytes(32, 4);
    let window = FileBlock { offset: 8, size: 32 };
    let before = transfer(window, FileBlock { offset: 7, size: 16 }, sha1(&data[..16]));
    assert_eq!(verify_read(&before, &data), Err(RepairError::ContainmentViolation));
    let beyond = transfer(window, FileBlock { offset: 30, size: 16 }, sha1(&data[..16]));
    assert_eq!(verify_read(&beyond, &data), Err(RepairError::ContainmentViolation));
}

#[test]
fn counts_add_up() {
    let mut report = RepairReport::new();
    assert_eq!(report.restored, 0);
    report = report.restore().restore();
    report = report.skip(RepairError::SourceUnavailable);
    report = report.skip(RepairError::ContainmentViolation);
    report = report.skip(RepairError::ContainmentViolation);
    report = report.skip(RepairError::AddressOutOfRange);
    report = report.skip(RepairError::FileNotFound);
    report = report.skip(RepairError::OffsetBeyondFile);
    report = report.skip(RepairError::NoEquivalentFile);
    report = report.skip(RepairError::DigestMismatch);
    report = report.skip(RepairError::IOFailure);
    assert_eq!(
        report,
        RepairReport {
            restored: 2,
            address_out_of_range: 1,
            file_not_found: 1,
            offset_beyond_file: 1,
            no_equivalent_file: 1,
            source_unavailable: 1,
            containment_violation: 2,
            digest_mismatch: 1,
            io_failure: 1,
        }
    );
}

#[test]
fn plans_that_pass_a_piece_over() {
    let data = bytes(64, 2);
    // The source lacks its second piece.
    let src = job("a", &[("f", 64)], 32, all_but(2, &[1]), &data);
    let dst = job("b", &[("f", 64)], 16, all_but(4, &[0, 3]), &data);
    let pairs = find_same_size_files(&src, &dst);
    assert!(plan_piece(&src, &dst, &pairs, 0).is_ok());
    assert_eq!(plan_piece(&src, &dst, &pairs, 3), Err(RepairError::SourceUnavailable));
    // The counterpart is looked up among the pairs alone.
    let renamed = vec![(vec!["f".to_string()], vec!["g".to_string()])];
    assert_eq!(plan_piece(&src, &dst, &renamed, 0), Err(RepairError::FileNotFound));
    let shorter = job("c", &[("g", 8), ("f", 64)], 8, downloaded(9), &bytes(72, 3));
    let named_g = vec![(vec!["g".to_string()], vec!["f".to_string()])];
    assert_eq!(plan_piece(&shorter, &dst, &named_g, 1), Err(RepairError::OffsetBeyondFile));
}

#[test]
fn a_block_past_the_recorded_source_pieces_is_unavailable() {
    // The counterpart by name is shorter than the block's file: the block
    // reaches past the source job's last piece.
    let src = job("a", &[("f", 20)], 8, downloaded(3), &bytes(20, 1));
    let dst = job("b", &[("f", 64)], 16, all_but(4, &[1, 2]), &bytes(64, 2));
    let pairs = vec![(vec!["f".to_string()], vec!["f".to_string()])];
    assert_eq!(plan_piece(&src, &dst, &pairs, 1), Err(RepairError::SourceUnavailable));
    assert_eq!(plan_piece(&src, &dst, &pairs, 2), Err(RepairError::OffsetBeyondFile));
}

#[test]
fn the_caller_may_choose_which_file_stands_for_a_size() {
    // Two files of one size in each job, listed in opposite orders.
    let x = bytes(16, 10);
    let y = bytes(16, 20);
    let src_data = [x.clone(), y.clone()].concat();
    let dst_data = [y.clone(), x.clone()].concat();
    let make_src = || job("a", &[("x", 16), ("y", 16)], 16, downloaded(2), &src_data);
    let make_dst = || job("b", &[("q", 16), ("p", 16)], 16, all_but(2, &[0]), &dst_data);
    let disk = || {
        let mut files = HashMap::new();
        files.insert("/complete/a/x".to_string(), x.clone());
        files.insert("/complete/a/y".to_string(), y.clone());
        files.insert("/staging/q".to_string(), vec![0u8; 16]);
        files.insert("/staging/p".to_string(), x.clone());
        Disk { files, refuse_writes: false }
    };
    // By size alone the first names stand for their lists: q is taken for x.
    let mut by_size = disk();
    let (report, _) = drive(Repair::new(make_src(), make_dst()).unwrap(), &mut by_size);
    assert_eq!(report, RepairReport { digest_mismatch: 1, ..RepairReport::new() });
    assert_eq!(by_size.files["/staging/q"], vec![0u8; 16]);
    // The caller knows better.
    let chosen = vec![
        (vec!["y".to_string()], vec!["q".to_string()]),
        (vec!["x".to_string()], vec!["p".to_string()]),
    ];
    let mut by_choice = disk();
    let run = Repair::with_pairs(make_src(), make_dst(), chosen).unwrap();
    let (report, _) = drive(run, &mut by_choice);
    assert_eq!(report, RepairReport { restored: 1, ..RepairReport::new() });
    assert_eq!(by_choice.files["/staging/q"], y);
}

#[test]
fn a_pair_without_a_name_on_one_side_is_refused() {
    let data = bytes(65536, 1);
    let (src, dst) = two_jobs(&data, &data, &[2]);
    let lopsided = vec![(vec!["a.bin".to_string()], Vec::new())];
    assert!(matches!(Repair::with_pairs(src, dst, lopsided), Err(RepairError::NoEquivalentFile)));
    let (src, dst) = two_jobs(&data, &data, &[2]);
    assert!(Repair::with_pairs(src, dst, Vec::new()).is_ok());
}
