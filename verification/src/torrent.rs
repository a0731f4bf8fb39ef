//! A snapshot of one torrent job: its files, its pieces and where it is stored.

use crate::error::RepairError;
use crate::layout::{
    file_start, lemma_file_start_all, lemma_file_start_next, lemma_file_start_ordered,
    lemma_file_start_zero, total_size, FileModel,
};
use crate::piece::{Piece, TorrentPiece, VirtualPiece};
use vstd::prelude::*;
use vstd::string::StringExecFns;

verus! {

/// Whether the bytes of a piece are on disk and checked.
#[derive(Debug, Clone, Copy, PartialEq, Eq, Structural)]
pub enum PieceState {
    NotDownloaded,
    Downloaded,
}

/// One file of a job. The order of the entries is the order of concatenation.
#[derive(Debug, PartialEq, Eq)]
pub struct FileEntry {
    pub name: String,
    pub size: u64,
}

impl View for FileEntry {
    type V = FileModel;

    open spec fn view(&self) -> FileModel {
        FileModel { name: self.name@, size: self.size as nat }
    }
}

/// The properties of a job that the session reports beside its files and pieces.
#[derive(Debug, PartialEq, Eq)]
pub struct TorrentProperty {
    /// The root under which the files lie once the job has every piece.
    pub save_path: Option<String>,
    /// The length of every piece but possibly the last.
    pub piece_size: u64,
    /// How many pieces the job has on disk.
    pub pieces_have: i64,
    /// How many pieces the job has in all.
    pub pieces_num: i64,
}

/// The mathematical model of a job snapshot.
pub struct TorrentModel {
    pub hash: Seq<char>,
    pub files: Seq<FileModel>,
    pub piece_size: nat,
    pub states: Seq<PieceState>,
    pub digests: Seq<Seq<u8>>,
    pub pieces_have: int,
    pub pieces_num: int,
    pub save_path: Option<Seq<char>>,
    pub temp_path: Option<Seq<char>>,
}

impl TorrentModel {
    /// The number of pieces: one state and one digest each.
    pub open spec fn piece_count(self) -> nat {
        self.states.len()
    }

    /// The length of the concatenation of all files.
    pub open spec fn total(self) -> nat {
        total_size(self.files)
    }

    /// The pieces cover the files exactly: every piece but the last is full,
    /// and the last one holds at least one byte and at most `piece_size`.
    /// All byte positions up to the end of the last full-size window fit in
    /// 64 bits.
    pub open spec fn consistent(self) -> bool {
        &&& self.piece_size > 0
        &&& self.digests.len() == self.states.len()
        &&& self.piece_count() * self.piece_size <= u64::MAX
        &&& self.total() <= self.piece_count() * self.piece_size
        &&& self.piece_count() > 0 ==> (self.piece_count() - 1) * self.piece_size < self.total()
    }

    /// The length of piece `idx`: `piece_size`, but for the last piece what
    /// is left of the files.
    pub open spec fn piece_length(self, idx: int) -> int {
        if idx == self.piece_count() - 1 {
            self.total() - (self.piece_count() - 1) * self.piece_size
        } else {
            self.piece_size as int
        }
    }

    /// The window of piece `idx`: addressed by index, with the job's piece
    /// size; but a last piece that is shorter is addressed by its offset, with
    /// the length that is left.
    pub open spec fn piece_window(self, idx: usize) -> Piece {
        if self.piece_length(idx as int) == self.piece_size {
            Piece::TorrentPiece(TorrentPiece { idx, piece_size: self.piece_size as u64 })
        } else {
            Piece::VirtualPiece(
                VirtualPiece {
                    offset: (idx * self.piece_size) as u64,
                    piece_size: self.piece_length(idx as int) as u64,
                },
            )
        }
    }

    /// Piece `idx` is recorded and downloaded. An index past the recorded
    /// states is not downloaded.
    pub open spec fn downloaded(self, idx: int) -> bool {
        0 <= idx < self.states.len() && self.states[idx] == PieceState::Downloaded
    }

    /// The job once piece `idx` is recorded as downloaded.
    pub open spec fn with_downloaded(self, idx: int) -> TorrentModel {
        TorrentModel { states: self.states.update(idx, PieceState::Downloaded), ..self }
    }

    /// The job has every piece.
    pub open spec fn complete(self) -> bool {
        self.pieces_have == self.pieces_num
    }

    /// The root under which the job's files lie now: the permanent root once
    /// the job is complete, the staging root before.
    pub open spec fn root(self) -> Option<Seq<char>> {
        if self.complete() {
            self.save_path
        } else {
            self.temp_path
        }
    }
}

/// The files as the layout sees them.
pub open spec fn files_model(content: Seq<FileEntry>) -> Seq<FileModel> {
    content.map_values(|f: FileEntry| f@)
}

/// The digests as sequences of bytes.
pub open spec fn digests_model(hashes: Seq<[u8; 20]>) -> Seq<Seq<u8>> {
    hashes.map_values(|d: [u8; 20]| d@)
}

/// A root as a sequence of characters, if there is one.
pub open spec fn path_model<S: View<V = Seq<char>>>(path: Option<S>) -> Option<Seq<char>> {
    match path {
        Some(p) => Some(p@),
        None => None,
    }
}

/// The model of a snapshot made of these parts.
pub open spec fn model_of(
    hash: String,
    properties: TorrentProperty,
    content: Vec<FileEntry>,
    pieces_states: Vec<PieceState>,
    pieces_hashes: Vec<[u8; 20]>,
    temp_path: Option<String>,
) -> TorrentModel {
    TorrentModel {
        hash: hash@,
        files: files_model(content@),
        piece_size: properties.piece_size as nat,
        states: pieces_states@,
        digests: digests_model(pieces_hashes@),
        pieces_have: properties.pieces_have as int,
        pieces_num: properties.pieces_num as int,
        save_path: path_model(properties.save_path),
        temp_path: path_model(temp_path),
    }
}

/// A job snapshot, read-only once made. Every snapshot that exists is
/// consistent in the sense of [`TorrentModel::consistent`].
#[derive(Debug)]
pub struct Torrent {
    hash: String,
    properties: TorrentProperty,
    content: Vec<FileEntry>,
    pieces_states: Vec<PieceState>,
    pieces_hashes: Vec<[u8; 20]>,
    temp_path: Option<String>,
}

impl View for Torrent {
    type V = TorrentModel;

    closed spec fn view(&self) -> TorrentModel {
        model_of(
            self.hash,
            self.properties,
            self.content,
            self.pieces_states,
            self.pieces_hashes,
            self.temp_path,
        )
    }
}

/// The length of the concatenation of `content`, if it fits in 64 bits.
fn checked_total(content: &Vec<FileEntry>) -> (total: Option<u64>)
    ensures
        total is Some <==> total_size(files_model(content@)) <= u64::MAX,
        total matches Some(t) ==> t == total_size(files_model(content@)),
{
    let ghost files = files_model(content@);
    let mut sum: u64 = 0;
    let mut i: usize = 0;
    proof {
        lemma_file_start_zero(files);
    }
    while i < content.len()
        invariant
            i <= content.len(),
            files == files_model(content@),
            sum == file_start(files, i as int),
        decreases content.len() - i,
    {
        proof {
            lemma_file_start_next(files, i as int);
            lemma_file_start_ordered(files, i as int + 1, files.len() as int);
        }
        match sum.checked_add(content[i].size) {
            Some(next) => {
                sum = next;
            },
            None => {
                return None;
            },
        }
        i += 1;
    }
    proof {
        lemma_file_start_all(files);
    }
    Some(sum)
}

impl Torrent {
    /// What holds of every snapshot: its pieces cover its files exactly.
    #[verifier::type_invariant]
    pub open spec fn inv(&self) -> bool {
        self@.consistent()
    }

    /// Makes a snapshot from what the session reports, or `None` where the
    /// pieces do not cover the files exactly.
    pub fn new(
        hash: String,
        properties: TorrentProperty,
        content: Vec<FileEntry>,
        pieces_states: Vec<PieceState>,
        pieces_hashes: Vec<[u8; 20]>,
        temp_path: Option<String>,
    ) -> (made: Option<Torrent>)
        ensures
            made is Some <==> model_of(
                hash,
                properties,
                content,
                pieces_states,
                pieces_hashes,
                temp_path,
            ).consistent(),
            made matches Some(t) ==> t@ == model_of(
                hash,
                properties,
                content,
                pieces_states,
                pieces_hashes,
                temp_path,
            ),
    {
        let piece_size = properties.piece_size;
        let count = pieces_states.len();
        if piece_size == 0 || pieces_hashes.len() != count {
            return None;
        }
        let covered = match (count as u64).checked_mul(piece_size) {
            Some(c) => c,
            None => {
                return None;
            },
        };
        let total = match checked_total(&content) {
            Some(t) => t,
            None => {
                return None;
            },
        };
        if total > covered {
            return None;
        }
        if count > 0 {
            assert((count - 1) * piece_size <= count * piece_size) by (nonlinear_arith)
                requires
                    count > 0,
                    piece_size > 0,
            ;
            if (count as u64 - 1) * piece_size >= total {
                return None;
            }
        }
        Some(Torrent { hash, properties, content, pieces_states, pieces_hashes, temp_path })
    }

    /// The identifier of the job.
    pub fn hash(&self) -> (hash: &String)
        ensures
            hash@ == self@.hash,
    {
        &self.hash
    }

    /// The length of every piece but possibly the last.
    pub fn piece_size(&self) -> (piece_size: u64)
        ensures
            piece_size == self@.piece_size,
            self@.consistent(),
    {
        proof {
            use_type_invariant(self);
        }
        self.properties.piece_size
    }

    /// The files, in the order of concatenation.
    pub fn content(&self) -> (content: &Vec<FileEntry>)
        ensures
            files_model(content@) == self@.files,
            self@.consistent(),
    {
        proof {
            use_type_invariant(self);
        }
        &self.content
    }

    /// The state of each piece.
    pub fn pieces_states(&self) -> (states: &Vec<PieceState>)
        ensures
            states@ == self@.states,
            self@.consistent(),
    {
        proof {
            use_type_invariant(self);
        }
        &self.pieces_states
    }

    /// The expected digest of each piece.
    pub fn pieces_hashes(&self) -> (hashes: &Vec<[u8; 20]>)
        ensures
            digests_model(hashes@) == self@.digests,
            self@.consistent(),
    {
        proof {
            use_type_invariant(self);
        }
        &self.pieces_hashes
    }

    /// Whether the bytes of `piece` can be trusted on disk. A piece past the
    /// recorded states cannot.
    pub fn piece_is_downloaded(&self, piece: &TorrentPiece) -> (downloaded: bool)
        ensures
            downloaded == self@.downloaded(piece.idx as int),
    {
        if piece.idx < self.pieces_states.len() {
            match self.pieces_states[piece.idx] {
                PieceState::Downloaded => true,
                PieceState::NotDownloaded => false,
            }
        } else {
            false
        }
    }

    /// The length of piece `idx` in bytes, the last piece being as long as
    /// what is left of the files; `None` where the job has no such piece.
    pub fn piece_length(&self, idx: usize) -> (length: Option<u64>)
        ensures
            length is Some <==> idx < self@.piece_count(),
            length matches Some(l) ==> l == self@.piece_length(idx as int) && 0 < l <= self@.piece_size,
    {
        proof {
            use_type_invariant(self);
        }
        let count = self.pieces_states.len();
        if idx >= count {
            return None;
        }
        if idx < count - 1 {
            return Some(self.properties.piece_size);
        }
        let piece_size = self.properties.piece_size;
        assert((count - 1) * piece_size <= count * piece_size) by (nonlinear_arith)
            requires
                count > 0,
                piece_size > 0,
        ;
        assert(count * piece_size - (count - 1) * piece_size == piece_size) by (nonlinear_arith);
        let total = match checked_total(&self.content) {
            Some(t) => t,
            None => {
                return None;
            },
        };
        Some(total - (count as u64 - 1) * piece_size)
    }

    /// The window of piece `idx`, of the length that the piece has; `None`
    /// where the job has no such piece.
    pub fn piece(&self, idx: usize) -> (window: Option<Piece>)
        ensures
            window is Some <==> idx < self@.piece_count(),
            window matches Some(w) ==> w == self@.piece_window(idx),
            window matches Some(w) ==> w.start() == idx * self@.piece_size && w.size()
                == self@.piece_length(idx as int),
    {
        proof {
            use_type_invariant(self);
        }
        let piece_size = self.properties.piece_size;
        match self.piece_length(idx) {
            None => None,
            Some(length) => if length == piece_size {
                Some(Piece::TorrentPiece(TorrentPiece { idx, piece_size }))
            } else {
                assert(idx * piece_size <= (self@.piece_count() - 1) * piece_size) by (nonlinear_arith)
                    requires
                        0 <= idx <= self@.piece_count() - 1,
                        piece_size > 0,
                ;
                Some(
                    Piece::VirtualPiece(
                        VirtualPiece { offset: idx as u64 * piece_size, piece_size: length },
                    ),
                )
            },
        }
    }

    /// Whether the job has every piece.
    pub fn is_complete(&self) -> (complete: bool)
        ensures
            complete == self@.complete(),
    {
        self.properties.pieces_num == self.properties.pieces_have
    }

    /// The root under which the job's files lie now, if the session told it:
    /// the permanent root once the job has every piece, the staging root
    /// before.
    pub fn root(&self) -> (root: Option<&String>)
        ensures
            path_model(root) == self@.root(),
    {
        if self.is_complete() {
            self.properties.save_path.as_ref()
        } else {
            self.temp_path.as_ref()
        }
    }

    /// The path of the file called `path` under the job's current root. Fails
    /// with `IOFailure` where the job has no such root.
    pub fn file_path(&self, path: &str) -> (resolved: Result<String, RepairError>)
        ensures
            match self@.root() {
                Some(root) => resolved matches Ok(p) && p@ == path_under(root, path@),
                None => resolved == Err::<String, RepairError>(RepairError::IOFailure),
            },
    {
        match self.root() {
            Some(root) => Ok(join_path(root, path)),
            None => Err(RepairError::IOFailure),
        }
    }
}

/// The path of the file called `name` under `root`: the two with `/` between.
pub open spec fn path_under(root: Seq<char>, name: Seq<char>) -> Seq<char> {
    root + seq!['/'] + name
}

/// Joins a root and a file name into a path.
pub fn join_path(root: &String, name: &str) -> (path: String)
    ensures
        path@ == path_under(root@, name@),
{
    let mut path = root.clone();
    proof {
        reveal_strlit("/");
    }
    path.append("/");
    path.append(name);
    path
}

} // verus!
