//! The mathematical model of a job's file layout: files laid end to end, and
//! the positions of that concatenation that each file holds.

use vstd::prelude::*;

verus! {

/// A file as the layout sees it: a name and a length in bytes.
pub struct FileModel {
    pub name: Seq<char>,
    pub size: nat,
}

/// The length of the concatenation of `files`.
pub open spec fn total_size(files: Seq<FileModel>) -> nat
    decreases files.len(),
{
    if files.len() == 0 {
        0
    } else {
        total_size(files.drop_last()) + files.last().size
    }
}

/// The position in the concatenation at which file `i` starts: the length of
/// all files before it.
pub open spec fn file_start(files: Seq<FileModel>, i: int) -> nat {
    total_size(files.take(i))
}

/// File `i` holds position `pos` of the concatenation.
pub open spec fn file_holds(files: Seq<FileModel>, i: int, pos: int) -> bool {
    &&& 0 <= i < files.len()
    &&& file_start(files, i) <= pos < file_start(files, i) + files[i].size
}

/// The file that holds position `pos`, if the concatenation reaches that far.
/// Empty files hold no position.
pub open spec fn file_at(files: Seq<FileModel>, pos: int) -> Option<int> {
    if exists|i: int| file_holds(files, i, pos) {
        Some(choose|i: int| file_holds(files, i, pos))
    } else {
        None
    }
}

/// File `i` is the first file called `name`.
pub open spec fn first_named(files: Seq<FileModel>, name: Seq<char>, i: int) -> bool {
    &&& 0 <= i < files.len()
    &&& files[i].name == name
    &&& forall|j: int| 0 <= j < i ==> (#[trigger] files[j]).name != name
}

/// The index of the first file called `name`, if there is one.
pub open spec fn position_of(files: Seq<FileModel>, name: Seq<char>) -> Option<int> {
    if exists|i: int| first_named(files, name, i) {
        Some(choose|i: int| first_named(files, name, i))
    } else {
        None
    }
}

/// The index of the piece of size `piece_size` that holds position `pos`.
pub open spec fn piece_floor(pos: int, piece_size: int) -> int {
    pos / piece_size
}

/// The number of pieces of size `piece_size` that it takes to reach `end`:
/// the index one past the last piece that holds a position before `end`.
pub open spec fn piece_ceil(end: int, piece_size: int) -> int {
    (end + piece_size - 1) / piece_size
}

/// The first file starts at position zero.
pub proof fn lemma_file_start_zero(files: Seq<FileModel>)
    ensures
        file_start(files, 0) == 0,
{
}

/// Past the last file lies the end of the concatenation.
pub proof fn lemma_file_start_all(files: Seq<FileModel>)
    ensures
        file_start(files, files.len() as int) == total_size(files),
{
    assert(files.take(files.len() as int) =~= files);
}

/// Each file starts where the one before it ends.
pub proof fn lemma_file_start_next(files: Seq<FileModel>, i: int)
    requires
        0 <= i < files.len(),
    ensures
        file_start(files, i + 1) == file_start(files, i) + files[i].size,
{
    let upto = files.take(i + 1);
    assert(upto.drop_last() =~= files.take(i));
}

/// Later files start no earlier, and none starts past the end.
pub proof fn lemma_file_start_ordered(files: Seq<FileModel>, i: int, j: int)
    requires
        0 <= i <= j <= files.len(),
    ensures
        file_start(files, i) <= file_start(files, j) <= total_size(files),
{
    lemma_file_start_all(files);
    lemma_file_start_grows(files, i, j);
    lemma_file_start_grows(files, j, files.len() as int);
}

/// Later files start no earlier.
proof fn lemma_file_start_grows(files: Seq<FileModel>, i: int, j: int)
    requires
        0 <= i <= j <= files.len(),
    ensures
        file_start(files, i) <= file_start(files, j),
    decreases j - i,
{
    if i < j {
        lemma_file_start_next(files, i);
        lemma_file_start_grows(files, i + 1, j);
    }
}

/// At most one file holds a given position.
pub proof fn lemma_file_holds_unique(files: Seq<FileModel>, i: int, j: int, pos: int)
    requires
        file_holds(files, i, pos),
        file_holds(files, j, pos),
    ensures
        i == j,
{
    if i < j {
        lemma_file_start_next(files, i);
        lemma_file_start_ordered(files, i + 1, j);
    } else if j < i {
        lemma_file_start_next(files, j);
        lemma_file_start_ordered(files, j + 1, i);
    }
}

/// A file holds `pos` exactly when `pos` lies inside the concatenation.
pub proof fn lemma_file_at_in_range(files: Seq<FileModel>, pos: int)
    ensures
        file_at(files, pos) is Some <==> 0 <= pos < total_size(files),
        file_at(files, pos) matches Some(i) ==> file_holds(files, i, pos),
    decreases files.len(),
{
    if exists|i: int| file_holds(files, i, pos) {
        let i = choose|i: int| file_holds(files, i, pos);
        lemma_file_start_next(files, i);
        lemma_file_start_ordered(files, i + 1, files.len() as int);
    } else if 0 <= pos < total_size(files) {
        // Walk to the first file that ends after `pos`.
        lemma_holder_exists(files, pos, 0);
    }
}

/// From any file that starts at or before `pos`, a holder of `pos` is found at
/// or after it, as long as the concatenation reaches past `pos`.
proof fn lemma_holder_exists(files: Seq<FileModel>, pos: int, from: int) -> (found: int)
    requires
        0 <= from <= files.len(),
        file_start(files, from) <= pos < total_size(files),
    ensures
        from <= found,
        file_holds(files, found, pos),
    decreases files.len() - from,
{
    lemma_file_start_all(files);
    if from == files.len() {
        from
    } else {
        lemma_file_start_next(files, from);
        if pos < file_start(files, from) + files[from].size {
            from
        } else {
            lemma_holder_exists(files, pos, from + 1)
        }
    }
}

/// At most one file is the first of its name.
pub proof fn lemma_first_named_unique(files: Seq<FileModel>, name: Seq<char>, i: int, j: int)
    requires
        first_named(files, name, i),
        first_named(files, name, j),
    ensures
        i == j,
{
}

/// `position_of` is the first file of that name, and is `None` only when no
/// file bears it.
pub proof fn lemma_position_of(files: Seq<FileModel>, name: Seq<char>)
    ensures
        position_of(files, name) matches Some(i) ==> first_named(files, name, i),
        position_of(files, name) is None ==> forall|j: int|
            0 <= j < files.len() ==> (#[trigger] files[j]).name != name,
{
    if position_of(files, name) is None {
        assert forall|j: int| 0 <= j < files.len() implies (#[trigger] files[j]).name != name by {
            if files[j].name == name {
                lemma_first_exists(files, name, j);
            }
        }
    }
}

/// Where file `j` is called `name`, some file at or before it is the first
/// of that name.
proof fn lemma_first_exists(files: Seq<FileModel>, name: Seq<char>, j: int) -> (first: int)
    requires
        0 <= j < files.len(),
        files[j].name == name,
    ensures
        first_named(files, name, first),
        first <= j,
    decreases j,
{
    if exists|k: int| 0 <= k < j && (#[trigger] files[k]).name == name {
        let k = choose|k: int| 0 <= k < j && (#[trigger] files[k]).name == name;
        lemma_first_exists(files, name, k)
    } else {
        j
    }
}

} // verus!
