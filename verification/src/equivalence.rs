//! Files of two jobs that may hold the same content because they have the
//! same size.

use crate::error::RepairError;
use crate::layout::FileModel;
use crate::torrent::{files_model, FileEntry, Torrent};
use vstd::prelude::*;

verus! {

/// The model of an equivalence pair: the names of the files of one size in
/// the first job and in the second, each list in its job's file order. The
/// first name of a list stands for the list.
pub struct PairModel {
    pub names_a: Seq<Seq<char>>,
    pub names_b: Seq<Seq<char>>,
}

/// The names as sequences of characters.
pub open spec fn names_model(names: Seq<String>) -> Seq<Seq<char>> {
    names.map_values(|n: String| n@)
}

/// The model of one pair of name lists.
pub open spec fn pair_model(pair: (Vec<String>, Vec<String>)) -> PairModel {
    PairModel { names_a: names_model(pair.0@), names_b: names_model(pair.1@) }
}

/// The models of a list of pairs.
pub open spec fn pairs_model(pairs: Seq<(Vec<String>, Vec<String>)>) -> Seq<PairModel> {
    pairs.map_values(|p: (Vec<String>, Vec<String>)| pair_model(p))
}

/// The names of the files of `files` whose size is `size`, in file order.
pub open spec fn names_of_size(files: Seq<FileModel>, size: nat) -> Seq<Seq<char>> {
    files.filter(|f: FileModel| f.size == size).map_values(|f: FileModel| f.name)
}

/// Some file of `files` has size `size`.
pub open spec fn has_size(files: Seq<FileModel>, size: nat) -> bool {
    exists|k: int| 0 <= k < files.len() && (#[trigger] files[k]).size == size
}

/// File `i` of `a` is the first of its size in `a`, and `b` has a file of
/// that size too.
pub open spec fn leads_group(a: Seq<FileModel>, b: Seq<FileModel>, i: int) -> bool {
    &&& 0 <= i < a.len()
    &&& forall|j: int| 0 <= j < i ==> (#[trigger] a[j]).size != a[i].size
    &&& has_size(b, a[i].size)
}

/// The positions below `len`, in ascending order.
pub open spec fn positions(len: nat) -> Seq<int> {
    Seq::new(len, |i: int| i)
}

/// The files of `a` that lead a group shared with `b`, in file order: one for
/// each size that both jobs have.
pub open spec fn group_leaders(a: Seq<FileModel>, b: Seq<FileModel>) -> Seq<int> {
    positions(a.len()).filter(|i: int| leads_group(a, b, i))
}

/// The pair of the size of file `i` of `a`.
pub open spec fn pair_of(a: Seq<FileModel>, b: Seq<FileModel>, i: int) -> PairModel {
    PairModel { names_a: names_of_size(a, a[i].size), names_b: names_of_size(b, a[i].size) }
}

/// One pair for each size that both jobs have, the sizes in the order in
/// which the first job's files first show them.
pub open spec fn same_size_pairs(a: Seq<FileModel>, b: Seq<FileModel>) -> Seq<PairModel> {
    group_leaders(a, b).map_values(|i: int| pair_of(a, b, i))
}

/// `name` is listed on either side of `pair`.
pub open spec fn lists(pair: PairModel, name: Seq<char>) -> bool {
    pair.names_a.contains(name) || pair.names_b.contains(name)
}

/// Pair `p` is the first pair that lists `name`.
pub open spec fn first_listing(pairs: Seq<PairModel>, name: Seq<char>, p: int) -> bool {
    &&& 0 <= p < pairs.len()
    &&& lists(pairs[p], name)
    &&& forall|q: int| 0 <= q < p ==> !lists(#[trigger] pairs[q], name)
}

/// Each pair has a name on both sides.
pub open spec fn both_sides_named(pairs: Seq<PairModel>) -> bool {
    forall|p: int|
        0 <= p < pairs.len() ==> (#[trigger] pairs[p]).names_a.len() > 0 && pairs[p].names_b.len()
            > 0
}

/// The name that stands for the other side of the first pair that lists
/// `name`: the first name of the second list where the first list holds
/// `name`, else the first name of the first list.
pub open spec fn counterpart(pairs: Seq<PairModel>, name: Seq<char>) -> Result<Seq<char>, RepairError> {
    if exists|p: int| first_listing(pairs, name, p) {
        let p = choose|p: int| first_listing(pairs, name, p);
        if pairs[p].names_a.contains(name) {
            Ok(pairs[p].names_b[0])
        } else {
            Ok(pairs[p].names_a[0])
        }
    } else {
        Err(RepairError::FileNotFound)
    }
}

/// The names of the files of `content` whose size is `size`, in file order.
fn names_with_size(content: &Vec<FileEntry>, size: u64) -> (names: Vec<String>)
    ensures
        names_model(names@) == names_of_size(files_model(content@), size as nat),
{
    let ghost files = files_model(content@);
    let ghost pred = |f: FileModel| f.size == size as nat;
    let ghost name_of = |f: FileModel| f.name;
    let mut names: Vec<String> = Vec::new();
    let mut i: usize = 0;
    proof {
        assert(files.take(0).filter(pred) =~= Seq::<FileModel>::empty()) by {
            reveal(Seq::filter);
        }
    }
    while i < content.len()
        invariant
            i <= content.len(),
            files == files_model(content@),
            pred == |f: FileModel| f.size == size as nat,
            name_of == |f: FileModel| f.name,
            names_model(names@) == files.take(i as int).filter(pred).map_values(name_of),
        decreases content.len() - i,
    {
        let ghost upto = files.take(i as int + 1);
        proof {
            assert(upto.drop_last() =~= files.take(i as int));
            reveal(Seq::filter);
        }
        if content[i].size == size {
            names.push(content[i].name.clone());
            proof {
                assert(upto.filter(pred).map_values(name_of) =~= files.take(i as int).filter(
                    pred,
                ).map_values(name_of).push(content@[i as int].name@));
            }
        }
        i += 1;
    }
    proof {
        assert(files.take(content.len() as int) =~= files);
    }
    names
}

/// Whether no file of `content` before file `i` has the size of file `i`.
fn first_of_size(content: &Vec<FileEntry>, i: usize) -> (first: bool)
    requires
        i < content.len(),
    ensures
        first == forall|j: int|
            0 <= j < i ==> (#[trigger] files_model(content@)[j]).size != files_model(
                content@,
            )[i as int].size,
{
    let ghost files = files_model(content@);
    let mut j: usize = 0;
    while j < i
        invariant
            j <= i < content.len(),
            files == files_model(content@),
            forall|k: int| 0 <= k < j ==> (#[trigger] files[k]).size != files[i as int].size,
        decreases i - j,
    {
        if content[j].size == content[i].size {
            assert(files[j as int].size == files[i as int].size);
            return false;
        }
        j += 1;
    }
    true
}

/// A list of names of one size is empty exactly when no file has that size.
pub proof fn lemma_names_of_size_empty(files: Seq<FileModel>, size: nat)
    ensures
        names_of_size(files, size).len() > 0 <==> has_size(files, size),
{
    let pred = |f: FileModel| f.size == size;
    let kept = files.filter(pred);
    if kept.len() > 0 {
        files.lemma_filter_pred(pred, 0);
        files.lemma_filter_contains_rev(pred, kept[0]);
    }
    if has_size(files, size) {
        let k = choose|k: int| 0 <= k < files.len() && (#[trigger] files[k]).size == size;
        files.lemma_filter_contains(pred, k);
    }
}

/// Groups the files of two jobs by size. For each size that both jobs have,
/// the result holds one pair: all names of that size in `t1` and all names of
/// that size in `t2`, each list in file order. The pairs come in the order in
/// which the files of `t1` first show their sizes, so that equal inputs give
/// equal results.
pub fn find_same_size_files(t1: &Torrent, t2: &Torrent) -> (common_files: Vec<
    (Vec<String>, Vec<String>),
>)
    ensures
        pairs_model(common_files@) == same_size_pairs(t1@.files, t2@.files),
        both_sides_named(pairs_model(common_files@)),
{
    proof {
        lemma_same_size_pairs_named(t1@.files, t2@.files);
    }
    let c1 = t1.content();
    let c2 = t2.content();
    let ghost a = t1@.files;
    let ghost b = t2@.files;
    let ghost leads = |i: int| leads_group(a, b, i);
    let ghost to_pair = |i: int| pair_of(a, b, i);
    let mut common_files: Vec<(Vec<String>, Vec<String>)> = Vec::new();
    let mut i: usize = 0;
    proof {
        assert(positions(0).filter(leads) =~= Seq::<int>::empty()) by {
            reveal(Seq::filter);
        }
    }
    while i < c1.len()
        invariant
            i <= c1.len(),
            a == files_model(c1@),
            b == files_model(c2@),
            a == t1@.files,
            b == t2@.files,
            leads == |i: int| leads_group(a, b, i),
            to_pair == |i: int| pair_of(a, b, i),
            pairs_model(common_files@) == positions(i as nat).filter(leads).map_values(to_pair),
        decreases c1.len() - i,
    {
        let ghost upto = positions((i + 1) as nat);
        proof {
            assert(upto.drop_last() =~= positions(i as nat));
            reveal(Seq::filter);
            lemma_names_of_size_empty(b, a[i as int].size);
        }
        let size = c1[i].size;
        if first_of_size(c1, i) {
            let names_b = names_with_size(c2, size);
            if names_b.len() > 0 {
                let names_a = names_with_size(c1, size);
                common_files.push((names_a, names_b));
                proof {
                    assert(upto.filter(leads).map_values(to_pair) =~= positions(i as nat).filter(
                        leads,
                    ).map_values(to_pair).push(to_pair(i as int)));
                }
            }
        }
        i += 1;
    }
    common_files
}

/// Whether `names` holds `wanted`.
fn holds_name(names: &Vec<String>, wanted: &String) -> (held: bool)
    ensures
        held == names_model(names@).contains(wanted@),
{
    let mut k: usize = 0;
    while k < names.len()
        invariant
            k <= names.len(),
            forall|j: int| 0 <= j < k ==> names_model(names@)[j] != wanted@,
        decreases names.len() - k,
    {
        if names[k] == *wanted {
            assert(names_model(names@)[k as int] == wanted@);
            return true;
        }
        k += 1;
    }
    false
}

/// The name that stands for the other side of the first pair that lists
/// `filename`, or `FileNotFound` where no pair lists it.
pub fn convert_filename(same_files: &[(Vec<String>, Vec<String>)], filename: &str) -> (converted:
    Result<String, RepairError>)
    requires
        both_sides_named(pairs_model(same_files@)),
    ensures
        match counterpart(pairs_model(same_files@), filename@) {
            Ok(name) => converted matches Ok(n) && n@ == name,
            Err(e) => converted matches Err(f) && f == e,
        },
{
    let ghost pairs = pairs_model(same_files@);
    let wanted = filename.to_owned();
    let mut p: usize = 0;
    while p < same_files.len()
        invariant
            p <= same_files.len(),
            pairs == pairs_model(same_files@),
            both_sides_named(pairs),
            wanted@ == filename@,
            forall|q: int| 0 <= q < p ==> !lists(#[trigger] pairs[q], filename@),
        decreases same_files.len() - p,
    {
        let pair = &same_files[p];
        let in_a = holds_name(&pair.0, &wanted);
        if in_a || holds_name(&pair.1, &wanted) {
            assert(first_listing(pairs, filename@, p as int));
            if in_a {
                return Ok(pair.1[0].clone());
            } else {
                return Ok(pair.0[0].clone());
            }
        }
        p += 1;
    }
    Err(RepairError::FileNotFound)
}

/// Every pair that grouping by size gives has a name on both sides.
pub proof fn lemma_same_size_pairs_named(a: Seq<FileModel>, b: Seq<FileModel>)
    ensures
        both_sides_named(same_size_pairs(a, b)),
{
    let leads = |i: int| leads_group(a, b, i);
    let leaders = group_leaders(a, b);
    assert forall|p: int| 0 <= p < same_size_pairs(a, b).len() implies (#[trigger] same_size_pairs(
        a,
        b,
    )[p]).names_a.len() > 0 && same_size_pairs(a, b)[p].names_b.len() > 0 by {
        let i = leaders[p];
        positions(a.len()).lemma_filter_pred(leads, p);
        lemma_names_of_size_empty(a, a[i].size);
        lemma_names_of_size_empty(b, a[i].size);
    }
}

/// Two jobs with no size in common have no pair.
pub proof fn lemma_no_common_size(a: Seq<FileModel>, b: Seq<FileModel>)
    requires
        forall|i: int, k: int|
            0 <= i < a.len() && 0 <= k < b.len() ==> (#[trigger] a[i]).size != (#[trigger] b[k]).size,
    ensures
        same_size_pairs(a, b).len() == 0,
{
    let leads = |i: int| leads_group(a, b, i);
    let leaders = group_leaders(a, b);
    if leaders.len() > 0 {
        positions(a.len()).lemma_filter_pred(leads, 0);
        let i = leaders[0];
        let k = choose|k: int| 0 <= k < b.len() && (#[trigger] b[k]).size == a[i].size;
    }
}

} // verus!
