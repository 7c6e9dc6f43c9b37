//! The files and directories of a transfer, and which lane they go by.

use crate::adb_push;
use crate::adb_push::{PushFile, PushFileView};
use crate::checkpoint;
use crate::models;
use crate::order;
use crate::order::Rank;
use crate::sizing;
use crate::text;
use vstd::prelude::*;

verus! {

/// A file of a transfer, with its place among all of them.
#[derive(Debug, PartialEq, Eq)]
pub struct LocalTransferFile {
    pub file_index: usize,
    pub local_path: String,
    pub relative_path: String,
    pub size_bytes: u64,
}

pub struct LocalFileView {
    pub file_index: int,
    pub local_path: Seq<char>,
    pub relative_path: Seq<char>,
    pub size_bytes: u64,
}

impl View for LocalTransferFile {
    type V = LocalFileView;

    open spec fn view(&self) -> LocalFileView {
        LocalFileView {
            file_index: self.file_index as int,
            local_path: self.local_path@,
            relative_path: self.relative_path@,
            size_bytes: self.size_bytes,
        }
    }
}

impl Clone for LocalTransferFile {
    fn clone(&self) -> (r: Self)
        ensures
            r@ == self@,
    {
        LocalTransferFile {
            file_index: self.file_index,
            local_path: self.local_path.clone(),
            relative_path: self.relative_path.clone(),
            size_bytes: self.size_bytes,
        }
    }
}

/// The views of files.
pub open spec fn local_views(files: Seq<LocalTransferFile>) -> Seq<LocalFileView> {
    files.map_values(|f: LocalTransferFile| f@)
}

/// A directory of a transfer.
#[derive(Debug, PartialEq, Eq)]
pub struct LocalTransferDirectory {
    pub relative_path: String,
}

/// The relative paths of directories.
pub open spec fn directory_paths(dirs: Seq<LocalTransferDirectory>) -> Seq<Seq<char>> {
    dirs.map_values(|d: LocalTransferDirectory| d.relative_path@)
}

/// The files and directories of a transfer.
#[derive(Debug)]
pub struct LocalTransferManifest {
    pub files: Vec<LocalTransferFile>,
    pub directories: Vec<LocalTransferDirectory>,
}

impl Default for LocalTransferManifest {
    fn default() -> (r: Self)
        ensures
            r.files@.len() == 0,
            r.directories@.len() == 0,
    {
        LocalTransferManifest { files: Vec::new(), directories: Vec::new() }
    }
}

/// What stands at a local path.
#[derive(Debug)]
pub enum LocalTree {
    /// A file, with its name where the path has one, and its size.
    File(Option<String>, u64),
    /// A directory, with the files and the relative paths of the directories below it, in any
    /// order.
    Directory(Vec<PushFile>, Vec<String>),
    /// Neither.
    Missing,
}

/// Paths without those that repeat the one before them.
pub open spec fn without_repeats(paths: Seq<Seq<char>>) -> Seq<Seq<char>>
    decreases paths.len(),
{
    if paths.len() == 0 {
        Seq::empty()
    } else {
        let head = without_repeats(paths.drop_last());
        if head.len() > 0 && order::same_path(head.last(), paths.last()) {
            head
        } else {
            head.push(paths.last())
        }
    }
}

/// Whether `out` holds the paths in their order, without repeats.
pub open spec fn sorted_paths(out: Seq<Seq<char>>, paths: Seq<Seq<char>>) -> bool {
    exists|places: Seq<usize>|
        {
            &&& #[trigger] order::in_order(places, paths)
            &&& out == without_repeats(places.map_values(|p: usize| paths[p as int]))
        }
}

/// Files numbered by their places.
pub open spec fn numbered(files: Seq<PushFileView>) -> Seq<LocalFileView> {
    files.map(
        |i: int, f: PushFileView|
            LocalFileView {
                file_index: i,
                local_path: f.local_path,
                relative_path: f.relative_path,
                size_bytes: f.size_bytes,
            },
    )
}

/// Whether `out` holds the files in the order of their relative paths, numbered.
pub open spec fn sorted_and_numbered(out: Seq<LocalFileView>, files: Seq<PushFileView>) -> bool {
    exists|sorted: Seq<PushFileView>|
        #[trigger] adb_push::sorted_files(sorted, files) && out == numbered(sorted)
}

/// The files and directories to send for a local path, each in the order of their paths.
pub fn collect_local_transfer_manifest(local_path: &str, found: &LocalTree) -> (r: Result<
    LocalTransferManifest,
    String,
>)
    ensures
        match found {
            LocalTree::File(name, size) => r matches Ok(m) && m.directories@.len() == 0
                && local_views(m.files@) == seq![
                LocalFileView {
                    file_index: 0,
                    local_path: local_path@,
                    relative_path: text::or_else(text::opt_view(*name), "file"@),
                    size_bytes: *size,
                },
            ],
            LocalTree::Directory(files, dirs) => r matches Ok(m) && sorted_and_numbered(
                local_views(m.files@),
                adb_push::file_views(files@),
            ) && sorted_paths(directory_paths(m.directories@), text::views(dirs@)),
            LocalTree::Missing => r matches Err(e) && e@ == "local path does not exist: "@
                + local_path@,
        },
{
    match found {
        LocalTree::File(name, size) => {
            let mut files: Vec<LocalTransferFile> = Vec::new();
            let file = LocalTransferFile {
                file_index: 0,
                local_path: local_path.to_string(),
                relative_path: text::or_other(text::borrow_opt(name), "file"),
                size_bytes: *size,
            };
            files.push(file);
            assert(local_views(files@) =~= seq![file@]);
            Ok(LocalTransferManifest { files, directories: Vec::new() })
        },
        LocalTree::Directory(files, dirs) => Ok(
            LocalTransferManifest {
                files: number_files(files),
                directories: sort_directories(dirs),
            },
        ),
        LocalTree::Missing => Err(checkpoint::about("local path does not exist: ", local_path)),
    }
}

fn number_files(files: &Vec<PushFile>) -> (r: Vec<LocalTransferFile>)
    ensures
        sorted_and_numbered(local_views(r@), adb_push::file_views(files@)),
{
    let sorted = adb_push::sort_push_files(files);
    let mut out: Vec<LocalTransferFile> = Vec::new();
    let mut i: usize = 0;
    while i < sorted.len()
        invariant
            i <= sorted.len(),
            out@.len() == i,
            forall|k: int|
                0 <= k < i ==> (#[trigger] out@[k])@ == numbered(
                    adb_push::file_views(sorted@),
                )[k],
        decreases sorted.len() - i,
    {
        let f = &sorted[i];
        out.push(
            LocalTransferFile {
                file_index: i,
                local_path: f.local_path.clone(),
                relative_path: f.relative_path.clone(),
                size_bytes: f.size_bytes,
            },
        );
        i += 1;
    }
    assert(local_views(out@) =~= numbered(adb_push::file_views(sorted@)));
    out
}

fn sort_directories(dirs: &Vec<String>) -> (r: Vec<LocalTransferDirectory>)
    ensures
        sorted_paths(directory_paths(r@), text::views(dirs@)),
{
    let ghost paths = text::views(dirs@);
    let places = order::sorted_places(dirs);
    let ghost sorted = places@.map_values(|p: usize| paths[p as int]);
    let mut out: Vec<LocalTransferDirectory> = Vec::new();
    let mut i: usize = 0;
    assert(directory_paths(out@) =~= without_repeats(sorted.take(0)));
    while i < places.len()
        invariant
            i <= places.len(),
            paths == text::views(dirs@),
            order::in_order(places@, paths),
            sorted == places@.map_values(|p: usize| paths[p as int]),
            directory_paths(out@) == without_repeats(sorted.take(i as int)),
        decreases places.len() - i,
    {
        assert(sorted.take(i + 1).drop_last() =~= sorted.take(i as int));
        let path = &dirs[places[i]];
        assert(path@ == sorted[i as int]);
        let ghost before = directory_paths(out@);
        let n: usize = out.len();
        let repeats = n > 0 && match order::rank_paths(
            out[n - 1].relative_path.as_str(),
            path.as_str(),
        ) {
            Rank::Same => true,
            _ => false,
        };
        assert(n > 0 ==> before.last() == out@[n - 1].relative_path@);
        if !repeats {
            let d = LocalTransferDirectory { relative_path: path.clone() };
            out.push(d);
            assert(directory_paths(out@) == before.push(path@));
        }
        i += 1;
    }
    assert(sorted.take(sorted.len() as int) =~= sorted);
    out
}

/// Whether a file is large enough for both lanes to share it.
pub open spec fn is_shared(f: LocalFileView) -> bool {
    f.size_bytes >= 33554432
}

/// The files that both lanes share, or the others.
pub open spec fn chosen(files: Seq<LocalFileView>, shared: bool) -> Seq<LocalFileView>
    decreases files.len(),
{
    if files.len() == 0 {
        Seq::empty()
    } else if is_shared(files.last()) == shared {
        chosen(files.drop_last(), shared).push(files.last())
    } else {
        chosen(files.drop_last(), shared)
    }
}

/// Every other file, from the first or from the second on.
pub open spec fn every_other(files: Seq<LocalFileView>, second: bool) -> Seq<LocalFileView>
    decreases files.len(),
{
    if files.len() == 0 {
        Seq::empty()
    } else if (files.len() % 2 == 0) == second {
        every_other(files.drop_last(), second).push(files.last())
    } else {
        every_other(files.drop_last(), second)
    }
}

/// The files by lane: small ones by the network and by ADB in turn, large ones by both lanes at
/// once.
pub fn partition_dual_transfer_files(files: Vec<LocalTransferFile>) -> (r: (
    Vec<LocalTransferFile>,
    Vec<LocalTransferFile>,
    Vec<LocalTransferFile>,
))
    ensures
        local_views(r.0@) == every_other(chosen(local_views(files@), false), true),
        local_views(r.1@) == every_other(chosen(local_views(files@), false), false),
        local_views(r.2@) == chosen(local_views(files@), true),
{
    let ghost all = local_views(files@);
    let mut adb_files: Vec<LocalTransferFile> = Vec::new();
    let mut wifi_files: Vec<LocalTransferFile> = Vec::new();
    let mut same_file_dual_files: Vec<LocalTransferFile> = Vec::new();
    let mut send_small_to_wifi = true;
    let mut i: usize = 0;
    assert(local_views(adb_files@) =~= Seq::empty());
    assert(local_views(wifi_files@) =~= Seq::empty());
    assert(local_views(same_file_dual_files@) =~= Seq::empty());
    assert(chosen(all.take(0), false) =~= Seq::empty());
    while i < files.len()
        invariant
            i <= files.len(),
            all == local_views(files@),
            local_views(adb_files@) == every_other(chosen(all.take(i as int), false), true),
            local_views(wifi_files@) == every_other(chosen(all.take(i as int), false), false),
            local_views(same_file_dual_files@) == chosen(all.take(i as int), true),
            send_small_to_wifi <==> chosen(all.take(i as int), false).len() % 2 == 0,
        decreases files.len() - i,
    {
        let ghost small = chosen(all.take(i as int), false);
        assert(all.take(i + 1).drop_last() =~= all.take(i as int));
        let file = files[i].clone();
        let ghost a = local_views(adb_files@);
        let ghost w = local_views(wifi_files@);
        let ghost s = local_views(same_file_dual_files@);
        assert(file@ == all[i as int]);
        if models::is_large_file(file.size_bytes, 32 * 1024 * 1024) {
            same_file_dual_files.push(file);
            assert(local_views(same_file_dual_files@) == s.push(file@));
        } else {
            assert(small.push(file@).drop_last() =~= small);
            if send_small_to_wifi {
                wifi_files.push(file);
                assert(local_views(wifi_files@) == w.push(file@));
                send_small_to_wifi = false;
            } else {
                adb_files.push(file);
                assert(local_views(adb_files@) == a.push(file@));
                send_small_to_wifi = true;
            }
        }
        i += 1;
    }
    assert(all.take(all.len() as int) =~= all);
    (adb_files, wifi_files, same_file_dual_files)
}

proof fn lemma_every_other_keeps(files: Seq<LocalFileView>)
    ensures
        every_other(files, false).to_multiset().add(every_other(files, true).to_multiset())
            == files.to_multiset(),
        every_other(files, true).len() <= every_other(files, false).len() <= every_other(
            files,
            true,
        ).len() + 1,
        every_other(files, false).len() + every_other(files, true).len() == files.len(),
        every_other(files, false).len() > every_other(files, true).len() <==> files.len() % 2 == 1,
    decreases files.len(),
{
    broadcast use vstd::seq_lib::group_to_multiset_ensures;

    if files.len() > 0 {
        lemma_every_other_keeps(files.drop_last());
        let d = files.drop_last();
        let x = files.last();
        assert(files =~= d.push(x));
        let e = every_other(d, false);
        let o = every_other(d, true);
        assert(every_other(files, false).to_multiset().add(every_other(files, true).to_multiset())
            =~= d.to_multiset().insert(x));
    } else {
        assert(every_other(files, false) =~= Seq::empty());
        assert(every_other(files, true) =~= Seq::empty());
        assert(files =~= Seq::empty());
        assert(every_other(files, false).to_multiset().add(every_other(files, true).to_multiset())
            =~= files.to_multiset());
    }
}

proof fn lemma_chosen_keeps(files: Seq<LocalFileView>)
    ensures
        chosen(files, false).to_multiset().add(chosen(files, true).to_multiset())
            == files.to_multiset(),
        forall|i: int| 0 <= i < chosen(files, true).len() ==> is_shared(#[trigger] chosen(files, true)[i]),
        forall|i: int|
            0 <= i < chosen(files, false).len() ==> !is_shared(#[trigger] chosen(files, false)[i]),
    decreases files.len(),
{
    broadcast use vstd::seq_lib::group_to_multiset_ensures;

    if files.len() > 0 {
        lemma_chosen_keeps(files.drop_last());
        let d = files.drop_last();
        let x = files.last();
        assert(files =~= d.push(x));
        assert(chosen(files, false).to_multiset().add(chosen(files, true).to_multiset())
            =~= d.to_multiset().insert(x));
    } else {
        assert(chosen(files, false) =~= Seq::empty());
        assert(chosen(files, true) =~= Seq::empty());
        assert(files =~= Seq::empty());
        assert(chosen(files, false).to_multiset().add(chosen(files, true).to_multiset())
            =~= files.to_multiset());
    }
}

/// Every file goes by exactly one of the three ways; both lanes share exactly the large ones, and
/// the network has as many small ones as ADB, or one more.
pub proof fn lemma_partition_keeps_files(files: Seq<LocalFileView>)
    ensures
        ({
            let small = chosen(files, false);
            let adb = every_other(small, true);
            let wifi = every_other(small, false);
            let same = chosen(files, true);
            &&& wifi.to_multiset().add(adb.to_multiset()).add(same.to_multiset())
                == files.to_multiset()
            &&& adb.len() <= wifi.len() <= adb.len() + 1
            &&& forall|i: int| 0 <= i < same.len() ==> is_shared(#[trigger] same[i])
        }),
{
    lemma_chosen_keeps(files);
    lemma_every_other_keeps(chosen(files, false));
}

/// The largest of some numbers, if there are any.
pub open spec fn largest(s: Seq<int>) -> Option<int>
    decreases s.len(),
{
    if s.len() == 0 {
        None
    } else {
        match largest(s.drop_last()) {
            Some(m) => Some(sizing::larger(m, s.last())),
            None => Some(s.last()),
        }
    }
}

/// The chunk lengths of files sent over the network.
pub open spec fn wifi_sizes(files: Seq<LocalFileView>, requested: u64) -> Seq<int> {
    files.map_values(|f: LocalFileView| sizing::wifi_chunk_size(f.size_bytes, requested))
}

/// The chunk lengths of files that both lanes share.
pub open spec fn shared_sizes(files: Seq<LocalFileView>, requested: u64) -> Seq<int> {
    files.map_values(|f: LocalFileView| sizing::shared_chunk_size(f.size_bytes, requested))
}

/// The chunk length of a network task: the largest that one of its files needs.
pub open spec fn wifi_task_size(files: Seq<LocalFileView>, requested: u64) -> int {
    match largest(wifi_sizes(files, requested)) {
        Some(m) => m,
        None => sizing::wifi_chunk_size(0, requested),
    }
}

/// The chunk length of a network task.
pub fn wifi_task_chunk_size_for_files(files: &Vec<LocalTransferFile>, requested: u64) -> (r: u64)
    ensures
        r == wifi_task_size(local_views(files@), requested),
{
    let ghost all = wifi_sizes(local_views(files@), requested);
    let mut most: Option<u64> = None;
    let mut i: usize = 0;
    while i < files.len()
        invariant
            i <= files.len(),
            all == wifi_sizes(local_views(files@), requested),
            match most {
                Some(m) => largest(all.take(i as int)) == Some(m as int),
                None => largest(all.take(i as int)) is None,
            },
        decreases files.len() - i,
    {
        assert(all.take(i + 1).drop_last() =~= all.take(i as int));
        let size: u64 = sizing::wifi_transfer_chunk_size(files[i].size_bytes, requested);
        assert(all[i as int] == size);
        most = match most {
            Some(m) => if m < size {
                Some(size)
            } else {
                Some(m)
            },
            None => Some(size),
        };
        i += 1;
    }
    assert(all.take(all.len() as int) =~= all);
    match most {
        Some(m) => m,
        None => sizing::wifi_transfer_chunk_size(0, requested),
    }
}

/// The chunk length that files need that both lanes share, if there are any.
pub fn shared_chunk_size_for_files(files: &Vec<LocalTransferFile>, requested: u64) -> (r: Option<u64>)
    ensures
        match r {
            Some(m) => largest(shared_sizes(local_views(files@), requested)) == Some(m as int),
            None => largest(shared_sizes(local_views(files@), requested)) is None,
        },
{
    let ghost all = shared_sizes(local_views(files@), requested);
    let mut most: Option<u64> = None;
    let mut i: usize = 0;
    while i < files.len()
        invariant
            i <= files.len(),
            all == shared_sizes(local_views(files@), requested),
            match most {
                Some(m) => largest(all.take(i as int)) == Some(m as int),
                None => largest(all.take(i as int)) is None,
            },
        decreases files.len() - i,
    {
        assert(all.take(i + 1).drop_last() =~= all.take(i as int));
        let size: u64 = sizing::dual_same_file_chunk_size(files[i].size_bytes, requested);
        assert(all[i as int] == size);
        most = match most {
            Some(m) => if m < size {
                Some(size)
            } else {
                Some(m)
            },
            None => Some(size),
        };
        i += 1;
    }
    assert(all.take(all.len() as int) =~= all);
    most
}

/// The chunk length that a task on both lanes needs, if one of its files is shared.
pub fn same_file_dual_task_chunk_size(
    files: Vec<LocalTransferFile>,
    requested_chunk_size: u64,
) -> (r: Option<u64>)
    ensures
        match r {
            Some(m) => largest(
                shared_sizes(chosen(local_views(files@), true), requested_chunk_size),
            ) == Some(m as int),
            None => largest(shared_sizes(chosen(local_views(files@), true), requested_chunk_size))
                is None,
        },
{
    let parts = partition_dual_transfer_files(files);
    shared_chunk_size_for_files(&parts.2, requested_chunk_size)
}

/// The bytes of files, together.
pub open spec fn total_bytes(files: Seq<LocalFileView>) -> int
    decreases files.len(),
{
    if files.len() == 0 {
        0
    } else {
        total_bytes(files.drop_last()) + files.last().size_bytes
    }
}

/// The bytes of files, together, if 64 bits can count them.
pub fn sum_bytes(files: &Vec<LocalTransferFile>) -> (r: Option<u64>)
    ensures
        match r {
            Some(n) => n == total_bytes(local_views(files@)),
            None => total_bytes(local_views(files@)) > u64::MAX,
        },
{
    let ghost all = local_views(files@);
    let mut sum: u64 = 0;
    let mut i: usize = 0;
    while i < files.len()
        invariant
            i <= files.len(),
            all == local_views(files@),
            sum == total_bytes(all.take(i as int)),
        decreases files.len() - i,
    {
        assert(all.take(i + 1).drop_last() =~= all.take(i as int));
        assert(all[i as int] == files@[i as int]@);
        match sum.checked_add(files[i].size_bytes) {
            Some(s) => {
                sum = s;
            },
            None => {
                proof {
                    lemma_total_bytes_grows(all, i + 1, all.len() as int);
                    assert(all.take(all.len() as int) =~= all);
                }
                return None;
            },
        }
        i += 1;
    }
    assert(all.take(all.len() as int) =~= all);
    Some(sum)
}

/// More files have no fewer bytes.
pub proof fn lemma_total_bytes_grows(files: Seq<LocalFileView>, a: int, b: int)
    requires
        0 <= a <= b <= files.len(),
    ensures
        0 <= total_bytes(files.take(a)) <= total_bytes(files.take(b)),
    decreases b,
{
    if b > a {
        lemma_total_bytes_grows(files, a, b - 1);
        assert(files.take(b).drop_last() =~= files.take(b - 1));
    } else if a > 0 {
        lemma_total_bytes_grows(files, a - 1, a - 1);
        assert(files.take(a).drop_last() =~= files.take(a - 1));
    }
}

/// Both lanes share a file exactly from 32 MiB on. Of the others the network has the first, the third and so
/// on, and ADB the second, the fourth and so on; all keep their order.
pub proof fn lemma_small_files_go_by_turns(files: Seq<LocalFileView>)
    ensures
        forall|i: int|
            0 <= i < chosen(files, true).len() ==> (#[trigger] chosen(files, true)[i]).size_bytes
                >= 33554432,
        forall|i: int|
            0 <= i < chosen(files, false).len() ==> (#[trigger] chosen(files, false)[i]).size_bytes
                < 33554432,
        forall|i: int|
            0 <= i < every_other(files, false).len() ==> 2 * i < files.len()
                && #[trigger] every_other(files, false)[i] == files[2 * i],
        forall|i: int|
            0 <= i < every_other(files, true).len() ==> 2 * i + 1 < files.len()
                && #[trigger] every_other(files, true)[i] == files[2 * i + 1],
        every_other(files, false).len() == (files.len() + 1) / 2,
        every_other(files, true).len() == files.len() / 2,
    decreases files.len(),
{
    if files.len() > 0 {
        let d = files.drop_last();
        lemma_small_files_go_by_turns(d);
        assert forall|i: int| 0 <= i < chosen(files, true).len() implies (#[trigger] chosen(
            files,
            true,
        )[i]).size_bytes >= 33554432 by {
            if i < chosen(d, true).len() {
                assert(chosen(files, true)[i] == chosen(d, true)[i]);
            }
        }
        assert forall|i: int| 0 <= i < chosen(files, false).len() implies (#[trigger] chosen(
            files,
            false,
        )[i]).size_bytes < 33554432 by {
            if i < chosen(d, false).len() {
                assert(chosen(files, false)[i] == chosen(d, false)[i]);
            }
        }
    }
}

/// Files that are chosen keep their order, and a further file is chosen by its own size alone.
pub proof fn lemma_file_is_chosen_by_its_size(files: Seq<LocalFileView>, f: LocalFileView)
    ensures
        f.size_bytes >= 33554432 ==> chosen(files.push(f), true) == chosen(files, true).push(f)
            && chosen(files.push(f), false) == chosen(files, false),
        f.size_bytes < 33554432 ==> chosen(files.push(f), false) == chosen(files, false).push(f)
            && chosen(files.push(f), true) == chosen(files, true),
{
    assert(files.push(f).drop_last() =~= files);
}

/// The chunk length of a network task is one that a file of it needs, and none needs more; without files it
/// is that of an empty file.
pub proof fn lemma_task_length_suits_every_file(files: Seq<LocalFileView>, requested: u64)
    ensures
        forall|i: int|
            0 <= i < files.len() ==> wifi_task_size(files, requested) >= sizing::wifi_chunk_size(
                (#[trigger] files[i]).size_bytes,
                requested,
            ),
        files.len() > 0 ==> exists|i: int|
            0 <= i < files.len() && wifi_task_size(files, requested) == sizing::wifi_chunk_size(
                (#[trigger] files[i]).size_bytes,
                requested,
            ),
        files.len() == 0 ==> wifi_task_size(files, requested) == sizing::wifi_chunk_size(
            0,
            requested,
        ),
{
    let all = wifi_sizes(files, requested);
    lemma_largest(all);
    assert forall|i: int| 0 <= i < files.len() implies wifi_task_size(files, requested)
        >= sizing::wifi_chunk_size((#[trigger] files[i]).size_bytes, requested) by {
        assert(all[i] <= largest(all)->0);
    }
    if files.len() > 0 {
        let i = choose|i: int| 0 <= i < all.len() && #[trigger] all[i] == largest(all)->0;
        assert(files[i].size_bytes == files[i].size_bytes);
        assert(wifi_task_size(files, requested) == sizing::wifi_chunk_size(
            files[i].size_bytes,
            requested,
        ));
    }
}

/// The largest of some numbers is one of them, and none is larger.
pub proof fn lemma_largest(s: Seq<int>)
    ensures
        s.len() == 0 <==> largest(s) is None,
        s.len() > 0 ==> forall|i: int| 0 <= i < s.len() ==> #[trigger] s[i] <= largest(s)->0,
        s.len() > 0 ==> exists|i: int| 0 <= i < s.len() && #[trigger] s[i] == largest(s)->0,
    decreases s.len(),
{
    if s.len() > 0 {
        let d = s.drop_last();
        lemma_largest(d);
        let m = largest(s)->0;
        if m == s.last() {
            assert(s[s.len() - 1] == m);
        } else {
            let i = choose|i: int| 0 <= i < d.len() && #[trigger] d[i] == largest(d)->0;
            assert(s[i] == m);
        }
        assert forall|i: int| 0 <= i < s.len() implies #[trigger] s[i] <= m by {
            if i < d.len() {
                assert(d[i] <= largest(d)->0);
            }
        }
    }
}

/// Files are numbered by their places, and keep their paths and sizes.
pub proof fn lemma_files_are_numbered_by_place(files: Seq<PushFileView>)
    ensures
        numbered(files).len() == files.len(),
        forall|i: int|
            0 <= i < files.len() ==> (#[trigger] numbered(files)[i]).file_index == i
                && numbered(files)[i].local_path == files[i].local_path
                && numbered(files)[i].relative_path == files[i].relative_path
                && numbered(files)[i].size_bytes == files[i].size_bytes,
{
}

} // verus!
