//! Several small files, or directories, in one request.

use crate::codec;
use crate::decimal;
use crate::manifest;
use crate::manifest::{LocalFileView, LocalTransferDirectory, LocalTransferFile};
use crate::paths;
use crate::sizing;
use vstd::prelude::*;

verus! {

/// A file in a bundle.
#[derive(Debug, PartialEq, Eq)]
pub struct SmallFileBundleEntry {
    pub file: LocalTransferFile,
    pub relative_path: String,
    pub size_bytes: u64,
}

pub struct EntryView {
    pub file: LocalFileView,
    pub relative_path: Seq<char>,
    pub size_bytes: u64,
}

impl View for SmallFileBundleEntry {
    type V = EntryView;

    open spec fn view(&self) -> EntryView {
        EntryView {
            file: self.file@,
            relative_path: self.relative_path@,
            size_bytes: self.size_bytes,
        }
    }
}

/// Small files that are sent together: their names and sizes in the manifest, their bytes one
/// behind the other in the payload.
#[derive(Debug, PartialEq, Eq)]
pub struct SmallFileBundle {
    pub bundle_id: String,
    pub entries: Vec<SmallFileBundleEntry>,
    pub manifest: String,
    pub payload: Vec<u8>,
}

pub struct BundleView {
    pub bundle_id: Seq<char>,
    pub entries: Seq<EntryView>,
    pub manifest: Seq<char>,
    pub payload: Seq<u8>,
}

/// The views of entries.
pub open spec fn entry_views(entries: Seq<SmallFileBundleEntry>) -> Seq<EntryView> {
    entries.map_values(|e: SmallFileBundleEntry| e@)
}

impl View for SmallFileBundle {
    type V = BundleView;

    open spec fn view(&self) -> BundleView {
        BundleView {
            bundle_id: self.bundle_id@,
            entries: entry_views(self.entries@),
            manifest: self.manifest@,
            payload: self.payload@,
        }
    }
}

/// Whether a file is small enough for a bundle.
pub open spec fn is_candidate(f: LocalFileView) -> bool {
    f.size_bytes <= 67108864
}

/// Whether a file is small enough for a bundle.
pub fn is_small_file_bundle_candidate(file: &LocalTransferFile) -> (r: bool)
    ensures
        r == is_candidate(file@),
{
    file.size_bytes <= sizing::small_file_bundle_max_bytes()
}

/// A bundle without files.
pub open spec fn empty_bundle(task_id: Seq<char>, index: nat) -> BundleView {
    BundleView {
        bundle_id: task_id + "-bundle-"@ + decimal::pad(decimal::dec(index), 6),
        entries: Seq::empty(),
        manifest: Seq::empty(),
        payload: Seq::empty(),
    }
}

/// A bundle without files.
pub fn new_small_file_bundle(task_id: &str, index: usize) -> (r: SmallFileBundle)
    ensures
        r@ == empty_bundle(task_id@, index as nat),
{
    let mut id = task_id.to_string();
    id.append("-bundle-");
    id.append(decimal::padded(decimal::dec_text(index as u128).as_str(), 6).as_str());
    let b = SmallFileBundle {
        bundle_id: id,
        entries: Vec::new(),
        manifest: String::new(),
        payload: Vec::new(),
    };
    assert(entry_views(b.entries@) =~= Seq::empty());
    assert(b.manifest@ =~= Seq::empty());
    assert(b.payload@ =~= Seq::empty());
    b
}

/// Whether a bundle has room for a file: an empty one always, another up to its number of files
/// and of bytes.
pub open spec fn has_room(b: BundleView, f: LocalFileView) -> bool {
    b.entries.len() == 0 || (b.entries.len() < 4096 && b.payload.len() + f.size_bytes <= 67108864)
}

/// Whether a bundle has room for a file.
pub fn small_file_bundle_can_accept(bundle: &SmallFileBundle, file: &LocalTransferFile) -> (r: bool)
    ensures
        r == has_room(bundle@, file@),
{
    if bundle.entries.len() == 0 {
        return true;
    }
    bundle.entries.len() < sizing::small_file_bundle_max_files() && bundle.payload.len() as u128
        + file.size_bytes as u128 <= sizing::small_file_bundle_max_bytes() as u128
}

/// The line of a file in a manifest.
pub open spec fn file_line(path: Seq<char>, size: u64, modified: u64) -> Seq<char> {
    "F\t"@ + codec::path_arg(path) + "\t"@ + decimal::dec(size as nat) + "\t"@ + decimal::dec(
        modified as nat,
    ) + "\n"@
}

/// The path of a file within a bundle, if it is safe.
pub open spec fn bundle_path(f: LocalFileView) -> Result<Seq<char>, Seq<char>> {
    if paths::agent_path(f.relative_path).len() == 0 {
        Err("bundle relative path is not safe: "@ + f.relative_path)
    } else {
        Ok(paths::agent_path(f.relative_path))
    }
}

/// The path of a file within a bundle, if it is safe.
pub fn bundle_path_of(file: &LocalTransferFile) -> (r: Result<String, String>)
    ensures
        crate::adb_command::outcome_view(r) == bundle_path(file@),
{
    let path = paths::sanitize_agent_relative_path(file.relative_path.as_str());
    if path.as_str().is_empty() {
        let mut m = "bundle relative path is not safe: ".to_string();
        m.append(file.relative_path.as_str());
        return Err(m);
    }
    Ok(path)
}

/// A bundle with one more file, of which the size was looked up again and the bytes read.
pub open spec fn with_file(
    b: BundleView,
    f: LocalFileView,
    actual_size: u64,
    modified: u64,
    bytes: Seq<u8>,
) -> Result<BundleView, Seq<char>> {
    match bundle_path(f) {
        Err(m) => Err(m),
        Ok(path) => if actual_size != f.size_bytes {
            Err(
                "file size changed while bundling "@ + f.local_path + ": expected "@ + decimal::dec(
                    f.size_bytes as nat,
                ) + " actual "@ + decimal::dec(actual_size as nat),
            )
        } else {
            Ok(
                BundleView {
                    bundle_id: b.bundle_id,
                    entries: b.entries.push(
                        EntryView { file: f, relative_path: path, size_bytes: actual_size },
                    ),
                    manifest: b.manifest + file_line(path, actual_size, modified),
                    payload: b.payload + bytes,
                },
            )
        },
    }
}

/// Adds a file to a bundle, unless its path is not safe or its size changed.
pub fn add_file_to_small_file_bundle(
    bundle: &mut SmallFileBundle,
    file: LocalTransferFile,
    actual_size: u64,
    modified_at_epoch_ms: u64,
    bytes: &Vec<u8>,
) -> (r: Result<(), String>)
    ensures
        match (
            r,
            with_file(old(bundle)@, file@, actual_size, modified_at_epoch_ms, bytes@),
        ) {
            (Ok(_), Ok(b)) => final(bundle)@ == b,
            (Err(m), Err(e)) => m@ == e && final(bundle)@ == old(bundle)@,
            _ => false,
        },
{
    let path = match bundle_path_of(&file) {
        Err(m) => {
            return Err(m);
        },
        Ok(p) => p,
    };
    if actual_size != file.size_bytes {
        let mut m = "file size changed while bundling ".to_string();
        m.append(file.local_path.as_str());
        m.append(": expected ");
        m.append(decimal::dec_text(file.size_bytes as u128).as_str());
        m.append(" actual ");
        m.append(decimal::dec_text(actual_size as u128).as_str());
        return Err(m);
    }
    let ghost start = bundle@;
    let mut line = "F\t".to_string();
    line.append(codec::encode_path_arg(path.as_str()).as_str());
    line.append("\t");
    line.append(decimal::dec_text(actual_size as u128).as_str());
    line.append("\t");
    line.append(decimal::dec_text(modified_at_epoch_ms as u128).as_str());
    line.append("\n");
    bundle.manifest.append(line.as_str());
    codec::push_bytes(&mut bundle.payload, bytes.as_slice());
    let entry = SmallFileBundleEntry { file, relative_path: path, size_bytes: actual_size };
    let ghost before = entry_views(bundle.entries@);
    bundle.entries.push(entry);
    assert(entry_views(bundle.entries@) == before.push(entry@));
    Ok(())
}

/// The bytes of a bundle are as many as its entries say, and it has no more of either than a
/// bundle may have.
pub open spec fn bundle_wf(b: BundleView) -> bool {
    &&& b.payload.len() == entry_bytes(b.entries)
    &&& b.entries.len() <= 4096
    &&& b.payload.len() <= 67108864
}

/// The bytes of entries, together.
pub open spec fn entry_bytes(entries: Seq<EntryView>) -> int
    decreases entries.len(),
{
    if entries.len() == 0 {
        0
    } else {
        entry_bytes(entries.drop_last()) + entries.last().size_bytes
    }
}

/// A bundle that takes a small file only where it has room for it never outgrows its limits, and
/// its bytes stay those of its entries, as long as a file has as many bytes as its size says.
pub proof fn lemma_bundle_stays_small(
    b: BundleView,
    f: LocalFileView,
    actual_size: u64,
    modified: u64,
    bytes: Seq<u8>,
)
    requires
        bundle_wf(b),
        is_candidate(f),
        has_room(b, f),
        bytes.len() == actual_size,
    ensures
        bundle_wf(empty_bundle(b.bundle_id, 0)),
        match with_file(b, f, actual_size, modified, bytes) {
            Ok(c) => bundle_wf(c),
            Err(_) => true,
        },
{
    match with_file(b, f, actual_size, modified, bytes) {
        Ok(c) => {
            assert(c.entries.drop_last() =~= b.entries);
            assert(b.entries.len() == 0 ==> entry_bytes(b.entries) == 0);
        },
        Err(_) => {},
    }
}

/// The lines of directories in a manifest, but for those without a safe path.
pub open spec fn directory_lines(dirs: Seq<Seq<char>>) -> Seq<char>
    decreases dirs.len(),
{
    if dirs.len() == 0 {
        Seq::empty()
    } else {
        let path = paths::agent_path(dirs.last());
        if path.len() == 0 {
            directory_lines(dirs.drop_last())
        } else {
            directory_lines(dirs.drop_last()) + ("D\t"@ + codec::path_arg(path) + "\n"@)
        }
    }
}

/// How many directories have a safe path.
pub open spec fn directory_count(dirs: Seq<Seq<char>>) -> nat
    decreases dirs.len(),
{
    if dirs.len() == 0 {
        0
    } else if paths::agent_path(dirs.last()).len() == 0 {
        directory_count(dirs.drop_last())
    } else {
        directory_count(dirs.drop_last()) + 1
    }
}

/// The manifest of directories, and how many it lists.
pub fn push_directory_bundle(directories: &Vec<LocalTransferDirectory>) -> (r: (String, usize))
    ensures
        r.0@ == directory_lines(manifest::directory_paths(directories@)),
        r.1 == directory_count(manifest::directory_paths(directories@)),
{
    let ghost all = manifest::directory_paths(directories@);
    let mut lines = String::new();
    let mut count: usize = 0;
    let mut i: usize = 0;
    assert(lines@ =~= directory_lines(all.take(0)));
    while i < directories.len()
        invariant
            i <= directories.len(),
            all == manifest::directory_paths(directories@),
            lines@ == directory_lines(all.take(i as int)),
            count == directory_count(all.take(i as int)),
            count <= i,
        decreases directories.len() - i,
    {
        assert(all.take(i + 1).drop_last() =~= all.take(i as int));
        assert(all[i as int] == directories@[i as int].relative_path@);
        let path = paths::sanitize_agent_relative_path(directories[i].relative_path.as_str());
        if !path.as_str().is_empty() {
            let mut line = "D\t".to_string();
            line.append(codec::encode_path_arg(path.as_str()).as_str());
            line.append("\n");
            lines.append(line.as_str());
            count += 1;
        }
        i += 1;
    }
    assert(all.take(all.len() as int) =~= all);
    (lines, count)
}

/// A file is small enough for a bundle up to 64 MiB. A bundle takes a file if it is empty, or else as
/// long as it has fewer than 4096 files and no more than 64 MiB with the file.
pub proof fn lemma_bundles_have_these_limits(b: BundleView, f: LocalFileView)
    ensures
        is_candidate(f) <==> f.size_bytes <= 64 * 1024 * 1024,
        b.entries.len() == 0 ==> has_room(b, f),
        b.entries.len() >= 4096 ==> !has_room(b, f),
        0 < b.entries.len() < 4096 ==> (has_room(b, f) <==> b.payload.len() + f.size_bytes <= 64
            * 1024 * 1024),
{
}

/// A file is added to a bundle exactly where its path is safe and its size has not changed. Then its
/// bytes stand behind those of the files before it, its line behind theirs, and it is the last entry;
/// nothing that was there changes.
pub proof fn lemma_file_is_added_behind_the_others(
    b: BundleView,
    f: LocalFileView,
    actual_size: u64,
    modified: u64,
    bytes: Seq<u8>,
)
    ensures
        with_file(b, f, actual_size, modified, bytes) is Ok <==> paths::agent_path(
            f.relative_path,
        ).len() > 0 && actual_size == f.size_bytes,
        with_file(b, f, actual_size, modified, bytes) matches Ok(c) ==> {
            let line = "F\t"@ + codec::path_arg(paths::agent_path(f.relative_path)) + "\t"@
                + decimal::dec(f.size_bytes as nat) + "\t"@ + decimal::dec(modified as nat)
                + "\n"@;
            &&& c.bundle_id == b.bundle_id
            &&& c.payload.len() == b.payload.len() + bytes.len()
            &&& c.payload.take(b.payload.len() as int) == b.payload
            &&& c.payload.skip(b.payload.len() as int) == bytes
            &&& c.manifest.take(b.manifest.len() as int) == b.manifest
            &&& c.manifest.skip(b.manifest.len() as int) == line
            &&& c.entries.len() == b.entries.len() + 1
            &&& c.entries.drop_last() == b.entries
            &&& c.entries.last().file == f
            &&& c.entries.last().relative_path == paths::agent_path(f.relative_path)
            &&& c.entries.last().size_bytes == f.size_bytes
        },
{
    if let Ok(c) = with_file(b, f, actual_size, modified, bytes) {
        assert(c.payload.take(b.payload.len() as int) =~= b.payload);
        assert(c.payload.skip(b.payload.len() as int) =~= bytes);
        assert(c.manifest.take(b.manifest.len() as int) =~= b.manifest);
        assert(c.manifest.skip(b.manifest.len() as int) =~= file_line(
            paths::agent_path(f.relative_path),
            actual_size,
            modified,
        ));
        assert(c.entries.drop_last() =~= b.entries);
    }
}

/// A new bundle holds nothing, and its name tells the task and its number.
pub proof fn lemma_new_bundle_is_empty(task_id: Seq<char>, index: nat)
    ensures
        ({
            let b = empty_bundle(task_id, index);
            &&& b.entries.len() == 0 && b.manifest.len() == 0 && b.payload.len() == 0
            &&& b.bundle_id == task_id + "-bundle-"@ + decimal::pad(decimal::dec(index), 6)
        }),
{
}

/// Every directory with a safe path has its line, in order, and no other has one.
pub proof fn lemma_safe_directories_have_lines(dirs: Seq<Seq<char>>, d: Seq<char>)
    ensures
        paths::agent_path(d).len() > 0 ==> directory_lines(dirs.push(d)) == directory_lines(dirs)
            + ("D\t"@ + codec::path_arg(paths::agent_path(d)) + "\n"@) && directory_count(
            dirs.push(d),
        ) == directory_count(dirs) + 1,
        paths::agent_path(d).len() == 0 ==> directory_lines(dirs.push(d)) == directory_lines(dirs)
            && directory_count(dirs.push(d)) == directory_count(dirs),
        directory_lines(Seq::empty()).len() == 0,
        directory_count(Seq::empty()) == 0,
{
    assert(dirs.push(d).drop_last() =~= dirs);
}

} // verus!
