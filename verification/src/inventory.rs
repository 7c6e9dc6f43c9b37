//! The list of files that a selection of paths stands for.

use crate::checkpoint;
use crate::decimal;
use crate::engine_task;
use crate::models;
use crate::models::{FileFingerprint, FileFingerprintView, TransferItem, TransferItemView};
use crate::order;
use crate::order::Rank;
use crate::text;
use vstd::prelude::*;

verus! {

/// Why the list could not be made.
#[derive(Debug, PartialEq, Eq)]
pub enum InventoryBuildError {
    MissingPath(String),
    Io(String),
    InvalidSourceRoot(String),
}

pub enum InventoryErrorView {
    MissingPath(Seq<char>),
    Io(Seq<char>),
    InvalidSourceRoot(Seq<char>),
}

impl View for InventoryBuildError {
    type V = InventoryErrorView;

    open spec fn view(&self) -> InventoryErrorView {
        match self {
            InventoryBuildError::MissingPath(p) => InventoryErrorView::MissingPath(p@),
            InventoryBuildError::Io(m) => InventoryErrorView::Io(m@),
            InventoryBuildError::InvalidSourceRoot(p) => InventoryErrorView::InvalidSourceRoot(p@),
        }
    }
}

/// An error in words.
pub open spec fn error_text(e: InventoryErrorView) -> Seq<char> {
    match e {
        InventoryErrorView::MissingPath(p) => "missing path "@ + p,
        InventoryErrorView::Io(m) => m,
        InventoryErrorView::InvalidSourceRoot(p) => "invalid source root "@ + p,
    }
}

impl InventoryBuildError {
    /// The error in words.
    pub fn message(&self) -> (r: String)
        ensures
            r@ == error_text(self@),
    {
        match self {
            InventoryBuildError::MissingPath(p) => checkpoint::about("missing path ", p.as_str()),
            InventoryBuildError::Io(m) => m.clone(),
            InventoryBuildError::InvalidSourceRoot(p) => checkpoint::about(
                "invalid source root ",
                p.as_str(),
            ),
        }
    }
}

/// A file met on a walk: its canonical path, its size and, where it is known, the time of its
/// last change.
#[derive(Debug)]
pub struct ScannedFile {
    pub canonical_path: String,
    pub size_bytes: u64,
    pub modified_ms: Option<u128>,
}

/// One step of a walk through a directory tree.
#[derive(Debug)]
pub enum WalkStep {
    File(ScannedFile),
    Failed(String),
}

pub enum WalkStepView {
    File { path: Seq<char>, size: u64, modified: Option<u128> },
    Failed(Seq<char>),
}

impl View for WalkStep {
    type V = WalkStepView;

    open spec fn view(&self) -> WalkStepView {
        match self {
            WalkStep::File(f) => WalkStepView::File {
                path: f.canonical_path@,
                size: f.size_bytes,
                modified: f.modified_ms,
            },
            WalkStep::Failed(m) => WalkStepView::Failed(m@),
        }
    }
}

/// A selected path, resolved, and the walk from there if there is anything.
#[derive(Debug)]
pub struct SelectedScan {
    pub resolved: String,
    pub exists: bool,
    pub walk: Vec<WalkStep>,
}

pub struct SelectedScanView {
    pub resolved: Seq<char>,
    pub exists: bool,
    pub walk: Seq<WalkStepView>,
}

impl View for SelectedScan {
    type V = SelectedScanView;

    open spec fn view(&self) -> SelectedScanView {
        SelectedScanView {
            resolved: self.resolved@,
            exists: self.exists,
            walk: self.walk@.map_values(|s: WalkStep| s@),
        }
    }
}

/// What was found on disk: whether the source root is there, its canonical form, and the
/// selected paths.
#[derive(Debug)]
pub struct SourceScan {
    pub root_exists: bool,
    pub canonical_root: Result<String, String>,
    pub selected: Vec<SelectedScan>,
}

/// The fast fingerprint of a file, from its size and the time of its last change.
pub open spec fn fingerprint(size: u64, modified: Option<u128>) -> FileFingerprintView {
    FileFingerprintView {
        algorithm: "size-mtime"@,
        hex_digest: decimal::hex(size as nat) + "-"@ + decimal::hex(
            match modified {
                Some(m) => m as nat,
                None => 0,
            },
        ),
    }
}

/// The path below a root, if the path lies there.
pub open spec fn below_root(root: Seq<char>, path: Seq<char>) -> Option<Seq<char>> {
    let r = order::components(root);
    let p = order::components(path);
    if p.len() >= r.len() && p.take(r.len() as int) == r {
        Some(text::join(p.skip(r.len() as int), "/"@))
    } else {
        None
    }
}

/// The item of a file below the root.
pub open spec fn item_of(
    relative: Seq<char>,
    size: u64,
    modified: Option<u128>,
    now: u128,
) -> TransferItemView {
    TransferItemView {
        relative_path: relative,
        size_bytes: size,
        modified_at_epoch_ms: match modified {
            Some(m) => m,
            None => now,
        },
        fingerprint: Some(fingerprint(size, modified)),
    }
}

/// The items of a walk, or what first went wrong.
pub open spec fn walked(root: Seq<char>, walk: Seq<WalkStepView>, now: u128) -> Result<
    Seq<TransferItemView>,
    InventoryErrorView,
>
    decreases walk.len(),
{
    if walk.len() == 0 {
        Ok(Seq::empty())
    } else {
        match walked(root, walk.drop_last(), now) {
            Err(e) => Err(e),
            Ok(items) => match walk.last() {
                WalkStepView::Failed(m) => Err(InventoryErrorView::Io(m)),
                WalkStepView::File { path, size, modified } => match below_root(root, path) {
                    Some(relative) => Ok(items.push(item_of(relative, size, modified, now))),
                    None => Err(InventoryErrorView::InvalidSourceRoot(root)),
                },
            },
        }
    }
}

/// The items of all selected paths, in the order they were met, or what first went wrong.
pub open spec fn collected(root: Seq<char>, selected: Seq<SelectedScanView>, now: u128) -> Result<
    Seq<TransferItemView>,
    InventoryErrorView,
>
    decreases selected.len(),
{
    if selected.len() == 0 {
        Ok(Seq::empty())
    } else {
        match collected(root, selected.drop_last(), now) {
            Err(e) => Err(e),
            Ok(items) => if !selected.last().exists {
                Err(InventoryErrorView::MissingPath(selected.last().resolved))
            } else {
                match walked(root, selected.last().walk, now) {
                    Err(e) => Err(e),
                    Ok(more) => Ok(items + more),
                }
            },
        }
    }
}

/// Whether items stand in the order of their paths, no path twice.
pub open spec fn in_path_order(items: Seq<TransferItemView>) -> bool {
    forall|i: int, j: int|
        0 <= i < j < items.len() ==> order::path_lt(
            (#[trigger] items[i]).relative_path,
            (#[trigger] items[j]).relative_path,
        )
}

/// Whether the `k`-th item is the first with its path.
pub open spec fn is_first(items: Seq<TransferItemView>, k: int) -> bool {
    &&& 0 <= k < items.len()
    &&& forall|j: int|
        0 <= j < k ==> !order::same_path(
            (#[trigger] items[j]).relative_path,
            items[k].relative_path,
        )
}

/// Whether an item is the first with its path.
#[verifier::opaque]
pub open spec fn is_among_firsts(x: TransferItemView, items: Seq<TransferItemView>) -> bool {
    exists|k: int| #[trigger] is_first(items, k) && items[k] == x
}

/// Whether a path is one of those in a list.
#[verifier::opaque]
pub open spec fn is_listed(path: Seq<char>, list: Seq<TransferItemView>) -> bool {
    exists|i: int|
        0 <= i < list.len() && order::same_path((#[trigger] list[i]).relative_path, path)
}

/// Whether `out` holds, in the order of their paths, the first item of each path of `items`.
pub open spec fn sorted_firsts(out: Seq<TransferItemView>, items: Seq<TransferItemView>) -> bool {
    &&& in_path_order(out)
    &&& forall|i: int| 0 <= i < out.len() ==> is_among_firsts(#[trigger] out[i], items)
    &&& forall|k: int| 0 <= k < items.len() ==> is_listed((#[trigger] items[k]).relative_path, out)
}

/// Whether an outcome lists what a scan found.
pub open spec fn expanded(
    r: Result<Vec<TransferItem>, InventoryBuildError>,
    source_root: Seq<char>,
    scan: SourceScan,
    now: u128,
) -> bool {
    if !scan.root_exists {
        r is Err && r->Err_0@ == InventoryErrorView::InvalidSourceRoot(source_root)
    } else {
        match scan.canonical_root {
            Err(m) => r is Err && r->Err_0@ == InventoryErrorView::Io(m@),
            Ok(root) => match collected(
                root@,
                scan.selected@.map_values(|s: SelectedScan| s@),
                now,
            ) {
                Err(e) => r is Err && r->Err_0@ == e,
                Ok(items) => r is Ok && sorted_firsts(models::item_views(r->Ok_0@), items),
            },
        }
    }
}

/// The path below a root, if the path lies there.
pub fn relative_below(root: &str, path: &str) -> (r: Option<String>)
    ensures
        text::opt_view(r) == below_root(root@, path@),
{
    broadcast use text::lemma_views_push;

    let x = order::path_components(root);
    let y = order::path_components(path);
    let ghost p = text::views(x@);
    let ghost q = text::views(y@);
    if y.len() < x.len() {
        return None;
    }
    let mut i: usize = 0;
    while i < x.len()
        invariant
            i <= x.len() <= y.len(),
            p == text::views(x@),
            q == text::views(y@),
            p == order::components(root@),
            q == order::components(path@),
            forall|k: int| 0 <= k < i ==> p[k] == q[k],
        decreases x.len() - i,
    {
        assert(p[i as int] == x@[i as int]@ && q[i as int] == y@[i as int]@);
        if !text::str_eq(x[i].as_str(), y[i].as_str()) {
            assert(q.take(p.len() as int)[i as int] != p[i as int]);
            return None;
        }
        i += 1;
    }
    assert(q.take(p.len() as int) =~= p);
    let mut rest: Vec<String> = Vec::new();
    assert(text::views(rest@) =~= Seq::empty());
    assert(q.subrange(p.len() as int, i as int) =~= Seq::empty());
    while i < y.len()
        invariant
            x.len() <= i <= y.len(),
            p == text::views(x@),
            q == text::views(y@),
            text::views(rest@) == q.subrange(p.len() as int, i as int),
        decreases y.len() - i,
    {
        let ghost before = text::views(rest@);
        let part = y[i].clone();
        rest.push(part);
        assert(text::views(rest@) == before.push(part@));
        assert(text::views(rest@) =~= q.subrange(p.len() as int, i + 1));
        i += 1;
    }
    assert(text::views(rest@) =~= q.skip(p.len() as int));
    Some(text::join_texts(&rest, "/"))
}

/// The fast fingerprint of a file.
pub fn fast_fingerprint(size_bytes: u64, modified_ms: Option<u128>) -> (r: FileFingerprint)
    ensures
        r@ == fingerprint(size_bytes, modified_ms),
{
    let modified: u128 = match modified_ms {
        Some(m) => m,
        None => 0,
    };
    let mut hex_digest = decimal::hex_text(size_bytes as u128);
    hex_digest.append("-");
    hex_digest.append(decimal::hex_text(modified).as_str());
    FileFingerprint { algorithm: "size-mtime", hex_digest }
}

/// Adds the items of a walk to a list.
pub fn collect_items(
    source_root: &str,
    walk: &Vec<WalkStep>,
    now: u128,
    items: &mut Vec<TransferItem>,
) -> (r: Result<(), InventoryBuildError>)
    ensures
        match walked(source_root@, walk@.map_values(|s: WalkStep| s@), now) {
            Ok(more) => r is Ok && models::item_views(final(items)@) == models::item_views(
                old(items)@,
            ) + more,
            Err(e) => r is Err && r->Err_0@ == e,
        },
{
    let ghost w = walk@.map_values(|s: WalkStep| s@);
    let ghost start = models::item_views(items@);
    let mut i: usize = 0;
    let ghost mut more: Seq<TransferItemView> = Seq::empty();
    assert(start + more =~= start);
    while i < walk.len()
        invariant
            i <= walk.len(),
            w == walk@.map_values(|s: WalkStep| s@),
            walked(source_root@, w.take(i as int), now) == Ok::<
                Seq<TransferItemView>,
                InventoryErrorView,
            >(more),
            models::item_views(items@) == start + more,
        decreases walk.len() - i,
    {
        assert(w.take(i + 1).drop_last() =~= w.take(i as int));
        assert(w[i as int] == walk@[i as int]@);
        match &walk[i] {
            WalkStep::Failed(m) => {
                let e = InventoryBuildError::Io(m.clone());
                proof {
                    lemma_walk_stops(source_root@, w, i + 1, now, e@);
                }
                return Err(e);
            },
            WalkStep::File(f) => match relative_below(source_root, f.canonical_path.as_str()) {
                None => {
                    let e = InventoryBuildError::InvalidSourceRoot(source_root.to_string());
                    proof {
                        lemma_walk_stops(source_root@, w, i + 1, now, e@);
                    }
                    return Err(e);
                },
                Some(relative_path) => {
                    let ghost before = models::item_views(items@);
                    let item = TransferItem {
                        relative_path,
                        size_bytes: f.size_bytes,
                        modified_at_epoch_ms: match f.modified_ms {
                            Some(m) => m,
                            None => now,
                        },
                        fingerprint: Some(fast_fingerprint(f.size_bytes, f.modified_ms)),
                    };
                    proof {
                        more = more.push(item@);
                    }
                    items.push(item);
                    assert(models::item_views(items@) =~= before.push(item@));
                    assert(models::item_views(items@) =~= start + more);
                },
            },
        }
        i += 1;
    }
    assert(w.take(w.len() as int) =~= w);
    Ok(())
}

proof fn lemma_walk_stops(
    root: Seq<char>,
    w: Seq<WalkStepView>,
    i: int,
    now: u128,
    e: InventoryErrorView,
)
    requires
        0 <= i <= w.len(),
        walked(root, w.take(i), now) == Err::<Seq<TransferItemView>, InventoryErrorView>(e),
    ensures
        walked(root, w, now) == Err::<Seq<TransferItemView>, InventoryErrorView>(e),
    decreases w.len() - i,
{
    if i == w.len() {
        assert(w.take(i) =~= w);
    } else {
        assert(w.take(i + 1).drop_last() =~= w.take(i));
        lemma_walk_stops(root, w, i + 1, now, e);
    }
}

proof fn lemma_collect_stops(
    root: Seq<char>,
    s: Seq<SelectedScanView>,
    i: int,
    now: u128,
    e: InventoryErrorView,
)
    requires
        0 <= i <= s.len(),
        collected(root, s.take(i), now) == Err::<Seq<TransferItemView>, InventoryErrorView>(e),
    ensures
        collected(root, s, now) == Err::<Seq<TransferItemView>, InventoryErrorView>(e),
    decreases s.len() - i,
{
    if i == s.len() {
        assert(s.take(i) =~= s);
    } else {
        assert(s.take(i + 1).drop_last() =~= s.take(i));
        lemma_collect_stops(root, s, i + 1, now, e);
    }
}

fn place_of(list: &Vec<TransferItem>, path: &str) -> (r: usize)
    requires
        in_path_order(models::item_views(list@)),
    ensures
        r <= list.len(),
        forall|k: int| 0 <= k < r ==> order::path_lt((#[trigger] list@[k]).relative_path@, path@),
        forall|k: int|
            r <= k < list.len() ==> !order::path_lt((#[trigger] list@[k]).relative_path@, path@),
{
    let ghost views = models::item_views(list@);
    let mut lo: usize = 0;
    let mut hi: usize = list.len();
    while lo < hi
        invariant
            lo <= hi <= list.len(),
            views == models::item_views(list@),
            in_path_order(views),
            forall|k: int|
                0 <= k < lo ==> order::path_lt((#[trigger] list@[k]).relative_path@, path@),
            forall|k: int|
                hi <= k < list.len() ==> !order::path_lt(
                    (#[trigger] list@[k]).relative_path@,
                    path@,
                ),
        decreases hi - lo,
    {
        let mid: usize = lo + (hi - lo) / 2;
        match order::rank_paths(list[mid].relative_path.as_str(), path) {
            Rank::Before => {
                assert forall|k: int| 0 <= k < mid + 1 implies order::path_lt(
                    (#[trigger] list@[k]).relative_path@,
                    path@,
                ) by {
                    if k < mid {
                        assert(order::path_lt(views[k].relative_path, views[mid as int].relative_path));
                        order::lemma_list_lt_transitive(
                            order::components(list@[k].relative_path@),
                            order::components(list@[mid as int].relative_path@),
                            order::components(path@),
                        );
                    }
                }
                lo = mid + 1;
            },
            _ => {
                assert forall|k: int| mid <= k < list.len() implies !order::path_lt(
                    (#[trigger] list@[k]).relative_path@,
                    path@,
                ) by {
                    if k > mid && order::path_lt(list@[k].relative_path@, path@) {
                        assert(order::path_lt(views[mid as int].relative_path, views[k].relative_path));
                        order::lemma_list_lt_transitive(
                            order::components(list@[mid as int].relative_path@),
                            order::components(list@[k].relative_path@),
                            order::components(path@),
                        );
                    }
                }
                hi = mid;
            },
        }
    }
    lo
}

/// The first item of each path, in the order of the paths.
pub fn sort_and_dedup(items: &Vec<TransferItem>) -> (r: Vec<TransferItem>)
    ensures
        sorted_firsts(models::item_views(r@), models::item_views(items@)),
{
    let ghost all = models::item_views(items@);
    let mut out: Vec<TransferItem> = Vec::new();
    let mut i: usize = 0;
    while i < items.len()
        invariant
            i <= items.len(),
            all == models::item_views(items@),
            sorted_firsts(models::item_views(out@), all.take(i as int)),
        decreases items.len() - i,
    {
        let item = items[i].clone();
        let ghost before = models::item_views(out@);
        let ghost next = all.take(i + 1);
        let ghost seen = all.take(i as int);
        assert(item@ == all[i as int]);
        let at: usize = place_of(&out, item.relative_path.as_str());
        let ghost new_path = item@.relative_path;
        assert forall|k: int| 0 <= k < at implies order::path_lt(
            (#[trigger] before[k]).relative_path,
            new_path,
        ) by {
            assert(before[k] == out@[k]@);
        }
        assert forall|k: int| at <= k < before.len() implies !order::path_lt(
            (#[trigger] before[k]).relative_path,
            new_path,
        ) by {
            assert(before[k] == out@[k]@);
        }
        let present = at < out.len() && match order::rank_paths(
            out[at].relative_path.as_str(),
            item.relative_path.as_str(),
        ) {
            Rank::Same => true,
            _ => false,
        };
        if present {
            proof {
                lemma_keep(before, seen, next, i as int, at as int);
            }
        } else {
            out.insert(at, item);
            proof {
                assert(models::item_views(out@) =~= before.insert(at as int, item@));
                lemma_add(before, seen, next, i as int, at as int);
            }
        }
        i += 1;
    }
    assert(all.take(all.len() as int) =~= all);
    out
}

/// The bytes of the files that a walk meets.
pub open spec fn walk_bytes(walk: Seq<WalkStepView>) -> nat
    decreases walk.len(),
{
    if walk.len() == 0 {
        0
    } else {
        walk_bytes(walk.drop_last()) + match walk.last() {
            WalkStepView::File { size, .. } => size as nat,
            WalkStepView::Failed(_) => 0,
        }
    }
}

/// The bytes of the files that the walks of all selected paths meet.
pub open spec fn listed_bytes(selected: Seq<SelectedScanView>) -> nat
    decreases selected.len(),
{
    if selected.len() == 0 {
        0
    } else {
        listed_bytes(selected.drop_last()) + walk_bytes(selected.last().walk)
    }
}

fn total_walked(walk: &Vec<WalkStep>, start: u64) -> (r: Option<u64>)
    ensures
        ({
            let n = start + walk_bytes(walk@.map_values(|w: WalkStep| w@));
            match r {
                Some(b) => b == n,
                None => n > u64::MAX,
            }
        }),
{
    let ghost views = walk@.map_values(|w: WalkStep| w@);
    let mut sum: u64 = start;
    let mut i: usize = 0;
    while i < walk.len()
        invariant
            i <= walk.len(),
            views == walk@.map_values(|w: WalkStep| w@),
            sum == start + walk_bytes(views.take(i as int)),
        decreases walk.len() - i,
    {
        assert(views.take(i + 1).drop_last() =~= views.take(i as int));
        assert(views[i as int] == walk@[i as int]@);
        let size: u64 = match &walk[i] {
            WalkStep::File(f) => f.size_bytes,
            WalkStep::Failed(_) => 0,
        };
        if size > u64::MAX - sum {
            proof {
                lemma_walk_bytes_grow(views, i + 1);
            }
            return None;
        }
        sum += size;
        i += 1;
    }
    assert(views.take(views.len() as int) =~= views);
    Some(sum)
}

/// The bytes of the files that the walks of all selected paths meet, where they fit.
pub fn total_listed(selected: &Vec<SelectedScan>) -> (r: Option<u64>)
    ensures
        ({
            let n = listed_bytes(selected@.map_values(|s: SelectedScan| s@));
            match r {
                Some(b) => b == n,
                None => n > u64::MAX,
            }
        }),
{
    let ghost views = selected@.map_values(|s: SelectedScan| s@);
    let mut sum: u64 = 0;
    let mut i: usize = 0;
    while i < selected.len()
        invariant
            i <= selected.len(),
            views == selected@.map_values(|s: SelectedScan| s@),
            sum == listed_bytes(views.take(i as int)),
        decreases selected.len() - i,
    {
        assert(views.take(i + 1).drop_last() =~= views.take(i as int));
        assert(views[i as int] == selected@[i as int]@);
        match total_walked(&selected[i].walk, sum) {
            Some(b) => {
                sum = b;
            },
            None => {
                proof {
                    lemma_listed_bytes_grow(views, i + 1);
                }
                return None;
            },
        }
        i += 1;
    }
    assert(views.take(views.len() as int) =~= views);
    Some(sum)
}

proof fn lemma_walk_bytes_grow(walk: Seq<WalkStepView>, i: int)
    requires
        0 <= i <= walk.len(),
    ensures
        walk_bytes(walk.take(i)) <= walk_bytes(walk),
    decreases walk.len() - i,
{
    if i == walk.len() {
        assert(walk.take(i) =~= walk);
    } else {
        lemma_walk_bytes_grow(walk, i + 1);
        assert(walk.take(i + 1).drop_last() =~= walk.take(i));
    }
}

proof fn lemma_listed_bytes_grow(selected: Seq<SelectedScanView>, i: int)
    requires
        0 <= i <= selected.len(),
    ensures
        listed_bytes(selected.take(i)) <= listed_bytes(selected),
    decreases selected.len() - i,
{
    if i == selected.len() {
        assert(selected.take(i) =~= selected);
    } else {
        lemma_listed_bytes_grow(selected, i + 1);
        assert(selected.take(i + 1).drop_last() =~= selected.take(i));
    }
}

proof fn lemma_walked_bytes(root: Seq<char>, walk: Seq<WalkStepView>, now: u128)
    ensures
        walked(root, walk, now) matches Ok(items) ==> engine_task::total_size(items) == walk_bytes(
            walk,
        ),
    decreases walk.len(),
{
    if walk.len() > 0 {
        lemma_walked_bytes(root, walk.drop_last(), now);
        if let Ok(items) = walked(root, walk, now) {
            let head = walked(root, walk.drop_last(), now)->Ok_0;
            assert(items.drop_last() =~= head);
        }
    }
}

proof fn lemma_total_joined(a: Seq<TransferItemView>, b: Seq<TransferItemView>)
    ensures
        engine_task::total_size(a + b) == engine_task::total_size(a) + engine_task::total_size(b),
    decreases b.len(),
{
    if b.len() == 0 {
        assert(a + b =~= a);
    } else {
        lemma_total_joined(a, b.drop_last());
        assert((a + b).drop_last() =~= a + b.drop_last());
    }
}

/// The items of a scan have the bytes that the scan lists.
pub proof fn lemma_collected_bytes(root: Seq<char>, selected: Seq<SelectedScanView>, now: u128)
    ensures
        collected(root, selected, now) matches Ok(items) ==> engine_task::total_size(items)
            == listed_bytes(selected),
    decreases selected.len(),
{
    if selected.len() > 0 {
        lemma_collected_bytes(root, selected.drop_last(), now);
        lemma_walked_bytes(root, selected.last().walk, now);
        if let Ok(items) = collected(root, selected, now) {
            let head = collected(root, selected.drop_last(), now)->Ok_0;
            let more = walked(root, selected.last().walk, now)->Ok_0;
            lemma_total_joined(head, more);
        }
    }
}

proof fn lemma_total_without(items: Seq<TransferItemView>, k: int)
    requires
        0 <= k < items.len(),
    ensures
        engine_task::total_size(items) == engine_task::total_size(items.remove(k))
            + items[k].size_bytes,
    decreases items.len(),
{
    if k == items.len() - 1 {
        assert(items.remove(k) =~= items.drop_last());
    } else {
        lemma_total_without(items.drop_last(), k);
        assert(items.remove(k).drop_last() =~= items.drop_last().remove(k));
    }
}

proof fn lemma_ordered_members_are_no_more(
    out: Seq<TransferItemView>,
    items: Seq<TransferItemView>,
)
    requires
        in_path_order(out),
        forall|i: int| 0 <= i < out.len() ==> items.contains(#[trigger] out[i]),
    ensures
        engine_task::total_size(out) <= engine_task::total_size(items),
    decreases out.len(),
{
    if out.len() > 0 {
        let last = out.last();
        let head = out.drop_last();
        assert(items.contains(out[out.len() - 1]));
        let k = choose|k: int| 0 <= k < items.len() && items[k] == last;
        let rest = items.remove(k);
        assert forall|i: int| 0 <= i < head.len() implies rest.contains(#[trigger] head[i]) by {
            assert(head[i] == out[i]);
            assert(items.contains(out[i]));
            let j = choose|j: int| 0 <= j < items.len() && items[j] == out[i];
            assert(order::path_lt(out[i].relative_path, out[out.len() - 1].relative_path));
            order::lemma_list_lt_irreflexive(order::components(last.relative_path));
            assert(j != k);
            assert(rest[if j < k {
                j
            } else {
                j - 1
            }] == out[i]);
        }
        assert(in_path_order(head)) by {
            assert forall|i: int, j: int| 0 <= i < j < head.len() implies order::path_lt(
                (#[trigger] head[i]).relative_path,
                (#[trigger] head[j]).relative_path,
            ) by {
                assert(order::path_lt(out[i].relative_path, out[j].relative_path));
            }
        }
        lemma_ordered_members_are_no_more(head, rest);
        lemma_total_without(items, k);
    }
}

/// The first items of all paths have no more bytes than all items.
pub proof fn lemma_firsts_are_no_more(out: Seq<TransferItemView>, items: Seq<TransferItemView>)
    requires
        sorted_firsts(out, items),
    ensures
        engine_task::total_size(out) <= engine_task::total_size(items),
{
    assert forall|i: int| 0 <= i < out.len() implies items.contains(#[trigger] out[i]) by {
        assert(is_among_firsts(out[i], items));
        reveal(is_among_firsts);
        let k = choose|k: int| #[trigger] is_first(items, k) && items[k] == out[i];
        assert(items[k] == out[i]);
    }
    lemma_ordered_members_are_no_more(out, items);
}

proof fn lemma_listed(path: Seq<char>, list: Seq<TransferItemView>, i: int)
    requires
        0 <= i < list.len(),
        order::same_path(list[i].relative_path, path),
    ensures
        is_listed(path, list),
{
    reveal(is_listed);
}

proof fn lemma_listed_at(path: Seq<char>, list: Seq<TransferItemView>) -> (i: int)
    requires
        is_listed(path, list),
    ensures
        0 <= i < list.len(),
        order::same_path(list[i].relative_path, path),
{
    reveal(is_listed);
    choose|i: int|
        0 <= i < list.len() && order::same_path((#[trigger] list[i]).relative_path, path)
}

proof fn lemma_firsts_stay(
    seen: Seq<TransferItemView>,
    next: Seq<TransferItemView>,
    x: TransferItemView,
)
    requires
        next.len() == seen.len() + 1,
        forall|j: int| 0 <= j < seen.len() ==> #[trigger] next[j] == seen[j],
        is_among_firsts(x, seen),
    ensures
        is_among_firsts(x, next),
{
    reveal(is_among_firsts);
    let k = choose|k: int| #[trigger] is_first(seen, k) && seen[k] == x;
    assert forall|j: int| 0 <= j < k implies !order::same_path(
        (#[trigger] next[j]).relative_path,
        next[k].relative_path,
    ) by {
        assert(next[j] == seen[j] && next[k] == seen[k]);
    }
    assert(is_first(next, k));
}

proof fn lemma_keep(
    before: Seq<TransferItemView>,
    seen: Seq<TransferItemView>,
    next: Seq<TransferItemView>,
    i: int,
    at: int,
)
    requires
        sorted_firsts(before, seen),
        seen.len() == i,
        next.len() == i + 1,
        forall|j: int| 0 <= j < i ==> #[trigger] next[j] == seen[j],
        0 <= at < before.len(),
        order::same_path(before[at].relative_path, next[i].relative_path),
    ensures
        sorted_firsts(before, next),
{
    assert forall|a: int| 0 <= a < before.len() implies is_among_firsts(
        #[trigger] before[a],
        next,
    ) by {
        lemma_firsts_stay(seen, next, before[a]);
    }
    assert forall|k: int| 0 <= k < next.len() implies is_listed(
        (#[trigger] next[k]).relative_path,
        before,
    ) by {
        if k < i {
            assert(next[k] == seen[k]);
        } else {
            lemma_listed(next[k].relative_path, before, at);
        }
    }
}

proof fn lemma_after(before: Seq<TransferItemView>, x: TransferItemView, at: int)
    requires
        in_path_order(before),
        0 <= at <= before.len(),
        at < before.len() ==> !order::same_path(before[at].relative_path, x.relative_path),
        forall|k: int|
            0 <= k < at ==> order::path_lt((#[trigger] before[k]).relative_path, x.relative_path),
        forall|k: int|
            at <= k < before.len() ==> !order::path_lt(
                (#[trigger] before[k]).relative_path,
                x.relative_path,
            ),
    ensures
        forall|k: int|
            at <= k < before.len() ==> order::path_lt(
                x.relative_path,
                (#[trigger] before[k]).relative_path,
            ),
        in_path_order(before.insert(at, x)),
{
    let xp = order::components(x.relative_path);
    let after = before.insert(at, x);
    assert forall|k: int| at <= k < before.len() implies order::path_lt(
        x.relative_path,
        (#[trigger] before[k]).relative_path,
    ) by {
        let ap = order::components(before[at].relative_path);
        order::lemma_list_lt_total(xp, ap);
        assert(order::path_lt(x.relative_path, before[at].relative_path));
        if k > at {
            assert(order::path_lt(before[at].relative_path, before[k].relative_path));
            order::lemma_list_lt_transitive(xp, ap, order::components(before[k].relative_path));
        }
    }
    assert forall|a: int, b: int| 0 <= a < b < after.len() implies order::path_lt(
        (#[trigger] after[a]).relative_path,
        (#[trigger] after[b]).relative_path,
    ) by {
        let oa = if a < at {
            a
        } else {
            a - 1
        };
        let ob = if b < at {
            b
        } else {
            b - 1
        };
        if a == at {
            assert(after[b] == before[ob]);
        } else if b == at {
            assert(after[a] == before[oa]);
        } else {
            assert(after[a] == before[oa] && after[b] == before[ob]);
        }
    }
}

proof fn lemma_add(
    before: Seq<TransferItemView>,
    seen: Seq<TransferItemView>,
    next: Seq<TransferItemView>,
    i: int,
    at: int,
)
    requires
        sorted_firsts(before, seen),
        seen.len() == i,
        next.len() == i + 1,
        forall|j: int| 0 <= j < i ==> #[trigger] next[j] == seen[j],
        0 <= at <= before.len(),
        at < before.len() ==> !order::same_path(before[at].relative_path, next[i].relative_path),
        forall|k: int|
            0 <= k < at ==> order::path_lt(
                (#[trigger] before[k]).relative_path,
                next[i].relative_path,
            ),
        forall|k: int|
            at <= k < before.len() ==> !order::path_lt(
                (#[trigger] before[k]).relative_path,
                next[i].relative_path,
            ),
    ensures
        sorted_firsts(before.insert(at, next[i]), next),
{
    let x = next[i];
    let xp = order::components(x.relative_path);
    let after = before.insert(at, x);
    lemma_after(before, x, at);
    assert(is_among_firsts(x, next)) by {
        reveal(is_among_firsts);
        assert forall|j: int| 0 <= j < i implies !order::same_path(
            (#[trigger] next[j]).relative_path,
            next[i].relative_path,
        ) by {
            assert(next[j] == seen[j]);
            let a = lemma_listed_at(seen[j].relative_path, before);
            if order::same_path(next[j].relative_path, x.relative_path) {
                assert(order::components(before[a].relative_path) == xp);
                order::lemma_list_lt_irreflexive(xp);
                if a < at {
                    assert(order::path_lt(before[a].relative_path, x.relative_path));
                } else {
                    assert(order::path_lt(x.relative_path, before[a].relative_path));
                }
            }
        }
        assert(is_first(next, i));
    }
    assert forall|a: int| 0 <= a < after.len() implies is_among_firsts(#[trigger] after[a], next) by {
        if a != at {
            let oa = if a < at {
                a
            } else {
                a - 1
            };
            assert(after[a] == before[oa]);
            lemma_firsts_stay(seen, next, before[oa]);
        }
    }
    assert forall|k: int| 0 <= k < next.len() implies is_listed(
        (#[trigger] next[k]).relative_path,
        after,
    ) by {
        if k == i {
            assert(after[at] == x);
            lemma_listed(next[k].relative_path, after, at);
        } else {
            assert(next[k] == seen[k]);
            let a = lemma_listed_at(seen[k].relative_path, before);
            let na = if a < at {
                a
            } else {
                a + 1
            };
            assert(after[na] == before[a]);
            lemma_listed(next[k].relative_path, after, na);
        }
    }
}

/// The files that a selection stands for, by what a scan of the disk found.
pub fn expand_sources(source_root: &str, scan: &SourceScan, now: u128) -> (r: Result<
    Vec<TransferItem>,
    InventoryBuildError,
>)
    ensures
        expanded(r, source_root@, *scan, now),
{
    if !scan.root_exists {
        return Err(InventoryBuildError::InvalidSourceRoot(source_root.to_string()));
    }
    let root = match &scan.canonical_root {
        Ok(root) => root,
        Err(m) => {
            return Err(InventoryBuildError::Io(m.clone()));
        },
    };
    let selected = &scan.selected;
    let ghost s = selected@.map_values(|s: SelectedScan| s@);
    let mut items: Vec<TransferItem> = Vec::new();
    assert(models::item_views(items@) =~= Seq::empty());
    let mut i: usize = 0;
    while i < selected.len()
        invariant
            i <= selected.len(),
            s == selected@.map_values(|s: SelectedScan| s@),
            selected@ == scan.selected@,
            scan.root_exists,
            scan.canonical_root == Ok::<String, String>(*root),
            collected(root@, s.take(i as int), now) == Ok::<
                Seq<TransferItemView>,
                InventoryErrorView,
            >(models::item_views(items@)),
        decreases selected.len() - i,
    {
        assert(s.take(i + 1).drop_last() =~= s.take(i as int));
        assert(s[i as int] == selected@[i as int]@);
        if !selected[i].exists {
            let e = InventoryBuildError::MissingPath(selected[i].resolved.clone());
            proof {
                lemma_collect_stops(root@, s, i + 1, now, e@);
            }
            return Err(e);
        }
        match collect_items(root.as_str(), &selected[i].walk, now, &mut items) {
            Ok(_) => {},
            Err(e) => {
                proof {
                    lemma_collect_stops(root@, s, i + 1, now, e@);
                }
                return Err(e);
            },
        }
        i += 1;
    }
    assert(s.take(s.len() as int) =~= s);
    Ok(sort_and_dedup(&items))
}

proof fn lemma_hex_lacks_hyphen(n: nat)
    ensures
        text::lacks(decimal::hex(n), '-'),
{
    decimal::lemma_hex_has_small_letters(n);
}

/// A fingerprint gives back the file's size and the time of its last change, as hexadecimal
/// numbers before and after its only hyphen. A file without a time counts as one of time zero.
pub proof fn lemma_fingerprint_tells_size_and_time(size: u64, modified: Option<u128>)
    ensures
        fingerprint(size, modified).algorithm == "size-mtime"@,
        fingerprint(size, None) == fingerprint(size, Some(0)),
        text::split_on(fingerprint(size, modified).hex_digest, '-') == seq![
            decimal::hex(size as nat),
            decimal::hex(
                match modified {
                    Some(m) => m as nat,
                    None => 0,
                },
            ),
        ],
{
    let a = decimal::hex(size as nat);
    let b = decimal::hex(
        match modified {
            Some(m) => m as nat,
            None => 0,
        },
    );
    lemma_hex_lacks_hyphen(size as nat);
    lemma_hex_lacks_hyphen(
        match modified {
            Some(m) => m as nat,
            None => 0,
        },
    );
    reveal_strlit("-");
    assert("-"@ =~= seq!['-']);
    text::lemma_split_append(a, b, '-');
    text::lemma_split_none(a, '-');
    assert(seq![a].push(b) =~= seq![a, b]);
}

/// A path lies below a root if and only if its names begin with those of the root: a name behind
/// a root is what stands below it, and a path with fewer names or another name in their place
/// does not lie there.
pub proof fn lemma_names_below_a_root(root: Seq<char>, path: Seq<char>, name: Seq<char>)
    requires
        name.len() > 0,
        name != "."@,
        text::lacks(name, '/'),
    ensures
        below_root(root, root) == Some(Seq::<char>::empty()),
        below_root(root, root + seq!['/'] + name) == Some(name),
        order::components(path).len() < order::components(root).len() ==> below_root(root, path)
            is None,
        forall|k: int|
            0 <= k < order::components(root).len() && k < order::components(path).len()
                && #[trigger] order::components(root)[k] != order::components(path)[k]
                ==> below_root(root, path) is None,
        below_root(root, path) is Some && below_root(root, path)->0.len() > 0 ==> below_root(
            root,
            path + seq!['/'] + name,
        ) == Some(below_root(root, path)->0 + seq!['/'] + name),
{
    let r = order::components(root);
    let p = order::components(path);
    reveal_strlit("/");
    assert("/"@ =~= seq!['/']);
    text::lemma_split_append(root, name, '/');
    let pieces = text::split_on(root, '/');
    assert(pieces.push(name).drop_last() =~= pieces);
    assert(order::components(root + seq!['/'] + name) == r.push(name));
    assert(r.push(name).take(r.len() as int) =~= r);
    assert(r.push(name).skip(r.len() as int) =~= seq![name]);
    assert(r.take(r.len() as int) =~= r);
    assert(r.skip(r.len() as int) =~= Seq::<Seq<char>>::empty());
    reveal_with_fuel(text::join, 2);
    assert(seq![name].len() == 1);
    assert forall|k: int|
        0 <= k < r.len() && k < p.len() && #[trigger] r[k] != p[k] implies below_root(root, path)
        is None by {
        if p.len() >= r.len() && p.take(r.len() as int) == r {
            assert(p.take(r.len() as int)[k] == p[k]);
        }
    }
    if below_root(root, path) is Some && below_root(root, path)->0.len() > 0 {
        text::lemma_split_append(path, name, '/');
        let more = text::split_on(path, '/');
        assert(more.push(name).drop_last() =~= more);
        assert(order::components(path + seq!['/'] + name) == p.push(name));
        assert(p.push(name).take(r.len() as int) =~= p.take(r.len() as int));
        let rest = p.skip(r.len() as int);
        assert(p.push(name).skip(r.len() as int) =~= rest.push(name));
        assert(rest.len() > 0) by {
            if rest.len() == 0 {
                assert(text::join(rest, "/"@).len() == 0);
            }
        }
        assert(rest.push(name).drop_last() =~= rest);
    }
}

/// Every file that a walk meets is listed once, in the order of the walk, with its own size and
/// time and with its path below the root. A walk that fails at a step, or meets a file that does
/// not lie below the root, is not listed at all.
pub proof fn lemma_every_walked_file_is_listed(root: Seq<char>, walk: Seq<WalkStepView>, now: u128)
    ensures
        walked(root, walk, now) is Ok <==> forall|k: int|
            0 <= k < walk.len() ==> ((#[trigger] walk[k]) is File && below_root(
                root,
                walk[k]->File_path,
            ) is Some),
        walked(root, walk, now) matches Ok(items) ==> items.len() == walk.len() && forall|k: int|
            0 <= k < walk.len() ==> {
                &&& Some((#[trigger] items[k]).relative_path) == below_root(
                    root,
                    walk[k]->File_path,
                )
                &&& items[k].size_bytes == walk[k]->File_size
                &&& walk[k]->File_modified is Some ==> items[k].modified_at_epoch_ms
                    == walk[k]->File_modified->0
                &&& walk[k]->File_modified is None ==> items[k].modified_at_epoch_ms == now
                &&& items[k].fingerprint == Some(
                    fingerprint(walk[k]->File_size, walk[k]->File_modified),
                )
            },
    decreases walk.len(),
{
    if walk.len() > 0 {
        let d = walk.drop_last();
        lemma_every_walked_file_is_listed(root, d, now);
        assert forall|k: int| 0 <= k < d.len() implies #[trigger] d[k] == walk[k] by {}
        if walked(root, walk, now) is Ok {
            assert forall|k: int| 0 <= k < walk.len() implies ((#[trigger] walk[k]) is File
                && below_root(root, walk[k]->File_path) is Some) by {
                if k < d.len() {
                    assert(d[k] is File);
                }
            }
        }
        if forall|k: int|
            0 <= k < walk.len() ==> ((#[trigger] walk[k]) is File && below_root(
                root,
                walk[k]->File_path,
            ) is Some) {
            assert forall|k: int| 0 <= k < d.len() implies ((#[trigger] d[k]) is File && below_root(
                root,
                d[k]->File_path,
            ) is Some) by {
                assert(walk[k] is File);
            }
            assert(walk[walk.len() - 1] is File);
        }
    }
}

/// The files of a selection are those of its paths one behind the other, and there is a list only
/// if every path is there and every walk went through. Otherwise the first path that failed
/// decides the error, whatever follows it.
pub proof fn lemma_every_selected_path_counts(
    root: Seq<char>,
    selected: Seq<SelectedScanView>,
    more: Seq<SelectedScanView>,
    now: u128,
)
    ensures
        collected(root, selected, now) is Ok <==> forall|k: int|
            0 <= k < selected.len() ==> ((#[trigger] selected[k]).exists && walked(
                root,
                selected[k].walk,
                now,
            ) is Ok),
        collected(root, selected, now) is Err ==> collected(root, selected + more, now)
            == collected(root, selected, now),
        collected(root, selected, now) matches Ok(items) ==> match collected(root, more, now) {
            Ok(others) => collected(root, selected + more, now) == Ok::<
                Seq<TransferItemView>,
                InventoryErrorView,
            >(items + others),
            Err(e) => collected(root, selected + more, now) == Err::<
                Seq<TransferItemView>,
                InventoryErrorView,
            >(e),
        },
        selected.len() == 1 && !selected[0].exists ==> collected(root, selected, now) == Err::<
            Seq<TransferItemView>,
            InventoryErrorView,
        >(InventoryErrorView::MissingPath(selected[0].resolved)),
        selected.len() == 1 && selected[0].exists ==> collected(root, selected, now) == walked(
            root,
            selected[0].walk,
            now,
        ),
    decreases selected.len() + more.len(),
{
    let none = Seq::<SelectedScanView>::empty();
    if selected.len() > 0 {
        let d = selected.drop_last();
        lemma_every_selected_path_counts(root, d, none, now);
        assert forall|k: int| 0 <= k < d.len() implies #[trigger] d[k] == selected[k] by {}
        if collected(root, selected, now) is Ok {
            assert forall|k: int| 0 <= k < selected.len() implies ((#[trigger] selected[k]).exists
                && walked(root, selected[k].walk, now) is Ok) by {
                if k < d.len() {
                    assert(d[k].exists);
                }
            }
        }
        if forall|k: int|
            0 <= k < selected.len() ==> ((#[trigger] selected[k]).exists && walked(
                root,
                selected[k].walk,
                now,
            ) is Ok) {
            assert forall|k: int| 0 <= k < d.len() implies ((#[trigger] d[k]).exists && walked(
                root,
                d[k].walk,
                now,
            ) is Ok) by {
                assert(selected[k].exists);
            }
            assert(selected[selected.len() - 1].exists);
        }
    }
    if selected.len() == 1 {
        assert(selected.drop_last() =~= none);
        assert(collected(root, none, now) == Ok::<Seq<TransferItemView>, InventoryErrorView>(
            Seq::empty(),
        ));
        if let Ok(items) = walked(root, selected[0].walk, now) {
            assert(Seq::<TransferItemView>::empty() + items =~= items);
        }
    }
    if more.len() > 0 {
        let m = more.drop_last();
        lemma_every_selected_path_counts(root, selected, m, now);
        assert((selected + more).drop_last() =~= selected + m);
        assert((selected + more).last() == more.last());
        if collected(root, selected, now) is Ok && collected(root, more, now) is Ok {
            let a = collected(root, selected, now)->Ok_0;
            let b = collected(root, m, now)->Ok_0;
            let c = walked(root, more.last().walk, now)->Ok_0;
            assert((a + b) + c =~= a + (b + c));
        }
    } else {
        assert(selected + more =~= selected);
        if let Ok(items) = collected(root, selected, now) {
            assert(items + Seq::<TransferItemView>::empty() =~= items);
        }
    }
}

} // verus!
