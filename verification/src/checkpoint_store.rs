//! Which files a checkpoint directory holds and what they are to contain.

use crate::checkpoint;
use crate::checkpoint::{CheckpointEntry, CheckpointError};
use crate::checkpoint_text;
use crate::order;
use crate::text;
use vstd::prelude::*;

verus! {

/// A directory of checkpoints.
#[derive(Debug)]
pub struct CheckpointStore {
    root: String,
}

/// A file to be written: its name inside the checkpoint directory and its content.
#[derive(Debug, PartialEq, Eq)]
pub struct CheckpointFile {
    pub name: String,
    pub content: String,
}

/// The name of a task's checkpoint file.
pub open spec fn file_name(task_id: Seq<char>) -> Seq<char> {
    task_id + ".ckpt"@
}

/// Whether a file name has the checkpoint extension; a name that is nothing but the extension
/// has none.
pub open spec fn is_checkpoint_name(name: Seq<char>) -> bool {
    text::ends_with(name, ".ckpt"@) && name.len() > ".ckpt"@.len()
}

/// The task whose checkpoint a file name names.
pub open spec fn task_of_name(name: Seq<char>) -> Seq<char> {
    name.take(name.len() - ".ckpt"@.len())
}

/// Whether texts stand in order.
pub open spec fn in_order(s: Seq<Seq<char>>) -> bool {
    forall|i: int, j: int| 0 <= i < j < s.len() ==> !order::text_lt(#[trigger] s[j], #[trigger] s[i])
}

/// The checkpoint names among file names, without order.
pub open spec fn checkpoint_names(names: Seq<Seq<char>>) -> Seq<Seq<char>> {
    names.filter(|n: Seq<char>| is_checkpoint_name(n))
}

/// What comes of trying to load a file: a failed read is passed on, a text is read as an entry.
pub open spec fn loaded(
    r: Result<CheckpointEntry, CheckpointError>,
    read: Result<String, String>,
) -> bool {
    match read {
        Ok(content) => checkpoint_text::loaded_as(r, checkpoint_text::read_entry(content@)),
        Err(m) => r matches Err(CheckpointError::Io(e)) && e@ == m@,
    }
}

impl CheckpointStore {
    /// The directory.
    pub closed spec fn root_path(&self) -> Seq<char> {
        self.root@
    }

    /// The store in a directory.
    pub fn new(root: &str) -> (r: Self)
        ensures
            r.root_path() == root@,
    {
        CheckpointStore { root: root.to_string() }
    }

    /// The directory.
    pub fn root(&self) -> (r: &str)
        ensures
            r@ == self.root_path(),
    {
        self.root.as_str()
    }

    /// The file that holds an entry.
    pub fn persist(&self, entry: &CheckpointEntry) -> (r: CheckpointFile)
        ensures
            r.name@ == file_name(entry@.config.task_id),
            r.content@ == checkpoint_text::entry_text(entry@),
    {
        CheckpointFile {
            name: self.file_name_of(entry.config.task_id.as_str()),
            content: checkpoint_text::serialize_entry(entry),
        }
    }

    /// The name of the file that holds a task's entry.
    pub fn file_name_of(&self, task_id: &str) -> (r: String)
        ensures
            r@ == file_name(task_id@),
    {
        checkpoint::about(task_id, ".ckpt")
    }

    /// The entry that a file's content denotes; `read` is what reading the file gave.
    pub fn load(&self, read: Result<String, String>) -> (r: Result<
        CheckpointEntry,
        CheckpointError,
    >)
        ensures
            loaded(r, read),
    {
        match read {
            Ok(content) => checkpoint_text::deserialize_entry(content.as_str()),
            Err(m) => Err(CheckpointError::Io(m)),
        }
    }

    /// The checkpoint files among the names in the directory, in order.
    pub fn list(&self, names: &Vec<String>) -> (r: Vec<String>)
        ensures
            in_order(text::views(r@)),
            text::views(r@).to_multiset() == checkpoint_names(text::views(names@)).to_multiset(),
    {
        let keep = Ghost(|n: Seq<char>| is_checkpoint_name(n));
        let ghost all = text::views(names@);
        let mut out: Vec<String> = Vec::new();
        let mut i: usize = 0;
        assert(text::views(out@) =~= Seq::empty());
        assert(all.take(0).filter(keep@) =~= Seq::empty()) by {
            reveal(Seq::filter);
        }
        while i < names.len()
            invariant
                i <= names.len(),
                all == text::views(names@),
                keep@ == (|n: Seq<char>| is_checkpoint_name(n)),
                in_order(text::views(out@)),
                text::views(out@).to_multiset() == all.take(i as int).filter(keep@).to_multiset(),
            decreases names.len() - i,
        {
            let name = names[i].clone();
            proof {
                all.take(i as int).lemma_filter_push(name@, keep@);
                assert(all.take(i + 1) =~= all.take(i as int).push(name@));
                broadcast use vstd::seq_lib::group_to_multiset_ensures;

            }
            if has_checkpoint_name(name.as_str()) {
                insert_in_order(&mut out, name);
            }
            i += 1;
        }
        assert(all.take(all.len() as int) =~= all);
        out
    }
}

/// Whether a file name has the checkpoint extension.
pub fn has_checkpoint_name(name: &str) -> (r: bool)
    ensures
        r == is_checkpoint_name(name@),
{
    proof {
        reveal_strlit(".ckpt");
    }
    text::has_suffix(name, ".ckpt") && text::chars_of(name).len() > 5
}

/// The task whose checkpoint a file name names.
pub fn task_id_of_name(name: &str) -> (r: String)
    requires
        is_checkpoint_name(name@),
    ensures
        r@ == task_of_name(name@),
{
    proof {
        reveal_strlit(".ckpt");
    }
    let v = text::chars_of(name);
    let r = text::text_of(&v, 0, v.len() - 5);
    assert(r@ =~= task_of_name(name@));
    r
}

fn insert_in_order(list: &mut Vec<String>, name: String)
    requires
        in_order(text::views(old(list)@)),
    ensures
        in_order(text::views(final(list)@)),
        text::views(final(list)@).to_multiset() == text::views(old(list)@).to_multiset().insert(
            name@,
        ),
{
    let ghost before = text::views(list@);
    let mut i: usize = 0;
    while i < list.len() && !order::text_less(name.as_str(), list[i].as_str())
        invariant
            i <= list.len(),
            before == text::views(list@),
            in_order(before),
            forall|k: int| 0 <= k < i ==> !order::text_lt(name@, #[trigger] before[k]),
        decreases list.len() - i,
    {
        i += 1;
    }
    list.insert(i, name);
    let ghost after = text::views(list@);
    proof {
        assert(after =~= before.insert(i as int, name@));
        broadcast use vstd::seq_lib::group_to_multiset_ensures;

        vstd::seq_lib::to_multiset_insert(before, i as int, name@);
        assert forall|a: int, b: int| 0 <= a < b < after.len() implies !order::text_lt(
            #[trigger] after[b],
            #[trigger] after[a],
        ) by {
            if a < i && b == i {
                assert(after[a] == before[a]);
            } else if a == i {
                assert(after[b] == before[b - 1]);
                assert(order::text_lt(name@, before[i as int]));
                if order::text_lt(before[b - 1], name@) {
                    order::lemma_text_lt_transitive(before[b - 1], name@, before[i as int]);
                    if b - 1 == i {
                        order::lemma_text_lt_irreflexive(before[i as int]);
                    }
                }
            } else if a < i && b > i {
                assert(after[a] == before[a] && after[b] == before[b - 1]);
            } else if b < i {
                assert(after[a] == before[a] && after[b] == before[b]);
            } else {
                assert(after[a] == before[a - 1] && after[b] == before[b - 1]);
            }
        }
    }
}

/// A task's checkpoint is found again by the name of its file: the name gives back the task, the
/// task gives back the name, and a name is that of a checkpoint if and only if some task has it.
pub proof fn lemma_checkpoint_is_found_by_its_name(task_id: Seq<char>, name: Seq<char>)
    ensures
        file_name(task_id) == task_id + seq!['.', 'c', 'k', 'p', 't'],
        task_id.len() > 0 ==> is_checkpoint_name(file_name(task_id)),
        task_of_name(file_name(task_id)) == task_id,
        is_checkpoint_name(name) ==> task_of_name(name).len() > 0 && file_name(task_of_name(name))
            == name,
        !is_checkpoint_name(file_name(Seq::empty())),
{
    reveal_strlit(".ckpt");
    assert(".ckpt"@ =~= seq!['.', 'c', 'k', 'p', 't']);
    let f = file_name(task_id);
    assert(f.skip(f.len() - 5) =~= ".ckpt"@);
    assert(f.take(f.len() - 5) =~= task_id);
    if is_checkpoint_name(name) {
        assert(name.take(name.len() - 5) + name.skip(name.len() - 5) =~= name);
    }
}

} // verus!
