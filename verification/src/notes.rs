//! What workers tell the engine of chunks and files that they carried over.

use crate::adb_push;
use crate::adb_push::AdbPushProgress;
use crate::cards::{DualNote, DualNoteView};
use crate::engine;
use crate::engine::{TransferEngine, TransferEngineError};
use crate::engine_task::{TaskView, TransferUpdate};
use crate::models;
use crate::models::ChunkDescriptor;
use crate::scheduler::LaneAssignment;
use crate::sizing;
use crate::text;
use vstd::prelude::*;

verus! {

/// Something that a worker tells the engine.
#[derive(Debug, Clone, Copy, PartialEq, Eq, Structural)]
pub enum EngineNote {
    /// A chunk was carried over, or was there already.
    Chunk { chunk: ChunkDescriptor, lane: LaneAssignment, skipped: bool },
    /// The same, with the task not yet looked over for completion.
    Pending { chunk: ChunkDescriptor, lane: LaneAssignment, skipped: bool },
    /// A file was carried over, or was there already.
    File { file_index: usize, lane: LaneAssignment, skipped: bool },
}

/// What a note does to a task.
pub open spec fn noted(t: TaskView, id: Seq<char>, note: EngineNote, now: u128) -> engine::Outcome {
    match note {
        EngineNote::Chunk { chunk, lane, skipped } => engine::committing(
            t,
            id,
            chunk,
            lane,
            skipped,
            now,
        ),
        EngineNote::Pending { chunk, lane, skipped } => engine::committing_pending(
            t,
            id,
            chunk,
            lane,
            skipped,
            now,
        ),
        EngineNote::File { file_index, lane, skipped } => engine::completing_file(
            t,
            id,
            file_index,
            lane,
            skipped,
            now,
        ),
    }
}

/// Whether the numbers of a task fit once a note is taken in.
pub open spec fn note_fits(t: TaskView, note: EngineNote) -> bool {
    match note {
        EngineNote::Chunk { chunk, .. } => engine::commit_fits(t, chunk),
        EngineNote::Pending { chunk, .. } => engine::commit_fits(t, chunk),
        EngineNote::File { file_index, .. } => engine::file_fits(t, file_index),
    }
}

/// Takes a worker's note in, at `now`. Nothing is done where the numbers of the task would no
/// longer fit.
pub fn take_note_at(engine: &mut TransferEngine, task_id: &str, note: EngineNote, now: u128) -> (r:
    Option<Result<TransferUpdate, TransferEngineError>>)
    requires
        old(engine).wf(),
    ensures
        final(engine).wf(),
        final(engine).store_root() == old(engine).store_root(),
        r is Some <==> (old(engine)@.contains_key(task_id@) ==> note_fits(
            old(engine)@[task_id@],
            note,
        )),
        match r {
            Some(u) => engine::updated(
                old(engine)@,
                final(engine)@,
                task_id@,
                noted(old(engine)@[task_id@], task_id@, note, now),
                u,
            ),
            None => final(engine)@ == old(engine)@,
        },
{
    match note {
        EngineNote::Chunk { chunk, lane, skipped } => {
            if !engine.commit_would_fit(task_id, chunk) {
                return None;
            }
            Some(engine.record_real_chunk_commit_at(task_id, chunk, lane, skipped, now))
        },
        EngineNote::Pending { chunk, lane, skipped } => {
            if !engine.commit_would_fit(task_id, chunk) {
                return None;
            }
            Some(engine.record_real_chunk_commit_pending_at(task_id, chunk, lane, skipped, now))
        },
        EngineNote::File { file_index, lane, skipped } => {
            if !engine.file_would_fit(task_id, file_index) {
                return None;
            }
            Some(engine.record_real_file_complete_at(task_id, file_index, lane, skipped, now))
        },
    }
}

/// Takes a worker's note in.
pub fn take_note(engine: &mut TransferEngine, task_id: &str, note: EngineNote) -> (r: Option<
    Result<TransferUpdate, TransferEngineError>,
>)
    requires
        old(engine).wf(),
    ensures
        final(engine).wf(),
        final(engine).store_root() == old(engine).store_root(),
        r is Some <==> (old(engine)@.contains_key(task_id@) ==> note_fits(
            old(engine)@[task_id@],
            note,
        )),
        match r {
            Some(u) => exists|now: u128|
                engine::updated(
                    old(engine)@,
                    final(engine)@,
                    task_id@,
                    #[trigger] noted(old(engine)@[task_id@], task_id@, note, now),
                    u,
                ),
            None => final(engine)@ == old(engine)@,
        },
{
    let now: u128 = models::now_epoch_ms();
    take_note_at(engine, task_id, note, now)
}

/// Where a chunk starts, as far as 64 bits go.
pub open spec fn chunk_offset(index: u32, chunk_size: u64) -> u64 {
    sizing::smaller(index * chunk_size, u64::MAX as int) as u64
}

/// Where a chunk starts, as far as 64 bits go.
pub fn offset_of(index: u32, chunk_size: u64) -> (r: u64)
    ensures
        r == chunk_offset(index, chunk_size),
{
    assert(0 <= index * chunk_size <= 0xffff_ffff * 0xffff_ffff_ffff_ffff) by (nonlinear_arith)
        requires
            0 <= index <= 0xffff_ffff,
            0 <= chunk_size <= 0xffff_ffff_ffff_ffff,
    ;
    let p: u128 = index as u128 * chunk_size as u128;
    if p < u64::MAX as u128 {
        p as u64
    } else {
        u64::MAX
    }
}

/// What the engine is told of a push over ADB, of the file at the given place.
pub open spec fn push_note(
    p: adb_push::ProgressView,
    file_index: usize,
    chunk_size: u64,
) -> Option<EngineNote> {
    if p.event == "chunk-pushed"@ || p.event == "chunk-skipped"@ {
        match p.chunk_index {
            Some(k) => Some(
                EngineNote::Chunk {
                    chunk: ChunkDescriptor {
                        file_index,
                        chunk_index: k,
                        offset: chunk_offset(k, chunk_size),
                        length: p.chunk_length as u64,
                    },
                    lane: LaneAssignment::Adb,
                    skipped: p.event == "chunk-skipped"@,
                },
            ),
            None => None,
        }
    } else if p.event == "file-skipped"@ {
        Some(EngineNote::File { file_index, lane: LaneAssignment::Adb, skipped: true })
    } else if p.event == "file-completed"@ {
        Some(EngineNote::File { file_index, lane: LaneAssignment::Adb, skipped: false })
    } else {
        None
    }
}

/// What the engine is told of a push over ADB.
pub fn note_of_push(p: &AdbPushProgress, file_index: usize, chunk_size: u64) -> (r: Option<
    EngineNote,
>)
    ensures
        r == push_note(p@, file_index, chunk_size),
{
    let event = p.event.as_str();
    let skipped = text::str_eq(event, "chunk-skipped");
    if text::str_eq(event, "chunk-pushed") || skipped {
        match p.chunk_index {
            Some(k) => Some(
                EngineNote::Chunk {
                    chunk: ChunkDescriptor {
                        file_index,
                        chunk_index: k,
                        offset: offset_of(k, chunk_size),
                        length: p.chunk_length,
                    },
                    lane: LaneAssignment::Adb,
                    skipped,
                },
            ),
            None => None,
        }
    } else if text::str_eq(event, "file-skipped") {
        Some(EngineNote::File { file_index, lane: LaneAssignment::Adb, skipped: true })
    } else if text::str_eq(event, "file-completed") {
        Some(EngineNote::File { file_index, lane: LaneAssignment::Adb, skipped: false })
    } else {
        None
    }
}

/// What is told of a push over ADB beside another lane: what became of the chunk or file, and
/// whether the file is done.
pub open spec fn push_dual_notes(
    p: adb_push::ProgressView,
    relative_path: Seq<char>,
    remote_file: Seq<char>,
) -> Seq<DualNoteView> {
    let first = DualNoteView::Progress {
        relative_path,
        remote_path: p.remote_path,
        event: p.event,
        message: p.message,
        length: p.chunk_length as u64,
        skipped: p.event == "chunk-skipped"@,
        pushed: p.event == "chunk-pushed"@,
    };
    if p.event == "file-skipped"@ || p.event == "file-completed"@ {
        seq![
            first,
            DualNoteView::Finished {
                relative_path,
                remote_path: remote_file,
                skipped: p.event == "file-skipped"@,
            },
        ]
    } else {
        seq![first]
    }
}

/// The views of notes.
pub open spec fn note_views(notes: Seq<DualNote>) -> Seq<DualNoteView> {
    notes.map_values(|n: DualNote| n@)
}

/// What is told of a push over ADB beside another lane.
pub fn dual_notes_of_push(p: &AdbPushProgress, relative_path: &str, remote_file: &str) -> (r: Vec<
    DualNote,
>)
    ensures
        note_views(r@) == push_dual_notes(p@, relative_path@, remote_file@),
{
    let event = p.event.as_str();
    let mut notes: Vec<DualNote> = Vec::new();
    notes.push(
        DualNote::Progress {
            relative_path: relative_path.to_string(),
            remote_path: p.remote_path.clone(),
            event: p.event.clone(),
            message: p.message.clone(),
            length: p.chunk_length,
            skipped: text::str_eq(event, "chunk-skipped"),
            pushed: text::str_eq(event, "chunk-pushed"),
        },
    );
    let skipped = text::str_eq(event, "file-skipped");
    if skipped || text::str_eq(event, "file-completed") {
        notes.push(
            DualNote::Finished {
                relative_path: relative_path.to_string(),
                remote_path: remote_file.to_string(),
                skipped,
            },
        );
    }
    assert(note_views(notes@) =~= push_dual_notes(p@, relative_path@, remote_file@));
    notes
}

/// The engine is told of a push over ADB just this: a pushed or skipped chunk, with its file, its number, its
/// place by the chunk length and its bytes, as skipped if it was; a skipped or completed file; and nothing
/// of anything else.
pub proof fn lemma_push_is_noted_as_it_went(
    p: adb_push::ProgressView,
    file_index: usize,
    chunk_size: u64,
)
    requires
        0 <= p.chunk_length <= u64::MAX,
        p.chunk_index matches Some(k) ==> k * chunk_size <= u64::MAX,
    ensures
        p.event == "chunk-pushed"@ || p.event == "chunk-skipped"@ ==> match (
            p.chunk_index,
            push_note(p, file_index, chunk_size),
        ) {
            (Some(k), Some(EngineNote::Chunk { chunk, lane, skipped })) => {
                &&& chunk.file_index == file_index
                &&& chunk.chunk_index == k
                &&& chunk.offset == k * chunk_size
                &&& chunk.length == p.chunk_length
                &&& lane == LaneAssignment::Adb
                &&& skipped == (p.event == "chunk-skipped"@)
            },
            (None, None) => true,
            _ => false,
        },
        p.event == "file-skipped"@ || p.event == "file-completed"@ ==> (push_note(
            p,
            file_index,
            chunk_size,
        ) matches Some(EngineNote::File { file_index: i, lane, skipped }) && i == file_index && lane
            == LaneAssignment::Adb && skipped == (p.event == "file-skipped"@)),
        p.event != "chunk-pushed"@ && p.event != "chunk-skipped"@ && p.event != "file-skipped"@
            && p.event != "file-completed"@ ==> push_note(p, file_index, chunk_size) is None,
{
    reveal_strlit("chunk-pushed");
    reveal_strlit("chunk-skipped");
    reveal_strlit("file-skipped");
    reveal_strlit("file-completed");
    assert("chunk-pushed"@[0] == 'c' && "chunk-skipped"@[0] == 'c');
    assert("file-skipped"@[0] == 'f' && "file-completed"@[0] == 'f');
    assert("file-skipped"@.len() != "file-completed"@.len());
    if let Some(k) = p.chunk_index {
        assert(k * chunk_size >= 0) by (nonlinear_arith)
            requires
                k >= 0,
                chunk_size >= 0,
        ;
    }
}

/// Beside another lane it is told what became of each chunk or file, with its bytes, as pushed or as skipped;
/// and of a skipped or completed file, and of no other, that it is through.
pub proof fn lemma_push_is_told_beside_another_lane(
    p: adb_push::ProgressView,
    path: Seq<char>,
    target: Seq<char>,
)
    requires
        0 <= p.chunk_length <= u64::MAX,
    ensures
        ({
            let all = push_dual_notes(p, path, target);
            let over = p.event == "file-skipped"@ || p.event == "file-completed"@;
            &&& all.len() == (if over {
                2int
            } else {
                1
            })
            &&& all[0] matches DualNoteView::Progress {
                relative_path,
                remote_path,
                event,
                message,
                length,
                skipped,
                pushed,
            } && relative_path == path && remote_path == p.remote_path && event == p.event
                && message == p.message && length == p.chunk_length && skipped == (p.event
                == "chunk-skipped"@) && pushed == (p.event == "chunk-pushed"@)
            &&& over ==> (all[1] matches DualNoteView::Finished {
                relative_path,
                remote_path,
                skipped,
            } && relative_path == path && remote_path == target && skipped == (p.event
                == "file-skipped"@))
        }),
{
}

/// A note does to the task what the engine does with the same report.
pub proof fn lemma_notes_are_reports(
    t: TaskView,
    id: Seq<char>,
    chunk: ChunkDescriptor,
    file_index: usize,
    lane: LaneAssignment,
    skipped: bool,
    now: u128,
)
    ensures
        noted(t, id, EngineNote::Chunk { chunk, lane, skipped }, now) == engine::committing(
            t,
            id,
            chunk,
            lane,
            skipped,
            now,
        ),
        noted(t, id, EngineNote::Pending { chunk, lane, skipped }, now)
            == engine::committing_pending(t, id, chunk, lane, skipped, now),
        noted(t, id, EngineNote::File { file_index, lane, skipped }, now)
            == engine::completing_file(t, id, file_index, lane, skipped, now),
{
}

} // verus!
