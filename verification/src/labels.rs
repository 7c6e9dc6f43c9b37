//! Directions, transports and states as people read them.

use crate::checkpoint;
use crate::models::{Direction, TaskState, TransportMode};
use crate::text;
use vstd::prelude::*;

verus! {

/// A direction as people read it.
pub open spec fn direction_label(d: Direction) -> Seq<char> {
    match d {
        Direction::PcToAndroid => "PC -> Android"@,
        Direction::AndroidToPc => "Android -> PC"@,
    }
}

/// A transport as people read it.
pub open spec fn transport_label(m: TransportMode) -> Seq<char> {
    match m {
        TransportMode::AdbOnly => "ADB-only"@,
        TransportMode::WifiOnly => "Wi-Fi-only"@,
        TransportMode::Dual => "Dual Track"@,
    }
}

/// A state as people read it.
pub open spec fn state_label(s: TaskState) -> Seq<char> {
    match s {
        TaskState::Pending => "Pending"@,
        TaskState::Running => "Running"@,
        TaskState::Paused => "Paused"@,
        TaskState::Completed => "Completed"@,
        TaskState::Failed => "Failed"@,
        TaskState::Cancelled => "Cancelled"@,
    }
}

/// A direction as people read it.
pub fn display_direction(direction: Direction) -> (r: String)
    ensures
        r@ == direction_label(direction),
{
    match direction {
        Direction::PcToAndroid => "PC -> Android".to_string(),
        Direction::AndroidToPc => "Android -> PC".to_string(),
    }
}

/// A transport as people read it.
pub fn display_transport_mode(mode: TransportMode) -> (r: String)
    ensures
        r@ == transport_label(mode),
{
    match mode {
        TransportMode::AdbOnly => "ADB-only".to_string(),
        TransportMode::WifiOnly => "Wi-Fi-only".to_string(),
        TransportMode::Dual => "Dual Track".to_string(),
    }
}

/// A state as people read it.
pub fn display_state(state: TaskState) -> (r: String)
    ensures
        r@ == state_label(state),
{
    match state {
        TaskState::Pending => "Pending".to_string(),
        TaskState::Running => "Running".to_string(),
        TaskState::Paused => "Paused".to_string(),
        TaskState::Completed => "Completed".to_string(),
        TaskState::Failed => "Failed".to_string(),
        TaskState::Cancelled => "Cancelled".to_string(),
    }
}

/// The direction that a label stands for.
pub open spec fn direction_of(s: Seq<char>) -> Result<Direction, Seq<char>> {
    if s == "PC -> Android"@ {
        Ok(Direction::PcToAndroid)
    } else if s == "Android -> PC"@ {
        Ok(Direction::AndroidToPc)
    } else {
        Err("unsupported direction: "@ + s)
    }
}

/// The transport that a label stands for.
pub open spec fn transport_of(s: Seq<char>) -> Result<TransportMode, Seq<char>> {
    if s == "ADB-only"@ {
        Ok(TransportMode::AdbOnly)
    } else if s == "Wi-Fi-only"@ {
        Ok(TransportMode::WifiOnly)
    } else if s == "Dual Track"@ {
        Ok(TransportMode::Dual)
    } else {
        Err("unsupported transport mode: "@ + s)
    }
}

/// The direction that a label stands for.
pub fn parse_direction_label(value: &str) -> (r: Result<Direction, String>)
    ensures
        match (r, direction_of(value@)) {
            (Ok(a), Ok(b)) => a == b,
            (Err(a), Err(b)) => a@ == b,
            _ => false,
        },
{
    if text::str_eq(value, "PC -> Android") {
        Ok(Direction::PcToAndroid)
    } else if text::str_eq(value, "Android -> PC") {
        Ok(Direction::AndroidToPc)
    } else {
        Err(checkpoint::about("unsupported direction: ", value))
    }
}

/// The transport that a label stands for.
pub fn parse_transport_label(value: &str) -> (r: Result<TransportMode, String>)
    ensures
        match (r, transport_of(value@)) {
            (Ok(a), Ok(b)) => a == b,
            (Err(a), Err(b)) => a@ == b,
            _ => false,
        },
{
    if text::str_eq(value, "ADB-only") {
        Ok(TransportMode::AdbOnly)
    } else if text::str_eq(value, "Wi-Fi-only") {
        Ok(TransportMode::WifiOnly)
    } else if text::str_eq(value, "Dual Track") {
        Ok(TransportMode::Dual)
    } else {
        Err(checkpoint::about("unsupported transport mode: ", value))
    }
}

/// A direction and a transport are read back from their labels.
pub proof fn lemma_labels_read_back(d: Direction, m: TransportMode)
    ensures
        direction_of(direction_label(d)) == Ok::<Direction, Seq<char>>(d),
        transport_of(transport_label(m)) == Ok::<TransportMode, Seq<char>>(m),
{
    reveal_strlit("PC -> Android");
    reveal_strlit("Android -> PC");
    reveal_strlit("ADB-only");
    reveal_strlit("Wi-Fi-only");
    reveal_strlit("Dual Track");
    assert("PC -> Android"@[0] == 'P');
    assert("Android -> PC"@[0] == 'A');
    assert("ADB-only"@[0] == 'A');
    assert("Wi-Fi-only"@[0] == 'W');
    assert("Dual Track"@[0] == 'D');
}

/// Whether a worker stopped for a reason that a resumed transfer can get over: a pause, or a
/// connection that was lost.
pub open spec fn is_interruption(message: Seq<char>) -> bool {
    let lower = text::lower_all(message);
    ||| text::contains(message, "暂停"@)
    ||| text::contains(message, "管道已结束"@)
    ||| text::contains(message, "由于连接方在一段时间后没有正确答复"@)
    ||| text::contains(message, "连接尝试失败"@)
    ||| text::contains(lower, "paused"@)
    ||| text::contains(lower, "os error 109"@)
    ||| text::contains(lower, "os error 10060"@)
    ||| text::contains(lower, "os error 10061"@)
    ||| text::contains(lower, "connection refused"@)
    ||| text::contains(lower, "device offline"@)
    ||| text::contains(lower, "device not found"@)
    ||| text::contains(lower, "no devices/emulators found"@)
    ||| text::contains(lower, "closed"@)
    ||| text::contains(lower, "broken pipe"@)
    ||| text::contains(lower, "connection reset"@)
    ||| text::contains(lower, "timed out"@)
}

/// Whether a worker stopped for a reason that a resumed transfer can get over.
pub fn is_recoverable_transfer_interruption(message: &str) -> (r: bool)
    ensures
        r == is_interruption(message@),
{
    let lower = text::lowered(message);
    let lower = lower.as_str();
    text::has_text(message, "暂停") || text::has_text(message, "管道已结束")
        || text::has_text(message, "由于连接方在一段时间后没有正确答复")
        || text::has_text(message, "连接尝试失败") || text::has_text(lower, "paused")
        || text::has_text(lower, "os error 109") || text::has_text(lower, "os error 10060")
        || text::has_text(lower, "os error 10061") || text::has_text(lower, "connection refused")
        || text::has_text(lower, "device offline") || text::has_text(lower, "device not found")
        || text::has_text(lower, "no devices/emulators found") || text::has_text(lower, "closed")
        || text::has_text(lower, "broken pipe") || text::has_text(lower, "connection reset")
        || text::has_text(lower, "timed out")
}

/// What is said when a lane was interrupted.
pub open spec fn interrupted_text(lane: Seq<char>, error: Seq<char>) -> Seq<char> {
    "transfer paused: "@ + lane
        + " lane interrupted; resume will verify committed chunks before skipping them. "@ + error
}

/// What is said when a lane was interrupted.
pub fn lane_interrupted_message(lane: &str, error: &str) -> (r: String)
    ensures
        r@ == interrupted_text(lane@, error@),
{
    let mut m = "transfer paused: ".to_string();
    m.append(lane);
    m.append(" lane interrupted; resume will verify committed chunks before skipping them. ");
    m.append(error);
    m
}

/// The pause at a chunk boundary and the interruption of a lane can be got over.
pub proof fn lemma_pauses_are_interruptions(lane: Seq<char>, error: Seq<char>)
    ensures
        is_interruption("transfer paused at chunk boundary"@),
        is_interruption(interrupted_text(lane, error)),
{
    reveal_strlit("transfer paused at chunk boundary");
    reveal_strlit("transfer paused: ");
    reveal_strlit("paused");
    let a = text::lower_all("transfer paused at chunk boundary"@);
    let b = text::lower_all(interrupted_text(lane, error));
    let p = "paused"@;
    assert(a.subrange(9, 15) =~= p);
    assert(b.subrange(9, 15) =~= p);
    assert(text::occurs_at(a, p, 9));
    assert(text::occurs_at(b, p, 9));
}

/// Directions, transports and states are shown by these words.
pub proof fn lemma_labels_are_these(s: TaskState)
    ensures
        direction_label(Direction::PcToAndroid) == "PC -> Android"@,
        direction_label(Direction::AndroidToPc) == "Android -> PC"@,
        transport_label(TransportMode::AdbOnly) == "ADB-only"@,
        transport_label(TransportMode::WifiOnly) == "Wi-Fi-only"@,
        transport_label(TransportMode::Dual) == "Dual Track"@,
        state_label(TaskState::Pending) == "Pending"@,
        state_label(TaskState::Running) == "Running"@,
        state_label(TaskState::Paused) == "Paused"@,
        state_label(TaskState::Completed) == "Completed"@,
        state_label(TaskState::Failed) == "Failed"@,
        state_label(TaskState::Cancelled) == "Cancelled"@,
{
}

/// Only the labels of directions and transports are read; any other text is complained of.
pub proof fn lemma_other_labels_are_refused(s: Seq<char>)
    ensures
        direction_of(s) is Ok <==> exists|d: Direction| #[trigger] direction_label(d) == s,
        transport_of(s) is Ok <==> exists|m: TransportMode| #[trigger] transport_label(m) == s,
        direction_of(s) matches Ok(d) ==> direction_label(d) == s,
        transport_of(s) matches Ok(m) ==> transport_label(m) == s,
        direction_of(s) matches Err(m) ==> m == "unsupported direction: "@ + s,
        transport_of(s) matches Err(m) ==> m == "unsupported transport mode: "@ + s,
{
    if s == "PC -> Android"@ {
        assert(direction_label(Direction::PcToAndroid) == s);
    } else if s == "Android -> PC"@ {
        assert(direction_label(Direction::AndroidToPc) == s);
    }
    if s == "ADB-only"@ {
        assert(transport_label(TransportMode::AdbOnly) == s);
    } else if s == "Wi-Fi-only"@ {
        assert(transport_label(TransportMode::WifiOnly) == s);
    } else if s == "Dual Track"@ {
        assert(transport_label(TransportMode::Dual) == s);
    }
}

/// A message tells of something that a resumed transfer can get over if it holds one of these words, in
/// capital or small letters as far as they are English, and else not.
pub proof fn lemma_interruptions_are_told_by_these_words(message: Seq<char>)
    ensures
        ({
            let lower = text::lower_all(message);
            let pause = text::contains(lower, "paused"@) || text::contains(message, "暂停"@);
            let system = text::contains(lower, "os error 109"@) || text::contains(
                lower,
                "os error 10060"@,
            ) || text::contains(lower, "os error 10061"@) || text::contains(message, "管道已结束"@)
                || text::contains(message, "由于连接方在一段时间后没有正确答复"@) || text::contains(
                message,
                "连接尝试失败"@,
            );
            let network = text::contains(lower, "connection refused"@) || text::contains(
                lower,
                "connection reset"@,
            ) || text::contains(lower, "timed out"@) || text::contains(lower, "broken pipe"@)
                || text::contains(lower, "closed"@);
            let device = text::contains(lower, "device offline"@) || text::contains(
                lower,
                "device not found"@,
            ) || text::contains(lower, "no devices/emulators found"@);
            is_interruption(message) <==> pause || system || network || device
        }),
{
}

} // verus!
