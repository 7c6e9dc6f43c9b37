//! Paths on both sides, made safe to write to.

use crate::checkpoint;
use crate::text;
use vstd::prelude::*;

verus! {

/// Whether a character is a control character.
pub open spec fn is_control(c: char) -> bool {
    (c as int) < 0x20 || 0x7f <= (c as int) <= 0x9f
}

/// A text without control characters.
pub open spec fn clean(s: Seq<char>) -> Seq<char>
    decreases s.len(),
{
    if s.len() == 0 {
        Seq::empty()
    } else if is_control(s.last()) {
        clean(s.drop_last())
    } else {
        clean(s.drop_last()).push(s.last())
    }
}

/// Whether a segment of a path leads nowhere or upwards.
pub open spec fn is_idle(segment: Seq<char>) -> bool {
    segment.len() == 0 || segment == "."@ || segment == ".."@
}

/// The segments that lead somewhere, without control characters and as far as something is left
/// of them.
pub open spec fn safe(segments: Seq<Seq<char>>) -> Seq<Seq<char>>
    decreases segments.len(),
{
    if segments.len() == 0 {
        Seq::empty()
    } else {
        let head = safe(segments.drop_last());
        let s = segments.last();
        if is_idle(s) || clean(s).len() == 0 {
            head
        } else {
            head.push(clean(s))
        }
    }
}

/// The safe segments of a path, with either slash between them.
pub open spec fn safe_segments(path: Seq<char>) -> Seq<Seq<char>> {
    safe(text::split_on(text::swap_char(path, '\\', '/'), '/'))
}

fn cleaned(s: &str) -> (r: String)
    ensures
        r@ == clean(s@),
{
    let mut out = String::new();
    assert(out@ =~= clean(s@.take(0)));
    for c in it: s.chars()
        invariant
            it.seq() == s@,
            out@ == clean(s@.take(it.index())),
    {
        assert(s@.take(it.index() + 1).drop_last() =~= s@.take(it.index()));
        let n: u32 = text::code(c);
        if !(n < 0x20 || (0x7f <= n && n <= 0x9f)) {
            out.push(c);
        }
    }
    assert(s@.take(s@.len() as int) =~= s@);
    out
}

/// The safe segments of a path.
pub fn split_safely(path: &str) -> (r: Vec<String>)
    ensures
        text::views(r@) == safe_segments(path@),
{
    let swapped = text::swapped_char(path, '\\', '/');
    let pieces = text::split(swapped.as_str(), '/');
    let ghost p = text::views(pieces@);
    let mut out: Vec<String> = Vec::new();
    let mut i: usize = 0;
    assert(text::views(out@) =~= safe(p.take(0)));
    while i < pieces.len()
        invariant
            i <= pieces.len(),
            p == text::views(pieces@),
            text::views(out@) == safe(p.take(i as int)),
        decreases pieces.len() - i,
    {
        assert(p.take(i + 1).drop_last() =~= p.take(i as int));
        assert(p[i as int] == pieces@[i as int]@);
        let piece = pieces[i].as_str();
        if !piece.is_empty() && !text::str_eq(piece, ".") && !text::str_eq(piece, "..") {
            let kept = cleaned(piece);
            if !kept.as_str().is_empty() {
                let ghost before = text::views(out@);
                out.push(kept);
                assert(text::views(out@) == before.push(kept@));
            }
        }
        i += 1;
    }
    assert(p.take(p.len() as int) =~= p);
    out
}

/// A relative path as the agent is told it: its safe segments.
pub open spec fn agent_path(path: Seq<char>) -> Seq<char> {
    text::join(safe_segments(path), "/"@)
}

/// A relative path as the agent is told it.
pub fn sanitize_agent_relative_path(relative_path: &str) -> (r: String)
    ensures
        r@ == agent_path(relative_path@),
{
    text::join_texts(&split_safely(relative_path), "/")
}

/// One more name behind a local path.
pub open spec fn with_name(path: Seq<char>, name: Seq<char>) -> Seq<char> {
    if path.len() == 0 || path.last() == '/' {
        path + name
    } else {
        path + "/"@ + name
    }
}

/// Names behind a local path.
pub open spec fn with_names(path: Seq<char>, names: Seq<Seq<char>>) -> Seq<char>
    decreases names.len(),
{
    if names.len() == 0 {
        path
    } else {
        with_name(with_names(path, names.drop_last()), names.last())
    }
}

/// One more name behind a local path.
pub fn local_join(path: &str, name: &str) -> (r: String)
    ensures
        r@ == with_name(path@, name@),
{
    let chars = text::chars_of(path);
    let mut out = path.to_string();
    if chars.len() > 0 && chars[chars.len() - 1] != '/' {
        out.append("/");
    }
    out.append(name);
    out
}

/// Whether names behind a path lead away from it: there is one, and not all of them are single
/// dots, which behind a path that is not empty stay where it is.
pub open spec fn leads_on(root: Seq<char>, names: Seq<Seq<char>>) -> bool {
    names.len() > 0 && (root.len() == 0 || exists|i: int|
        0 <= i < names.len() && #[trigger] names[i] != "."@)
}

/// The local path below a root for a relative path: the root with the safe segments behind it.
pub open spec fn joined_safely(root: Seq<char>, relative: Seq<char>) -> Result<Seq<char>, Seq<char>> {
    let names = safe_segments(relative);
    if leads_on(root, names) {
        Ok(with_names(root, names))
    } else {
        Err("relative path did not contain a safe file name"@)
    }
}

/// The local path below a root for a relative path.
pub fn safe_local_join(root: &str, relative_path: &str) -> (r: Result<String, String>)
    ensures
        crate::adb_command::outcome_view(r) == joined_safely(root@, relative_path@),
{
    let names = split_safely(relative_path);
    let ghost n = text::views(names@);
    let mut out = root.to_string();
    let mut leads = root.is_empty();
    let mut i: usize = 0;
    assert(with_names(root@, n.take(0)) == root@);
    while i < names.len()
        invariant
            i <= names.len(),
            n == text::views(names@),
            out@ == with_names(root@, n.take(i as int)),
            leads <==> root@.len() == 0 || exists|k: int| 0 <= k < i && #[trigger] n[k] != "."@,
        decreases names.len() - i,
    {
        assert(n.take(i + 1).drop_last() =~= n.take(i as int));
        assert(n[i as int] == names@[i as int]@);
        out = local_join(out.as_str(), names[i].as_str());
        if !text::str_eq(names[i].as_str(), ".") {
            leads = true;
        }
        i += 1;
    }
    assert(n.take(n.len() as int) =~= n);
    if names.len() == 0 || !leads {
        return Err("relative path did not contain a safe file name".to_string());
    }
    Ok(out)
}

/// Whether a text has no control characters.
pub open spec fn lacks_control(s: Seq<char>) -> bool {
    forall|i: int| 0 <= i < s.len() ==> !is_control(#[trigger] s[i])
}

proof fn lemma_clean(s: Seq<char>)
    ensures
        lacks_control(clean(s)),
        forall|i: int| 0 <= i < clean(s).len() ==> s.contains(#[trigger] clean(s)[i]),
        lacks_control(s) ==> clean(s) == s,
    decreases s.len(),
{
    if s.len() > 0 {
        let d = s.drop_last();
        lemma_clean(d);
        assert forall|i: int| 0 <= i < clean(s).len() implies s.contains(#[trigger] clean(s)[i]) by {
            if !is_control(s.last()) && i == clean(s).len() - 1 {
                assert(s[s.len() - 1] == clean(s)[i]);
            } else {
                assert(d.contains(clean(d)[i]));
                let k = choose|k: int| 0 <= k < d.len() && d[k] == clean(d)[i];
                assert(s[k] == clean(s)[i]);
            }
        }
        if lacks_control(s) {
            assert forall|i: int| 0 <= i < d.len() implies !is_control(#[trigger] d[i]) by {
                assert(!is_control(s[i]));
            }
            assert(!is_control(s[s.len() - 1]));
            assert(clean(s) =~= s);
        }
    } else {
        assert(clean(s) =~= s);
    }
}

proof fn lemma_pieces_lack(s: Seq<char>, sep: char, k: int)
    requires
        0 <= k < text::split_on(s, sep).len(),
    ensures
        text::lacks(text::split_on(s, sep)[k], sep),
        forall|i: int|
            0 <= i < text::split_on(s, sep)[k].len() ==> s.contains(
                #[trigger] text::split_on(s, sep)[k][i],
            ),
    decreases s.len(),
{
    let p = text::split_on(s, sep);
    if s.len() > 0 {
        let d = s.drop_last();
        let q = text::split_on(d, sep);
        if s.last() == sep {
            if k < q.len() {
                lemma_pieces_lack(d, sep, k);
                assert(p[k] == q[k]);
            }
        } else if k < q.len() - 1 {
            lemma_pieces_lack(d, sep, k);
            assert(p[k] == q[k]);
        } else {
            lemma_pieces_lack(d, sep, k);
            assert(p[k] == q[k].push(s.last()));
        }
        assert forall|i: int| 0 <= i < p[k].len() implies s.contains(#[trigger] p[k][i]) by {
            if k < q.len() && i < q[k].len() {
                assert(d.contains(q[k][i]));
                let j = choose|j: int| 0 <= j < d.len() && d[j] == q[k][i];
                assert(s[j] == p[k][i]);
            } else {
                assert(s[s.len() - 1] == p[k][i]);
            }
        }
    }
}

proof fn lemma_safe_member(segments: Seq<Seq<char>>, k: int) -> (j: int)
    requires
        0 <= k < safe(segments).len(),
    ensures
        0 <= j < segments.len(),
        safe(segments)[k] == clean(segments[j]),
        !is_idle(segments[j]),
        clean(segments[j]).len() > 0,
    decreases segments.len(),
{
    let d = segments.drop_last();
    if k < safe(d).len() {
        lemma_safe_member(d, k)
    } else {
        segments.len() - 1
    }
}

/// Whether control characters hide a segment of dots: with them it leads somewhere, without them
/// nowhere or upwards.
pub open spec fn hides_dots(segment: Seq<char>) -> bool {
    !is_idle(segment) && (clean(segment) == "."@ || clean(segment) == ".."@)
}

/// Whether a segment of a path is hidden by control characters.
pub open spec fn has_hidden_dots(path: Seq<char>) -> bool {
    let pieces = text::split_on(text::swap_char(path, '\\', '/'), '/');
    exists|j: int| 0 <= j < pieces.len() && hides_dots(#[trigger] pieces[j])
}

/// A path without control characters hides nothing.
pub proof fn lemma_plain_path_hides_nothing(path: Seq<char>)
    requires
        lacks_control(path),
    ensures
        !has_hidden_dots(path),
{
    let swapped = text::swap_char(path, '\\', '/');
    let pieces = text::split_on(swapped, '/');
    assert forall|j: int| 0 <= j < pieces.len() implies !hides_dots(#[trigger] pieces[j]) by {
        let piece = pieces[j];
        lemma_pieces_lack(swapped, '/', j);
        assert forall|i: int| 0 <= i < piece.len() implies !is_control(#[trigger] piece[i]) by {
            assert(swapped.contains(piece[i]));
            let m = choose|m: int| 0 <= m < swapped.len() && swapped[m] == piece[i];
            assert(!is_control(path[m]));
            assert(!is_control('/'));
        }
        lemma_clean(piece);
    }
}

/// A safe segment is not empty and has neither slash nor control character. None leads nowhere or
/// upwards either, unless control characters hid it.
pub proof fn lemma_safe_segments(path: Seq<char>, k: int)
    requires
        0 <= k < safe_segments(path).len(),
    ensures
        safe_segments(path)[k].len() > 0,
        text::lacks(safe_segments(path)[k], '/'),
        text::lacks(safe_segments(path)[k], '\\'),
        lacks_control(safe_segments(path)[k]),
        !has_hidden_dots(path) ==> !is_idle(safe_segments(path)[k]),
{
    let swapped = text::swap_char(path, '\\', '/');
    let pieces = text::split_on(swapped, '/');
    let j = lemma_safe_member(pieces, k);
    let piece = pieces[j];
    let kept = safe_segments(path)[k];
    lemma_clean(piece);
    lemma_pieces_lack(swapped, '/', j);
    assert forall|i: int| 0 <= i < kept.len() implies #[trigger] kept[i] != '/' && kept[i]
        != '\\' by {
        assert(piece.contains(clean(piece)[i]));
        let m = choose|m: int| 0 <= m < piece.len() && piece[m] == clean(piece)[i];
        assert(piece[m] != '/');
        assert(swapped.contains(piece[m]));
    }
    assert(is_idle(kept) ==> hides_dots(pieces[j]));
}

proof fn lemma_names_stay_below(root: Seq<char>, names: Seq<Seq<char>>)
    ensures
        text::starts_with(with_names(root, names), root),
    decreases names.len(),
{
    if names.len() > 0 {
        let head = with_names(root, names.drop_last());
        lemma_names_stay_below(root, names.drop_last());
        let all = with_names(root, names);
        assert(all.take(root.len() as int) =~= head.take(root.len() as int));
    } else {
        assert(root.take(root.len() as int) =~= root);
    }
}

/// A path that was joined safely is its root with at least one name behind it. No name leads
/// nowhere or upwards, unless control characters hid it.
pub proof fn lemma_joined_path_stays_below(root: Seq<char>, relative: Seq<char>)
    ensures
        match joined_safely(root, relative) {
            Ok(path) => {
                &&& text::starts_with(path, root)
                &&& path == with_names(root, safe_segments(relative))
                &&& safe_segments(relative).len() > 0
                &&& !has_hidden_dots(relative) ==> forall|k: int|
                    0 <= k < safe_segments(relative).len() ==> !is_idle(
                        #[trigger] safe_segments(relative)[k],
                    )
            },
            Err(_) => true,
        },
{
    lemma_names_stay_below(root, safe_segments(relative));
    if !has_hidden_dots(relative) {
        assert forall|k: int| 0 <= k < safe_segments(relative).len() implies !is_idle(
            #[trigger] safe_segments(relative)[k],
        ) by {
            lemma_safe_segments(relative, k);
        }
    }
}

/// The text without leading copies of another.
pub open spec fn trim_start_text(s: Seq<char>, p: Seq<char>) -> Seq<char>
    decreases s.len(),
{
    if p.len() > 0 && text::starts_with(s, p) {
        trim_start_text(s.skip(p.len() as int), p)
    } else {
        s
    }
}

/// A relative path behind a root, with slashes and without leading dots.
pub open spec fn lane_path(root: Seq<char>, relative: Seq<char>) -> Seq<char> {
    let rest = trim_start_text(text::swap_char(relative, '\\', '/'), "./"@);
    let base = text::trim_end_char(root, '/');
    if base.len() == 0 {
        rest
    } else if rest.len() == 0 {
        base
    } else {
        base + "/"@ + rest
    }
}

/// A relative path behind a root on the device, as the ADB lane writes it.
pub fn adb_like_remote_join(remote_root: &str, relative_path: &str) -> (r: String)
    ensures
        r@ == lane_path(remote_root@, relative_path@),
{
    let mut rest = text::swapped_char(relative_path, '\\', '/');
    let ghost whole = rest@;
    proof {
        reveal_strlit("./");
    }
    while text::has_prefix(rest.as_str(), "./")
        invariant
            "./"@.len() == 2,
            trim_start_text(whole, "./"@) == trim_start_text(rest@, "./"@),
        decreases rest@.len(),
    {
        let chars = text::chars_of(rest.as_str());
        let shorter = text::text_of(&chars, 2, chars.len());
        assert(shorter@ =~= rest@.skip(2));
        rest = shorter;
    }
    let base = text::trimmed_end_char(remote_root, '/');
    if base.as_str().is_empty() {
        rest
    } else if rest.as_str().is_empty() {
        base
    } else {
        let mut out = base;
        out.append("/");
        out.append(rest.as_str());
        out
    }
}

/// The last piece that is not empty, if there is one.
pub open spec fn last_name(pieces: Seq<Seq<char>>) -> Option<Seq<char>>
    decreases pieces.len(),
{
    if pieces.len() == 0 {
        None
    } else if pieces.last().len() > 0 {
        Some(pieces.last())
    } else {
        last_name(pieces.drop_last())
    }
}

/// Where a pulled file lands: under its own name below the local root.
pub open spec fn pull_target(root: Seq<char>, remote: Seq<char>) -> Result<Seq<char>, Seq<char>> {
    match last_name(text::split_on(text::swap_char(remote, '\\', '/'), '/')) {
        Some(name) => Ok(with_name(root, name)),
        None => Err("remote path has no file name: "@ + remote),
    }
}

/// Where a pulled file lands.
pub fn resolve_adb_pull_local_target(local_root: &str, remote_path: &str) -> (r: Result<
    String,
    String,
>)
    ensures
        crate::adb_command::outcome_view(r) == pull_target(local_root@, remote_path@),
{
    let swapped = text::swapped_char(remote_path, '\\', '/');
    let pieces = text::split(swapped.as_str(), '/');
    let ghost p = text::views(pieces@);
    let mut i: usize = pieces.len();
    assert(p.take(p.len() as int) =~= p);
    while i > 0
        invariant
            i <= pieces.len(),
            p == text::views(pieces@),
            p == text::split_on(text::swap_char(remote_path@, '\\', '/'), '/'),
            last_name(p) == last_name(p.take(i as int)),
        decreases i,
    {
        assert(p.take(i as int).drop_last() =~= p.take(i - 1));
        assert(p[i - 1] == pieces@[i - 1]@);
        if !pieces[i - 1].as_str().is_empty() {
            return Ok(local_join(local_root, pieces[i - 1].as_str()));
        }
        i -= 1;
    }
    Err(checkpoint::about("remote path has no file name: ", remote_path))
}

/// Where a file is pulled from: the root that the agent is to have, if it is to have another, the
/// path below it, and the path below the local root.
#[derive(Debug, PartialEq, Eq)]
pub struct AgentPullSource {
    pub agent_root: Option<String>,
    pub agent_relative_path: String,
    pub local_relative_path: String,
}

pub struct PullSourceView {
    pub agent_root: Option<Seq<char>>,
    pub agent_relative_path: Seq<char>,
    pub local_relative_path: Seq<char>,
}

impl View for AgentPullSource {
    type V = PullSourceView;

    open spec fn view(&self) -> PullSourceView {
        PullSourceView {
            agent_root: text::opt_view(self.agent_root),
            agent_relative_path: self.agent_relative_path@,
            local_relative_path: self.local_relative_path@,
        }
    }
}

/// Where a file is pulled from: an absolute path by its directory and its name, a relative one by
/// its safe segments.
pub open spec fn pull_source(path: Seq<char>) -> Result<PullSourceView, Seq<char>> {
    let slashed = text::swap_char(path, '\\', '/');
    if slashed.len() > 0 && slashed[0] == '/' {
        match text::rsplit_once(text::trim_end_char(slashed, '/'), '/') {
            Some((parent, name)) if text::trim(name).len() > 0 => Ok(
                PullSourceView {
                    agent_root: Some(
                        if parent.len() == 0 {
                            "/"@
                        } else {
                            parent
                        },
                    ),
                    agent_relative_path: text::trim(name),
                    local_relative_path: text::trim(name),
                },
            ),
            _ => Err("remote path has no file name: "@ + path),
        }
    } else if agent_path(path).len() == 0 {
        Err("source path did not contain a safe Android file name"@)
    } else {
        Ok(
            PullSourceView {
                agent_root: None,
                agent_relative_path: agent_path(path),
                local_relative_path: agent_path(path),
            },
        )
    }
}

/// Where a file is pulled from.
pub fn resolve_agent_pull_source(source_path: &str) -> (r: Result<AgentPullSource, String>)
    ensures
        match (r, pull_source(source_path@)) {
            (Ok(a), Ok(b)) => a@ == b,
            (Err(a), Err(b)) => a@ == b,
            _ => false,
        },
{
    let slashed = text::swapped_char(source_path, '\\', '/');
    let chars = text::chars_of(slashed.as_str());
    if chars.len() > 0 && chars[0] == '/' {
        let trimmed = text::trimmed_end_char(slashed.as_str(), '/');
        let complaint = checkpoint::about("remote path has no file name: ", source_path);
        return match text::split_at_last(trimmed.as_str(), '/') {
            Some((parent, name)) => {
                let name = text::trimmed(name.as_str());
                if name.as_str().is_empty() {
                    return Err(complaint);
                }
                let agent_root = if parent.as_str().is_empty() {
                    "/".to_string()
                } else {
                    parent
                };
                Ok(
                    AgentPullSource {
                        agent_root: Some(agent_root),
                        agent_relative_path: name.clone(),
                        local_relative_path: name,
                    },
                )
            },
            None => Err(complaint),
        };
    }
    let path = sanitize_agent_relative_path(source_path);
    if path.as_str().is_empty() {
        return Err("source path did not contain a safe Android file name".to_string());
    }
    Ok(
        AgentPullSource {
            agent_root: None,
            local_relative_path: path.clone(),
            agent_relative_path: path,
        },
    )
}

/// Whether a character is an ASCII letter or digit.
pub open spec fn is_alphanumeric(c: char) -> bool {
    0x30 <= (c as int) <= 0x39 || 0x41 <= (c as int) <= 0x5a || 0x61 <= (c as int) <= 0x7a
}

/// A text as part of a task's name: other characters as hyphens.
pub open spec fn id_text(s: Seq<char>) -> Seq<char> {
    s.map_values(|c: char| if is_alphanumeric(c) { c } else { '-' })
}

/// A text as part of a task's name.
pub fn sanitize_task_id(value: &str) -> (r: String)
    ensures
        r@ == id_text(value@),
{
    let mut out = String::new();
    for c in it: value.chars()
        invariant
            it.seq() == value@,
            out@ == id_text(value@).take(it.index()),
    {
        let n: u32 = text::code(c);
        if (0x30 <= n && n <= 0x39) || (0x41 <= n && n <= 0x5a) || (0x61 <= n && n <= 0x7a) {
            out.push(c);
        } else {
            out.push('-');
        }
        assert(out@ =~= id_text(value@).take(it.index() + 1));
    }
    assert(out@ =~= id_text(value@));
    out
}

/// Whether a text can stand as one name in a path and mean nothing else.
pub open spec fn is_plain_name(name: Seq<char>) -> bool {
    &&& name.len() > 0
    &&& name != "."@
    &&& name != ".."@
    &&& text::lacks(name, '/')
    &&& text::lacks(name, '\\')
    &&& lacks_control(name)
}

proof fn lemma_plain_names_are_safe(names: Seq<Seq<char>>)
    requires
        forall|k: int| 0 <= k < names.len() ==> is_plain_name(#[trigger] names[k]),
    ensures
        safe(names) == names,
    decreases names.len(),
{
    if names.len() > 0 {
        let d = names.drop_last();
        assert forall|k: int| 0 <= k < d.len() implies is_plain_name(#[trigger] d[k]) by {
            assert(d[k] == names[k]);
        }
        lemma_plain_names_are_safe(d);
        assert(is_plain_name(names[names.len() - 1]));
        lemma_clean(names.last());
        assert(d.push(names.last()) =~= names);
    }
    assert(safe(names) =~= names);
}

proof fn lemma_swap_nothing(s: Seq<char>)
    requires
        text::lacks(s, '\\'),
    ensures
        text::swap_char(s, '\\', '/') == s,
{
    assert forall|i: int| 0 <= i < s.len() implies #[trigger] text::swap_char(s, '\\', '/')[i]
        == s[i] by {
        assert(s[i] != '\\');
    }
    assert(text::swap_char(s, '\\', '/') =~= s);
}

proof fn lemma_slash()
    ensures
        "/"@ == seq!['/'],
{
    reveal_strlit("/");
    assert("/"@ =~= seq!['/']);
}

/// A path of plain names is told to the agent as it is, name by name.
pub proof fn lemma_plain_path_is_told_as_it_is(names: Seq<Seq<char>>)
    requires
        names.len() > 0,
        forall|k: int| 0 <= k < names.len() ==> is_plain_name(#[trigger] names[k]),
    ensures
        safe_segments(text::join(names, "/"@)) == names,
        agent_path(text::join(names, "/"@)) == text::join(names, "/"@),
{
    lemma_slash();
    lemma_plain_names_are_safe(names);
    assert forall|k: int| 0 <= k < names.len() implies text::lacks(#[trigger] names[k], '/') by {
        assert(is_plain_name(names[k]));
    }
    assert forall|k: int| 0 <= k < names.len() implies text::lacks(#[trigger] names[k], '\\') by {
        assert(is_plain_name(names[k]));
    }
    text::lemma_join_lacks(names, "/"@, '\\');
    lemma_swap_nothing(text::join(names, "/"@));
    text::lemma_split_join(names, '/');
}

/// A backslash parts the names of a path as a slash does, and an empty name, a dot or two dots
/// at the end of a path change nothing.
pub proof fn lemma_idle_names_change_nothing(path: Seq<char>, idle: Seq<char>)
    requires
        idle.len() == 0 || idle == "."@ || idle == ".."@,
    ensures
        safe_segments(text::swap_char(path, '\\', '/')) == safe_segments(path),
        agent_path(text::swap_char(path, '\\', '/')) == agent_path(path),
        safe_segments(path + "/"@ + idle) == safe_segments(path),
        agent_path(path + "/"@ + idle) == agent_path(path),
{
    lemma_slash();
    reveal_strlit(".");
    reveal_strlit("..");
    let swapped = text::swap_char(path, '\\', '/');
    assert(text::swap_char(swapped, '\\', '/') =~= swapped);
    assert(text::swap_char(path + "/"@ + idle, '\\', '/') =~= swapped + seq!['/'] + idle);
    text::lemma_split_append(swapped, idle, '/');
    let pieces = text::split_on(swapped, '/');
    assert(pieces.push(idle).drop_last() =~= pieces);
}

/// A name goes behind a local path with exactly one slash between them.
pub proof fn lemma_name_goes_behind_one_slash(path: Seq<char>, name: Seq<char>)
    requires
        path.len() > 0,
        path.last() != '/',
    ensures
        with_name(path, name) == path + seq!['/'] + name,
        with_name(path + seq!['/'], name) == path + seq!['/'] + name,
        with_name(Seq::empty(), name) == name,
{
    lemma_slash();
    assert(Seq::<char>::empty() + name =~= name);
}

/// A relative path goes behind a root on the device with one slash between them, whatever slashes
/// the root ends with, whatever leading `./` the path has, and whichever way its slashes lean.
pub proof fn lemma_path_goes_behind_the_root(root: Seq<char>, relative: Seq<char>)
    ensures
        root.len() > 0 && root.last() != '/' && relative.len() > 0 && text::lacks(relative, '\\')
            && !text::starts_with(relative, "./"@) ==> lane_path(root, relative) == root
            + seq!['/'] + relative,
        lane_path(root.push('/'), relative) == lane_path(root, relative),
        lane_path(root, seq!['.', '/'] + relative) == lane_path(root, relative),
        lane_path(root, text::swap_char(relative, '\\', '/')) == lane_path(root, relative),
        root.len() > 0 && root.last() != '/' ==> lane_path(root, Seq::empty()) == root,
        text::lacks(relative, '\\') && !text::starts_with(relative, "./"@) ==> lane_path(
            Seq::empty(),
            relative,
        ) == relative,
{
    lemma_slash();
    reveal_strlit("./");
    let dot = seq!['.', '/'];
    assert("./"@ =~= dot);
    let swapped = text::swap_char(relative, '\\', '/');
    assert(text::swap_char(swapped, '\\', '/') =~= swapped);
    assert(root.push('/').drop_last() =~= root);
    assert(text::swap_char(dot + relative, '\\', '/') =~= dot + swapped);
    assert((dot + swapped).take(2) =~= dot);
    assert((dot + swapped).skip(2) =~= swapped);
    assert(text::starts_with(dot + swapped, dot));
    if text::lacks(relative, '\\') {
        lemma_swap_nothing(relative);
    }
    assert(text::swap_char(Seq::<char>::empty(), '\\', '/') =~= Seq::<char>::empty());
}

proof fn lemma_only_slashes(s: Seq<char>)
    requires
        forall|i: int| 0 <= i < s.len() ==> #[trigger] s[i] == '/',
    ensures
        last_name(text::split_on(s, '/')) is None,
    decreases s.len(),
{
    let e = Seq::<char>::empty();
    if s.len() == 0 {
        assert(seq![e].drop_last() =~= Seq::<Seq<char>>::empty());
        assert(last_name(Seq::<Seq<char>>::empty()) is None);
        assert(seq![e].last() == e);
        assert(last_name(seq![e]) is None);
    } else {
        let d = s.drop_last();
        assert forall|i: int| 0 <= i < d.len() implies #[trigger] d[i] == '/' by {
            assert(s[i] == '/');
        }
        lemma_only_slashes(d);
        assert(text::split_on(d, '/').push(e).drop_last() =~= text::split_on(d, '/'));
    }
}

/// A pulled file lands under the last name of its path, whatever directories stand before it and
/// whatever slashes behind it. A path of slashes alone names no file.
pub proof fn lemma_pulled_file_keeps_its_name(
    root: Seq<char>,
    directory: Seq<char>,
    name: Seq<char>,
    remote: Seq<char>,
)
    requires
        name.len() > 0,
        text::lacks(name, '/'),
        text::lacks(name, '\\'),
    ensures
        pull_target(root, name) == Ok::<Seq<char>, Seq<char>>(with_name(root, name)),
        pull_target(root, directory + seq!['/'] + name) == Ok::<Seq<char>, Seq<char>>(
            with_name(root, name),
        ),
        pull_target(root, directory + seq!['\\'] + name) == Ok::<Seq<char>, Seq<char>>(
            with_name(root, name),
        ),
        pull_target(root, remote) is Ok ==> pull_target(root, remote.push('/')) == pull_target(
            root,
            remote,
        ),
        (forall|i: int| 0 <= i < remote.len() ==> #[trigger] remote[i] == '/') ==> pull_target(
            root,
            remote,
        ) is Err,
{
    lemma_swap_nothing(name);
    text::lemma_split_none(name, '/');
    assert(seq![name].last() == name);
    let d = text::swap_char(directory, '\\', '/');
    assert(text::swap_char(directory + seq!['/'] + name, '\\', '/') =~= d + seq!['/']
        + text::swap_char(name, '\\', '/'));
    assert(text::swap_char(directory + seq!['\\'] + name, '\\', '/') =~= d + seq!['/']
        + text::swap_char(name, '\\', '/'));
    text::lemma_split_append(d, name, '/');
    let r = text::swap_char(remote, '\\', '/');
    let e = Seq::<char>::empty();
    assert(text::swap_char(remote.push('/'), '\\', '/') =~= r.push('/'));
    assert(r.push('/').drop_last() =~= r);
    assert(text::split_on(r, '/').push(e).drop_last() =~= text::split_on(r, '/'));
    if forall|i: int| 0 <= i < remote.len() ==> #[trigger] remote[i] == '/' {
        assert(r =~= remote);
        lemma_only_slashes(r);
    }
}

proof fn lemma_last_slash(head: Seq<char>, name: Seq<char>)
    requires
        text::lacks(name, '/'),
    ensures
        text::rfind(head + seq!['/'] + name, '/') == head.len(),
    decreases name.len(),
{
    let s = head + seq!['/'] + name;
    if name.len() == 0 {
        assert(s.last() == '/');
    } else {
        let n = name.drop_last();
        assert(name[name.len() - 1] != '/');
        assert forall|i: int| 0 <= i < n.len() implies #[trigger] n[i] != '/' by {
            assert(name[i] != '/');
        }
        assert(s.last() == name.last());
        assert(s.drop_last() =~= head + seq!['/'] + n);
        lemma_last_slash(head, n);
    }
}

/// A file with an absolute path is asked for by its name below its directory, and one at the top
/// below `/`. Any other file is asked for by its safe path, below no directory of its own.
pub proof fn lemma_pulled_file_is_asked_for_below_its_directory(
    directory: Seq<char>,
    name: Seq<char>,
    relative: Seq<char>,
)
    requires
        directory.len() > 0 ==> directory[0] == '/',
        text::lacks(directory, '\\'),
        name.len() > 0,
        text::lacks(name, '/'),
        text::lacks(name, '\\'),
        text::trim(name) == name,
        relative.len() > 0 ==> relative[0] != '/' && relative[0] != '\\',
    ensures
        pull_source(directory + seq!['/'] + name) matches Ok(s) && s.agent_relative_path == name
            && s.local_relative_path == name && s.agent_root == Some(
            if directory.len() == 0 {
                seq!['/']
            } else {
                directory
            },
        ),
        pull_source((directory + seq!['/'] + name).push('/')) == pull_source(
            directory + seq!['/'] + name,
        ),
        match pull_source(relative) {
            Ok(s) => s.agent_root is None && s.agent_relative_path == agent_path(relative)
                && s.local_relative_path == agent_path(relative) && agent_path(relative).len() > 0,
            Err(_) => agent_path(relative).len() == 0,
        },
{
    lemma_slash();
    let path = directory + seq!['/'] + name;
    lemma_swap_nothing(directory);
    lemma_swap_nothing(name);
    assert(text::swap_char(path, '\\', '/') =~= text::swap_char(directory, '\\', '/') + seq!['/']
        + text::swap_char(name, '\\', '/'));
    assert(text::swap_char(path.push('/'), '\\', '/') =~= path.push('/'));
    assert(path.push('/').drop_last() =~= path);
    assert(path.last() == name[name.len() - 1]);
    lemma_last_slash(directory, name);
    assert(path.take(directory.len() as int) =~= directory);
    assert(path.skip(directory.len() as int + 1) =~= name);
    assert(path[0] == '/');
    if relative.len() > 0 {
        assert(text::swap_char(relative, '\\', '/')[0] == relative[0]);
    }
}

/// A text becomes part of a task's name character by character: an ASCII letter or digit stays,
/// and anything else is a hyphen.
pub proof fn lemma_task_name_keeps_letters_and_digits(s: Seq<char>)
    ensures
        id_text(s).len() == s.len(),
        forall|i: int|
            0 <= i < s.len() ==> #[trigger] id_text(s)[i] == (if ('a' <= s[i] <= 'z') || ('A'
                <= s[i] <= 'Z') || ('0' <= s[i] <= '9') {
                s[i]
            } else {
                '-'
            }),
        id_text(id_text(s)) == id_text(s),
{
    assert(id_text(id_text(s)) =~= id_text(s));
}

} // verus!
