//! What is asked of ADB: paths on the device, scripts for its shell and arguments of commands.

use crate::adb_device::AdbDiscoveryError;
use crate::checkpoint;
use crate::decimal;
use crate::order;
use crate::text;
use vstd::prelude::*;
use vstd::utf8::encode_utf8;

verus! {

/// The directory that holds a path on the device.
pub open spec fn parent_of(path: Seq<char>) -> Seq<char> {
    match text::rsplit_once(text::trim_end_char(path, '/'), '/') {
        Some(p) => if p.0.len() == 0 {
            "/"@
        } else {
            p.0
        },
        None => "."@,
    }
}

/// The directory that holds a path on the device.
pub fn remote_parent(remote_path: &str) -> (r: String)
    ensures
        r@ == parent_of(remote_path@),
{
    let normalized = text::trimmed_end_char(remote_path, '/');
    match text::split_at_last(normalized.as_str(), '/') {
        Some(p) => if p.0.as_str().is_empty() {
            "/".to_string()
        } else {
            p.0
        },
        None => ".".to_string(),
    }
}

/// The parts of a relative path: its components, after the root where it starts there.
pub open spec fn path_parts(path: Seq<char>) -> Seq<Seq<char>> {
    if path.len() > 0 && path[0] == '/' {
        seq!["/"@] + order::components(path)
    } else {
        order::components(path)
    }
}

/// One more part behind a path, with slashes for backslashes.
pub open spec fn with_part(path: Seq<char>, part: Seq<char>) -> Seq<char> {
    (if path.len() > 0 && path.last() == '/' {
        path
    } else {
        path.push('/')
    }) + text::swap_char(part, '\\', '/')
}

/// Parts behind a path.
pub open spec fn with_parts(path: Seq<char>, parts: Seq<Seq<char>>) -> Seq<char>
    decreases parts.len(),
{
    if parts.len() == 0 {
        path
    } else {
        with_part(with_parts(path, parts.drop_last()), parts.last())
    }
}

/// A relative path behind a root on the device.
pub open spec fn joined_path(root: Seq<char>, relative: Seq<char>) -> Seq<char> {
    let out = with_parts(text::trim_end_char(root, '/'), path_parts(relative));
    if out.len() == 0 {
        "."@
    } else {
        out
    }
}

fn push_part(path: &mut String, part: &str)
    ensures
        final(path)@ == with_part(old(path)@, part@),
{
    let chars = text::chars_of(path.as_str());
    if chars.len() == 0 || chars[chars.len() - 1] != '/' {
        path.push('/');
    }
    path.append(text::swapped_char(part, '\\', '/').as_str());
}

/// A relative path behind a root on the device.
pub fn remote_join(root: &str, relative_path: &str) -> (r: String)
    ensures
        r@ == joined_path(root@, relative_path@),
{
    let mut out = text::trimmed_end_char(root, '/');
    let ghost start = out@;
    let ghost parts = path_parts(relative_path@);
    let chars = text::chars_of(relative_path);
    let rest = order::path_components(relative_path);
    let ghost comps = text::views(rest@);
    let ghost mut done: int = 0;
    assert(with_parts(start, parts.take(0)) == start);
    if chars.len() > 0 && chars[0] == '/' {
        push_part(&mut out, "/");
        proof {
            done = 1;
            assert(parts.take(1).drop_last() =~= parts.take(0));
            assert(parts.take(1).last() == "/"@);
        }
    }
    let ghost base = done;
    let mut i: usize = 0;
    while i < rest.len()
        invariant
            i <= rest.len(),
            comps == text::views(rest@),
            comps == order::components(relative_path@),
            parts == path_parts(relative_path@),
            base == (if relative_path@.len() > 0 && relative_path@[0] == '/' {
                1int
            } else {
                0
            }),
            out@ == with_parts(start, parts.take(base + i)),
        decreases rest.len() - i,
    {
        assert(parts.take(base + i + 1).drop_last() =~= parts.take(base + i));
        assert(parts[base + i] == comps[i as int]);
        assert(comps[i as int] == rest@[i as int]@);
        push_part(&mut out, rest[i].as_str());
        i += 1;
    }
    assert(parts.take(parts.len() as int) =~= parts);
    if out.as_str().is_empty() {
        ".".to_string()
    } else {
        out
    }
}

/// A relative path behind a root on the device.
pub fn remote_path_join(root: &str, relative_path: &str) -> (r: String)
    ensures
        r@ == joined_path(root@, relative_path@),
{
    remote_join(root, relative_path)
}

/// A character inside single quotes of a shell.
pub open spec fn quoted_char(c: char) -> Seq<char> {
    if c == '\'' {
        seq!['\'', '\\', '\'', '\'']
    } else {
        seq![c]
    }
}

/// A text inside single quotes of a shell.
pub open spec fn quoted_body(s: Seq<char>) -> Seq<char>
    decreases s.len(),
{
    if s.len() == 0 {
        Seq::empty()
    } else {
        quoted_char(s[0]) + quoted_body(s.drop_first())
    }
}

/// A text quoted for a shell.
pub open spec fn quoted(s: Seq<char>) -> Seq<char> {
    seq!['\''] + quoted_body(s) + seq!['\'']
}

/// A text quoted for a shell.
pub fn shell_quote(value: &str) -> (r: String)
    ensures
        r@ == quoted(value@),
{
    let v = text::chars_of(value);
    let mut out = String::new();
    out.push('\'');
    let mut i: usize = 0;
    assert(v@.skip(0) =~= value@);
    assert(out@ + quoted_body(value@) =~= seq!['\''] + quoted_body(value@));
    while i < v.len()
        invariant
            i <= v.len(),
            out@ + quoted_body(v@.skip(i as int)) == seq!['\''] + quoted_body(value@),
        decreases v.len() - i,
    {
        let ghost before = out@;
        let ghost rest = v@.skip(i as int);
        let c = v[i];
        if c == '\'' {
            out.push('\'');
            out.push('\\');
            out.push('\'');
            out.push('\'');
        } else {
            out.push(c);
        }
        assert(rest.drop_first() =~= v@.skip(i + 1));
        assert(out@ =~= before + quoted_char(c));
        assert(out@ + quoted_body(v@.skip(i + 1)) =~= before + quoted_body(rest));
        i += 1;
    }
    assert(out@ + quoted_body(v@.skip(i as int)) =~= out@);
    out.push('\'');
    assert(out@ =~= quoted(value@));
    out
}

/// How a shell reads a word: what stands between single quotes as it is, and outside of them a
/// backslash takes the next character as it is.
pub open spec fn shell_reads(s: Seq<char>, inside: bool) -> Seq<char>
    decreases s.len(),
{
    if s.len() == 0 {
        Seq::empty()
    } else if s[0] == '\'' {
        shell_reads(s.drop_first(), !inside)
    } else if !inside && s[0] == '\\' && s.len() >= 2 {
        seq![s[1]] + shell_reads(s.skip(2), false)
    } else {
        seq![s[0]] + shell_reads(s.drop_first(), inside)
    }
}

proof fn lemma_shell_reads_body(s: Seq<char>)
    ensures
        shell_reads(quoted_body(s) + seq!['\''], true) == s,
    decreases s.len(),
{
    let end = seq!['\''];
    let b = quoted_body(s) + end;
    if s.len() == 0 {
        assert(b =~= end);
        assert(end.drop_first() =~= Seq::<char>::empty());
        assert(shell_reads(end.drop_first(), false) =~= Seq::<char>::empty());
        assert(s =~= Seq::<char>::empty());
    } else {
        let rest = quoted_body(s.drop_first()) + end;
        lemma_shell_reads_body(s.drop_first());
        assert(b =~= quoted_char(s[0]) + rest);
        if s[0] == '\'' {
            let b1 = b.drop_first();
            assert(b1 =~= seq!['\\', '\'', '\''] + rest);
            let b2 = b1.skip(2);
            assert(b2 =~= seq!['\''] + rest);
            assert(b2.drop_first() =~= rest);
            assert(shell_reads(b2, false) == shell_reads(rest, true));
            assert(shell_reads(b1, false) == seq!['\''] + shell_reads(b2, false));
            assert(shell_reads(b, true) == shell_reads(b1, false));
        } else {
            assert(b.drop_first() =~= rest);
        }
        assert(seq![s[0]] + s.drop_first() =~= s);
    }
}

/// A shell reads a quoted text as the text, whatever it holds.
pub proof fn lemma_shell_reads_quoted(s: Seq<char>)
    ensures
        shell_reads(quoted(s), false) == s,
{
    lemma_shell_reads_body(s);
    assert(quoted(s).drop_first() =~= quoted_body(s) + seq!['\'']);
}

/// Whether a character stands for itself in a name on the device.
pub open spec fn is_fragment_char(c: char) -> bool {
    crate::agent::is_word_char(c) || c == '.'
}

/// A text as part of a name on the device: other characters as underscores, none at either end,
/// at most eighty characters.
pub open spec fn fragment(s: Seq<char>) -> Seq<char> {
    text::at_most(
        text::trim_end_char(
            text::trim_start_char(
                s.map_values(|c: char| if is_fragment_char(c) { c } else { '_' }),
                '_',
            ),
            '_',
        ),
        80,
    )
}

/// A text as part of a name on the device.
pub fn sanitize_remote_fragment(value: &str) -> (r: String)
    ensures
        r@ == fragment(value@),
{
    let mut out = String::new();
    let ghost all = value@.map_values(|c: char| if is_fragment_char(c) { c } else { '_' });
    for c in it: value.chars()
        invariant
            it.seq() == value@,
            all == value@.map_values(|c: char| if is_fragment_char(c) { c } else { '_' }),
            out@ == all.take(it.index()),
    {
        if crate::agent::is_word_character(c) || c == '.' {
            out.push(c);
        } else {
            out.push('_');
        }
        assert(out@ =~= all.take(it.index() + 1));
    }
    assert(all.take(all.len() as int) =~= all);
    let front = text::trimmed_start_char(out.as_str(), '_');
    let trimmed = text::trimmed_end_char(front.as_str(), '_');
    text::shortened(trimmed.as_str(), 80)
}

/// The FNV-1a hash of bytes.
pub open spec fn fnv(bytes: Seq<u8>) -> u64
    decreases bytes.len(),
{
    if bytes.len() == 0 {
        0xcbf29ce484222325
    } else {
        (fnv(bytes.drop_last()) ^ (bytes.last() as u64)).wrapping_mul(0x100000001b3)
    }
}

/// The FNV-1a hash of a text.
pub fn stable_hash(value: &str) -> (r: u64)
    ensures
        r == fnv(encode_utf8(value@)),
{
    let bytes = value.as_bytes();
    let ghost all = bytes@;
    let mut hash: u64 = 0xcbf29ce484222325;
    let mut i: usize = 0;
    while i < bytes.len()
        invariant
            i <= bytes.len(),
            all == bytes@,
            hash == fnv(all.take(i as int)),
        decreases bytes.len() - i,
    {
        assert(all.take(i + 1).drop_last() =~= all.take(i as int));
        hash = (hash ^ (bytes[i] as u64)).wrapping_mul(0x100000001b3);
        i += 1;
    }
    assert(all.take(all.len() as int) =~= all);
    hash
}

/// Where the chunks of a file are kept on the device until it is put together.
pub open spec fn chunk_dir(remote_file: Seq<char>) -> Seq<char> {
    "/sdcard/Nekotrans/.chunks/"@ + decimal::pad(
        decimal::hex(fnv(encode_utf8(remote_file)) as nat),
        16,
    ) + "-"@ + fragment(remote_file)
}

/// Where the chunks of a file are kept on the device until it is put together.
pub fn remote_chunk_dir(remote_file: &str) -> (r: String)
    ensures
        r@ == chunk_dir(remote_file@),
{
    let mut s = "/sdcard/Nekotrans/.chunks/".to_string();
    let hash: u64 = stable_hash(remote_file);
    s.append(decimal::padded(decimal::hex_text(hash as u128).as_str(), 16).as_str());
    s.append("-");
    s.append(sanitize_remote_fragment(remote_file).as_str());
    s
}

/// Where one chunk of a file is kept on the device.
pub open spec fn chunk_part(remote_file: Seq<char>, chunk_index: u32) -> Seq<char> {
    chunk_dir(remote_file) + "/part-"@ + decimal::pad(decimal::dec(chunk_index as nat), 8)
}

/// Where one chunk of a file is kept on the device.
pub fn remote_chunk_part(remote_file: &str, chunk_index: u32) -> (r: String)
    ensures
        r@ == chunk_part(remote_file@, chunk_index),
{
    let mut s = remote_chunk_dir(remote_file);
    s.append("/part-");
    s.append(decimal::padded(decimal::dec_text(chunk_index as u128).as_str(), 8).as_str());
    s
}

/// The hash that picks a port for a serial number.
pub open spec fn port_hash(bytes: Seq<u8>) -> u16
    decreases bytes.len(),
{
    if bytes.len() == 0 {
        0
    } else {
        port_hash(bytes.drop_last()).wrapping_mul(31).wrapping_add(bytes.last() as u16)
    }
}

/// The local port that is forwarded to the agent on a device.
pub fn local_agent_forward_port(serial: &str) -> (r: u16)
    ensures
        r == 39000 + port_hash(encode_utf8(serial@)) % 1000,
        39000 <= r < 40000,
{
    let bytes = serial.as_bytes();
    let ghost all = bytes@;
    let mut hash: u16 = 0;
    let mut i: usize = 0;
    while i < bytes.len()
        invariant
            i <= bytes.len(),
            all == bytes@,
            hash == port_hash(all.take(i as int)),
        decreases bytes.len() - i,
    {
        assert(all.take(i + 1).drop_last() =~= all.take(i as int));
        hash = hash.wrapping_mul(31).wrapping_add(bytes[i] as u16);
        i += 1;
    }
    assert(all.take(all.len() as int) =~= all);
    39000 + (hash % 1000)
}

/// Arguments of a command to one device.
pub open spec fn for_serial(serial: Seq<char>, args: Seq<Seq<char>>) -> Seq<Seq<char>> {
    seq!["-s"@, serial] + args
}

/// Arguments of a command to one device.
pub fn run_adb_for_serial(serial: &str, args: &[&str]) -> (r: Vec<String>)
    ensures
        text::views(r@) == for_serial(serial@, args@.map_values(|a: &str| a@)),
{
    let mut out: Vec<String> = Vec::new();
    out.push("-s".to_string());
    out.push(serial.to_string());
    let ghost all = args@.map_values(|a: &str| a@);
    let mut i: usize = 0;
    assert(text::views(out@) =~= for_serial(serial@, all.take(0)));
    while i < args.len()
        invariant
            i <= args.len(),
            all == args@.map_values(|a: &str| a@),
            text::views(out@) == for_serial(serial@, all.take(i as int)),
        decreases args.len() - i,
    {
        let ghost before = out@;
        let arg = args[i].to_string();
        out.push(arg);
        proof {
            text::lemma_views_push(before, arg);
        }
        assert(text::views(out@) =~= for_serial(serial@, all.take(i + 1)));
        i += 1;
    }
    assert(all.take(all.len() as int) =~= all);
    out
}

/// Arguments of a command that runs a script in a device's shell.
pub fn run_adb_shell_script(serial: &str, script: &str) -> (r: Vec<String>)
    ensures
        text::views(r@) == for_serial(serial@, seq!["shell"@, script@]),
{
    let args = ["shell", script];
    let r = run_adb_for_serial(serial, &args);
    assert(args@.map_values(|a: &str| a@) =~= seq!["shell"@, script@]);
    r
}

/// What a finished command gives: its output, or what it complained of. Texts that are not UTF-8
/// are complaints of their own.
pub open spec fn finished(
    success: bool,
    stdout: Result<Seq<char>, Seq<char>>,
    stderr: Result<Seq<char>, Seq<char>>,
) -> Result<Seq<char>, AdbErrorView> {
    if !success {
        match stderr {
            Ok(m) => Err(AdbErrorView::CommandFailed(text::trim(m))),
            Err(m) => Err(AdbErrorView::Utf8(m)),
        }
    } else {
        match stdout {
            Ok(s) => Ok(s),
            Err(m) => Err(AdbErrorView::Utf8(m)),
        }
    }
}

pub enum AdbErrorView {
    CommandFailed(Seq<char>),
    Paused(Seq<char>),
    Utf8(Seq<char>),
}

impl View for AdbDiscoveryError {
    type V = AdbErrorView;

    open spec fn view(&self) -> AdbErrorView {
        match self {
            AdbDiscoveryError::CommandFailed(m) => AdbErrorView::CommandFailed(m@),
            AdbDiscoveryError::Paused(m) => AdbErrorView::Paused(m@),
            AdbDiscoveryError::Utf8(m) => AdbErrorView::Utf8(m@),
        }
    }
}

/// The view of a text or a complaint.
pub open spec fn outcome_view(r: Result<String, String>) -> Result<Seq<char>, Seq<char>> {
    match r {
        Ok(s) => Ok(s@),
        Err(m) => Err(m@),
    }
}

/// What a finished command gives.
pub fn finish_command(
    success: bool,
    stdout: Result<String, String>,
    stderr: Result<String, String>,
) -> (r: Result<String, AdbDiscoveryError>)
    ensures
        match (r, finished(success, outcome_view(stdout), outcome_view(stderr))) {
            (Ok(a), Ok(b)) => a@ == b,
            (Err(a), Err(b)) => a@ == b,
            _ => false,
        },
{
    if !success {
        match stderr {
            Ok(m) => Err(AdbDiscoveryError::CommandFailed(text::trimmed(m.as_str()))),
            Err(m) => Err(AdbDiscoveryError::Utf8(m)),
        }
    } else {
        match stdout {
            Ok(s) => Ok(s),
            Err(m) => Err(AdbDiscoveryError::Utf8(m)),
        }
    }
}

/// Arguments of the command that installs the agent.
pub fn install_agent_apk(serial: &str, apk_path: &str) -> (r: Vec<String>)
    ensures
        text::views(r@) == for_serial(serial@, seq!["install"@, "-r"@, apk_path@]),
{
    let args = ["install", "-r", apk_path];
    let r = run_adb_for_serial(serial, &args);
    assert(args@.map_values(|a: &str| a@) =~= seq!["install"@, "-r"@, apk_path@]);
    r
}

/// Arguments of the command that copies from a device.
pub fn pull_path_from_device(serial: &str, remote_path: &str, local_root: &str) -> (r: Vec<String>)
    ensures
        text::views(r@) == for_serial(serial@, seq!["pull"@, remote_path@, local_root@]),
{
    let args = ["pull", remote_path, local_root];
    let r = run_adb_for_serial(serial, &args);
    assert(args@.map_values(|a: &str| a@) =~= seq!["pull"@, remote_path@, local_root@]);
    r
}

/// Arguments of the command that copies to a device.
pub fn push_to_device(serial: &str, local_path: &str, remote_path: &str) -> (r: Vec<String>)
    ensures
        text::views(r@) == for_serial(serial@, seq!["push"@, local_path@, remote_path@]),
{
    let args = ["push", local_path, remote_path];
    let r = run_adb_for_serial(serial, &args);
    assert(args@.map_values(|a: &str| a@) =~= seq!["push"@, local_path@, remote_path@]);
    r
}

/// The script that tells the size of a file.
pub open spec fn size_script(path: Seq<char>) -> Seq<char> {
    "if [ -f "@ + quoted(path) + " ]; then stat -c %s "@ + quoted(path)
        + "; else echo missing; fi"@
}

/// Arguments of the command that tells the size of a file.
pub fn stat_remote_file_size(serial: &str, remote_path: &str) -> (r: Vec<String>)
    ensures
        text::views(r@) == for_serial(serial@, seq!["shell"@, size_script(remote_path@)]),
{
    let mut script = "if [ -f ".to_string();
    script.append(shell_quote(remote_path).as_str());
    script.append(" ]; then stat -c %s ");
    script.append(shell_quote(remote_path).as_str());
    script.append("; else echo missing; fi");
    run_adb_shell_script(serial, script.as_str())
}

/// The size that the output of the size script tells; nothing where there is no file.
pub open spec fn told_size(output: Seq<char>) -> Result<Option<u64>, Seq<char>> {
    let t = text::trim(output);
    if t == "missing"@ || t.len() == 0 {
        Ok(None)
    } else {
        match decimal::parse(t, u64::MAX as nat) {
            Some(n) => Ok(Some(n as u64)),
            None => Err(decimal::number_problem(t)),
        }
    }
}

/// The size that the output of the size script tells.
pub fn remote_file_size(output: &str) -> (r: Result<Option<u64>, AdbDiscoveryError>)
    ensures
        match (r, told_size(output@)) {
            (Ok(a), Ok(b)) => a == b,
            (Err(e), Err(m)) => e@ == AdbErrorView::CommandFailed(m),
            _ => false,
        },
{
    let trimmed = text::trimmed(output);
    if text::str_eq(trimmed.as_str(), "missing") || trimmed.as_str().is_empty() {
        return Ok(None);
    }
    match decimal::read_u64(trimmed.as_str()) {
        Ok(n) => Ok(Some(n)),
        Err(m) => Err(AdbDiscoveryError::CommandFailed(m)),
    }
}

/// Arguments of the command that removes a path on a device.
pub fn remove_remote_path(serial: &str, remote_path: &str) -> (r: Vec<String>)
    ensures
        text::views(r@) == for_serial(
            serial@,
            seq!["shell"@, "rm -rf "@ + quoted(remote_path@)],
        ),
{
    let script = checkpoint::about("rm -rf ", shell_quote(remote_path).as_str());
    run_adb_shell_script(serial, script.as_str())
}

/// The script that puts the chunks of a file together.
pub open spec fn assemble_script(remote_file: Seq<char>, dir: Seq<char>) -> Seq<char> {
    let temp = quoted(remote_file + ".nekotrans-tmp"@);
    "cat "@ + quoted(dir) + "/part-* > "@ + temp + " && mv "@ + temp + " "@ + quoted(remote_file)
        + " && rm -rf "@ + quoted(dir)
}

/// Arguments of the command that puts the chunks of a file together.
pub fn assemble_remote_chunks(serial: &str, remote_file: &str, remote_chunk_dir: &str) -> (r: Vec<
    String,
>)
    ensures
        text::views(r@) == for_serial(
            serial@,
            seq!["shell"@, assemble_script(remote_file@, remote_chunk_dir@)],
        ),
{
    let temp = shell_quote(checkpoint::about(remote_file, ".nekotrans-tmp").as_str());
    let dir = shell_quote(remote_chunk_dir);
    let mut script = "cat ".to_string();
    script.append(dir.as_str());
    script.append("/part-* > ");
    script.append(temp.as_str());
    script.append(" && mv ");
    script.append(temp.as_str());
    script.append(" ");
    script.append(shell_quote(remote_file).as_str());
    script.append(" && rm -rf ");
    script.append(dir.as_str());
    run_adb_shell_script(serial, script.as_str())
}

/// Arguments of the command that puts the chunks of a file together, from where they are kept.
pub fn assemble_remote_file_from_chunks(serial: &str, remote_file: &str) -> (r: Vec<String>)
    ensures
        text::views(r@) == for_serial(
            serial@,
            seq!["shell"@, assemble_script(remote_file@, chunk_dir(remote_file@))],
        ),
{
    let dir = remote_chunk_dir(remote_file);
    assemble_remote_chunks(serial, remote_file, dir.as_str())
}

/// The script that makes the directories for the chunks of a file.
pub open spec fn mkdir_script(remote_file: Seq<char>) -> Seq<char> {
    "mkdir -p "@ + quoted(parent_of(remote_file)) + " "@ + quoted(chunk_dir(remote_file))
}

/// Arguments of the command that makes the directories for the chunks of a file.
pub fn make_chunk_dirs(serial: &str, remote_file: &str) -> (r: Vec<String>)
    ensures
        text::views(r@) == for_serial(serial@, seq!["shell"@, mkdir_script(remote_file@)]),
{
    let mut script = "mkdir -p ".to_string();
    script.append(shell_quote(remote_parent(remote_file).as_str()).as_str());
    script.append(" ");
    script.append(shell_quote(remote_chunk_dir(remote_file).as_str()).as_str());
    run_adb_shell_script(serial, script.as_str())
}

/// The block size and the number of blocks to seek over that lead to an offset.
pub open spec fn seek_blocks(offset: u64) -> (u64, u64) {
    if offset % 1_048_576 == 0 {
        (1_048_576, offset / 1_048_576)
    } else if offset % 4096 == 0 {
        (4096, offset / 4096)
    } else {
        (1, offset)
    }
}

/// Seeking over that many blocks leads to the offset exactly.
pub proof fn lemma_seek_leads_to_offset(offset: u64)
    ensures
        seek_blocks(offset).0 * seek_blocks(offset).1 == offset,
{
}

/// The script that writes what it is fed into a file at an offset, or makes the file where there
/// is nothing to write.
pub open spec fn write_script(remote_file: Seq<char>, offset: u64, length: u64) -> Seq<char> {
    let head = "mkdir -p "@ + quoted(parent_of(remote_file));
    if length == 0 {
        head + " && touch "@ + quoted(remote_file)
    } else {
        head + " && dd of="@ + quoted(remote_file) + " bs="@ + decimal::dec(
            seek_blocks(offset).0 as nat,
        ) + " seek="@ + decimal::dec(seek_blocks(offset).1 as nat)
            + " conv=notrunc status=none"@
    }
}

/// Arguments of the command that writes what it is fed into a file at an offset.
pub fn write_file_chunk_at_offset(serial: &str, remote_file: &str, offset: u64, length: u64) -> (r:
    Vec<String>)
    ensures
        text::views(r@) == for_serial(
            serial@,
            seq!["exec-in"@, "sh"@, "-c"@, write_script(remote_file@, offset, length)],
        ),
{
    let mut script = "mkdir -p ".to_string();
    script.append(shell_quote(remote_parent(remote_file).as_str()).as_str());
    if length == 0 {
        script.append(" && touch ");
        script.append(shell_quote(remote_file).as_str());
    } else {
        let (block_size, blocks): (u64, u64) = if offset % 1_048_576 == 0 {
            (1_048_576, offset / 1_048_576)
        } else if offset % 4096 == 0 {
            (4096, offset / 4096)
        } else {
            (1, offset)
        };
        script.append(" && dd of=");
        script.append(shell_quote(remote_file).as_str());
        script.append(" bs=");
        script.append(decimal::dec_text(block_size as u128).as_str());
        script.append(" seek=");
        script.append(decimal::dec_text(blocks as u128).as_str());
        script.append(" conv=notrunc status=none");
    }
    let args = ["exec-in", "sh", "-c", script.as_str()];
    let r = run_adb_for_serial(serial, &args);
    assert(args@.map_values(|a: &str| a@) =~= seq!["exec-in"@, "sh"@, "-c"@, script@]);
    r
}

/// What is said once a chunk was fed to the device.
pub fn chunk_streamed_message(chunk_index: u32) -> (r: String)
    ensures
        r@ == "chunk "@ + decimal::dec(chunk_index as nat) + " streamed via adb stdin"@,
{
    let mut s = "chunk ".to_string();
    s.append(decimal::dec_text(chunk_index as u128).as_str());
    s.append(" streamed via adb stdin");
    s
}

/// Arguments of the command that gives out the bytes of a file.
pub fn read_remote_file(serial: &str, remote_path: &str) -> (r: Vec<String>)
    ensures
        text::views(r@) == for_serial(
            serial@,
            seq!["exec-out"@, "sh"@, "-c"@, "cat "@ + quoted(remote_path@)],
        ),
{
    let script = checkpoint::about("cat ", shell_quote(remote_path).as_str());
    let args = ["exec-out", "sh", "-c", script.as_str()];
    let r = run_adb_for_serial(serial, &args);
    assert(args@.map_values(|a: &str| a@) =~= seq!["exec-out"@, "sh"@, "-c"@, script@]);
    r
}

/// The complaint about a file whose bytes were not given out.
pub open spec fn read_failure(remote_path: Seq<char>, stderr: Seq<char>) -> Seq<char> {
    if text::trim(stderr).len() == 0 {
        "adb exec-out cat failed for remote file: "@ + remote_path
    } else {
        "adb exec-out cat failed for remote file "@ + remote_path + ": "@ + text::trim(stderr)
    }
}

/// The complaint about a file whose bytes were not given out.
pub fn read_failed_message(remote_path: &str, stderr: &str) -> (r: String)
    ensures
        r@ == read_failure(remote_path@, stderr@),
{
    let detail = text::trimmed(stderr);
    if detail.as_str().is_empty() {
        checkpoint::about("adb exec-out cat failed for remote file: ", remote_path)
    } else {
        let mut s = "adb exec-out cat failed for remote file ".to_string();
        s.append(remote_path);
        s.append(": ");
        s.append(detail.as_str());
        s
    }
}

/// Arguments of the commands that forward a local port to the agent: one that drops an older
/// forwarding, one that makes it.
pub fn forward_agent_port(serial: &str) -> (r: (u16, Vec<String>, Vec<String>))
    ensures
        r.0 == 39000 + port_hash(encode_utf8(serial@)) % 1000,
        text::views(r.1@) == for_serial(
            serial@,
            seq!["forward"@, "--remove"@, "tcp:"@ + decimal::dec(r.0 as nat)],
        ),
        text::views(r.2@) == for_serial(
            serial@,
            seq!["forward"@, "tcp:"@ + decimal::dec(r.0 as nat), "tcp:"@ + decimal::dec(38997)],
        ),
{
    let port: u16 = local_agent_forward_port(serial);
    let local = checkpoint::about("tcp:", decimal::dec_text(port as u128).as_str());
    let remote = checkpoint::about("tcp:", decimal::dec_text(38997).as_str());
    let drop_args = ["forward", "--remove", local.as_str()];
    let make_args = ["forward", local.as_str(), remote.as_str()];
    let dropping = run_adb_for_serial(serial, &drop_args);
    let making = run_adb_for_serial(serial, &make_args);
    assert(drop_args@.map_values(|a: &str| a@) =~= seq!["forward"@, "--remove"@, local@]);
    assert(make_args@.map_values(|a: &str| a@) =~= seq!["forward"@, local@, remote@]);
    (port, dropping, making)
}

/// The arguments of a command to a device name the device first.
pub proof fn lemma_command_names_the_device(serial: Seq<char>, args: Seq<Seq<char>>)
    ensures
        for_serial(serial, args).len() == args.len() + 2,
        for_serial(serial, args)[0] == "-s"@,
        for_serial(serial, args)[1] == serial,
        for_serial(serial, args).skip(2) == args,
{
    assert(for_serial(serial, args).skip(2) =~= args);
}

/// A command gives its output exactly where it succeeded and the output is text; one that failed gives what it
/// complained of.
pub proof fn lemma_only_success_gives_output(
    success: bool,
    stdout: Result<Seq<char>, Seq<char>>,
    stderr: Result<Seq<char>, Seq<char>>,
)
    ensures
        finished(success, stdout, stderr) is Ok <==> success && stdout is Ok,
        finished(success, stdout, stderr) matches Ok(s) ==> stdout == Ok::<Seq<char>, Seq<char>>(s),
        !success && stderr is Ok ==> finished(success, stdout, stderr) == Err::<
            Seq<char>,
            AdbErrorView,
        >(AdbErrorView::CommandFailed(text::trim(stderr->Ok_0))),
        success && stdout is Err ==> finished(success, stdout, stderr) == Err::<
            Seq<char>,
            AdbErrorView,
        >(AdbErrorView::Utf8(stdout->Err_0)),
{
}

/// An output that is a number, but for white space around it, tells that size; `missing` and nothing at all tell
/// that there is no file; anything else is a complaint.
pub proof fn lemma_size_is_the_number_told(output: Seq<char>, n: u64)
    ensures
        text::trim(output) == decimal::dec(n as nat) ==> told_size(output) == Ok::<
            Option<u64>,
            Seq<char>,
        >(Some(n)),
        text::trim(output) == "missing"@ || text::trim(output).len() == 0 ==> told_size(output)
            == Ok::<Option<u64>, Seq<char>>(None),
        told_size(output) == Ok::<Option<u64>, Seq<char>>(Some(n)) ==> decimal::parse(
            text::trim(output),
            u64::MAX as nat,
        ) == Some(n as nat),
        text::trim(output).len() > 0 && text::trim(output) != "missing"@ && decimal::parse(
            text::trim(output),
            u64::MAX as nat,
        ) is None ==> told_size(output) is Err,
{
    decimal::lemma_parse_dec(n as nat, u64::MAX as nat);
    decimal::lemma_dec(n as nat);
    reveal_strlit("missing");
    assert("missing"@[0] == 'm');
    assert(decimal::is_digit(decimal::dec(n as nat)[0]));
}

/// A chunk is kept below the directory of its file, under a name that tells its number; no two chunks of a file
/// share a name, and putting a file together takes just the names of this kind in that directory.
pub proof fn lemma_chunks_have_names_of_their_own(file: Seq<char>, a: u32, b: u32)
    ensures
        chunk_part(file, a) == chunk_dir(file) + "/part-"@ + decimal::pad(
            decimal::dec(a as nat),
            8,
        ),
        chunk_part(file, a) == chunk_part(file, b) ==> a == b,
        a < 100_000_000 ==> chunk_part(file, a).len() == chunk_dir(file).len() + "/part-"@.len() + 8,
        assemble_script(file, chunk_dir(file)) == "cat "@ + quoted(chunk_dir(file))
            + "/part-* > "@ + quoted(file + ".nekotrans-tmp"@) + " && mv "@ + quoted(
            file + ".nekotrans-tmp"@,
        ) + " "@ + quoted(file) + " && rm -rf "@ + quoted(chunk_dir(file)),
{
    let head = chunk_dir(file) + "/part-"@;
    let x = decimal::pad(decimal::dec(a as nat), 8);
    let y = decimal::pad(decimal::dec(b as nat), 8);
    if chunk_part(file, a) == chunk_part(file, b) {
        assert((head + x).skip(head.len() as int) =~= x);
        assert((head + y).skip(head.len() as int) =~= y);
        decimal::lemma_numbers_are_told_apart(a as nat, b as nat, 8);
    }
    if a < 100_000_000 {
        assert(pow10(8) == 100_000_000) by {
            reveal_with_fuel(pow10, 9);
        }
        lemma_dec_length(a as nat, 8);
        decimal::lemma_dec(a as nat);
        decimal::lemma_padded_number_is_the_same(decimal::dec(a as nat), 8);
    }
}

proof fn lemma_dec_length(n: nat, width: nat)
    requires
        width > 0,
        n < pow10(width),
    ensures
        decimal::dec(n).len() <= width,
    decreases width,
{
    reveal_with_fuel(pow10, 2);
    decimal::lemma_dec_has_no_leading_zero(n);
    if n >= 10 {
        assert(width > 1);
        lemma_dec_length(n / 10, (width - 1) as nat);
    }
}

spec fn pow10(n: nat) -> nat
    decreases n,
{
    if n == 0 {
        1
    } else {
        10 * pow10((n - 1) as nat)
    }
}

/// The size of a path is asked for by a script that tells it if there is such a file and `missing` if not; the
/// directories of a file are made by one that makes its parent and the directory of its chunks.
pub proof fn lemma_scripts_are_these(path: Seq<char>)
    ensures
        size_script(path) == "if [ -f "@ + quoted(path) + " ]; then stat -c %s "@ + quoted(path)
            + "; else echo missing; fi"@,
        mkdir_script(path) == "mkdir -p "@ + quoted(parent_of(path)) + " "@ + quoted(
            chunk_dir(path),
        ),
{
}

/// Bytes are written into a file at their offset, and what the file holds elsewhere is kept: the number of
/// blocks that is sought over, by their size, is the offset, and the file is not cut. Where there is nothing to
/// write the file is only made.
pub proof fn lemma_chunk_is_written_at_its_offset(file: Seq<char>, offset: u64, length: u64)
    ensures
        length == 0 ==> write_script(file, offset, length) == "mkdir -p "@ + quoted(parent_of(file))
            + " && touch "@ + quoted(file),
        length > 0 ==> exists|size: nat, blocks: nat|
            #[trigger] (size * blocks) == offset && write_script(file, offset, length) == "mkdir -p "@ + quoted(
                parent_of(file),
            ) + " && dd of="@ + quoted(file) + " bs="@ + decimal::dec(size) + " seek="@
                + decimal::dec(blocks) + " conv=notrunc status=none"@,
{
    lemma_seek_leads_to_offset(offset);
    let size = seek_blocks(offset).0 as nat;
    let blocks = seek_blocks(offset).1 as nat;
    assert(size * blocks == offset);
}

/// A name on the device holds letters, digits, dashes, underscores and dots alone, and no more than eighty.
pub proof fn lemma_fragment_is_plain(s: Seq<char>)
    ensures
        fragment(s).len() <= 80,
        forall|i: int| 0 <= i < fragment(s).len() ==> is_fragment_char(#[trigger] fragment(s)[i]),
{
    let m = s.map_values(|c: char| if is_fragment_char(c) { c } else { '_' });
    let a = text::trim_start_char(m, '_');
    let b = text::trim_end_char(a, '_');
    assert forall|i: int| 0 <= i < m.len() implies is_fragment_char(#[trigger] m[i]) by {}
    lemma_trimmed_keeps(m, '_');
    lemma_end_trimmed_keeps(a, '_');
}

proof fn lemma_trimmed_keeps(s: Seq<char>, c: char)
    requires
        forall|i: int| 0 <= i < s.len() ==> is_fragment_char(#[trigger] s[i]),
    ensures
        ({
            let t = text::trim_start_char(s, c);
            forall|i: int| 0 <= i < t.len() ==> is_fragment_char(#[trigger] t[i])
        }),
    decreases s.len(),
{
    if s.len() > 0 && s[0] == c {
        let d = s.drop_first();
        assert forall|i: int| 0 <= i < d.len() implies is_fragment_char(#[trigger] d[i]) by {
            assert(is_fragment_char(s[i + 1]));
        }
        lemma_trimmed_keeps(d, c);
        assert(text::trim_start_char(s, c) == text::trim_start_char(d, c));
    } else {
        assert(text::trim_start_char(s, c) == s);
    }
}

proof fn lemma_end_trimmed_keeps(s: Seq<char>, c: char)
    requires
        forall|i: int| 0 <= i < s.len() ==> is_fragment_char(#[trigger] s[i]),
    ensures
        ({
            let t = text::trim_end_char(s, c);
            forall|i: int| 0 <= i < t.len() ==> is_fragment_char(#[trigger] t[i])
        }),
    decreases s.len(),
{
    if s.len() > 0 && s.last() == c {
        let d = s.drop_last();
        assert forall|i: int| 0 <= i < d.len() implies is_fragment_char(#[trigger] d[i]) by {
            assert(is_fragment_char(s[i]));
        }
        lemma_end_trimmed_keeps(d, c);
        assert(text::trim_end_char(s, c) == text::trim_end_char(d, c));
    } else {
        assert(text::trim_end_char(s, c) == s);
    }
}

/// The directory of a path with a name behind it is the path.
pub proof fn lemma_parent_is_what_stands_before_the_name(path: Seq<char>, name: Seq<char>)
    requires
        name.len() > 0,
        text::lacks(name, '/'),
    ensures
        path.len() > 0 ==> parent_of(path + "/"@ + name) == path,
        parent_of("/"@ + name) == "/"@,
        parent_of(name) == "."@,
{
    reveal_strlit("/");
    let full = path + "/"@ + name;
    assert(full.last() == name.last());
    assert(name[name.len() - 1] != '/');
    assert(text::trim_end_char(full, '/') == full);
    lemma_rfind_before_name(path, name);
    assert(full.take(path.len() as int) =~= path);
    let top = "/"@ + name;
    assert(text::trim_end_char(top, '/') == top);
    lemma_rfind_before_name(Seq::empty(), name);
    assert(Seq::<char>::empty() + "/"@ + name =~= top);
    assert(text::trim_end_char(name, '/') == name);
    lemma_rfind_none(name);
}

proof fn lemma_rfind_none(name: Seq<char>)
    requires
        text::lacks(name, '/'),
    ensures
        text::rfind(name, '/') == -1,
    decreases name.len(),
{
    if name.len() > 0 {
        assert(name[name.len() - 1] != '/');
        let d = name.drop_last();
        assert forall|i: int| 0 <= i < d.len() implies #[trigger] d[i] != '/' by {
            assert(name[i] != '/');
        }
        lemma_rfind_none(d);
    }
}

proof fn lemma_rfind_before_name(path: Seq<char>, name: Seq<char>)
    requires
        text::lacks(name, '/'),
    ensures
        text::rfind(path + "/"@ + name, '/') == path.len(),
    decreases name.len(),
{
    reveal_strlit("/");
    let full = path + "/"@ + name;
    if name.len() > 0 {
        assert(name[name.len() - 1] != '/');
        let d = name.drop_last();
        assert forall|i: int| 0 <= i < d.len() implies #[trigger] d[i] != '/' by {
            assert(name[i] != '/');
        }
        lemma_rfind_before_name(path, d);
        assert(full.drop_last() =~= path + "/"@ + d);
    }
}

/// The hashes that name the chunks of a file and pick the port of a device take in one byte after the other.
pub proof fn lemma_hashes_take_in_every_byte(bytes: Seq<u8>, b: u8)
    ensures
        fnv(Seq::empty()) == 0xcbf29ce484222325,
        fnv(bytes.push(b)) == (fnv(bytes) ^ (b as u64)).wrapping_mul(0x100000001b3),
        port_hash(Seq::empty()) == 0,
        port_hash(bytes.push(b)) == port_hash(bytes).wrapping_mul(31).wrapping_add(b as u16),
{
    assert(bytes.push(b).drop_last() =~= bytes);
}

} // verus!
