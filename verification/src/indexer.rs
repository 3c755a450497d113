//! What the indexer decides: the commands of its queue, which directories it skips and
//! which files it takes, whether a file must be indexed again, and the MD5 digest that
//! tells whether a file's bytes changed. Walking directories and reading files belongs to
//! the program around the library.

use vstd::prelude::*;
use md5::Digest;
use std::sync::mpsc::Sender;
use crate::config::{Config, WatchPath};
use crate::glob::{indexable, is_indexable, name_of};
use crate::paths::{eq_ignore_ascii_case, eq_ignore_ascii_case_chars, file_name_chars};
use crate::text::{chars_of, string_of};
use crate::database::string_list;

verus! {

/// A command for the index worker, which runs them one after the other.
pub enum IndexCommand {
    /// Index the watched paths of the settings (`paths` is `None`), or only the given
    /// paths.
    Reindex { config: Config, paths: Option<Vec<String>>, task_name: &'static str },
    /// Take the files under these paths out of the index.
    RemovePaths(Vec<String>),
}

#[verifier::external_type_specification]
#[verifier::external_body]
#[verifier::reject_recursive_types(T)]
pub struct ExSender<T>(Sender<T>);

/// The sending end of the index worker's queue, with the commands handed to it so far and
/// whether the channel took each.
pub struct IndexQueue {
    tx: Sender<IndexCommand>,
    handed: Ghost<Seq<IndexCommand>>,
    outcomes: Ghost<Seq<bool>>,
}

impl IndexQueue {
    /// The commands handed to the queue so far, in order.
    pub closed spec fn handed(&self) -> Seq<IndexCommand> {
        self.handed@
    }

    /// Whether the channel took each of those commands, in the same order.
    pub closed spec fn outcomes(&self) -> Seq<bool> {
        self.outcomes@
    }

    /// A queue over the sending end of a channel; nothing handed to it yet.
    pub fn new(tx: Sender<IndexCommand>) -> (r: Self)
        ensures
            r.handed() == Seq::<IndexCommand>::empty(),
            r.outcomes() == Seq::<bool>::empty(),
    {
        IndexQueue { tx, handed: Ghost(Seq::empty()), outcomes: Ghost(Seq::empty()) }
    }
}

/// Calls `std::sync::mpsc::Sender::send` with `cmd`; `true` when the command was queued.
/// Claimed: `cmd` is the command handed to the channel, and the result is the send's outcome.
/// Nothing more is claimed of the result: it tells whether the receiving worker is still there.
#[verifier::external_body]
fn channel_send(q: &mut IndexQueue, cmd: IndexCommand) -> (r: bool)
    ensures
        final(q).handed() == old(q).handed().push(cmd),
        final(q).outcomes() == old(q).outcomes().push(r),
{
    q.tx.send(cmd).is_ok()
}

/// Queues a command for the index worker; `false` when there is no worker (or it is gone).
pub fn send_index_command(q: &mut Option<IndexQueue>, cmd: IndexCommand) -> (r: bool)
    ensures
        old(q).is_none() ==> !r && final(q).is_none(),
        old(q).is_some() ==> final(q).is_some() && final(q).unwrap().handed() == old(
            q,
        ).unwrap().handed().push(cmd) && final(q).unwrap().outcomes() == old(
            q,
        ).unwrap().outcomes().push(r),
{
    match q {
        Some(t) => channel_send(t, cmd),
        None => false,
    }
}

/// The name of a reindexing task: of given paths, or of everything watched.
pub open spec fn task_name_of(paths_given: bool) -> Seq<char> {
    if paths_given {
        "Path reindex"@
    } else {
        "Full reindex"@
    }
}

pub fn reindex_task_name(paths_given: bool) -> (r: &'static str)
    ensures
        r@ == task_name_of(paths_given),
{
    if paths_given {
        "Path reindex"
    } else {
        "Full reindex"
    }
}

/// The paths a reindexing command visits, each with whether its subdirectories are
/// visited: the given paths (all of them recursively), or the watched paths of the
/// settings as they are set.
pub open spec fn reindex_targets_of(watch_paths: Seq<WatchPath>, paths: Option<Seq<Seq<char>>>) -> Seq<(Seq<char>, bool)> {
    match paths {
        Some(ps) => ps.map_values(|p: Seq<char>| (p, true)),
        None => watch_paths.map_values(|w: WatchPath| (w.path@, w.recursive)),
    }
}

pub open spec fn target_views(v: Seq<(String, bool)>) -> Seq<(Seq<char>, bool)> {
    v.map_values(|t: (String, bool)| (t.0@, t.1))
}

pub open spec fn opt_list(o: Option<Vec<String>>) -> Option<Seq<Seq<char>>> {
    match o {
        Some(v) => Some(string_list(v@)),
        None => None,
    }
}

/// The paths a reindexing command visits.
pub fn reindex_targets(config: &Config, paths: &Option<Vec<String>>) -> (r: Vec<(String, bool)>)
    ensures
        target_views(r@) == reindex_targets_of(config.watch_paths@, opt_list(*paths)),
{
    let mut out: Vec<(String, bool)> = Vec::new();
    match paths {
        Some(ps) => {
            let mut i: usize = 0;
            while i < ps.len()
                invariant
                    i <= ps.len(),
                    target_views(out@) == string_list(ps@).take(i as int).map_values(
                        |p: Seq<char>| (p, true),
                    ),
                decreases ps.len() - i,
            {
                let ghost before = out@;
                out.push((ps[i].clone(), true));
                assert(target_views(out@) =~= target_views(before).push((ps@[i as int]@, true)));
                i = i + 1;
                assert(target_views(out@) =~= string_list(ps@).take(i as int).map_values(
                    |p: Seq<char>| (p, true),
                ));
            }
            assert(string_list(ps@).take(ps.len() as int) =~= string_list(ps@));
        },
        None => {
            let ws = &config.watch_paths;
            let mut i: usize = 0;
            while i < ws.len()
                invariant
                    i <= ws.len(),
                    target_views(out@) == ws@.take(i as int).map_values(
                        |w: WatchPath| (w.path@, w.recursive),
                    ),
                decreases ws.len() - i,
            {
                let ghost before = out@;
                out.push((ws[i].path.clone(), ws[i].recursive));
                assert(target_views(out@) =~= target_views(before).push(
                    (ws@[i as int].path@, ws@[i as int].recursive),
                ));
                i = i + 1;
                assert(target_views(out@) =~= ws@.take(i as int).map_values(
                    |w: WatchPath| (w.path@, w.recursive),
                ));
            }
            assert(ws@.take(ws.len() as int) =~= ws@);
        },
    }
    out
}

/// Folders of the system (recycle bin, volume information, update and recovery folders)
/// that are never indexed.
pub open spec fn system_dirs() -> Seq<Seq<char>> {
    seq![
        "$RECYCLE.BIN"@,
        "System Volume Information"@,
        "$WINDOWS.~BT"@,
        "Windows.old"@,
        "Config.Msi"@,
        "Recovery"@,
        "PerfLogs"@,
    ]
}

/// The directory is one of the system folders, by name and ASCII case aside.
pub open spec fn is_system_dir(path: Seq<char>) -> bool {
    exists|i: int| 0 <= i < system_dirs().len() && eq_ignore_ascii_case(name_of(path), #[trigger] system_dirs()[i])
}

fn matches_name_ci(name: &Vec<char>, candidate: &str) -> (r: bool)
    ensures
        r == eq_ignore_ascii_case(name@, candidate@),
{
    eq_ignore_ascii_case_chars(name, &chars_of(candidate))
}

/// Whether the indexer skips the directory at `path`.
pub fn should_skip_directory(path: &str) -> (r: bool)
    ensures
        r == is_system_dir(path@),
{
    let name = match file_name_chars(&chars_of(path)) {
        Some(n) => n,
        None => Vec::new(),
    };
    let r = matches_name_ci(&name, "$RECYCLE.BIN") || matches_name_ci(&name, "System Volume Information")
        || matches_name_ci(&name, "$WINDOWS.~BT") || matches_name_ci(&name, "Windows.old")
        || matches_name_ci(&name, "Config.Msi") || matches_name_ci(&name, "Recovery")
        || matches_name_ci(&name, "PerfLogs");
    proof {
        let s = system_dirs();
        if r {
            if eq_ignore_ascii_case(name@, s[0]) {
            } else if eq_ignore_ascii_case(name@, s[1]) {
            } else if eq_ignore_ascii_case(name@, s[2]) {
            } else if eq_ignore_ascii_case(name@, s[3]) {
            } else if eq_ignore_ascii_case(name@, s[4]) {
            } else if eq_ignore_ascii_case(name@, s[5]) {
            } else {
                assert(eq_ignore_ascii_case(name@, s[6]));
            }
        } else {
            assert forall|i: int| 0 <= i < s.len() implies !eq_ignore_ascii_case(name@, #[trigger] s[i]) by {
                if i == 0 {
                } else if i == 1 {
                } else if i == 2 {
                } else if i == 3 {
                } else if i == 4 {
                } else if i == 5 {
                } else {
                    assert(i == 6);
                }
            }
        }
    }
    r
}

/// What the walk of a directory does with one of its entries.
#[derive(Debug, Clone, Copy, PartialEq, Eq)]
pub enum EntryAction {
    Skip,
    /// Walk the subdirectory too.
    Descend,
    /// Index the file.
    Index,
}

/// A subdirectory is walked when the walk is recursive and it is no system folder; a file
/// is indexed when the indexer takes it.
pub open spec fn entry_action_of(is_dir: bool, path: Seq<char>, recursive: bool, patterns: Seq<Seq<char>>) -> EntryAction {
    if is_dir {
        if is_system_dir(path) || !recursive {
            EntryAction::Skip
        } else {
            EntryAction::Descend
        }
    } else if indexable(path, patterns) {
        EntryAction::Index
    } else {
        EntryAction::Skip
    }
}

/// What the walk of a directory does with the entry at `path`.
pub fn entry_action(is_dir: bool, path: &str, recursive: bool, patterns: &[String]) -> (r: EntryAction)
    ensures
        r == entry_action_of(is_dir, path@, recursive, string_list(patterns@)),
{
    if is_dir {
        if should_skip_directory(path) || !recursive {
            EntryAction::Skip
        } else {
            EntryAction::Descend
        }
    } else if is_indexable(path, patterns) {
        EntryAction::Index
    } else {
        EntryAction::Skip
    }
}

/// Whether a file must be parsed and stored again.
#[derive(Debug, Clone, Copy, PartialEq, Eq)]
pub enum IndexDecision {
    /// Its modification time is the stored one: nothing to do.
    Unchanged,
    /// It was modified since: its digest decides.
    CompareDigest,
    /// It is not in the index yet.
    New,
}

/// The decision for a file, from what the index stores for it (its digest and
/// modification time) and its modification time now.
pub open spec fn index_decision_of(stored: Option<(Seq<char>, i64)>, modified_time: i64) -> IndexDecision {
    match stored {
        Some((_, t)) => if t == modified_time {
            IndexDecision::Unchanged
        } else {
            IndexDecision::CompareDigest
        },
        None => IndexDecision::New,
    }
}

pub fn index_decision(stored: &Option<(String, i64)>, modified_time: i64) -> (r: IndexDecision)
    ensures
        r == index_decision_of(
            match stored {
                Some((d, t)) => Some((d@, *t)),
                None => None,
            },
            modified_time,
        ),
{
    match stored {
        Some((_, t)) => if *t == modified_time {
            IndexDecision::Unchanged
        } else {
            IndexDecision::CompareDigest
        },
        None => IndexDecision::New,
    }
}

/// The 16 bytes of the MD5 digest of `data`.
pub uninterp spec fn spec_md5(data: Seq<u8>) -> Seq<u8>;

/// Calls `md5::Md5::digest` (the `md-5` crate) on `data`.
/// Claimed: the result is a function of `data` alone, 16 bytes long.
#[verifier::external_body]
fn md5_digest(data: &[u8]) -> (r: Vec<u8>)
    ensures
        r@ == spec_md5(data@),
        r@.len() == 16,
{
    md5::Md5::digest(data).to_vec()
}

/// The lowercase hexadecimal digit of `d` in `0..16`.
pub open spec fn hex_digit(d: int) -> char {
    if d < 10 {
        (('0' as u32) + d) as u32 as char
    } else {
        (('a' as u32) + d - 10) as u32 as char
    }
}

/// Each byte as two lowercase hexadecimal digits, most significant first (`{:x}`).
pub open spec fn hex_lower(bytes: Seq<u8>) -> Seq<char>
    decreases bytes.len(),
{
    if bytes.len() == 0 {
        seq![]
    } else {
        hex_lower(bytes.drop_last()) + seq![
            hex_digit((bytes.last() / 16) as int),
            hex_digit((bytes.last() % 16) as int),
        ]
    }
}

fn hex_digit_exec(d: u8) -> (c: char)
    requires
        d < 16,
    ensures
        c == hex_digit(d as int),
{
    let v: u32 = if d < 10 {
        48 + d as u32
    } else {
        97 + (d as u32) - 10
    };
    match char::from_u32(v) {
        Some(c) => {
            proof {
                vstd::utf8::char_u32_cast(c, v);
            }
            c
        },
        None => {
            assert(false);
            '0'
        },
    }
}

/// The bytes in lowercase hexadecimal.
pub fn hex_string(bytes: &Vec<u8>) -> (r: String)
    ensures
        r@ == hex_lower(bytes@),
{
    let mut out: Vec<char> = Vec::new();
    let mut i: usize = 0;
    while i < bytes.len()
        invariant
            i <= bytes.len(),
            out@ == hex_lower(bytes@.take(i as int)),
        decreases bytes.len() - i,
    {
        let b = bytes[i];
        assert(bytes@.take(i as int + 1).drop_last() == bytes@.take(i as int));
        assert(bytes@.take(i as int + 1).last() == b);
        out.push(hex_digit_exec(b / 16));
        out.push(hex_digit_exec(b % 16));
        i = i + 1;
        assert(out@ =~= hex_lower(bytes@.take(i as int)));
    }
    assert(bytes@.take(bytes.len() as int) == bytes@);
    string_of(&out)
}

/// The MD5 digest of a file's bytes, in lowercase hexadecimal.
pub fn calculate_md5(data: &[u8]) -> (r: String)
    ensures
        r@ == hex_lower(spec_md5(data@)),
        r@.len() == 32,
{
    let d = md5_digest(data);
    proof {
        lemma_hex_lower_len(d@);
    }
    hex_string(&d)
}

proof fn lemma_hex_lower_len(b: Seq<u8>)
    ensures
        hex_lower(b).len() == 2 * b.len(),
    decreases b.len(),
{
    if b.len() > 0 {
        lemma_hex_lower_len(b.drop_last());
    }
}

proof fn lemma_hex_digit_injective(a: int, b: int)
    requires
        0 <= a < 16,
        0 <= b < 16,
        hex_digit(a) == hex_digit(b),
    ensures
        a == b,
{
    let x: u32 = if a < 10 { (48 + a) as u32 } else { (97 + a - 10) as u32 };
    let y: u32 = if b < 10 { (48 + b) as u32 } else { (97 + b - 10) as u32 };
    assert(hex_digit(a) == x as char);
    assert(hex_digit(b) == y as char);
    assert((x as char) as u32 == x);
    assert((y as char) as u32 == y);
}

/// Two digests are written alike exactly when they are equal, so comparing the written
/// digests of two files compares their digests.
pub proof fn lemma_hex_lower_injective(a: Seq<u8>, b: Seq<u8>)
    ensures
        hex_lower(a) == hex_lower(b) <==> a == b,
    decreases a.len(),
{
    if hex_lower(a) == hex_lower(b) {
        lemma_hex_lower_len(a);
        lemma_hex_lower_len(b);
        if a.len() > 0 {
            let ha = hex_lower(a);
            let hb = hex_lower(b);
            let n = ha.len();
            assert(ha[n - 2] == hex_digit((a.last() / 16) as int));
            assert(hb[n - 2] == hex_digit((b.last() / 16) as int));
            assert(ha[n - 1] == hex_digit((a.last() % 16) as int));
            assert(hb[n - 1] == hex_digit((b.last() % 16) as int));
            lemma_hex_digit_injective((a.last() / 16) as int, (b.last() / 16) as int);
            lemma_hex_digit_injective((a.last() % 16) as int, (b.last() % 16) as int);
            assert(a.last() == b.last());
            assert(hex_lower(a.drop_last()) =~= ha.subrange(0, n - 2));
            assert(hex_lower(b.drop_last()) =~= hb.subrange(0, n - 2));
            lemma_hex_lower_injective(a.drop_last(), b.drop_last());
            assert(a =~= a.drop_last().push(a.last()));
            assert(b =~= b.drop_last().push(b.last()));
        } else {
            assert(a =~= b);
        }
    }
}

/// Whether the digest of a modified file is the stored one, so that it need not be parsed
/// again.
pub fn digest_unchanged(stored: &str, computed: &str) -> (r: bool)
    ensures
        r == (stored@ == computed@),
{
    crate::text::str_equals(stored, computed)
}

} // verus!
