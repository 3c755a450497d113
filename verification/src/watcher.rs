//! What the file watcher decides: the set of watched paths, which changed files belong to
//! the index, and the debouncing of changes before a file is indexed again. The watcher
//! itself (the operating system's notifications and the event thread) belongs to the
//! program around the library.

use vstd::prelude::*;
use crate::paths::{path_components, path_components_chars, path_starts_with,
    path_starts_with_chars, same_components};
use crate::text::{chars_of, string_of, views};
use crate::database::string_list;

verus! {

/// The paths being watched, each once: two paths with the same components (`a/b` and
/// `a/./b/`) are the same path.
pub struct WatchPaths {
    paths: Vec<String>,
}

/// No two of the paths have the same components.
pub open spec fn distinct_paths(ps: Seq<Seq<char>>) -> bool {
    forall|i: int, j: int|
        0 <= i < j < ps.len() ==> path_components(#[trigger] ps[i]) != path_components(
            #[trigger] ps[j],
        )
}

/// The set of paths named by the components of each of `ps`.
pub open spec fn component_set(ps: Seq<Seq<char>>) -> Set<Seq<Seq<char>>> {
    Set::new(|c: Seq<Seq<char>>| exists|i: int| 0 <= i < ps.len() && path_components(#[trigger] ps[i]) == c)
}

impl WatchPaths {
    /// The watched paths, as the components of each.
    pub closed spec fn view(&self) -> Set<Seq<Seq<char>>> {
        component_set(string_list(self.paths@))
    }

    /// The watched paths as they were written, in the order they were first added.
    pub closed spec fn stored(&self) -> Seq<Seq<char>> {
        string_list(self.paths@)
    }

    #[verifier::type_invariant]
    closed spec fn wf(&self) -> bool {
        distinct_paths(string_list(self.paths@))
    }

    /// No path is watched.
    pub fn new() -> (r: Self)
        ensures
            r@ == Set::<Seq<Seq<char>>>::empty(),
            r.stored() == Seq::<Seq<char>>::empty(),
    {
        let r = WatchPaths { paths: Vec::new() };
        assert(r@ =~= Set::<Seq<Seq<char>>>::empty());
        r
    }

    fn find(&self, path: &str) -> (r: Option<usize>)
        ensures
            match r {
                Some(i) => i < self.paths.len() && path_components(self.paths@[i as int]@)
                    == path_components(path@),
                None => !self@.contains(path_components(path@)),
            },
    {
        let target = path_components_chars(&chars_of(path));
        let mut i: usize = 0;
        while i < self.paths.len()
            invariant
                i <= self.paths.len(),
                views(target@) == path_components(path@),
                forall|k: int|
                    0 <= k < i ==> path_components(#[trigger] string_list(self.paths@)[k])
                        != path_components(path@),
            decreases self.paths.len() - i,
        {
            let c = path_components_chars(&chars_of(self.paths[i].as_str()));
            assert(string_list(self.paths@)[i as int] == self.paths@[i as int]@);
            if same_components(&c, &target) {
                return Some(i);
            }
            i = i + 1;
        }
        None
    }

    /// Starts watching `path` (nothing changes if it is watched already).
    pub fn add(&mut self, path: &str)
        ensures
            final(self)@ == old(self)@.insert(path_components(path@)),
            final(self).stored() == (if old(self)@.contains(path_components(path@)) {
                old(self).stored()
            } else {
                old(self).stored().push(path@)
            }),
    {
        proof {
            use_type_invariant(&*self);
        }
        match self.find(path) {
            Some(i) => {
                assert(self@ =~= self@.insert(path_components(path@))) by {
                    assert(path_components(string_list(self.paths@)[i as int]) == path_components(
                        path@,
                    ));
                }
            },
            None => {
                let ghost before = string_list(self.paths@);
                let p = string_of(&chars_of(path));
                let mut paths: Vec<String> = Vec::new();
                std::mem::swap(&mut paths, &mut self.paths);
                paths.push(p);
                let ghost after = string_list(paths@);
                assert(after =~= before.push(path@));
                assert(component_set(after) =~= component_set(before).insert(path_components(path@))) by {
                    assert forall|c: Seq<Seq<char>>|
                        component_set(after).contains(c) implies component_set(before).insert(
                            path_components(path@),
                        ).contains(c) by {
                        let i = choose|i: int| 0 <= i < after.len() && path_components(#[trigger] after[i]) == c;
                        if i < before.len() {
                            assert(after[i] == before[i]);
                        }
                    }
                    assert forall|c: Seq<Seq<char>>|
                        component_set(before).insert(path_components(path@)).contains(
                            c,
                        ) implies component_set(after).contains(c) by {
                        if c == path_components(path@) {
                            assert(path_components(after[before.len() as int]) == c);
                        } else {
                            let i = choose|i: int| 0 <= i < before.len() && path_components(#[trigger] before[i]) == c;
                            assert(after[i] == before[i]);
                        }
                    }
                }
                assert(distinct_paths(after)) by {
                    assert forall|i: int, j: int|
                        0 <= i < j < after.len() implies path_components(#[trigger] after[i])
                        != path_components(#[trigger] after[j]) by {
                        if j == before.len() {
                            assert(after[i] == before[i]);
                            assert(!component_set(before).contains(path_components(path@)));
                        } else {
                            assert(after[i] == before[i]);
                            assert(after[j] == before[j]);
                        }
                    }
                }
                self.paths = paths;
            },
        }
    }

    /// Stops watching `path`.
    pub fn remove(&mut self, path: &str)
        ensures
            final(self)@ == old(self)@.remove(path_components(path@)),
            !old(self)@.contains(path_components(path@)) ==> final(self).stored() == old(
                self,
            ).stored(),
            old(self)@.contains(path_components(path@)) ==> exists|i: int|
                0 <= i < old(self).stored().len() && path_components(#[trigger] old(self).stored()[i])
                    == path_components(path@) && final(self).stored() == old(self).stored().remove(i),
    {
        proof {
            use_type_invariant(&*self);
        }
        match self.find(path) {
            Some(i) => {
                let ghost before = string_list(self.paths@);
                let ghost key = path_components(path@);
                let mut paths: Vec<String> = Vec::new();
                std::mem::swap(&mut paths, &mut self.paths);
                paths.remove(i);
                let ghost after = string_list(paths@);
                assert(after =~= before.remove(i as int));
                assert(path_components(before[i as int]) == key);
                assert(distinct_paths(after)) by {
                    assert forall|a: int, b: int|
                        0 <= a < b < after.len() implies path_components(#[trigger] after[a])
                        != path_components(#[trigger] after[b]) by {
                        let a0 = if a < i { a } else { a + 1 };
                        let b0 = if b < i { b } else { b + 1 };
                        assert(after[a] == before[a0]);
                        assert(after[b] == before[b0]);
                    }
                }
                assert(component_set(after) =~= component_set(before).remove(key)) by {
                    assert forall|c: Seq<Seq<char>>|
                        component_set(after).contains(c) implies component_set(before).remove(
                            key,
                        ).contains(c) by {
                        let a = choose|a: int| 0 <= a < after.len() && path_components(#[trigger] after[a]) == c;
                        let a0 = if a < i { a } else { a + 1 };
                        assert(after[a] == before[a0]);
                        assert(path_components(before[i as int]) == key);
                    }
                    assert forall|c: Seq<Seq<char>>|
                        component_set(before).remove(key).contains(c) implies component_set(
                            after,
                        ).contains(c) by {
                        let b = choose|b: int| 0 <= b < before.len() && path_components(#[trigger] before[b]) == c;
                        assert(b != i);
                        let b1 = if b < i { b } else { b - 1 };
                        assert(after[b1] == before[b]);
                    }
                }
                self.paths = paths;
                assert(self.stored() == before.remove(i as int));
                assert(old(self).stored() == before);
                assert(path_components(old(self).stored()[i as int]) == path_components(path@));
            },
            None => {
                assert(self@ =~= self@.remove(path_components(path@)));
            },
        }
    }

    /// Whether `path` is watched.
    pub fn contains(&self, path: &str) -> (r: bool)
        ensures
            r == self@.contains(path_components(path@)),
    {
        match self.find(path) {
            Some(i) => {
                assert(path_components(string_list(self.paths@)[i as int]) == path_components(path@));
                true
            },
            None => false,
        }
    }

    /// Stops watching every path.
    pub fn clear(&mut self)
        ensures
            final(self)@ == Set::<Seq<Seq<char>>>::empty(),
            final(self).stored() == Seq::<Seq<char>>::empty(),
    {
        self.paths = Vec::new();
        assert(self.stored() =~= Seq::<Seq<char>>::empty());
        assert(self@ =~= Set::<Seq<Seq<char>>>::empty());
    }

    /// The watched paths, each once, as they were written and in the order they were first
    /// added.
    pub fn get_all(&self) -> (r: Vec<String>)
        ensures
            string_list(r@) == self.stored(),
            component_set(string_list(r@)) == self@,
            distinct_paths(string_list(r@)),
    {
        proof {
            use_type_invariant(self);
        }
        let mut out: Vec<String> = Vec::new();
        let mut i: usize = 0;
        while i < self.paths.len()
            invariant
                i <= self.paths.len(),
                string_list(out@) == string_list(self.paths@).take(i as int),
            decreases self.paths.len() - i,
        {
            let ghost before = out@;
            out.push(self.paths[i].clone());
            assert(string_list(out@) =~= string_list(before).push(self.paths@[i as int]@));
            i = i + 1;
            assert(string_list(out@) =~= string_list(self.paths@).take(i as int));
        }
        assert(string_list(self.paths@).take(self.paths.len() as int) =~= string_list(self.paths@));
        out
    }
}

impl Default for WatchPaths {
    fn default() -> (r: Self)
        ensures
            r@ == Set::<Seq<Seq<char>>>::empty(),
            r.stored() == Seq::<Seq<char>>::empty(),
    {
        WatchPaths::new()
    }
}

// ---------------------------------------------------------------------------
// Which changes concern the index.

/// What a watched path is on disk.
#[derive(Debug, Clone, Copy, PartialEq, Eq)]
pub enum PathKind {
    Dir,
    File,
    Other,
}

/// A changed path concerns a watched path: it lies under a watched directory, or it is a
/// watched file.
pub open spec fn watched_by(p: Seq<char>, w: Seq<char>, kind: PathKind) -> bool {
    match kind {
        PathKind::Dir => path_starts_with(p, w),
        PathKind::File => path_components(p) == path_components(w),
        PathKind::Other => false,
    }
}

/// Whether a path is absolute (it begins at the root).
pub open spec fn is_absolute(p: Seq<char>) -> bool {
    p.len() > 0 && p[0] == '/'
}

pub fn path_is_absolute(path: &str) -> (r: bool)
    ensures
        r == is_absolute(path@),
{
    let c = chars_of(path);
    c.len() > 0 && c[0] == '/'
}

/// Whether a changed file concerns one of the watched paths, given its absolute path and
/// what each watched path is on disk.
pub fn should_watch(abs_path: &str, watched: &Vec<(String, PathKind)>) -> (r: bool)
    ensures
        r == exists|i: int|
            0 <= i < watched.len() && watched_by(abs_path@, (#[trigger] watched@[i]).0@, watched@[i].1),
{
    let p = chars_of(abs_path);
    let pc = path_components_chars(&p);
    let mut i: usize = 0;
    while i < watched.len()
        invariant
            i <= watched.len(),
            p@ == abs_path@,
            views(pc@) == path_components(abs_path@),
            forall|k: int| 0 <= k < i ==> !watched_by(abs_path@, (#[trigger] watched@[k]).0@, watched@[k].1),
        decreases watched.len() - i,
    {
        let w = chars_of(watched[i].0.as_str());
        let hit = match watched[i].1 {
            PathKind::Dir => path_starts_with_chars(&p, &w),
            PathKind::File => same_components(&pc, &path_components_chars(&w)),
            PathKind::Other => false,
        };
        if hit {
            return true;
        }
        i = i + 1;
    }
    false
}

// ---------------------------------------------------------------------------
// Debouncing.

/// The kinds of change the watcher reports.
#[derive(Debug, Clone, Copy, PartialEq, Eq)]
pub enum WatchEventKind {
    Any,
    Access,
    Create,
    Modify,
    Remove,
    Other,
}

/// What is done about a changed path.
#[derive(Debug, Clone, Copy, PartialEq, Eq)]
pub enum PathAction {
    /// The change does not concern the index.
    Ignore,
    /// The file is indexed again once it has been quiet for a while.
    Pending,
    /// The file is taken out of the index now.
    RemoveFromIndex,
}

/// The action for a change: only paths that are watched and match the file patterns
/// count; a creation or modification waits, a removal acts at once.
pub open spec fn path_action_of(kind: WatchEventKind, watched: bool, matches: bool) -> PathAction {
    if !watched || !matches {
        PathAction::Ignore
    } else {
        match kind {
            WatchEventKind::Create | WatchEventKind::Modify => PathAction::Pending,
            WatchEventKind::Remove => PathAction::RemoveFromIndex,
            _ => PathAction::Ignore,
        }
    }
}

pub fn path_action(kind: WatchEventKind, watched: bool, matches: bool) -> (r: PathAction)
    ensures
        r == path_action_of(kind, watched, matches),
{
    if !watched || !matches {
        PathAction::Ignore
    } else {
        match kind {
            WatchEventKind::Create | WatchEventKind::Modify => PathAction::Pending,
            WatchEventKind::Remove => PathAction::RemoveFromIndex,
            _ => PathAction::Ignore,
        }
    }
}

/// How long ago a moment was, in nanoseconds (none if it lies ahead).
pub open spec fn elapsed(now: u128, then: u128) -> int {
    if now >= then {
        now - then
    } else {
        0
    }
}

/// The changed files waiting to be indexed, each once with the time of its last change.
pub struct PendingEvents {
    entries: Vec<(String, u128)>,
}

pub open spec fn entry_list(v: Seq<(String, u128)>) -> Seq<(Seq<char>, u128)> {
    v.map_values(|e: (String, u128)| (e.0@, e.1))
}

pub open spec fn entry_paths(v: Seq<(Seq<char>, u128)>) -> Seq<Seq<char>> {
    v.map_values(|e: (Seq<char>, u128)| e.0)
}

/// The entries that have been quiet for longer than `debounce`, in order.
pub open spec fn due_entries(v: Seq<(Seq<char>, u128)>, now: u128, debounce: u128) -> Seq<(Seq<char>, u128)>
    decreases v.len(),
{
    if v.len() == 0 {
        seq![]
    } else {
        due_entries(v.drop_last(), now, debounce) + if elapsed(now, v.last().1) > debounce {
            seq![v.last()]
        } else {
            seq![]
        }
    }
}

/// The entries that have not been quiet for longer than `debounce`, in order.
pub open spec fn waiting_entries(v: Seq<(Seq<char>, u128)>, now: u128, debounce: u128) -> Seq<(Seq<char>, u128)>
    decreases v.len(),
{
    if v.len() == 0 {
        seq![]
    } else {
        waiting_entries(v.drop_last(), now, debounce) + if elapsed(now, v.last().1) > debounce {
            seq![]
        } else {
            seq![v.last()]
        }
    }
}

/// The entries after a change of `path` at `now`: the time of the entry with the same
/// components is renewed (its path kept), or a new entry comes last.
pub open spec fn record_change(v: Seq<(Seq<char>, u128)>, path: Seq<char>, now: u128) -> Seq<(Seq<char>, u128)> {
    if exists|i: int| 0 <= i < v.len() && path_components(#[trigger] v[i].0) == path_components(path) {
        let i = choose|i: int| 0 <= i < v.len() && path_components(#[trigger] v[i].0) == path_components(path);
        v.update(i, (v[i].0, now))
    } else {
        v.push((path, now))
    }
}

impl PendingEvents {
    /// The waiting files and the time of their last change, in the order they came.
    pub closed spec fn view(&self) -> Seq<(Seq<char>, u128)> {
        entry_list(self.entries@)
    }

    #[verifier::type_invariant]
    closed spec fn wf(&self) -> bool {
        distinct_paths(entry_paths(entry_list(self.entries@)))
    }

    /// Nothing waits.
    pub fn new() -> (r: Self)
        ensures
            r@ == Seq::<(Seq<char>, u128)>::empty(),
    {
        let r = PendingEvents { entries: Vec::new() };
        assert(r@ =~= Seq::<(Seq<char>, u128)>::empty());
        r
    }

    /// Whether nothing waits.
    pub fn is_empty(&self) -> (r: bool)
        ensures
            r == (self@.len() == 0),
    {
        self.entries.len() == 0
    }

    /// Records that `path` changed at `now`.
    pub fn record(&mut self, path: &str, now: u128)
        ensures
            final(self)@ == record_change(old(self)@, path@, now),
    {
        proof {
            use_type_invariant(&*self);
        }
        let ghost v = self@;
        let target = path_components_chars(&chars_of(path));
        let mut i: usize = 0;
        while i < self.entries.len()
            invariant
                i <= self.entries.len(),
                v == entry_list(self.entries@),
                v == old(self)@,
                distinct_paths(entry_paths(v)),
                views(target@) == path_components(path@),
                forall|k: int| 0 <= k < i ==> path_components(#[trigger] v[k].0) != path_components(path@),
            decreases self.entries.len() - i,
        {
            let c = path_components_chars(&chars_of(self.entries[i].0.as_str()));
            assert(v[i as int].0 == self.entries@[i as int].0@);
            if same_components(&c, &target) {
                let name = self.entries[i].0.clone();
                let mut entries: Vec<(String, u128)> = Vec::new();
                std::mem::swap(&mut entries, &mut self.entries);
                entries.set(i, (name, now));
                proof {
                    let w = v.update(i as int, (v[i as int].0, now));
                    assert(entry_list(entries@) =~= w);
                    assert forall|a: int|
                        0 <= a < v.len() && path_components(#[trigger] v[a].0) == path_components(
                            path@,
                        ) implies a == i by {
                        if a != i {
                            assert(entry_paths(v)[a] == v[a].0);
                            assert(entry_paths(v)[i as int] == v[i as int].0);
                        }
                    }
                    assert(entry_paths(entry_list(entries@)) =~= entry_paths(v));
                    assert(path_components(v[i as int].0) == path_components(path@));
                    let c = choose|a: int|
                        0 <= a < v.len() && path_components(#[trigger] v[a].0) == path_components(
                            path@,
                        );
                    assert(c == i);
                    assert(record_change(v, path@, now) == w);
                }
                self.entries = entries;
                return;
            }
            i = i + 1;
        }
        let mut entries: Vec<(String, u128)> = Vec::new();
        std::mem::swap(&mut entries, &mut self.entries);
        entries.push((string_of(&chars_of(path)), now));
        proof {
            assert(entry_list(entries@) =~= v.push((path@, now)));
            let ps = entry_paths(entry_list(entries@));
            assert(ps =~= entry_paths(v).push(path@));
            assert forall|a: int, b: int|
                0 <= a < b < ps.len() implies path_components(#[trigger] ps[a]) != path_components(
                #[trigger] ps[b],
            ) by {
                assert(ps[a] == v[a].0);
                if b < v.len() {
                    assert(ps[b] == v[b].0);
                    assert(entry_paths(v)[a] == v[a].0);
                    assert(entry_paths(v)[b] == v[b].0);
                }
            }
        }
        self.entries = entries;
    }

    /// Takes out the files quiet for longer than `debounce` at `now`, and returns their paths
    /// in order; the others keep waiting.
    pub fn take_due(&mut self, now: u128, debounce: u128) -> (r: Vec<String>)
        ensures
            string_list(r@) == entry_paths(due_entries(old(self)@, now, debounce)),
            final(self)@ == waiting_entries(old(self)@, now, debounce),
    {
        proof {
            use_type_invariant(&*self);
        }
        let ghost v = self@;
        let mut due: Vec<String> = Vec::new();
        let mut keep: Vec<(String, u128)> = Vec::new();
        let mut i: usize = 0;
        while i < self.entries.len()
            invariant
                i <= self.entries.len(),
                v == entry_list(self.entries@),
                string_list(due@) == entry_paths(due_entries(v.take(i as int), now, debounce)),
                entry_list(keep@) == waiting_entries(v.take(i as int), now, debounce),
            decreases self.entries.len() - i,
        {
            assert(v.take(i as int + 1).drop_last() == v.take(i as int));
            let e = &self.entries[i];
            assert(v.take(i as int + 1).last() == (e.0@, e.1));
            let age: u128 = if now >= e.1 {
                now - e.1
            } else {
                0
            };
            if age > debounce {
                let ghost before = due@;
                due.push(e.0.clone());
                assert(string_list(due@) =~= string_list(before).push(e.0@));
                assert(entry_paths(due_entries(v.take(i as int + 1), now, debounce)) =~= entry_paths(
                    due_entries(v.take(i as int), now, debounce),
                ).push(e.0@));
                assert(waiting_entries(v.take(i as int + 1), now, debounce) =~= waiting_entries(
                    v.take(i as int),
                    now,
                    debounce,
                ));
            } else {
                let ghost before = keep@;
                keep.push((e.0.clone(), e.1));
                assert(entry_list(keep@) =~= entry_list(before).push((e.0@, e.1)));
                assert(due_entries(v.take(i as int + 1), now, debounce) =~= due_entries(
                    v.take(i as int),
                    now,
                    debounce,
                ));
            }
            i = i + 1;
        }
        assert(v.take(self.entries.len() as int) == v);
        proof {
            lemma_waiting_distinct(v, now, debounce);
        }
        self.entries = keep;
        due
    }
}

proof fn lemma_waiting_subseq(v: Seq<(Seq<char>, u128)>, now: u128, debounce: u128, k: int)
    requires
        0 <= k < waiting_entries(v, now, debounce).len(),
    ensures
        exists|j: int| 0 <= j < v.len() && v[j] == waiting_entries(v, now, debounce)[k],
    decreases v.len(),
{
    let w = waiting_entries(v, now, debounce);
    let p = waiting_entries(v.drop_last(), now, debounce);
    if k < p.len() {
        lemma_waiting_subseq(v.drop_last(), now, debounce, k);
        let j = choose|j: int| 0 <= j < v.drop_last().len() && v.drop_last()[j] == p[k];
        assert(v[j] == w[k]);
    } else {
        assert(v[v.len() - 1] == w[k]);
    }
}

proof fn lemma_waiting_distinct(v: Seq<(Seq<char>, u128)>, now: u128, debounce: u128)
    requires
        distinct_paths(entry_paths(v)),
    ensures
        distinct_paths(entry_paths(waiting_entries(v, now, debounce))),
    decreases v.len(),
{
    if v.len() > 0 {
        let d = v.drop_last();
        assert(distinct_paths(entry_paths(d))) by {
            assert forall|a: int, b: int|
                0 <= a < b < entry_paths(d).len() implies path_components(
                #[trigger] entry_paths(d)[a],
            ) != path_components(#[trigger] entry_paths(d)[b]) by {
                assert(entry_paths(d)[a] == entry_paths(v)[a]);
                assert(entry_paths(d)[b] == entry_paths(v)[b]);
            }
        }
        lemma_waiting_distinct(d, now, debounce);
        let w = waiting_entries(v, now, debounce);
        let p = waiting_entries(d, now, debounce);
        if elapsed(now, v.last().1) <= debounce {
            assert forall|a: int, b: int|
                0 <= a < b < entry_paths(w).len() implies path_components(
                #[trigger] entry_paths(w)[a],
            ) != path_components(#[trigger] entry_paths(w)[b]) by {
                if b == p.len() {
                    lemma_waiting_subseq(d, now, debounce, a);
                    let j = choose|j: int| 0 <= j < d.len() && d[j] == p[a];
                    assert(entry_paths(w)[a] == p[a].0);
                    assert(entry_paths(w)[b] == v.last().0);
                    assert(entry_paths(v)[j] == d[j].0);
                    assert(entry_paths(v)[v.len() - 1] == v.last().0);
                } else {
                    assert(entry_paths(w)[a] == entry_paths(p)[a]);
                    assert(entry_paths(w)[b] == entry_paths(p)[b]);
                }
            }
        } else {
            assert(w =~= p);
        }
    }
}

/// The debouncing of changes: the waiting files and when they were last looked at.
pub struct EventLoop {
    pub pending: PendingEvents,
    pub last_check: u128,
}

impl EventLoop {
    /// Nothing waits; the last look is at `now`.
    pub fn new(now: u128) -> (r: Self)
        ensures
            r.pending@.len() == 0,
            r.last_check == now,
    {
        EventLoop { pending: PendingEvents::new(), last_check: now }
    }

    /// Handles a change of `path`: returns the path when it is to be taken out of the
    /// index now; a creation or modification waits.
    pub fn on_change(&mut self, path: &str, kind: WatchEventKind, watched: bool, matches: bool, now: u128) -> (r: Option<String>)
        ensures
            final(self).last_check == old(self).last_check,
            path_action_of(kind, watched, matches) == PathAction::Pending ==> final(self).pending@
                == record_change(old(self).pending@, path@, now) && r is None,
            path_action_of(kind, watched, matches) == PathAction::RemoveFromIndex ==> (final(self).pending@
                == old(self).pending@ && (r matches Some(p) && p@ == path@)),
            path_action_of(kind, watched, matches) == PathAction::Ignore ==> final(self).pending@
                == old(self).pending@ && r is None,
    {
        match path_action(kind, watched, matches) {
            PathAction::Pending => {
                self.pending.record(path, now);
                None
            },
            PathAction::RemoveFromIndex => Some(string_of(&chars_of(path))),
            PathAction::Ignore => None,
        }
    }

    /// When more than `debounce` has passed since the last look and files wait: takes out
    /// the files quiet for longer than `debounce`, to be indexed, and looks again at
    /// `now`. Otherwise nothing changes.
    pub fn flush(&mut self, now: u128, debounce: u128) -> (r: Vec<String>)
        ensures
            if elapsed(now, old(self).last_check) > debounce && old(self).pending@.len() > 0 {
                &&& string_list(r@) == entry_paths(due_entries(old(self).pending@, now, debounce))
                &&& final(self).pending@ == waiting_entries(old(self).pending@, now, debounce)
                &&& final(self).last_check == now
            } else {
                &&& r@.len() == 0
                &&& final(self).pending@ == old(self).pending@
                &&& final(self).last_check == old(self).last_check
            },
    {
        let since: u128 = if now >= self.last_check {
            now - self.last_check
        } else {
            0
        };
        if since > debounce && !self.pending.is_empty() {
            let due = self.pending.take_due(now, debounce);
            self.last_check = now;
            due
        } else {
            Vec::new()
        }
    }
}


// ---------------------------------------------------------------------------
// Laws.

/// Once a path is added it is watched, under every spelling of it.
pub proof fn lemma_added_path_is_watched(before: Set<Seq<Seq<char>>>, p: Seq<char>, q: Seq<char>)
    requires
        path_components(q) == path_components(p),
    ensures
        before.insert(path_components(p)).contains(path_components(q)),
{
}

/// Once a path is removed it is no longer watched, under any spelling of it; the other
/// watched paths stay.
pub proof fn lemma_removed_path_not_watched(before: Set<Seq<Seq<char>>>, p: Seq<char>, q: Seq<char>)
    ensures
        path_components(q) == path_components(p) ==> !before.remove(path_components(p)).contains(
            path_components(q),
        ),
        path_components(q) != path_components(p) ==> (before.remove(path_components(p)).contains(
            path_components(q),
        ) == before.contains(path_components(q))),
{
}

/// Adding a path that is watched already changes nothing: `a/b/` after `a/b` included.
pub proof fn lemma_add_is_idempotent(before: Set<Seq<Seq<char>>>, p: Seq<char>)
    requires
        p.len() > 0,
    ensures
        before.insert(path_components(p)).insert(path_components(p)) == before.insert(
            path_components(p),
        ),
        before.insert(path_components(p)).insert(path_components(p.push('/'))) == before.insert(
            path_components(p),
        ),
{
    crate::paths::lemma_trailing_separator(p);
    assert(before.insert(path_components(p)).insert(path_components(p)) =~= before.insert(
        path_components(p),
    ));
}

/// A watched directory covers its own path, and so does a watched file.
pub proof fn lemma_directory_covers_itself(w: Seq<char>)
    ensures
        watched_by(w, w, PathKind::Dir),
        watched_by(w, w, PathKind::File),
{
    assert(path_components(w).take(path_components(w).len() as int) =~= path_components(w));
}

/// Looking at the waiting files loses none and takes none twice: each is either taken out
/// (quiet for longer than the delay) or keeps waiting (changed more recently).
pub proof fn lemma_take_due_partitions(v: Seq<(Seq<char>, u128)>, now: u128, debounce: u128)
    ensures
        due_entries(v, now, debounce).len() + waiting_entries(v, now, debounce).len() == v.len(),
        forall|i: int|
            0 <= i < due_entries(v, now, debounce).len() ==> elapsed(
                now,
                (#[trigger] due_entries(v, now, debounce)[i]).1,
            ) > debounce,
        forall|i: int|
            0 <= i < waiting_entries(v, now, debounce).len() ==> elapsed(
                now,
                (#[trigger] waiting_entries(v, now, debounce)[i]).1,
            ) <= debounce,
    decreases v.len(),
{
    if v.len() > 0 {
        lemma_take_due_partitions(v.drop_last(), now, debounce);
        let d0 = due_entries(v.drop_last(), now, debounce);
        let w0 = waiting_entries(v.drop_last(), now, debounce);
        let d = due_entries(v, now, debounce);
        let w = waiting_entries(v, now, debounce);
        assert forall|i: int| 0 <= i < d.len() implies elapsed(now, (#[trigger] d[i]).1) > debounce by {
            if i < d0.len() {
                assert(d[i] == d0[i]);
            }
        }
        assert forall|i: int| 0 <= i < w.len() implies elapsed(now, (#[trigger] w[i]).1) <= debounce by {
            if i < w0.len() {
                assert(w[i] == w0[i]);
            }
        }
    }
}

/// A file that changes again while it waits keeps a single entry, with the time of its
/// latest change.
pub proof fn lemma_record_keeps_one_entry(v: Seq<(Seq<char>, u128)>, p: Seq<char>, now: u128)
    requires
        distinct_paths(entry_paths(v)),
    ensures
        exists|i: int|
            0 <= i < record_change(v, p, now).len() && path_components(
                (#[trigger] record_change(v, p, now)[i]).0,
            ) == path_components(p) && record_change(v, p, now)[i].1 == now,
        record_change(v, p, now).len() <= v.len() + 1,
{
    let r = record_change(v, p, now);
    if exists|i: int| 0 <= i < v.len() && path_components(#[trigger] v[i].0) == path_components(p) {
        let i = choose|i: int| 0 <= i < v.len() && path_components(#[trigger] v[i].0) == path_components(p);
        assert(r[i].1 == now);
        assert(path_components(r[i].0) == path_components(p));
    } else {
        assert(r[v.len() as int] == (p, now));
    }
}

} // verus!
