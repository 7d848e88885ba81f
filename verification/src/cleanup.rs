//! The registry of temp files in flight and the guard that reports them when a transfer
//! ends without having finished. Nothing here deletes a file: what is drained is meant to be
//! kept on disk and picked up by the next run.

use crate::text::join2;
use vstd::prelude::*;

verus! {

broadcast use {
    vstd::seq_lib::lemma_seq_contains_after_push,
    Seq::lemma_push_to_set_commute,
    Seq::lemma_push_map_commute,
};

/// The texts of a sequence of strings.
pub open spec fn texts(v: Seq<String>) -> Seq<Seq<char>> {
    v.map_values(|s: String| s@)
}

/// The set of temp files in flight. Each path is held once.
pub struct TempRegistry {
    paths: Vec<String>,
}

impl View for TempRegistry {
    type V = Set<Seq<char>>;

    /// The registered paths.
    closed spec fn view(&self) -> Set<Seq<char>> {
        texts(self.paths@).to_set()
    }
}

/// A list of the same strings.
fn copy_of(list: &Vec<String>) -> (copy: Vec<String>)
    ensures
        texts(copy@) == texts(list@),
{
    let mut copy: Vec<String> = Vec::new();
    let mut i: usize = 0;
    while i < list.len()
        invariant
            i <= list@.len(),
            texts(copy@) =~= texts(list@).take(i as int),
        decreases list@.len() - i,
    {
        copy.push(list[i].clone());
        i += 1;
    }
    assert(texts(list@).take(list@.len() as int) =~= texts(list@));
    copy
}

impl TempRegistry {
    #[verifier::type_invariant]
    spec fn holds_each_once(&self) -> bool {
        texts(self.paths@).no_duplicates()
    }

    /// An empty registry.
    pub fn new() -> (registry: Self)
        ensures
            registry@ == Set::<Seq<char>>::empty(),
    {
        let paths: Vec<String> = Vec::new();
        assert(texts(paths@) =~= Seq::<Seq<char>>::empty());
        assert(texts(paths@).to_set() =~= Set::<Seq<char>>::empty());
        TempRegistry { paths }
    }

    /// Whether `path` is registered.
    pub fn is_tracked(&self, path: &str) -> (held: bool)
        ensures
            held == self@.contains(path@),
    {
        let owned = String::from_str(path);
        let mut i: usize = 0;
        while i < self.paths.len()
            invariant
                i <= self.paths@.len(),
                owned@ == path@,
                forall|k: int| 0 <= k < i ==> texts(self.paths@)[k] != path@,
            decreases self.paths@.len() - i,
        {
            if self.paths[i] == owned {
                assert(texts(self.paths@)[i as int] == path@);
                return true;
            }
            i += 1;
        }
        false
    }

    /// Registers `path`.
    pub fn track(&mut self, path: &str)
        ensures
            final(self)@ == old(self)@.insert(path@),
    {
        proof {
            use_type_invariant(&*self);
        }
        if !self.is_tracked(path) {
            let ghost before = texts(self.paths@);
            let mut paths = copy_of(&self.paths);
            paths.push(String::from_str(path));
            proof {
                let after = texts(paths@);
                assert(after =~= before.push(path@));
                assert(before.push(path@).to_set() =~= before.to_set().insert(path@));
                assert forall|i: int, j: int|
                    0 <= i < after.len() && 0 <= j < after.len() && i != j implies after[i]
                    != after[j] by {
                    if i < before.len() && j < before.len() {
                        assert(before[i] != before[j]);
                    } else if i < before.len() {
                        assert(before.contains(before[i]));
                    } else {
                        assert(before.contains(before[j]));
                    }
                }
            }
            self.paths = paths;
        } else {
            assert(self@.insert(path@) =~= self@);
        }
    }

    /// Takes `path` out of the registry.
    pub fn untrack(&mut self, path: &str)
        ensures
            final(self)@ == old(self)@.remove(path@),
    {
        proof {
            use_type_invariant(&*self);
        }
        let ghost before = texts(self.paths@);
        let owned = String::from_str(path);
        let mut kept: Vec<String> = Vec::new();
        let mut i: usize = 0;
        while i < self.paths.len()
            invariant
                i <= self.paths@.len(),
                owned@ == path@,
                before == texts(self.paths@),
                before.no_duplicates(),
                texts(kept@).no_duplicates(),
                forall|x: Seq<char>| #[trigger]
                    texts(kept@).contains(x) <==> before.take(i as int).contains(x) && x != path@,
            decreases self.paths@.len() - i,
        {
            let ghost so_far = texts(kept@);
            assert(before.take(i as int + 1) =~= before.take(i as int).push(before[i as int]));
            if self.paths[i] != owned {
                kept.push(self.paths[i].clone());
                proof {
                    let now = texts(kept@);
                    assert(now =~= so_far.push(before[i as int]));
                    assert(!so_far.contains(before[i as int])) by {
                        if so_far.contains(before[i as int]) {
                            let earlier = before.take(i as int);
                            let k = choose|k: int|
                                0 <= k < earlier.len() && earlier[k] == before[i as int];
                            assert(before[k] == before[i as int]);
                        }
                    }
                    assert forall|a: int, b: int|
                        0 <= a < now.len() && 0 <= b < now.len() && a != b implies now[a]
                        != now[b] by {
                        if a < so_far.len() && b < so_far.len() {
                            assert(so_far[a] != so_far[b]);
                        } else if a < so_far.len() {
                            assert(so_far.contains(so_far[a]));
                        } else {
                            assert(so_far.contains(so_far[b]));
                        }
                    }
                }
            }
            i += 1;
        }
        assert(before.take(i as int) =~= before);
        assert(texts(kept@).to_set() =~= before.to_set().remove(path@));
        self.paths = kept;
    }

    /// Empties the registry and hands out the paths it held, each once.
    pub fn drain_all(&mut self) -> (kept: Vec<String>)
        ensures
            texts(kept@).to_set() == old(self)@,
            texts(kept@).no_duplicates(),
            final(self)@ == Set::<Seq<char>>::empty(),
    {
        proof {
            use_type_invariant(&*self);
        }
        let kept = copy_of(&self.paths);
        let paths: Vec<String> = Vec::new();
        assert(texts(paths@) =~= Seq::<Seq<char>>::empty());
        assert(texts(paths@).to_set() =~= Set::<Seq<char>>::empty());
        self.paths = paths;
        kept
    }
}

/// Registers the temp file `path` as in flight.
pub fn track_temp_file(registry: &mut TempRegistry, path: &str)
    ensures
        final(registry)@ == old(registry)@.insert(path@),
{
    registry.track(path);
}

/// Takes the temp file `path` out of the registry, once it has been moved into place.
pub fn untrack_temp_file(registry: &mut TempRegistry, path: &str)
    ensures
        final(registry)@ == old(registry)@.remove(path@),
{
    registry.untrack(path);
}

/// Empties the registry and hands out the paths it held, each once.
pub fn drain_tracked_temp_files(registry: &mut TempRegistry) -> (kept: Vec<String>)
    ensures
        texts(kept@).to_set() == old(registry)@,
        texts(kept@).no_duplicates(),
        final(registry)@ == Set::<Seq<char>>::empty(),
{
    registry.drain_all()
}

/// Gives up the transfers in flight: empties the registry and hands out the paths of the
/// temp files, each once; the files stay on disk to be resumed.
pub fn abandon_temp_files(registry: &mut TempRegistry) -> (kept: Vec<String>)
    ensures
        texts(kept@).to_set() == old(registry)@,
        texts(kept@).no_duplicates(),
        final(registry)@ == Set::<Seq<char>>::empty(),
{
    drain_tracked_temp_files(registry)
}

/// Marks a transfer as in progress: armed when made, disarmed once the transfer has succeeded.
pub struct TempCleanupGuard {
    active: bool,
}

impl TempCleanupGuard {
    /// Whether the guard is still armed.
    pub closed spec fn armed(&self) -> bool {
        self.active
    }

    /// An armed guard.
    pub fn new() -> (guard: Self)
        ensures
            guard.armed(),
    {
        TempCleanupGuard { active: true }
    }

    /// Disarms the guard: the transfer has succeeded.
    pub fn disarm(&mut self)
        ensures
            !final(self).armed(),
    {
        self.active = false;
    }

    /// Whether the guard is still armed.
    pub fn is_armed(&self) -> (armed: bool)
        ensures
            armed == self.armed(),
    {
        self.active
    }

    /// Ends the guarded scope. An armed guard drains the registry and hands out what it held,
    /// to be reported; a disarmed one leaves the registry alone and hands out nothing.
    pub fn release(self, registry: &mut TempRegistry) -> (kept: Vec<String>)
        ensures
            self.armed() ==> texts(kept@).to_set() == old(registry)@ && texts(
                kept@,
            ).no_duplicates() && final(registry)@ == Set::<Seq<char>>::empty(),
            !self.armed() ==> kept@.len() == 0 && final(registry)@ == old(registry)@,
    {
        if self.active {
            registry.drain_all()
        } else {
            Vec::new()
        }
    }
}

/// The lines that tell of `kept` under the heading `heading`: the heading, then each path
/// behind two spaces.
pub open spec fn listed_under(heading: Seq<char>, kept: Seq<Seq<char>>) -> Seq<Seq<char>> {
    seq![heading] + kept.map_values(|p: Seq<char>| "  "@ + p)
}

/// What is reported when a guard is released armed: nothing if no temp file was in flight,
/// else a heading and the preserved paths.
pub open spec fn interrupted_lines(kept: Seq<Seq<char>>) -> Seq<Seq<char>> {
    if kept.len() == 0 {
        Seq::empty()
    } else {
        listed_under("download interrupted; partial file(s) preserved:"@, kept)
    }
}

/// What is reported when the user cancels: one line if no temp file was in flight, else a
/// heading and the preserved paths.
pub open spec fn cancelled_lines(kept: Seq<Seq<char>>) -> Seq<Seq<char>> {
    if kept.len() == 0 {
        seq!["Operation cancelled."@]
    } else {
        listed_under("Operation cancelled; partial file(s) preserved:"@, kept)
    }
}

fn list_under(heading: &str, kept: &Vec<String>) -> (lines: Vec<String>)
    ensures
        texts(lines@) == listed_under(heading@, texts(kept@)),
{
    let mut lines: Vec<String> = Vec::new();
    lines.push(String::from_str(heading));
    let mut i: usize = 0;
    while i < kept.len()
        invariant
            i <= kept@.len(),
            texts(lines@) =~= listed_under(heading@, texts(kept@).take(i as int)),
        decreases kept@.len() - i,
    {
        let ghost so_far = texts(kept@).take(i as int);
        assert(texts(kept@).take(i as int + 1) =~= so_far.push(kept@[i as int]@));
        lines.push(join2("  ", kept[i].as_str()));
        i += 1;
    }
    assert(texts(kept@).take(kept@.len() as int) =~= texts(kept@));
    lines
}

/// The lines to report when a guard is released armed.
pub fn interrupted_report(kept: &Vec<String>) -> (lines: Vec<String>)
    ensures
        texts(lines@) == interrupted_lines(texts(kept@)),
{
    if kept.len() == 0 {
        let lines: Vec<String> = Vec::new();
        assert(texts(lines@) =~= Seq::<Seq<char>>::empty());
        lines
    } else {
        list_under("download interrupted; partial file(s) preserved:", kept)
    }
}

/// The lines to report when the user cancels.
pub fn cancelled_report(kept: &Vec<String>) -> (lines: Vec<String>)
    ensures
        texts(lines@) == cancelled_lines(texts(kept@)),
{
    if kept.len() == 0 {
        let mut lines: Vec<String> = Vec::new();
        lines.push(String::from_str("Operation cancelled."));
        assert(texts(lines@) =~= seq!["Operation cancelled."@]);
        lines
    } else {
        list_under("Operation cancelled; partial file(s) preserved:", kept)
    }
}

} // verus!
