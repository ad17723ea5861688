//! What FastUp knows about the elements it has seen running, keyed by
//! element name.
use vstd::prelude::*;

use crate::elements::{ElementInfo, ElementInfoView};
use crate::process::{command_of, ProcessTable, ProcessView};
use crate::text::{
    chars_of, contains_chars, contains_seq, join_with_spaces, join_words, views_of,
};

verus! {

/// The keys of `es` are pairwise different.
pub open spec fn keys_distinct(es: Seq<(String, ElementInfo)>) -> bool {
    forall|i: int, j: int|
        0 <= i < es.len() && 0 <= j < es.len() && i != j ==> #[trigger] es[i].0@ != #[trigger] es[j].0@
}

/// Some entry of `es` has the key `k`.
pub open spec fn has_key(es: Seq<(String, ElementInfo)>, k: Seq<char>) -> bool {
    exists|i: int| 0 <= i < es.len() && #[trigger] es[i].0@ == k
}

/// The map from key to record that the entries `es` hold.
pub open spec fn map_of(es: Seq<(String, ElementInfo)>) -> Map<Seq<char>, ElementInfoView> {
    Map::new(
        |k: Seq<char>| has_key(es, k),
        |k: Seq<char>| es[choose|i: int| 0 <= i < es.len() && #[trigger] es[i].0@ == k].1@,
    )
}

/// The record that registering an element stores: its name, process id
/// and type word, start time 0, and whether FastUp started it.
pub open spec fn started_record(
    name: Seq<char>,
    pid: usize,
    element_type: Seq<char>,
    by_fastup: bool,
) -> ElementInfoView {
    ElementInfoView {
        pid,
        name,
        start_time: 0,
        element_type,
        started_by_fastup: by_fastup,
    }
}

/// The elements of `m` whose process is among `procs`.
pub open spec fn running_only(
    m: Map<Seq<char>, ElementInfoView>,
    procs: Seq<ProcessView>,
) -> Map<Seq<char>, ElementInfoView> {
    Map::new(
        |k: Seq<char>| m.contains_key(k) && command_of(procs, m[k].pid) is Some,
        |k: Seq<char>| m[k],
    )
}

/// A command line matches an expected start command when the start command
/// occurs in the arguments joined by spaces.
pub open spec fn command_matches(cmd: Seq<Seq<char>>, expected: Seq<char>) -> bool {
    contains_seq(join_words(cmd), expected)
}

/// What `validate` decides: the element is recorded, a process with its
/// recorded id runs, and that process's command line matches the expected
/// start command.
pub open spec fn validated(
    m: Map<Seq<char>, ElementInfoView>,
    command: Seq<char>,
    expected: Seq<char>,
    procs: Seq<ProcessView>,
) -> bool {
    m.contains_key(command) && match command_of(procs, m[command].pid) {
        Some(cmd) => command_matches(cmd, expected),
        None => false,
    }
}

/// Some entry among the first `n` of `es` has the key and the record of `e`.
spec fn from_prefix(es: Seq<(String, ElementInfo)>, n: int, e: (String, ElementInfo)) -> bool {
    exists|j: int| 0 <= j < n && #[trigger] es[j].0@ == e.0@ && es[j].1@ == e.1@
}

/// The element `command` is recorded, a process runs with its recorded id,
/// and that process's command line does not match the expected start
/// command.
pub open spec fn runs_something_else(
    m: Map<Seq<char>, ElementInfoView>,
    command: Seq<char>,
    expected: Seq<char>,
    procs: Seq<ProcessView>,
) -> bool {
    m.contains_key(command) && match command_of(procs, m[command].pid) {
        Some(cmd) => !command_matches(cmd, expected),
        None => false,
    }
}

/// The entry of a distinct-keyed sequence at `i` is what the map holds for
/// its key.
proof fn lemma_map_of_index(es: Seq<(String, ElementInfo)>, i: int)
    requires
        keys_distinct(es),
        0 <= i < es.len(),
    ensures
        map_of(es).contains_key(es[i].0@),
        map_of(es)[es[i].0@] == es[i].1@,
{
    let k = es[i].0@;
    assert(has_key(es, k));
    let j = choose|j: int| 0 <= j < es.len() && #[trigger] es[j].0@ == k;
    assert(j == i);
}

/// Adding an entry with a new key adds it to the map.
proof fn lemma_map_of_push(es: Seq<(String, ElementInfo)>, e: (String, ElementInfo))
    requires
        keys_distinct(es),
        !has_key(es, e.0@),
    ensures
        keys_distinct(es.push(e)),
        map_of(es.push(e)) =~= map_of(es).insert(e.0@, e.1@),
{
    let es2 = es.push(e);
    assert forall|i: int, j: int|
        0 <= i < es2.len() && 0 <= j < es2.len() && i != j implies #[trigger] es2[i].0@
        != #[trigger] es2[j].0@ by {
        if i < es.len() && j < es.len() {
            assert(es2[i] == es[i] && es2[j] == es[j]);
        } else if i < es.len() {
            assert(es2[i] == es[i]);
        } else {
            assert(es2[j] == es[j]);
        }
    }
    assert forall|k: Seq<char>| #[trigger] has_key(es2, k) == (has_key(es, k) || k == e.0@) by {
        if has_key(es, k) {
            let i = choose|i: int| 0 <= i < es.len() && #[trigger] es[i].0@ == k;
            assert(es2[i] == es[i]);
        }
        if k == e.0@ {
            assert(es2[es.len() as int] == e);
        }
        if has_key(es2, k) {
            let i = choose|i: int| 0 <= i < es2.len() && #[trigger] es2[i].0@ == k;
            if i < es.len() {
                assert(es2[i] == es[i]);
            }
        }
    }
    assert forall|k: Seq<char>| #[trigger] map_of(es2).contains_key(k) implies map_of(es2)[k]
        == map_of(es).insert(e.0@, e.1@)[k] by {
        let i = choose|i: int| 0 <= i < es2.len() && #[trigger] es2[i].0@ == k;
        lemma_map_of_index(es2, i);
        if i < es.len() {
            assert(es2[i] == es[i]);
            lemma_map_of_index(es, i);
        } else {
            assert(es2[i] == e);
        }
    }
}

/// Replacing the entry at `i` by one with the same key replaces the value.
proof fn lemma_map_of_update(es: Seq<(String, ElementInfo)>, i: int, e: (String, ElementInfo))
    requires
        keys_distinct(es),
        0 <= i < es.len(),
        es[i].0@ == e.0@,
    ensures
        keys_distinct(es.update(i, e)),
        map_of(es.update(i, e)) =~= map_of(es).insert(e.0@, e.1@),
{
    let es2 = es.update(i, e);
    assert forall|a: int, b: int|
        0 <= a < es2.len() && 0 <= b < es2.len() && a != b implies #[trigger] es2[a].0@
        != #[trigger] es2[b].0@ by {
        assert(es2[a].0@ == es[a].0@);
        assert(es2[b].0@ == es[b].0@);
    }
    assert forall|k: Seq<char>| #[trigger] has_key(es2, k) == has_key(es, k) by {
        if has_key(es, k) {
            let j = choose|j: int| 0 <= j < es.len() && #[trigger] es[j].0@ == k;
            assert(es2[j].0@ == es[j].0@);
        }
        if has_key(es2, k) {
            let j = choose|j: int| 0 <= j < es2.len() && #[trigger] es2[j].0@ == k;
            assert(es2[j].0@ == es[j].0@);
        }
    }
    lemma_map_of_index(es, i);
    assert forall|k: Seq<char>| #[trigger] map_of(es2).contains_key(k) implies map_of(es2)[k]
        == map_of(es).insert(e.0@, e.1@)[k] by {
        let j = choose|j: int| 0 <= j < es2.len() && #[trigger] es2[j].0@ == k;
        lemma_map_of_index(es2, j);
        if j != i {
            assert(es2[j] == es[j]);
            lemma_map_of_index(es, j);
        }
    }
}

/// Removing the entry at `i` removes its key from the map.
proof fn lemma_map_of_remove(es: Seq<(String, ElementInfo)>, i: int)
    requires
        keys_distinct(es),
        0 <= i < es.len(),
    ensures
        keys_distinct(es.remove(i)),
        map_of(es.remove(i)) =~= map_of(es).remove(es[i].0@),
{
    let es2 = es.remove(i);
    let k0 = es[i].0@;
    assert forall|a: int| 0 <= a < es2.len() implies #[trigger] es2[a] == if a < i {
        es[a]
    } else {
        es[a + 1]
    } by {}
    assert forall|a: int, b: int|
        0 <= a < es2.len() && 0 <= b < es2.len() && a != b implies #[trigger] es2[a].0@
        != #[trigger] es2[b].0@ by {
        let a1 = if a < i {
            a
        } else {
            a + 1
        };
        let b1 = if b < i {
            b
        } else {
            b + 1
        };
        assert(es2[a] == es[a1] && es2[b] == es[b1]);
    }
    assert forall|k: Seq<char>| #[trigger] has_key(es2, k) == (has_key(es, k) && k != k0) by {
        if has_key(es, k) && k != k0 {
            let j = choose|j: int| 0 <= j < es.len() && #[trigger] es[j].0@ == k;
            if j < i {
                assert(es2[j] == es[j]);
            } else {
                assert(j != i);
                assert(es2[j - 1] == es[j]);
            }
        }
        if has_key(es2, k) {
            let j = choose|j: int| 0 <= j < es2.len() && #[trigger] es2[j].0@ == k;
            let j1 = if j < i {
                j
            } else {
                j + 1
            };
            assert(es2[j] == es[j1]);
            assert(es[j1].0@ != es[i].0@);
        }
    }
    assert forall|k: Seq<char>| #[trigger] map_of(es2).contains_key(k) implies map_of(es2)[k]
        == map_of(es).remove(k0)[k] by {
        let j = choose|j: int| 0 <= j < es2.len() && #[trigger] es2[j].0@ == k;
        lemma_map_of_index(es2, j);
        let j1 = if j < i {
            j
        } else {
            j + 1
        };
        assert(es2[j] == es[j1]);
        lemma_map_of_index(es, j1);
    }
}

/// Whether the command line `cmd`, its arguments joined by spaces, holds
/// the expected start command.
pub fn command_line_matches(cmd: &Vec<String>, expected: &str) -> (r: bool)
    ensures
        r == command_matches(views_of(cmd@), expected@),
{
    let joined = join_with_spaces(cmd);
    let needle = chars_of(expected);
    contains_chars(&joined, &needle)
}

/// The position of the entry keyed `name` in `es`.
fn position_in(es: &Vec<(String, ElementInfo)>, name: &String) -> (r: Option<usize>)
    ensures
        match r {
            Some(i) => i < es@.len() && es@[i as int].0@ == name@,
            None => !has_key(es@, name@),
        },
{
    let mut i: usize = 0;
    while i < es.len()
        invariant
            i <= es@.len(),
            forall|j: int| 0 <= j < i ==> #[trigger] es@[j].0@ != name@,
        decreases es.len() - i,
    {
        if es[i].0 == *name {
            return Some(i);
        }
        i = i + 1;
    }
    None
}

/// Entries that hold the same keys and records, place by place, give the
/// same map.
proof fn lemma_map_of_same_views(a: Seq<(String, ElementInfo)>, b: Seq<(String, ElementInfo)>)
    requires
        keys_distinct(a),
        a.len() == b.len(),
        forall|i: int| 0 <= i < a.len() ==> #[trigger] a[i].0@ == b[i].0@ && a[i].1@ == b[i].1@,
    ensures
        keys_distinct(b),
        map_of(a) == map_of(b),
{
    assert forall|i: int, j: int|
        0 <= i < b.len() && 0 <= j < b.len() && i != j implies #[trigger] b[i].0@
        != #[trigger] b[j].0@ by {
        assert(a[i].0@ == b[i].0@ && a[j].0@ == b[j].0@);
    }
    assert forall|k: Seq<char>| #[trigger] has_key(a, k) == has_key(b, k) by {
        if has_key(a, k) {
            let i = choose|i: int| 0 <= i < a.len() && #[trigger] a[i].0@ == k;
            assert(b[i].0@ == k);
        }
        if has_key(b, k) {
            let i = choose|i: int| 0 <= i < b.len() && #[trigger] b[i].0@ == k;
            assert(a[i].0@ == b[i].0@);
        }
    }
    assert forall|k: Seq<char>| #[trigger] map_of(a).contains_key(k) implies map_of(a)[k]
        == map_of(b)[k] by {
        let i = choose|i: int| 0 <= i < a.len() && #[trigger] a[i].0@ == k;
        lemma_map_of_index(a, i);
        assert(b[i].0@ == k);
        lemma_map_of_index(b, i);
    }
    assert(map_of(a) =~= map_of(b));
}

/// A copy of entries: the same keys and records, in the same places.
fn copy_entries(es: &Vec<(String, ElementInfo)>) -> (r: Vec<(String, ElementInfo)>)
    ensures
        r@.len() == es@.len(),
        forall|i: int| 0 <= i < es@.len() ==> #[trigger] r@[i].0@ == es@[i].0@ && r@[i].1@ == es@[i].1@,
{
    let mut r: Vec<(String, ElementInfo)> = Vec::new();
    let mut i: usize = 0;
    while i < es.len()
        invariant
            i <= es@.len(),
            r@.len() == i,
            forall|k: int| 0 <= k < i ==> #[trigger] r@[k].0@ == es@[k].0@ && r@[k].1@ == es@[k].1@,
        decreases es.len() - i,
    {
        r.push((es[i].0.clone(), es[i].1.duplicate()));
        i = i + 1;
    }
    r
}

/// The elements FastUp knows to be running, by name.
pub struct FastUpState {
    entries: Vec<(String, ElementInfo)>,
}

impl Default for FastUpState {
    /// A state with no element.
    fn default() -> (s: FastUpState)
        ensures
            s@ == Map::<Seq<char>, ElementInfoView>::empty(),
    {
        FastUpState::new()
    }
}

impl View for FastUpState {
    type V = Map<Seq<char>, ElementInfoView>;

    closed spec fn view(&self) -> Map<Seq<char>, ElementInfoView> {
        map_of(self.entries@)
    }
}

impl FastUpState {
    #[verifier::type_invariant]
    spec fn names_distinct(self) -> bool {
        keys_distinct(self.entries@)
    }

    /// A state with no element.
    pub fn new() -> (s: FastUpState)
        ensures
            s@ == Map::<Seq<char>, ElementInfoView>::empty(),
    {
        let s = FastUpState { entries: Vec::new() };
        assert(s@ =~= Map::<Seq<char>, ElementInfoView>::empty());
        s
    }

    /// The position of the entry named `name`.
    fn index_of(&self, name: &String) -> (r: Option<usize>)
        ensures
            match r {
                Some(i) => i < self.entries@.len() && self.entries@[i as int].0@ == name@,
                None => !has_key(self.entries@, name@),
            },
    {
        position_in(&self.entries, name)
    }

    /// The entries, one per element name, as saving them needs.
    pub fn entries(&self) -> (r: &Vec<(String, ElementInfo)>)
        ensures
            keys_distinct(r@),
            map_of(r@) == self@,
    {
        proof {
            use_type_invariant(self);
        }
        &self.entries
    }

    /// The record of the element `name`, if there is one.
    pub fn get_element(&self, name: &str) -> (r: Option<&ElementInfo>)
        ensures
            match r {
                Some(info) => self@.contains_key(name@) && info@ == self@[name@],
                None => !self@.contains_key(name@),
            },
    {
        proof {
            use_type_invariant(self);
        }
        let key = String::from_str(name);
        match self.index_of(&key) {
            Some(i) => {
                proof {
                    lemma_map_of_index(self.entries@, i as int);
                }
                Some(&self.entries[i].1)
            },
            None => None,
        }
    }

    /// Whether the element `name` is recorded.
    pub fn contains_element(&self, name: &str) -> (r: bool)
        ensures
            r == self@.contains_key(name@),
    {
        match self.get_element(name) {
            Some(_) => true,
            None => false,
        }
    }

    /// Records `info` under `name`, replacing what was recorded there.
    pub fn insert_element(&mut self, name: String, info: ElementInfo)
        ensures
            final(self)@ == old(self)@.insert(name@, info@),
    {
        proof {
            use_type_invariant(&*self);
        }
        let mut es: Vec<(String, ElementInfo)> = Vec::new();
        std::mem::swap(&mut es, &mut self.entries);
        let ghost before = es@;
        assert(map_of(before) == old(self)@);
        let found = position_in(&es, &name);
        match found {
            Some(i) => {
                proof {
                    lemma_map_of_update(before, i as int, (name, info));
                }
                es.set(i, (name, info));
            },
            None => {
                proof {
                    lemma_map_of_push(before, (name, info));
                }
                es.push((name, info));
            },
        }
        self.entries = es;
    }

    /// Registers an element that FastUp has just started, under its name,
    /// with the process id it runs as.
    pub fn register_element(&mut self, name: String, pid: u32, element_type: String)
        ensures
            final(self)@ == old(self)@.insert(
                name@,
                started_record(name@, pid as usize, element_type@, true),
            ),
    {
        let key = name.clone();
        let info = ElementInfo {
            pid: pid as usize,
            name,
            start_time: 0,
            element_type,
            started_by_fastup: true,
        };
        self.insert_element(key, info);
    }

    /// Registers an element that was found running without FastUp having
    /// started it (`pid` is 0 when it is not known).
    pub fn register_external_element(&mut self, name: String, pid: usize, element_type: String)
        ensures
            final(self)@ == old(self)@.insert(
                name@,
                started_record(name@, pid, element_type@, false),
            ),
    {
        let key = name.clone();
        let info = ElementInfo { pid, name, start_time: 0, element_type, started_by_fastup: false };
        self.insert_element(key, info);
    }

    /// Forgets the element `name`, returning what was recorded for it.
    pub fn remove_element(&mut self, name: &str) -> (r: Option<ElementInfo>)
        ensures
            final(self)@ == old(self)@.remove(name@),
            match r {
                Some(info) => old(self)@.contains_key(name@) && info@ == old(self)@[name@],
                None => !old(self)@.contains_key(name@),
            },
    {
        proof {
            use_type_invariant(&*self);
        }
        let key = String::from_str(name);
        match self.index_of(&key) {
            Some(i) => {
                let mut es: Vec<(String, ElementInfo)> = Vec::new();
                std::mem::swap(&mut es, &mut self.entries);
                let ghost before = es@;
                proof {
                    lemma_map_of_index(before, i as int);
                    lemma_map_of_remove(before, i as int);
                }
                let (_, info) = es.remove(i);
                self.entries = es;
                Some(info)
            },
            None => {
                assert(self@.remove(name@) =~= self@);
                None
            },
        }
    }

    /// Forgets every element whose process is no longer among the running
    /// processes `procs`, and returns the elements that remain (name and
    /// record).
    pub fn cleanup_dead_elements(&mut self, procs: &ProcessTable) -> (r: Vec<(String, ElementInfo)>)
        ensures
            final(self)@ == running_only(old(self)@, procs@),
            forall|k: Seq<char>|
                old(self)@.contains_key(k) ==> (#[trigger] final(self)@.contains_key(k) <==> command_of(
                    procs@,
                    old(self)@[k].pid,
                ) is Some),
            forall|k: Seq<char>| #[trigger] final(self)@.contains_key(k) ==> old(self)@.contains_key(k)
                && final(self)@[k] == old(self)@[k],
            keys_distinct(r@),
            map_of(r@) == final(self)@,
    {
        proof {
            use_type_invariant(&*self);
        }
        let mut es: Vec<(String, ElementInfo)> = Vec::new();
        std::mem::swap(&mut es, &mut self.entries);
        let ghost before = es@;
        let mut kept: Vec<(String, ElementInfo)> = Vec::new();
        let mut i: usize = 0;
        while i < es.len()
            invariant
                i <= es@.len(),
                es@ == before,
                keys_distinct(before),
                map_of(before) == old(self)@,
                keys_distinct(kept@),
                forall|k: Seq<char>| #[trigger]
                    has_key(kept@, k) == (exists|j: int|
                        0 <= j < i && #[trigger] before[j].0@ == k && procs.runs(before[j].1.pid)),
                forall|a: int|
                    0 <= a < kept@.len() ==> #[trigger] from_prefix(before, i as int, kept@[a]),
            decreases es.len() - i,
        {
            if procs.is_running(es[i].1.pid) {
                let entry = (es[i].0.clone(), es[i].1.duplicate());
                proof {
                    assert forall|a: int| 0 <= a < kept@.len() implies #[trigger] kept@[a].0@
                        != entry.0@ by {
                        assert(from_prefix(before, i as int, kept@[a]));
                        let j = choose|j: int|
                            0 <= j < i && #[trigger] before[j].0@ == kept@[a].0@ && before[j].1@
                                == kept@[a].1@;
                        assert(j != i as int);
                    }
                    assert(!has_key(kept@, entry.0@));
                    lemma_map_of_push(kept@, entry);
                }
                let ghost old_kept = kept@;
                kept.push(entry);
                proof {
                    assert forall|k: Seq<char>| #[trigger]
                        has_key(kept@, k) == (exists|j: int|
                            0 <= j < i + 1 && #[trigger] before[j].0@ == k && procs.runs(
                                before[j].1.pid,
                            )) by {
                        if has_key(kept@, k) {
                            let a = choose|a: int| 0 <= a < kept@.len() && #[trigger] kept@[a].0@ == k;
                            if a < old_kept.len() {
                                assert(kept@[a] == old_kept[a]);
                                assert(has_key(old_kept, k));
                            }
                        }
                        if exists|j: int|
                            0 <= j < i + 1 && #[trigger] before[j].0@ == k && procs.runs(
                                before[j].1.pid,
                            ) {
                            let j = choose|j: int|
                                0 <= j < i + 1 && #[trigger] before[j].0@ == k && procs.runs(
                                    before[j].1.pid,
                                );
                            if j < i {
                                assert(has_key(old_kept, k));
                                let a = choose|a: int|
                                    0 <= a < old_kept.len() && #[trigger] old_kept[a].0@ == k;
                                assert(kept@[a] == old_kept[a]);
                            } else {
                                assert(kept@[old_kept.len() as int] == entry);
                            }
                        }
                    }
                    assert forall|a: int| 0 <= a < kept@.len() implies #[trigger] from_prefix(
                        before,
                        i + 1,
                        kept@[a],
                    ) by {
                        if a < old_kept.len() {
                            assert(kept@[a] == old_kept[a]);
                            assert(from_prefix(before, i as int, old_kept[a]));
                        } else {
                            assert(before[i as int].0@ == kept@[a].0@);
                        }
                    }
                }
            } else {
                proof {
                    assert forall|k: Seq<char>| #[trigger]
                        has_key(kept@, k) == (exists|j: int|
                            0 <= j < i + 1 && #[trigger] before[j].0@ == k && procs.runs(
                                before[j].1.pid,
                            )) by {
                        if exists|j: int|
                            0 <= j < i + 1 && #[trigger] before[j].0@ == k && procs.runs(
                                before[j].1.pid,
                            ) {
                            let j = choose|j: int|
                                0 <= j < i + 1 && #[trigger] before[j].0@ == k && procs.runs(
                                    before[j].1.pid,
                                );
                            assert(j != i as int);
                        }
                    }
                    assert forall|a: int| 0 <= a < kept@.len() implies #[trigger] from_prefix(
                        before,
                        i + 1,
                        kept@[a],
                    ) by {
                        assert(from_prefix(before, i as int, kept@[a]));
                    }
                }
            }
            i = i + 1;
        }
        proof {
            let target = running_only(old(self)@, procs@);
            assert forall|k: Seq<char>| #[trigger]
                map_of(kept@).contains_key(k) == target.contains_key(k) by {
                if has_key(kept@, k) {
                    let j = choose|j: int|
                        0 <= j < before.len() && #[trigger] before[j].0@ == k && procs.runs(
                            before[j].1.pid,
                        );
                    lemma_map_of_index(before, j);
                }
                if target.contains_key(k) {
                    let j = choose|j: int| 0 <= j < before.len() && #[trigger] before[j].0@ == k;
                    lemma_map_of_index(before, j);
                }
            }
            assert forall|k: Seq<char>| #[trigger]
                map_of(kept@).contains_key(k) implies map_of(kept@)[k] == target[k] by {
                let a = choose|a: int| 0 <= a < kept@.len() && #[trigger] kept@[a].0@ == k;
                lemma_map_of_index(kept@, a);
                assert(from_prefix(before, before.len() as int, kept@[a]));
                let j = choose|j: int|
                    0 <= j < before.len() && #[trigger] before[j].0@ == kept@[a].0@ && before[j].1@
                        == kept@[a].1@;
                lemma_map_of_index(before, j);
            }
            assert(map_of(kept@) =~= target);
        }
        let remaining = copy_entries(&kept);
        proof {
            lemma_map_of_same_views(kept@, remaining@);
        }
        self.entries = kept;
        remaining
    }

    /// Checks that the element `command` still runs as recorded: a process
    /// with its recorded id runs and its command line holds
    /// `element_start_cmd`. When that process runs something else, the
    /// element is forgotten.
    pub fn validate(&mut self, command: &str, element_start_cmd: &str, procs: &ProcessTable) -> (r:
        bool)
        ensures
            r == validated(old(self)@, command@, element_start_cmd@, procs@),
            r ==> old(self)@.contains_key(command@) && (match command_of(
                procs@,
                old(self)@[command@].pid,
            ) {
                Some(cmd) => contains_seq(join_words(cmd), element_start_cmd@),
                None => false,
            }),
            final(self)@ == if runs_something_else(old(self)@, command@, element_start_cmd@, procs@) {
                old(self)@.remove(command@)
            } else {
                old(self)@
            },
    {
        let pid = match self.get_element(command) {
            Some(info) => info.pid,
            None => {
                return false;
            },
        };
        let matches = match procs.command_line(pid) {
            Some(cmd) => command_line_matches(cmd, element_start_cmd),
            None => {
                return false;
            },
        };
        if !matches {
            self.remove_element(command);
        }
        matches
    }
}

} // verus!

verus! {

/// Registering an element and then looking it up gives the record that was
/// registered; every other element keeps its record.
pub proof fn law_register_then_get(
    m: Map<Seq<char>, ElementInfoView>,
    name: Seq<char>,
    record: ElementInfoView,
    other: Seq<char>,
)
    ensures
        m.insert(name, record).contains_key(name),
        m.insert(name, record)[name] == record,
        other != name ==> (m.insert(name, record).contains_key(other) == m.contains_key(other)
            && m.insert(name, record)[other] == m[other]),
{
}

/// Removing an element just registered leaves what removing it from the
/// state before would have left: registering and then stopping forgets it.
pub proof fn law_remove_after_register(
    m: Map<Seq<char>, ElementInfoView>,
    name: Seq<char>,
    record: ElementInfoView,
)
    ensures
        m.insert(name, record).remove(name) == m.remove(name),
        !m.insert(name, record).remove(name).contains_key(name),
{
    assert(m.insert(name, record).remove(name) =~= m.remove(name));
}

/// Cleaning up only forgets elements: what stays keeps its record, and every
/// element that stays has a running process.
pub proof fn law_cleanup_only_forgets(m: Map<Seq<char>, ElementInfoView>, procs: Seq<ProcessView>)
    ensures
        running_only(m, procs).submap_of(m),
        forall|k: Seq<char>| #[trigger]
            running_only(m, procs).contains_key(k) ==> command_of(procs, m[k].pid) is Some,
{
}

/// Cleaning up twice against the same processes forgets nothing more than
/// cleaning up once.
pub proof fn law_cleanup_is_idempotent(m: Map<Seq<char>, ElementInfoView>, procs: Seq<ProcessView>)
    ensures
        running_only(running_only(m, procs), procs) == running_only(m, procs),
{
    assert(running_only(running_only(m, procs), procs) =~= running_only(m, procs));
}

/// An element that is not recorded never validates.
pub proof fn law_unrecorded_never_validates(
    m: Map<Seq<char>, ElementInfoView>,
    command: Seq<char>,
    expected: Seq<char>,
    procs: Seq<ProcessView>,
)
    requires
        !m.contains_key(command),
    ensures
        !validated(m, command, expected, procs),
{
}

} // verus!

verus! {

/// An element validates exactly when it is recorded, a process runs with
/// its recorded id, and that process's arguments joined by spaces contain
/// the expected start command, whoever started the element. An element is
/// forgotten by validation exactly when such a process runs and its
/// arguments do not contain the start command.
pub proof fn law_validation_reads_the_command_line(
    m: Map<Seq<char>, ElementInfoView>,
    command: Seq<char>,
    expected: Seq<char>,
    procs: Seq<ProcessView>,
)
    ensures
        validated(m, command, expected, procs) <==> (m.contains_key(command) && (match command_of(
            procs,
            m[command].pid,
        ) {
            Some(cmd) => contains_seq(join_words(cmd), expected),
            None => false,
        })),
        runs_something_else(m, command, expected, procs) <==> (m.contains_key(command) && (
        match command_of(procs, m[command].pid) {
            Some(cmd) => !contains_seq(join_words(cmd), expected),
            None => false,
        })),
{
}

/// Cleaning up keeps every element whose process runs, with its record,
/// and forgets every element whose process does not run.
pub proof fn law_cleanup_keeps_running_elements(
    m: Map<Seq<char>, ElementInfoView>,
    procs: Seq<ProcessView>,
    k: Seq<char>,
)
    requires
        m.contains_key(k),
    ensures
        command_of(procs, m[k].pid) is Some ==> running_only(m, procs).contains_key(k)
            && running_only(m, procs)[k] == m[k],
        command_of(procs, m[k].pid) is None ==> !running_only(m, procs).contains_key(k),
{
}

} // verus!
