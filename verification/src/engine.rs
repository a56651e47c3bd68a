use vstd::prelude::*;
use crate::config::{AppConf, AppConfView, Config, ConfigView};
use crate::sys::ProcEntry;
use std::collections::{HashMap, HashSet};
use vstd::std_specs::iter::IteratorSpec;
use crate::text::{chars_eq, chars_of, ends_with_chars, has_prefix, has_suffix, starts_with_chars, str_eq};

verus! {

/// What is remembered of a frozen process: its name, its nice value before freezing, and
/// the package of the application it was frozen for.
#[derive(Debug)]
pub struct FrozenMeta {
    pub name: String,
    pub old_nice: i32,
    pub app: String,
}

/// The processes this daemon has frozen, by pid.
pub struct FrozenTable {
    map: HashMap<i32, FrozenMeta>,
}

/// Whether no pid occurs twice among the entries.
pub open spec fn unique_pids(s: Seq<(i32, FrozenMeta)>) -> bool {
    forall|i: int, j: int| 0 <= i < s.len() && 0 <= j < s.len() && i != j ==> s[i].0 != s[j].0
}

/// Whether some entry has the pid `k`.
pub open spec fn has_pid(s: Seq<(i32, FrozenMeta)>, k: i32) -> bool {
    exists|i: int| 0 <= i < s.len() && s[i].0 == k
}

impl View for FrozenTable {
    type V = Map<i32, FrozenMeta>;

    closed spec fn view(&self) -> Map<i32, FrozenMeta> {
        self.map@
    }
}

/// The first `i + 1` pids hold those of the first `i` and the `i`-th.
proof fn lemma_take_next(all: Seq<i32>, i: int)
    requires
        0 <= i < all.len(),
    ensures
        forall|x: i32| all.take(i + 1).contains(x) <==> (all.take(i).contains(x) || x == all[i]),
{
    let t0 = all.take(i);
    let t1 = all.take(i + 1);
    assert forall|x: i32| t1.contains(x) <==> (t0.contains(x) || x == all[i]) by {
        if t1.contains(x) && x != all[i] {
            let j = choose|j: int| 0 <= j < t1.len() && t1[j] == x;
            assert(t0[j] == x);
        }
        if t0.contains(x) {
            let j = choose|j: int| 0 <= j < t0.len() && t0[j] == x;
            assert(t1[j] == x);
        }
        if x == all[i] {
            assert(t1[i] == x);
        }
    }
}

/// A pid that occurs once in `all` is not among those before it.
proof fn lemma_not_before(all: Seq<i32>, i: int)
    requires
        0 <= i < all.len(),
        all.no_duplicates(),
    ensures
        !all.take(i).contains(all[i]),
{
    if all.take(i).contains(all[i]) {
        let j = choose|j: int| 0 <= j < all.take(i).len() && all.take(i)[j] == all[i];
        assert(all[j] == all[i]);
    }
}

/// Pushing a new element keeps a sequence free of duplicates and adds just that element.
proof fn lemma_push_new(before: Seq<i32>, k: i32)
    requires
        before.no_duplicates(),
        !before.contains(k),
    ensures
        before.push(k).no_duplicates(),
        forall|x: i32| before.push(k).contains(x) <==> (before.contains(x) || x == k),
{
    let after = before.push(k);
    assert forall|a: int, b: int| 0 <= a < b < after.len() implies after[a] != after[b] by {
        if b == before.len() {
            assert(before.contains(before[a]));
        }
    }
    assert forall|x: i32| after.contains(x) <==> (before.contains(x) || x == k) by {
        if after.contains(x) && x != k {
            let j = choose|j: int| 0 <= j < after.len() && after[j] == x;
            assert(before[j] == x);
        }
        if before.contains(x) {
            let j = choose|j: int| 0 <= j < before.len() && before[j] == x;
            assert(after[j] == x);
        }
        if x == k {
            assert(after[before.len() as int] == x);
        }
    }
}

impl FrozenTable {
    /// An empty table.
    pub fn new() -> (r: FrozenTable)
        ensures
            r@ == Map::<i32, FrozenMeta>::empty(),
    {
        FrozenTable { map: HashMap::new() }
    }

    /// The number of frozen processes.
    pub fn len(&self) -> (r: usize)
        ensures
            r == self@.len(),
    {
        broadcast use vstd::std_specs::hash::group_hash_axioms;
        self.map.len()
    }

    /// Whether no process is frozen.
    pub fn is_empty(&self) -> (r: bool)
        ensures
            r == (self@.len() == 0),
    {
        self.len() == 0
    }

    /// Whether `pid` is frozen.
    pub fn contains(&self, pid: i32) -> (r: bool)
        ensures
            r == self@.contains_key(pid),
    {
        broadcast use vstd::std_specs::hash::group_hash_axioms;
        self.map.contains_key(&pid)
    }

    /// Records `pid` as frozen with `meta`, replacing what was recorded for it.
    pub fn insert(&mut self, pid: i32, meta: FrozenMeta)
        ensures
            final(self)@ == old(self)@.insert(pid, meta),
    {
        broadcast use vstd::std_specs::hash::group_hash_axioms;
        self.map.insert(pid, meta);
    }

    /// Forgets `pid`, handing back what was recorded for it.
    pub fn remove(&mut self, pid: i32) -> (r: Option<FrozenMeta>)
        ensures
            r == (if old(self)@.contains_key(pid) {
                Some(old(self)@[pid])
            } else {
                None::<FrozenMeta>
            }),
            final(self)@ == old(self)@.remove(pid),
    {
        broadcast use vstd::std_specs::hash::group_hash_axioms;
        self.map.remove(&pid)
    }

    /// Whether the frozen process `pid` was frozen for the application `pkg`.
    fn frozen_for(&self, pid: i32, pkg: &str) -> (r: bool)
        requires
            self@.contains_key(pid),
        ensures
            r == (self@[pid].app@ == pkg@),
    {
        broadcast use vstd::std_specs::hash::group_hash_axioms;
        match self.map.get(&pid) {
            Some(m) => str_eq(m.app.as_str(), pkg),
            None => false,
        }
    }

    /// The frozen pids, each once.
    pub fn pids(&self) -> (r: Vec<i32>)
        ensures
            r@.no_duplicates(),
            forall|k: i32| r@.contains(k) <==> self@.contains_key(k),
    {
        broadcast use vstd::std_specs::hash::group_hash_axioms;
        let ghost ks: Seq<i32> = vstd::std_specs::hash::spec_keys_iter(&self.map).remaining().unref();
        assert(ks.to_set() == self.map@.dom());
        let mut r: Vec<i32> = Vec::new();
        for k in it: self.map.keys()
            invariant
                ks == vstd::std_specs::hash::spec_keys_iter(&self.map).remaining().unref(),
                it.seq().unref() == ks,
                r@ == ks.take(it.index()),
        {
            r.push(*k);
            assert(ks.take(it.index() + 1) =~= r@);
        }
        assert(r@.len() == ks.len());
        assert(r@ =~= ks);
        assert forall|k: i32| r@.contains(k) <==> self@.contains_key(k) by {
            assert(r@.to_set().contains(k) <==> r@.contains(k));
        }
        r
    }

    /// The pids frozen for the application `pkg`, each once.
    pub fn pids_of_app(&self, pkg: &str) -> (r: Vec<i32>)
        ensures
            r@.no_duplicates(),
            forall|k: i32| r@.contains(k) <==> (self@.contains_key(k) && self@[k].app@ == pkg@),
    {
        let all = self.pids();
        let mut r: Vec<i32> = Vec::new();
        let n = all.len();
        for i in 0..n
            invariant
                n == all@.len(),
                all@.no_duplicates(),
                forall|k: i32| all@.contains(k) <==> self@.contains_key(k),
                r@.no_duplicates(),
                forall|k: i32| r@.contains(k) <==> (all@.take(i as int).contains(k) && self@[k].app@ == pkg@),
        {
            let k = all[i];
            proof {
                lemma_take_next(all@, i as int);
                lemma_not_before(all@, i as int);
            }
            assert(all@.contains(k));
            let ghost r0 = r@;
            if self.frozen_for(k, pkg) {
                proof {
                    lemma_push_new(r0, k);
                }
                r.push(k);
            }
            assert forall|x: i32| r@.contains(x) <==> (all@.take(i + 1).contains(x) && self@[x].app@ == pkg@) by {
                assert(r0.contains(x) <==> (all@.take(i as int).contains(x) && self@[x].app@ == pkg@));
            }
        }
        assert(all@.take(n as int) =~= all@);
        r
    }

    /// Forgets every frozen pid that is not among `seen`, handing back what was
    /// forgotten.
    pub fn prune(&mut self, seen: &HashSet<i32>) -> (removed: Vec<(i32, FrozenMeta)>)
        ensures
            forall|k: i32| #[trigger] final(self)@.contains_key(k) <==> (old(self)@.contains_key(k) && seen@.contains(k)),
            forall|k: i32| #[trigger] final(self)@.contains_key(k) ==> final(self)@[k] == old(self)@[k],
            unique_pids(removed@),
            forall|k: i32| has_pid(removed@, k) <==> (old(self)@.contains_key(k) && !seen@.contains(k)),
            forall|j: int| 0 <= j < removed@.len() ==> old(self)@[#[trigger] removed@[j].0] == removed@[j].1,
    {
        broadcast use vstd::std_specs::hash::group_hash_axioms;
        let all = self.pids();
        let ghost m0 = self@;
        let mut removed: Vec<(i32, FrozenMeta)> = Vec::new();
        let n = all.len();
        for i in 0..n
            invariant
                n == all@.len(),
                all@.no_duplicates(),
                m0 == old(self)@,
                forall|k: i32| all@.contains(k) <==> m0.contains_key(k),
                forall|k: i32| #[trigger] self@.contains_key(k)
                    <==> (m0.contains_key(k) && !(all@.take(i as int).contains(k) && !seen@.contains(k))),
                forall|k: i32| #[trigger] self@.contains_key(k) ==> self@[k] == m0[k],
                unique_pids(removed@),
                forall|k: i32| has_pid(removed@, k) <==> (all@.take(i as int).contains(k) && !seen@.contains(k)),
                forall|j: int| 0 <= j < removed@.len() ==> m0[#[trigger] removed@[j].0] == removed@[j].1,
        {
            let k = all[i];
            proof {
                lemma_take_next(all@, i as int);
                lemma_not_before(all@, i as int);
            }
            assert(all@.contains(k));
            if !seen.contains(&k) {
                let ghost before = removed@;
                let ghost s0 = self@;
                assert(s0.contains_key(k));
                let gone = self.remove(k);
                match gone {
                    Some(meta) => {
                        removed.push((k, meta));
                        proof {
                            assert(!has_pid(before, k));
                            assert forall|a: int, b: int| 0 <= a < removed@.len() && 0 <= b < removed@.len() && a != b
                                implies removed@[a].0 != removed@[b].0 by {
                                if a == before.len() {
                                    assert(has_pid(before, removed@[b].0));
                                } else if b == before.len() {
                                    assert(has_pid(before, removed@[a].0));
                                } else {
                                    assert(removed@[a] == before[a] && removed@[b] == before[b]);
                                }
                            }
                            assert forall|x: i32| has_pid(removed@, x) <==> (all@.take(i + 1).contains(x) && !seen@.contains(x)) by {
                                if has_pid(removed@, x) && x != k {
                                    let j = choose|j: int| 0 <= j < removed@.len() && removed@[j].0 == x;
                                    assert(before[j].0 == x);
                                }
                                if has_pid(before, x) {
                                    let j = choose|j: int| 0 <= j < before.len() && before[j].0 == x;
                                    assert(removed@[j].0 == x);
                                }
                                if x == k {
                                    assert(removed@[before.len() as int].0 == x);
                                }
                            }
                            assert forall|j: int| 0 <= j < removed@.len() implies m0[#[trigger] removed@[j].0] == removed@[j].1 by {
                                if j < before.len() {
                                    assert(removed@[j] == before[j]);
                                }
                            }
                        }
                    },
                    None => {},
                }
            }
        }
        assert(all@.take(n as int) =~= all@);
        removed
    }
}

/// When each application was last seen in the foreground, by package.
pub struct VisibleTable {
    entries: Vec<(String, u64)>,
}

/// Whether no package occurs twice among the entries.
pub open spec fn unique_packages(s: Seq<(String, u64)>) -> bool {
    forall|i: int, j: int| 0 <= i < s.len() && 0 <= j < s.len() && i != j ==> s[i].0@ != s[j].0@
}

/// Whether some entry is for the package `k`.
pub open spec fn has_package(s: Seq<(String, u64)>, k: Seq<char>) -> bool {
    exists|i: int| 0 <= i < s.len() && s[i].0@ == k
}

/// The entries as a map from package to time.
pub open spec fn package_map(s: Seq<(String, u64)>) -> Map<Seq<char>, u64> {
    Map::new(
        |k: Seq<char>| has_package(s, k),
        |k: Seq<char>| s[choose|i: int| 0 <= i < s.len() && s[i].0@ == k].1,
    )
}

proof fn lemma_package_map_at(s: Seq<(String, u64)>, i: int)
    requires
        unique_packages(s),
        0 <= i < s.len(),
    ensures
        package_map(s).contains_key(s[i].0@),
        package_map(s)[s[i].0@] == s[i].1,
{
    assert(has_package(s, s[i].0@));
    let j = choose|j: int| 0 <= j < s.len() && s[j].0@ == s[i].0@;
    assert(j == i);
}

impl View for VisibleTable {
    type V = Map<Seq<char>, u64>;

    closed spec fn view(&self) -> Map<Seq<char>, u64> {
        package_map(self.entries@)
    }
}

impl VisibleTable {
    #[verifier::type_invariant]
    spec fn inv(self) -> bool {
        unique_packages(self.entries@)
    }

    /// An empty table.
    pub fn new() -> (r: VisibleTable)
        ensures
            r@ == Map::<Seq<char>, u64>::empty(),
    {
        let r = VisibleTable { entries: Vec::new() };
        assert(r@ =~= Map::<Seq<char>, u64>::empty());
        r
    }

    /// When `pkg` was last seen in the foreground.
    pub fn get(&self, pkg: &str) -> (r: Option<u64>)
        ensures
            r == (if self@.contains_key(pkg@) {
                Some(self@[pkg@])
            } else {
                None::<u64>
            }),
    {
        proof {
            use_type_invariant(self);
        }
        match find_package(&self.entries, pkg) {
            Some(i) => {
                proof {
                    lemma_package_map_at(self.entries@, i as int);
                }
                Some(self.entries[i].1)
            },
            None => None,
        }
    }

    /// Records that `pkg` is in the foreground at `now`.
    pub fn record(&mut self, pkg: &str, now: u64)
        ensures
            final(self)@ == old(self)@.insert(pkg@, now),
    {
        proof {
            use_type_invariant(&*self);
        }
        let ghost before = self.entries@;
        let ghost k0 = pkg@;
        let mut v: Vec<(String, u64)> = Vec::new();
        std::mem::swap(&mut v, &mut self.entries);
        match find_package(&v, pkg) {
            Some(i) => {
                let name = pkg.to_owned();
                v.set(i, (name, now));
                proof {
                    let after = v@;
                    assert(after == before.update(i as int, (after[i as int].0, now)));
                    assert(unique_packages(after));
                    assert forall|k: Seq<char>| #[trigger] package_map(after).contains_key(k) == package_map(before).insert(k0, now).contains_key(k) by {
                        if has_package(before, k) {
                            let j = choose|j: int| 0 <= j < before.len() && before[j].0@ == k;
                            assert(after[j].0@ == k);
                        }
                        if has_package(after, k) {
                            let j = choose|j: int| 0 <= j < after.len() && after[j].0@ == k;
                            assert(before[j].0@ == k);
                        }
                    }
                    assert forall|k: Seq<char>| #[trigger] package_map(after).contains_key(k) implies package_map(after)[k] == package_map(before).insert(k0, now)[k] by {
                        let j = choose|j: int| 0 <= j < after.len() && after[j].0@ == k;
                        lemma_package_map_at(after, j);
                        if j != i {
                            lemma_package_map_at(before, j);
                        }
                    }
                    assert(package_map(after) =~= package_map(before).insert(k0, now));
                }
            },
            None => {
                v.push((pkg.to_owned(), now));
                proof {
                    let after = v@;
                    assert(after == before.push(after[before.len() as int]));
                    assert forall|a: int| 0 <= a < before.len() implies after[a].0@ != k0 by {
                        assert(after[a] == before[a]);
                    }
                    assert(unique_packages(after));
                    assert forall|k: Seq<char>| #[trigger] package_map(after).contains_key(k) == package_map(before).insert(k0, now).contains_key(k) by {
                        if has_package(before, k) {
                            let j = choose|j: int| 0 <= j < before.len() && before[j].0@ == k;
                            assert(after[j].0@ == k);
                        }
                        if has_package(after, k) && k != k0 {
                            let j = choose|j: int| 0 <= j < after.len() && after[j].0@ == k;
                            assert(before[j].0@ == k);
                        }
                        if k == k0 {
                            assert(after[before.len() as int].0@ == k);
                        }
                    }
                    assert forall|k: Seq<char>| #[trigger] package_map(after).contains_key(k) implies package_map(after)[k] == package_map(before).insert(k0, now)[k] by {
                        let j = choose|j: int| 0 <= j < after.len() && after[j].0@ == k;
                        lemma_package_map_at(after, j);
                        if j < before.len() {
                            lemma_package_map_at(before, j);
                        }
                    }
                    assert(package_map(after) =~= package_map(before).insert(k0, now));
                }
            },
        }
        self.entries = v;
    }
}

fn find_package(v: &Vec<(String, u64)>, pkg: &str) -> (r: Option<usize>)
    ensures
        match r {
            Some(i) => i < v@.len() && v@[i as int].0@ == pkg@,
            None => !has_package(v@, pkg@),
        },
{
    let n = v.len();
    for i in 0..n
        invariant
            n == v@.len(),
            forall|j: int| 0 <= j < i ==> v@[j].0@ != pkg@,
    {
        if str_eq(v[i].0.as_str(), pkg) {
            return Some(i);
        }
    }
    None
}


/// Whether the process `name` belongs to the application `pkg`: it is the main process
/// `pkg` or a sub-process `pkg:...`.
pub open spec fn belongs(name: Seq<char>, pkg: Seq<char>) -> bool {
    name == pkg || has_prefix(name, pkg.push(':'))
}

/// The processes of the application `pkg`.
pub open spec fn owned_by(pkg: Seq<char>) -> spec_fn(ProcEntry) -> bool {
    |p: ProcEntry| belongs(p.name@, pkg)
}

/// Whether `name` is the application's main process.
pub open spec fn is_main(app: AppConfView, name: Seq<char>) -> bool {
    name == app.package
}

/// Whether `name` is a process the application keeps running: a sub-process whose name
/// ends with one of the configured suffixes.
pub open spec fn is_keep(app: AppConfView, name: Seq<char>) -> bool {
    !is_main(app, name) && exists|i: int| 0 <= i < app.keep.len() && has_suffix(name, #[trigger] app.keep[i])
}

/// Whether the process `name` of the application is to be frozen: never while the
/// application is protected (foreground or grace period), never a kept process, and the
/// main process only when the application allows it.
pub open spec fn should_freeze(app: AppConfView, name: Seq<char>, protected: bool) -> bool {
    !protected && !is_keep(app, name) && !(is_main(app, name) && !app.freeze_main)
}

/// Whether a process of the application is visible: its `oom_score_adj` is at most 200.
pub open spec fn is_foreground(owned: Seq<ProcEntry>) -> bool {
    exists|i: int| 0 <= i < owned.len() && #[trigger] owned[i].oom_adj <= 200
}

/// Whether the application is within its grace period: the period is enabled and the
/// application was seen in the foreground less than `grace_secs` seconds before `now`.
pub open spec fn grace_active(grace_secs: u64, seen_at: Option<u64>, now: u64) -> bool {
    grace_secs > 0 && match seen_at {
        Some(t) => (if now >= t { now - t } else { 0 }) < grace_secs,
        None => false,
    }
}

/// What a map holds for `k`, if anything.
pub open spec fn lookup(m: Map<Seq<char>, u64>, k: Seq<char>) -> Option<u64> {
    if m.contains_key(k) {
        Some(m[k])
    } else {
        None
    }
}

/// The processes to freeze now: those that should be frozen and are not yet.
pub open spec fn freeze_pred(app: AppConfView, protected: bool, frozen: Map<i32, FrozenMeta>) -> spec_fn(ProcEntry) -> bool {
    |p: ProcEntry| should_freeze(app, p.name@, protected) && !frozen.contains_key(p.pid)
}

/// The processes to unfreeze now: those that should not be frozen and are.
pub open spec fn thaw_pred(app: AppConfView, protected: bool, frozen: Map<i32, FrozenMeta>) -> spec_fn(ProcEntry) -> bool {
    |p: ProcEntry| !should_freeze(app, p.name@, protected) && frozen.contains_key(p.pid)
}

/// The processes of the application `package` among `procs`, in order.
pub fn owned_procs(procs: &Vec<ProcEntry>, package: &str) -> (r: Vec<ProcEntry>)
    ensures
        r@ == procs@.filter(owned_by(package@)),
{
    let pkg = chars_of(package);
    let mut prefix = chars_of(package);
    prefix.push(':');
    let mut r: Vec<ProcEntry> = Vec::new();
    let n = procs.len();
    assert(procs@.take(0).filter(owned_by(package@)) =~= Seq::<ProcEntry>::empty()) by {
        reveal(Seq::filter);
    }
    for i in 0..n
        invariant
            n == procs@.len(),
            pkg@ == package@,
            prefix@ == package@.push(':'),
            r@ == procs@.take(i as int).filter(owned_by(package@)),
    {
        let name = chars_of(procs[i].name.as_str());
        let own = chars_eq(&name, &pkg) || starts_with_chars(&name, &prefix);
        proof {
            reveal(Seq::filter);
            assert(procs@.take(i + 1).drop_last() =~= procs@.take(i as int));
            assert(procs@.take(i + 1).last() == procs@[i as int]);
        }
        if own {
            r.push(procs[i].clone());
        }
    }
    assert(procs@.take(n as int) =~= procs@);
    r
}

/// Whether `name` is the application's main process.
pub fn is_main_proc(app: &AppConf, name: &str) -> (r: bool)
    ensures
        r == is_main(app@, name@),
{
    str_eq(name, app.package.as_str())
}

/// Whether `name` is a process the application keeps running.
pub fn is_keep_proc(app: &AppConf, name: &str) -> (r: bool)
    ensures
        r == is_keep(app@, name@),
{
    if is_main_proc(app, name) {
        return false;
    }
    let v = chars_of(name);
    let n = app.keep.len();
    for i in 0..n
        invariant
            n == app.keep@.len(),
            v@ == name@,
            !is_main(app@, name@),
            forall|j: int| 0 <= j < i ==> !has_suffix(name@, #[trigger] app@.keep[j]),
    {
        assert(app@.keep[i as int] == app.keep@[i as int]@);
        if ends_with_chars(&v, &chars_of(app.keep[i].as_str())) {
            assert(has_suffix(name@, app@.keep[i as int]));
            assert(0 <= i < app@.keep.len());
            return true;
        }
    }
    false
}

/// Whether the process `name` of the application is to be frozen.
pub fn should_freeze_proc(app: &AppConf, name: &str, protected: bool) -> (r: bool)
    ensures
        r == should_freeze(app@, name@, protected),
{
    !protected && !is_keep_proc(app, name) && !(is_main_proc(app, name) && !app.freeze_main)
}

/// Whether some process of the application is visible.
pub fn any_foreground(owned: &Vec<ProcEntry>) -> (r: bool)
    ensures
        r == is_foreground(owned@),
{
    let n = owned.len();
    for i in 0..n
        invariant
            n == owned@.len(),
            forall|j: int| 0 <= j < i ==> !(#[trigger] owned@[j].oom_adj <= 200),
    {
        if owned[i].oom_adj <= 200 {
            return true;
        }
    }
    false
}

/// Whether the application is within its grace period at `now`.
pub fn in_grace(grace_secs: u64, seen_at: Option<u64>, now: u64) -> (r: bool)
    ensures
        r == grace_active(grace_secs, seen_at, now),
{
    grace_secs > 0 && match seen_at {
        Some(t) => now.saturating_sub(t) < grace_secs,
        None => false,
    }
}

/// The decisions of one cycle for one application.
pub struct AppPlan {
    pub owned: Vec<ProcEntry>,
    pub foreground: bool,
    pub in_grace: bool,
    pub to_freeze: Vec<ProcEntry>,
    pub to_unfreeze: Vec<i32>,
}

/// Decides one cycle for `app`: none for a disabled application or one without
/// processes; else its processes, whether it is foreground (which records it as visible
/// at `now`) or in its grace period, the processes to freeze (to be frozen and not yet)
/// and the pids to unfreeze (frozen but no longer to be).
pub fn plan_app(
    visible: &mut VisibleTable,
    app: &AppConf,
    procs: &Vec<ProcEntry>,
    frozen: &FrozenTable,
    grace_secs: u64,
    now: u64,
) -> (r: Option<AppPlan>)
    ensures
        ({
            let owned = procs@.filter(owned_by(app.package@));
            &&& (r is None <==> (!app.enabled || owned.len() == 0))
            &&& r is None ==> final(visible)@ == old(visible)@
            &&& r matches Some(plan) ==> {
                let protected = plan.foreground || plan.in_grace;
                &&& plan.owned@ == owned
                &&& plan.foreground == is_foreground(owned)
                &&& final(visible)@ == (if plan.foreground {
                    old(visible)@.insert(app.package@, now)
                } else {
                    old(visible)@
                })
                &&& plan.in_grace == grace_active(grace_secs, lookup(final(visible)@, app.package@), now)
                &&& plan.to_freeze@ == owned.filter(freeze_pred(app@, protected, frozen@))
                &&& plan.to_unfreeze@ == owned.filter(thaw_pred(app@, protected, frozen@)).map_values(|p: ProcEntry| p.pid)
            }
        }),
{
    if !app.enabled {
        return None;
    }
    let owned = owned_procs(procs, app.package.as_str());
    if owned.len() == 0 {
        return None;
    }
    let foreground = any_foreground(&owned);
    if foreground {
        visible.record(app.package.as_str(), now);
    }
    let seen_at = visible.get(app.package.as_str());
    let grace = in_grace(grace_secs, seen_at, now);
    let protected = foreground || grace;
    let ghost fp = freeze_pred(app@, protected, frozen@);
    let ghost tp = thaw_pred(app@, protected, frozen@);
    let mut to_freeze: Vec<ProcEntry> = Vec::new();
    let mut to_unfreeze: Vec<i32> = Vec::new();
    let n = owned.len();
    assert(owned@.take(0).filter(fp) =~= Seq::<ProcEntry>::empty()) by {
        reveal(Seq::filter);
    }
    assert(owned@.take(0).filter(tp) =~= Seq::<ProcEntry>::empty()) by {
        reveal(Seq::filter);
    }
    for i in 0..n
        invariant
            n == owned@.len(),
            fp == freeze_pred(app@, protected, frozen@),
            tp == thaw_pred(app@, protected, frozen@),
            to_freeze@ == owned@.take(i as int).filter(fp),
            to_unfreeze@ == owned@.take(i as int).filter(tp).map_values(|p: ProcEntry| p.pid),
    {
        let p = &owned[i];
        let should = should_freeze_proc(app, p.name.as_str(), protected);
        let is_frozen = frozen.contains(p.pid);
        proof {
            reveal(Seq::filter);
            assert(owned@.take(i + 1).drop_last() =~= owned@.take(i as int));
            assert(owned@.take(i + 1).last() == owned@[i as int]);
        }
        if should {
            if !is_frozen {
                to_freeze.push(p.clone());
            }
        } else if is_frozen {
            to_unfreeze.push(p.pid);
        }
        assert(to_unfreeze@ =~= owned@.take(i + 1).filter(tp).map_values(|p: ProcEntry| p.pid));
    }
    assert(owned@.take(n as int) =~= owned@);
    Some(AppPlan { owned, foreground, in_grace: grace, to_freeze, to_unfreeze })
}


/// The nice value given to a frozen process.
pub const FREEZE_NICE: i32 = 19;

/// Which freezing mechanisms to apply to a process.
pub struct FreezeMechanisms {
    pub sigstop: bool,
    pub cpuset: bool,
    pub renice: bool,
}

/// The mechanisms for an application of the given power: SIGSTOP from power 2, the
/// restricted cpuset from power 1, renice always; each only when enabled in `cfg`.
pub fn freeze_mechanisms(cfg: &Config, power: u8) -> (r: FreezeMechanisms)
    ensures
        r.sigstop == (cfg.use_sigstop && power >= 2),
        r.cpuset == (cfg.use_cpuset && power >= 1),
        r.renice == cfg.use_renice,
{
    FreezeMechanisms { sigstop: cfg.use_sigstop && power >= 2, cpuset: cfg.use_cpuset && power >= 1, renice: cfg.use_renice }
}

/// Whether a freeze took: some mechanism succeeded, a mechanism that is not applied
/// counting as a success.
pub open spec fn freeze_took(m: FreezeMechanisms, sig_ok: bool, cpu_ok: bool, nice_ok: bool) -> bool {
    (!m.sigstop || sig_ok) || (!m.cpuset || cpu_ok) || (!m.renice || nice_ok)
}

/// A freeze counts as failed exactly when every mechanism it applied failed; one that
/// applies no mechanism at all counts as taken.
pub proof fn law_freeze_fails_only_when_all_fail(m: FreezeMechanisms, sig_ok: bool, cpu_ok: bool, nice_ok: bool)
    ensures
        !freeze_took(m, sig_ok, cpu_ok, nice_ok) <==> (m.sigstop && !sig_ok && m.cpuset && !cpu_ok && m.renice && !nice_ok),
        !m.sigstop && !m.cpuset && !m.renice ==> freeze_took(m, sig_ok, cpu_ok, nice_ok),
{
}

impl FrozenTable {
    /// Records the outcome of freezing `pid` with the mechanisms `m` (`sig_ok`, `cpu_ok`,
    /// `nice_ok`: whether each applied mechanism succeeded): the process counts as frozen
    /// when the freeze took.
    pub fn record_freeze(&mut self, pid: i32, meta: FrozenMeta, m: &FreezeMechanisms, sig_ok: bool, cpu_ok: bool, nice_ok: bool) -> (r: bool)
        ensures
            r == freeze_took(*m, sig_ok, cpu_ok, nice_ok),
            final(self)@ == (if r {
                old(self)@.insert(pid, meta)
            } else {
                old(self)@
            }),
    {
        let took = (!m.sigstop || sig_ok) || (!m.cpuset || cpu_ok) || (!m.renice || nice_ok);
        if took {
            self.insert(pid, meta);
        }
        took
    }
}

/// What the status view shows of one process.
#[derive(Debug)]
pub struct ProcStatus {
    pub pid: i32,
    pub name: String,
    pub state: String,
    pub oom_adj: i32,
    pub rss_kb: u64,
    pub nice: i32,
}

/// What the status view shows of one application.
#[derive(Debug)]
pub struct AppStatus {
    pub package: String,
    pub label: String,
    pub enabled: bool,
    pub foreground: bool,
    pub grace: bool,
    pub power: u8,
    pub processes: Vec<ProcStatus>,
    pub frozen_kb: u64,
}

/// What the status view shows of the daemon.
#[derive(Debug)]
pub struct EngineStatus {
    pub version: String,
    pub enabled: bool,
    pub interval_secs: u64,
    pub started_at: u64,
    pub uptime_secs: u64,
    pub last_cycle_ms: u64,
    pub cycles: u64,
    pub frozen_count: usize,
    pub frozen_kb: u64,
    pub apps: Vec<AppStatus>,
}

/// The state shown for a process: frozen; preserved (kept running by rule); running.
pub open spec fn proc_state(app: AppConfView, name: Seq<char>, frozen: bool) -> Seq<char> {
    if frozen {
        "frozen"@
    } else if is_keep(app, name) || (is_main(app, name) && !app.freeze_main) {
        "preserved"@
    } else {
        "running"@
    }
}

/// The number of `owned` processes that are frozen.
pub open spec fn frozen_count_of(owned: Seq<ProcEntry>, frozen: Map<i32, FrozenMeta>) -> nat
    decreases owned.len(),
{
    if owned.len() == 0 {
        0
    } else {
        frozen_count_of(owned.drop_last(), frozen) + (if frozen.contains_key(owned.last().pid) {
            1nat
        } else {
            0nat
        })
    }
}

/// The resident memory, in KiB, of the `owned` processes that are frozen.
pub open spec fn frozen_kb_of(owned: Seq<ProcEntry>, frozen: Map<i32, FrozenMeta>) -> nat
    decreases owned.len(),
{
    if owned.len() == 0 {
        0
    } else {
        frozen_kb_of(owned.drop_last(), frozen) + (if frozen.contains_key(owned.last().pid) {
            owned.last().rss_kb as nat
        } else {
            0nat
        })
    }
}

/// Whether `st` shows process `p` of the application in state `state` with nice `nice`.
pub open spec fn shows_proc(st: ProcStatus, p: ProcEntry, state: Seq<char>, nice: i32) -> bool {
    &&& st.pid == p.pid
    &&& st.name@ == p.name@
    &&& st.state@ == state
    &&& st.oom_adj == p.oom_adj
    &&& st.rss_kb == p.rss_kb
    &&& st.nice == nice
}

/// Whether `st` is the status of `app` with processes `owned` (their nice values `nices`)
/// against the frozen processes `frozen`. Memory sums wrap at 2^64 as the release build's
/// `+=` does.
pub open spec fn shows_app(
    st: AppStatus,
    app: AppConfView,
    owned: Seq<ProcEntry>,
    nices: Seq<i32>,
    foreground: bool,
    grace: bool,
    frozen: Map<i32, FrozenMeta>,
) -> bool {
    &&& st.package@ == app.package
    &&& st.label@ == app.label
    &&& st.enabled == app.enabled
    &&& st.foreground == foreground
    &&& st.grace == grace
    &&& st.power == app.power
    &&& st.processes@.len() == owned.len()
    &&& forall|i: int| 0 <= i < owned.len() ==> shows_proc(#[trigger] st.processes@[i], owned[i],
        proc_state(app, owned[i].name@, frozen.contains_key(owned[i].pid)), nices[i])
    &&& st.frozen_kb == frozen_kb_of(owned, frozen) % 0x1_0000_0000_0000_0000
}

/// How many of the shown processes are in state `frozen`.
pub open spec fn shown_frozen_count(ps: Seq<ProcStatus>) -> nat
    decreases ps.len(),
{
    if ps.len() == 0 {
        0
    } else {
        shown_frozen_count(ps.drop_last()) + (if ps.last().state@ == "frozen"@ {
            1nat
        } else {
            0nat
        })
    }
}

/// The resident memory, in KiB, of the shown processes in state `frozen`.
pub open spec fn shown_frozen_kb(ps: Seq<ProcStatus>) -> nat
    decreases ps.len(),
{
    if ps.len() == 0 {
        0
    } else {
        shown_frozen_kb(ps.drop_last()) + (if ps.last().state@ == "frozen"@ {
            ps.last().rss_kb as nat
        } else {
            0nat
        })
    }
}

/// How many processes the shown applications have in state `frozen`.
pub open spec fn apps_frozen_count(apps: Seq<AppStatus>) -> nat
    decreases apps.len(),
{
    if apps.len() == 0 {
        0
    } else {
        apps_frozen_count(apps.drop_last()) + shown_frozen_count(apps.last().processes@)
    }
}

/// The frozen memory, in KiB, that the shown applications report.
pub open spec fn apps_frozen_kb(apps: Seq<AppStatus>) -> nat
    decreases apps.len(),
{
    if apps.len() == 0 {
        0
    } else {
        apps_frozen_kb(apps.drop_last()) + apps.last().frozen_kb as nat
    }
}

/// The states a process is shown in.
pub open spec fn state_shown(s: Seq<char>) -> bool {
    s == "frozen"@ || s == "preserved"@ || s == "running"@
}

/// Whether a status view adds up: the frozen count is the number of processes shown
/// frozen, the frozen memory the sum of what the applications report, each application
/// reports the memory of its processes shown frozen, and every process is shown frozen,
/// preserved or running. Sums wrap at the integer width as the release build's `+=`
/// does.
pub open spec fn totals_agree(apps: Seq<AppStatus>, count: usize, kb: u64) -> bool {
    &&& count as int == apps_frozen_count(apps) as int % (usize::MAX as int + 1)
    &&& kb as int == apps_frozen_kb(apps) as int % 0x1_0000_0000_0000_0000
    &&& forall|i: int| 0 <= i < apps.len() ==> (#[trigger] apps[i]).frozen_kb as int
        == shown_frozen_kb(apps[i].processes@) as int % 0x1_0000_0000_0000_0000
    &&& forall|i: int, j: int| 0 <= i < apps.len() && 0 <= j < apps[i].processes@.len()
        ==> state_shown(#[trigger] apps[i].processes@[j].state@)
}

proof fn lemma_shown_states(procs: Seq<ProcStatus>, app: AppConfView, owned: Seq<ProcEntry>, nices: Seq<i32>, frozen: Map<i32, FrozenMeta>)
    requires
        procs.len() == owned.len(),
        nices.len() == owned.len(),
        forall|i: int| 0 <= i < owned.len() ==> shows_proc(#[trigger] procs[i], owned[i],
            proc_state(app, owned[i].name@, frozen.contains_key(owned[i].pid)), nices[i]),
    ensures
        shown_frozen_count(procs) == frozen_count_of(owned, frozen),
        shown_frozen_kb(procs) == frozen_kb_of(owned, frozen),
        forall|j: int| 0 <= j < procs.len() ==> state_shown(#[trigger] procs[j].state@),
    decreases owned.len(),
{
    reveal_strlit("frozen");
    reveal_strlit("preserved");
    reveal_strlit("running");
    if owned.len() > 0 {
        let n = owned.len() - 1;
        assert forall|i: int| 0 <= i < n implies shows_proc(#[trigger] procs.drop_last()[i], owned.drop_last()[i],
            proc_state(app, owned.drop_last()[i].name@, frozen.contains_key(owned.drop_last()[i].pid)), nices.drop_last()[i]) by {
            assert(shows_proc(procs[i], owned[i], proc_state(app, owned[i].name@, frozen.contains_key(owned[i].pid)), nices[i]));
        }
        lemma_shown_states(procs.drop_last(), app, owned.drop_last(), nices.drop_last(), frozen);
        assert(shows_proc(procs[n], owned[n], proc_state(app, owned[n].name@, frozen.contains_key(owned[n].pid)), nices[n]));
        assert(procs.last() == procs[n]);
        assert(owned.last() == owned[n]);
        let fz = frozen.contains_key(owned[n].pid);
        assert(procs[n].state@ == "frozen"@ <==> fz) by {
            assert("frozen"@.len() == 6);
            assert("preserved"@.len() == 9);
            assert("running"@.len() == 7);
        }
        assert forall|j: int| 0 <= j < procs.len() implies state_shown(#[trigger] procs[j].state@) by {
            if j < n {
                assert(procs.drop_last()[j] == procs[j]);
            }
        }
    }
}

/// The status totals add up: when the totals agree with the applications shown so far,
/// they still agree once one more application's status is added and its frozen
/// processes are counted and their memory summed into the totals.
pub proof fn law_status_totals_add_up(
    apps: Seq<AppStatus>,
    count: usize,
    kb: u64,
    st: AppStatus,
    app: AppConfView,
    owned: Seq<ProcEntry>,
    nices: Seq<i32>,
    foreground: bool,
    grace: bool,
    frozen: Map<i32, FrozenMeta>,
    count2: usize,
    kb2: u64,
)
    requires
        totals_agree(apps, count, kb),
        nices.len() == owned.len(),
        shows_app(st, app, owned, nices, foreground, grace, frozen),
        count2 as int == (count + frozen_count_of(owned, frozen)) % (usize::MAX as int + 1),
        kb2 as int == (kb + frozen_kb_of(owned, frozen)) % 0x1_0000_0000_0000_0000,
    ensures
        totals_agree(apps.push(st), count2, kb2),
{
    let m64: int = 0x1_0000_0000_0000_0000;
    let mu: int = usize::MAX as int + 1;
    let all = apps.push(st);
    lemma_shown_states(st.processes@, app, owned, nices, frozen);
    assert(all.drop_last() =~= apps);
    assert(all.last() == st);
    let c = frozen_count_of(owned, frozen) as int;
    let f = frozen_kb_of(owned, frozen) as int;
    let ca = apps_frozen_count(apps) as int;
    let ka = apps_frozen_kb(apps) as int;
    vstd::arithmetic::div_mod::lemma_add_mod_noop_right(c, ca, mu);
    vstd::arithmetic::div_mod::lemma_add_mod_noop_right(f, ka, m64);
    vstd::arithmetic::div_mod::lemma_add_mod_noop_right(ka, f, m64);
    assert(count2 as int == apps_frozen_count(all) as int % mu);
    assert(kb2 as int == apps_frozen_kb(all) as int % m64);
    assert forall|i: int| 0 <= i < all.len() implies (#[trigger] all[i]).frozen_kb as int
        == shown_frozen_kb(all[i].processes@) as int % m64 by {
        if i < apps.len() {
            assert(all[i] == apps[i]);
        }
    }
    assert forall|i: int, j: int| 0 <= i < all.len() && 0 <= j < all[i].processes@.len()
        implies state_shown(#[trigger] all[i].processes@[j].state@) by {
        if i < apps.len() {
            assert(all[i] == apps[i]);
        }
    }
}

fn state_text(app: &AppConf, name: &str, frozen: bool) -> (r: String)
    ensures
        r@ == proc_state(app@, name@, frozen),
{
    if frozen {
        "frozen".to_owned()
    } else if is_keep_proc(app, name) || (is_main_proc(app, name) && !app.freeze_main) {
        "preserved".to_owned()
    } else {
        "running".to_owned()
    }
}

/// Whether one of the processes `owned` has pid `k`.
pub open spec fn owns_pid(owned: Seq<ProcEntry>, k: i32) -> bool {
    exists|i: int| 0 <= i < owned.len() && owned[i].pid == k
}

/// What one cycle has gathered so far: the pids of the managed processes seen, the
/// status of each application, and the totals of frozen processes and memory.
pub struct CycleTally {
    pub seen: HashSet<i32>,
    pub apps: Vec<AppStatus>,
    pub frozen_count: usize,
    pub frozen_kb: u64,
}

impl CycleTally {
    /// Nothing gathered yet.
    pub fn new() -> (r: CycleTally)
        ensures
            r.seen@ == Set::<i32>::empty(),
            r.apps@.len() == 0,
            r.frozen_count == 0,
            r.frozen_kb == 0,
            totals_agree(r.apps@, r.frozen_count, r.frozen_kb),
    {
        let r = CycleTally { seen: HashSet::new(), apps: Vec::new(), frozen_count: 0, frozen_kb: 0 };
        assert(apps_frozen_count(r.apps@) == 0 && apps_frozen_kb(r.apps@) == 0);
        r
    }

    /// Adds the status of `app` after its freezes and unfreezes: its processes are those
    /// of `plan`, `nices` their current nice values, `frozen` the frozen processes now.
    /// The totals wrap as the release build's `+=` does.
    pub fn add_app(&mut self, app: &AppConf, plan: &AppPlan, frozen: &FrozenTable, nices: &Vec<i32>)
        requires
            nices@.len() == plan.owned@.len(),
        ensures
            forall|k: i32| #[trigger] final(self).seen@.contains(k) <==> (old(self).seen@.contains(k) || owns_pid(plan.owned@, k)),
            final(self).apps@.len() == old(self).apps@.len() + 1,
            final(self).apps@.drop_last() == old(self).apps@,
            shows_app(final(self).apps@.last(), app@, plan.owned@, nices@, plan.foreground, plan.in_grace, frozen@),
            final(self).frozen_count == (old(self).frozen_count + frozen_count_of(plan.owned@, frozen@)) % (usize::MAX as int + 1),
            final(self).frozen_kb == (old(self).frozen_kb + frozen_kb_of(plan.owned@, frozen@)) % 0x1_0000_0000_0000_0000,
            totals_agree(old(self).apps@, old(self).frozen_count, old(self).frozen_kb)
                ==> totals_agree(final(self).apps@, final(self).frozen_count, final(self).frozen_kb),
    {
        let owned = &plan.owned;
        let n = owned.len();
        let mut procs: Vec<ProcStatus> = Vec::new();
        let mut app_kb: u64 = 0;
        let mut app_frozen: usize = self.frozen_count;
        let ghost seen0 = self.seen@;
        let ghost c0 = self.frozen_count as int;
        let ghost f = frozen@;
        let ghost m64: int = 0x1_0000_0000_0000_0000;
        let ghost mu: int = usize::MAX as int + 1;
        assert(owned@.take(0) =~= Seq::<ProcEntry>::empty());
        proof {
            vstd::arithmetic::div_mod::lemma_small_mod(c0 as nat, mu as nat);
        }
        for i in 0..n
            invariant
                n == owned@.len(),
                nices@.len() == n,
                f == frozen@,
                m64 == 0x1_0000_0000_0000_0000,
                mu == usize::MAX as int + 1,
                procs@.len() == i,
                forall|j: int| 0 <= j < i ==> shows_proc(#[trigger] procs@[j], owned@[j],
                    proc_state(app@, owned@[j].name@, f.contains_key(owned@[j].pid)), nices@[j]),
                app_kb == (frozen_kb_of(owned@.take(i as int), f) as int) % m64,
                app_frozen == (c0 + frozen_count_of(owned@.take(i as int), f)) % mu,
                forall|k: i32| #[trigger] self.seen@.contains(k) <==> (seen0.contains(k) || owns_pid(owned@.take(i as int), k)),
                c0 == old(self).frozen_count,
                seen0 == old(self).seen@,
                self.apps@ == old(self).apps@,
                self.frozen_kb == old(self).frozen_kb,
                self.frozen_count == old(self).frozen_count,
        {
            let p = &owned[i];
            let is_frozen = frozen.contains(p.pid);
            let state = state_text(app, p.name.as_str(), is_frozen);
            procs.push(ProcStatus {
                pid: p.pid,
                name: p.name.clone(),
                state,
                oom_adj: p.oom_adj,
                rss_kb: p.rss_kb,
                nice: nices[i],
            });
            let ghost kb_before = frozen_kb_of(owned@.take(i as int), f);
            let ghost cnt_before = frozen_count_of(owned@.take(i as int), f);
            assert(owned@.take(i + 1).drop_last() =~= owned@.take(i as int));
            assert(owned@.take(i + 1).last() == owned@[i as int]);
            if is_frozen {
                proof {
                    vstd::arithmetic::div_mod::lemma_add_mod_noop(kb_before as int, p.rss_kb as int, m64);
                    vstd::arithmetic::div_mod::lemma_add_mod_noop(c0 + cnt_before, 1, mu);
                    vstd::arithmetic::div_mod::lemma_small_mod(p.rss_kb as nat, m64 as nat);
                    vstd::arithmetic::div_mod::lemma_small_mod(1, mu as nat);
                }
                app_kb = app_kb.wrapping_add(p.rss_kb);
                app_frozen = app_frozen.wrapping_add(1);
            }
            let ghost s_before = self.seen@;
            self.seen.insert(p.pid);
            assert forall|k: i32| #[trigger] self.seen@.contains(k) <==> (seen0.contains(k) || owns_pid(owned@.take(i + 1), k)) by {
                let t0 = owned@.take(i as int);
                let t1 = owned@.take(i + 1);
                if owns_pid(t0, k) {
                    let j = choose|j: int| 0 <= j < t0.len() && t0[j].pid == k;
                    assert(t1[j].pid == k);
                }
                if owns_pid(t1, k) && k != p.pid {
                    let j = choose|j: int| 0 <= j < t1.len() && t1[j].pid == k;
                    assert(t0[j].pid == k);
                }
                if k == p.pid {
                    assert(t1[i as int].pid == k);
                }
                assert(s_before.contains(k) <==> (seen0.contains(k) || owns_pid(t0, k)));
            }
        }
        assert(owned@.take(n as int) =~= owned@);
        let ghost cnt = frozen_count_of(owned@, f);
        let ghost kb = frozen_kb_of(owned@, f);
        proof {
            vstd::arithmetic::div_mod::lemma_add_mod_noop(self.frozen_kb as int, kb as int, m64);
            vstd::arithmetic::div_mod::lemma_small_mod(self.frozen_kb as nat, m64 as nat);
        }
        let status = AppStatus {
            package: app.package.clone(),
            label: app.label.clone(),
            enabled: app.enabled,
            foreground: plan.foreground,
            grace: plan.in_grace,
            power: app.power,
            processes: procs,
            frozen_kb: app_kb,
        };
        let ghost shown = status;
        self.apps.push(status);
        self.frozen_kb = self.frozen_kb.wrapping_add(app_kb);
        self.frozen_count = app_frozen;
        assert(self.apps@.drop_last() =~= old(self).apps@);
        proof {
            if totals_agree(old(self).apps@, old(self).frozen_count, old(self).frozen_kb) {
                law_status_totals_add_up(old(self).apps@, old(self).frozen_count, old(self).frozen_kb, shown, app@,
                    owned@, nices@, plan.foreground, plan.in_grace, f, self.frozen_count, self.frozen_kb);
                assert(self.apps@ =~= old(self).apps@.push(shown));
            }
        }
    }
}


/// The version the status view reports.
pub open spec fn engine_version() -> Seq<char> {
    "1.0.0"@
}

impl EngineStatus {
    /// The status of a daemon that starts at `started_at` with `cfg`: no cycle run yet,
    /// nothing frozen.
    pub fn initial(cfg: &Config, started_at: u64) -> (r: EngineStatus)
        ensures
            r.version@ == engine_version(),
            r.enabled == cfg.enabled,
            r.interval_secs == cfg.interval_secs,
            r.started_at == started_at,
            r.uptime_secs == 0,
            r.last_cycle_ms == 0,
            r.cycles == 0,
            r.frozen_count == 0,
            r.frozen_kb == 0,
            r.apps@.len() == 0,
            totals_agree(r.apps@, r.frozen_count, r.frozen_kb),
    {
        let r = EngineStatus {
            version: "1.0.0".to_owned(),
            enabled: cfg.enabled,
            interval_secs: cfg.interval_secs,
            started_at,
            uptime_secs: 0,
            last_cycle_ms: 0,
            cycles: 0,
            frozen_count: 0,
            frozen_kb: 0,
            apps: Vec::new(),
        };
        assert(apps_frozen_count(r.apps@) == 0 && apps_frozen_kb(r.apps@) == 0);
        r
    }

    /// Records that a cycle ran and took `ms` milliseconds; the cycle count wraps as the
    /// release build's `+=` does.
    pub fn record_cycle(&mut self, ms: u64)
        ensures
            final(self).last_cycle_ms == ms,
            final(self).cycles == (old(self).cycles + 1) % 0x1_0000_0000_0000_0000,
            final(self).version == old(self).version,
            final(self).enabled == old(self).enabled,
            final(self).interval_secs == old(self).interval_secs,
            final(self).started_at == old(self).started_at,
            final(self).uptime_secs == old(self).uptime_secs,
            final(self).frozen_count == old(self).frozen_count,
            final(self).frozen_kb == old(self).frozen_kb,
            final(self).apps == old(self).apps,
    {
        self.last_cycle_ms = ms;
        self.cycles = self.cycles.wrapping_add(1);
    }

    /// Shows the switch and the interval of a new configuration at once.
    pub fn publish_meta(&mut self, cfg: &Config)
        ensures
            final(self).enabled == cfg.enabled,
            final(self).interval_secs == cfg.interval_secs,
            final(self).version == old(self).version,
            final(self).started_at == old(self).started_at,
            final(self).uptime_secs == old(self).uptime_secs,
            final(self).last_cycle_ms == old(self).last_cycle_ms,
            final(self).cycles == old(self).cycles,
            final(self).frozen_count == old(self).frozen_count,
            final(self).frozen_kb == old(self).frozen_kb,
            final(self).apps == old(self).apps,
    {
        self.enabled = cfg.enabled;
        self.interval_secs = cfg.interval_secs;
    }
}

/// How a cycle starts: when the daemon is switched off it releases every frozen pid
/// and does nothing else (`Some` of those pids); when it is on, the cycle runs (`None`).
pub fn release_when_off(cfg: &Config, frozen: &FrozenTable) -> (r: Option<Vec<i32>>)
    ensures
        r is None <==> cfg.enabled,
        r matches Some(p) ==> p@.no_duplicates() && forall|k: i32| p@.contains(k) <==> frozen@.contains_key(k),
{
    if cfg.enabled {
        None
    } else {
        Some(frozen.pids())
    }
}

/// Whether a manual freeze still has to freeze the candidate `p`: it is not frozen yet.
pub fn manual_freeze_due(frozen: &FrozenTable, p: &ProcEntry) -> (r: bool)
    ensures
        r == !frozen@.contains_key(p.pid),
{
    !frozen.contains(p.pid)
}

/// Ends a cycle: forgets every frozen process that no enabled application owned this
/// cycle (its pid is not among `tally.seen`), handing back what was forgotten, and shows
/// what the cycle gathered. Besides processes that have exited, this forgets processes
/// of an application disabled or removed since they were frozen; they are not resumed.
pub fn finish_cycle(
    tally: CycleTally,
    frozen: &mut FrozenTable,
    status: &mut EngineStatus,
    cfg: &Config,
    uptime_secs: u64,
) -> (forgotten: Vec<(i32, FrozenMeta)>)
    ensures
        forall|k: i32| #[trigger] final(frozen)@.contains_key(k) <==> (old(frozen)@.contains_key(k) && tally.seen@.contains(k)),
        forall|k: i32| #[trigger] final(frozen)@.contains_key(k) ==> final(frozen)@[k] == old(frozen)@[k],
        unique_pids(forgotten@),
        forall|k: i32| has_pid(forgotten@, k) <==> (old(frozen)@.contains_key(k) && !tally.seen@.contains(k)),
        forall|j: int| 0 <= j < forgotten@.len() ==> old(frozen)@[#[trigger] forgotten@[j].0] == forgotten@[j].1,
        final(status).enabled == cfg.enabled,
        final(status).interval_secs == cfg.interval_secs,
        final(status).uptime_secs == uptime_secs,
        final(status).frozen_count == tally.frozen_count,
        final(status).frozen_kb == tally.frozen_kb,
        final(status).apps == tally.apps,
        totals_agree(tally.apps@, tally.frozen_count, tally.frozen_kb)
            ==> totals_agree(final(status).apps@, final(status).frozen_count, final(status).frozen_kb),
        final(status).version == old(status).version,
        final(status).started_at == old(status).started_at,
        final(status).last_cycle_ms == old(status).last_cycle_ms,
        final(status).cycles == old(status).cycles,
{
    let forgotten = frozen.prune(&tally.seen);
    status.enabled = cfg.enabled;
    status.interval_secs = cfg.interval_secs;
    status.uptime_secs = uptime_secs;
    status.frozen_count = tally.frozen_count;
    status.frozen_kb = tally.frozen_kb;
    status.apps = tally.apps;
    forgotten
}

/// The first application of `cfg` with package `pkg` that is enabled, when the daemon is
/// enabled: the target of a manual freeze.
pub open spec fn manual_target(cfg: ConfigView, pkg: Seq<char>, i: int) -> bool {
    &&& cfg.enabled
    &&& 0 <= i < cfg.apps.len()
    &&& cfg.apps[i].package == pkg
    &&& cfg.apps[i].enabled
    &&& forall|j: int| 0 <= j < i ==> !(#[trigger] cfg.apps[j].package == pkg && cfg.apps[j].enabled)
}

/// The index of the application a manual freeze of `pkg` applies to.
pub fn find_enabled_app(cfg: &Config, pkg: &str) -> (r: Option<usize>)
    ensures
        match r {
            Some(i) => manual_target(cfg@, pkg@, i as int),
            None => !cfg.enabled || forall|j: int| 0 <= j < cfg@.apps.len() ==> !(#[trigger] cfg@.apps[j].package == pkg@ && cfg@.apps[j].enabled),
        },
{
    if !cfg.enabled {
        return None;
    }
    let n = cfg.apps.len();
    for i in 0..n
        invariant
            n == cfg.apps@.len(),
            cfg.enabled,
            forall|j: int| 0 <= j < i ==> !(#[trigger] cfg@.apps[j].package == pkg@ && cfg@.apps[j].enabled),
    {
        assert(cfg@.apps[i as int] == cfg.apps@[i as int]@);
        if str_eq(cfg.apps[i].package.as_str(), pkg) && cfg.apps[i].enabled {
            return Some(i);
        }
    }
    None
}

/// The processes a manual freeze of `app` may freeze: those of the application that are
/// neither kept nor a main process the application keeps running.
pub open spec fn manual_pred(app: AppConfView) -> spec_fn(ProcEntry) -> bool {
    |p: ProcEntry| should_freeze(app, p.name@, false)
}

/// The processes of `app` among `procs` that a manual freeze may freeze, in order.
pub fn freeze_candidates(app: &AppConf, procs: &Vec<ProcEntry>) -> (r: Vec<ProcEntry>)
    ensures
        r@ == procs@.filter(owned_by(app.package@)).filter(manual_pred(app@)),
{
    let owned = owned_procs(procs, app.package.as_str());
    let mut r: Vec<ProcEntry> = Vec::new();
    let n = owned.len();
    assert(owned@.take(0).filter(manual_pred(app@)) =~= Seq::<ProcEntry>::empty()) by {
        reveal(Seq::filter);
    }
    for i in 0..n
        invariant
            n == owned@.len(),
            r@ == owned@.take(i as int).filter(manual_pred(app@)),
    {
        let can = should_freeze_proc(app, owned[i].name.as_str(), false);
        proof {
            reveal(Seq::filter);
            assert(owned@.take(i + 1).drop_last() =~= owned@.take(i as int));
            assert(owned@.take(i + 1).last() == owned@[i as int]);
        }
        if can {
            r.push(owned[i].clone());
        }
    }
    assert(owned@.take(n as int) =~= owned@);
    r
}


/// A process the application keeps running (a push process) is never frozen, whatever
/// the application's state.
pub proof fn law_kept_process_never_frozen(app: AppConfView, name: Seq<char>, protected: bool)
    requires
        is_keep(app, name),
    ensures
        !should_freeze(app, name, protected),
{
}

/// No process of an application in the foreground or in its grace period is frozen.
pub proof fn law_protected_app_never_frozen(app: AppConfView, name: Seq<char>)
    ensures
        !should_freeze(app, name, true),
{
}

/// The main process of an application that does not allow it is never frozen.
pub proof fn law_main_kept_unless_allowed(app: AppConfView, name: Seq<char>, protected: bool)
    requires
        is_main(app, name),
        !app.freeze_main,
    ensures
        !should_freeze(app, name, protected),
{
}

/// Whether the name `name` ends with `suffix`, character by character.
proof fn lemma_suffix_raw(name: Seq<char>, suffix: Seq<char>)
    ensures
        has_suffix(name, suffix) <==> (suffix.len() <= name.len()
            && name.subrange(name.len() - suffix.len(), name.len() as int) == suffix),
{
    if suffix.len() <= name.len() {
        assert(name.skip(name.len() - suffix.len()) =~= name.subrange(name.len() - suffix.len(), name.len() as int));
    }
}

/// Whether `name` names a process of the application `pkg`, character by character.
proof fn lemma_belongs_raw(name: Seq<char>, pkg: Seq<char>)
    ensures
        belongs(name, pkg) <==> (name == pkg || (pkg.len() < name.len()
            && name.subrange(0, pkg.len() as int) == pkg && name[pkg.len() as int] == ':')),
{
    let pre = pkg.push(':');
    if pkg.len() < name.len() {
        if name.take(pre.len() as int) == pre {
            assert(name.subrange(0, pkg.len() as int) =~= pre.take(pkg.len() as int));
            assert(pre.take(pkg.len() as int) =~= pkg);
            assert(name[pkg.len() as int] == name.take(pre.len() as int)[pkg.len() as int]);
        }
        if name.subrange(0, pkg.len() as int) == pkg && name[pkg.len() as int] == ':' {
            assert(name.take(pre.len() as int) =~= pre);
        }
    }
}

/// The rules for one process, said character by character: `should_freeze` holds exactly
/// when the application is not protected, the process, if it is the main process, may
/// be frozen, and, if it is a sub-process, its name ends with none of the keep suffixes.
proof fn lemma_should_freeze_raw(app: AppConfView, name: Seq<char>, protected: bool)
    ensures
        should_freeze(app, name, protected) <==> (!protected
            && (name == app.package ==> app.freeze_main)
            && (name != app.package ==> forall|i: int| 0 <= i < app.keep.len() ==> !(app.keep[i].len() <= name.len()
                && #[trigger] name.subrange(name.len() - app.keep[i].len(), name.len() as int) == app.keep[i]))),
{
    assert forall|i: int| 0 <= i < app.keep.len() implies (has_suffix(name, #[trigger] app.keep[i]) <==> (app.keep[i].len() <= name.len()
        && name.subrange(name.len() - app.keep[i].len(), name.len() as int) == app.keep[i])) by {
        lemma_suffix_raw(name, app.keep[i]);
    }
}

/// What a cycle freezes, process by process: a process of the application is frozen
/// now exactly when the application is neither in the foreground nor in its grace
/// period, the process is not frozen yet, it is the main process only if the
/// application allows freezing it, and, being a sub-process, its name ends with none of
/// the configured keep suffixes (so every kept push process keeps running, whichever
/// suffix it matches).
pub proof fn law_cycle_freezes_exactly(app: AppConfView, owned: Seq<ProcEntry>, protected: bool, frozen: Map<i32, FrozenMeta>, p: ProcEntry)
    requires
        owned.contains(p),
    ensures
        owned.filter(freeze_pred(app, protected, frozen)).contains(p) <==> (!protected
            && !frozen.contains_key(p.pid)
            && (p.name@ == app.package ==> app.freeze_main)
            && (p.name@ != app.package ==> forall|i: int| 0 <= i < app.keep.len() ==> !(app.keep[i].len() <= p.name@.len()
                && #[trigger] p.name@.subrange(p.name@.len() - app.keep[i].len(), p.name@.len() as int) == app.keep[i]))),
{
    broadcast use vstd::seq_lib::group_filter_ensures;
    let fp = freeze_pred(app, protected, frozen);
    let f = owned.filter(fp);
    lemma_should_freeze_raw(app, p.name@, protected);
    if f.contains(p) {
        let j = choose|j: int| 0 <= j < f.len() && f[j] == p;
        assert(fp(f[j]));
    }
    if fp(p) {
        let j = choose|j: int| 0 <= j < owned.len() && owned[j] == p;
        assert(f.contains(owned[j]));
    }
}

/// What a cycle unfreezes, process by process: a frozen process of the application is
/// unfrozen now exactly when the application is in the foreground or its grace period,
/// or the process is a kept sub-process (its name ends with a keep suffix), or it is the
/// main process of an application that does not allow freezing it.
pub proof fn law_cycle_unfreezes_exactly(app: AppConfView, owned: Seq<ProcEntry>, protected: bool, frozen: Map<i32, FrozenMeta>, p: ProcEntry)
    requires
        owned.contains(p),
    ensures
        owned.filter(thaw_pred(app, protected, frozen)).contains(p) <==> (frozen.contains_key(p.pid) && (protected
            || (p.name@ == app.package && !app.freeze_main)
            || (p.name@ != app.package && exists|i: int| 0 <= i < app.keep.len() && app.keep[i].len() <= p.name@.len()
                && #[trigger] p.name@.subrange(p.name@.len() - app.keep[i].len(), p.name@.len() as int) == app.keep[i]))),
{
    broadcast use vstd::seq_lib::group_filter_ensures;
    let tp = thaw_pred(app, protected, frozen);
    let f = owned.filter(tp);
    lemma_should_freeze_raw(app, p.name@, protected);
    if f.contains(p) {
        let j = choose|j: int| 0 <= j < f.len() && f[j] == p;
        assert(tp(f[j]));
    }
    if tp(p) {
        let j = choose|j: int| 0 <= j < owned.len() && owned[j] == p;
        assert(f.contains(owned[j]));
    }
}

/// Which processes belong to an application: among the listed processes, those named
/// exactly as the package, or as the package followed by `:` and a sub-process name.
pub proof fn law_owned_processes(procs: Seq<ProcEntry>, pkg: Seq<char>, p: ProcEntry)
    requires
        procs.contains(p),
    ensures
        procs.filter(owned_by(pkg)).contains(p) <==> (p.name@ == pkg || (pkg.len() < p.name@.len()
            && p.name@.subrange(0, pkg.len() as int) == pkg && p.name@[pkg.len() as int] == ':')),
{
    broadcast use vstd::seq_lib::group_filter_ensures;
    let ob = owned_by(pkg);
    let f = procs.filter(ob);
    lemma_belongs_raw(p.name@, pkg);
    if f.contains(p) {
        let j = choose|j: int| 0 <= j < f.len() && f[j] == p;
        assert(ob(f[j]));
    }
    if ob(p) {
        let j = choose|j: int| 0 <= j < procs.len() && procs[j] == p;
        assert(f.contains(procs[j]));
    }
}

/// What a manual freeze of an application picks, process by process: a listed process
/// is a candidate exactly when it belongs to the application, it is the main process
/// only if the application allows freezing it, and, being a sub-process, its name ends
/// with none of the keep suffixes. Whether it is frozen already, and the foreground,
/// play no part.
pub proof fn law_manual_candidates_exactly(app: AppConfView, procs: Seq<ProcEntry>, p: ProcEntry)
    requires
        procs.contains(p),
    ensures
        procs.filter(owned_by(app.package)).filter(manual_pred(app)).contains(p) <==> (
            (p.name@ == app.package || (app.package.len() < p.name@.len()
                && p.name@.subrange(0, app.package.len() as int) == app.package && p.name@[app.package.len() as int] == ':'))
            && (p.name@ == app.package ==> app.freeze_main)
            && (p.name@ != app.package ==> forall|i: int| 0 <= i < app.keep.len() ==> !(app.keep[i].len() <= p.name@.len()
                && #[trigger] p.name@.subrange(p.name@.len() - app.keep[i].len(), p.name@.len() as int) == app.keep[i]))),
{
    broadcast use vstd::seq_lib::group_filter_ensures;
    let owned = procs.filter(owned_by(app.package));
    let mp = manual_pred(app);
    let f = owned.filter(mp);
    law_owned_processes(procs, app.package, p);
    lemma_should_freeze_raw(app, p.name@, false);
    if f.contains(p) {
        let j = choose|j: int| 0 <= j < f.len() && f[j] == p;
        assert(mp(f[j]));
        owned.lemma_filter_contains_rev(mp, p);
    }
    if owned.contains(p) && mp(p) {
        let j = choose|j: int| 0 <= j < owned.len() && owned[j] == p;
        assert(f.contains(owned[j]));
    }
}

/// An application counts as in the foreground exactly when one of its processes has an
/// `oom_score_adj` of at most 200.
pub proof fn law_foreground_threshold(owned: Seq<ProcEntry>)
    ensures
        is_foreground(owned) <==> exists|i: int| 0 <= i < owned.len() && owned[i].oom_adj <= 200,
{
}

/// A grace period of 0 disables it.
pub proof fn law_zero_grace_disables(seen_at: Option<u64>, now: u64)
    ensures
        !grace_active(0, seen_at, now),
{
}

/// With a grace period, an application seen in the foreground at `t` stays protected
/// exactly while less than `grace_secs` seconds have passed; in particular right when it
/// is seen.
pub proof fn law_grace_window(grace_secs: u64, t: u64, now: u64)
    requires
        grace_secs > 0,
        now >= t,
    ensures
        grace_active(grace_secs, Some(t), now) <==> now - t < grace_secs,
        grace_active(grace_secs, Some(now), now),
{
}

/// The pids frozen after a cycle applies its plan and every freeze takes: those frozen
/// before and those frozen now, less those unfrozen now.
pub open spec fn settled(frozen: Set<i32>, freeze: Seq<ProcEntry>, thaw: Seq<i32>) -> Set<i32> {
    frozen.union(freeze.map_values(|p: ProcEntry| p.pid).to_set()).difference(thaw.to_set())
}

/// After a cycle applies its plan for an application (every freeze taking), each of its
/// processes is frozen exactly when the rules say it should be: processes of a protected
/// application and kept processes run, the others are frozen. Holds for processes with
/// distinct pids, as `/proc` lists them.
pub proof fn law_cycle_settles(app: AppConfView, owned: Seq<ProcEntry>, frozen: Map<i32, FrozenMeta>, protected: bool)
    requires
        forall|i: int, j: int| 0 <= i < owned.len() && 0 <= j < owned.len() && owned[i].pid == owned[j].pid ==> i == j,
    ensures
        forall|i: int| 0 <= i < owned.len() ==> (settled(
            frozen.dom(),
            owned.filter(freeze_pred(app, protected, frozen)),
            owned.filter(thaw_pred(app, protected, frozen)).map_values(|p: ProcEntry| p.pid),
        ).contains(#[trigger] owned[i].pid) <==> should_freeze(app, owned[i].name@, protected)),
{
    broadcast use vstd::seq_lib::group_filter_ensures;
    let fp = freeze_pred(app, protected, frozen);
    let tp = thaw_pred(app, protected, frozen);
    let fz = owned.filter(fp);
    let th = owned.filter(tp);
    let fzp = fz.map_values(|p: ProcEntry| p.pid);
    let thp = th.map_values(|p: ProcEntry| p.pid);
    assert forall|i: int| 0 <= i < owned.len() implies (settled(frozen.dom(), fz, thp).contains(#[trigger] owned[i].pid)
        <==> should_freeze(app, owned[i].name@, protected)) by {
        let p = owned[i];
        if thp.to_set().contains(p.pid) {
            let x = choose|x: int| 0 <= x < thp.len() && thp[x] == p.pid;
            assert(th.contains(th[x]));
            owned.lemma_filter_contains_rev(tp, th[x]);
            let j = choose|j: int| 0 <= j < owned.len() && owned[j] == th[x];
            assert(j == i);
            assert(tp(th[x]));
        }
        if fzp.to_set().contains(p.pid) {
            let x = choose|x: int| 0 <= x < fzp.len() && fzp[x] == p.pid;
            assert(fz.contains(fz[x]));
            owned.lemma_filter_contains_rev(fp, fz[x]);
            let j = choose|j: int| 0 <= j < owned.len() && owned[j] == fz[x];
            assert(j == i);
            assert(fp(fz[x]));
        }
        if should_freeze(app, p.name@, protected) && !frozen.contains_key(p.pid) {
            assert(fp(owned[i]));
            assert(fz.contains(owned[i]));
            let x = choose|x: int| 0 <= x < fz.len() && fz[x] == owned[i];
            assert(fzp[x] == p.pid);
            assert(fzp.to_set().contains(p.pid));
        }
        if !should_freeze(app, p.name@, protected) && frozen.contains_key(p.pid) {
            assert(tp(owned[i]));
            assert(th.contains(owned[i]));
            let x = choose|x: int| 0 <= x < th.len() && th[x] == owned[i];
            assert(thp[x] == p.pid);
            assert(thp.to_set().contains(p.pid));
        }
    }
}

/// A process recorded as frozen is found frozen, and unfreezing it hands back what was
/// recorded and leaves it no longer frozen.
pub proof fn law_freeze_then_unfreeze(frozen: Map<i32, FrozenMeta>, pid: i32, meta: FrozenMeta)
    ensures
        frozen.insert(pid, meta).contains_key(pid),
        frozen.insert(pid, meta)[pid] == meta,
        !frozen.insert(pid, meta).remove(pid).contains_key(pid),
        frozen.insert(pid, meta).remove(pid) == frozen.remove(pid),
{
    assert(frozen.insert(pid, meta).remove(pid) =~= frozen.remove(pid));
}


/// The frozen processes left after unfreezing each of `pids` in turn.
pub open spec fn remove_all(m: Map<i32, FrozenMeta>, pids: Seq<i32>) -> Map<i32, FrozenMeta>
    decreases pids.len(),
{
    if pids.len() == 0 {
        m
    } else {
        remove_all(m.remove(pids[0]), pids.drop_first())
    }
}

proof fn lemma_remove_all(m: Map<i32, FrozenMeta>, pids: Seq<i32>)
    ensures
        forall|k: i32| #[trigger] remove_all(m, pids).contains_key(k) <==> (m.contains_key(k) && !pids.contains(k)),
        forall|k: i32| #[trigger] remove_all(m, pids).contains_key(k) ==> remove_all(m, pids)[k] == m[k],
    decreases pids.len(),
{
    if pids.len() > 0 {
        let rest = pids.drop_first();
        lemma_remove_all(m.remove(pids[0]), rest);
        assert(remove_all(m, pids) == remove_all(m.remove(pids[0]), rest));
        assert forall|k: i32| pids.contains(k) <==> (k == pids[0] || rest.contains(k)) by {
            if pids.contains(k) && k != pids[0] {
                let i = choose|i: int| 0 <= i < pids.len() && pids[i] == k;
                assert(rest[i - 1] == k);
            }
            if rest.contains(k) {
                let i = choose|i: int| 0 <= i < rest.len() && rest[i] == k;
                assert(pids[i + 1] == k);
            }
            if k == pids[0] {
                assert(pids.contains(pids[0]));
            }
        }
    }
}

/// Unfreezing every frozen pid, as turning the daemon off and the `unfreeze_all` action
/// do, leaves no process frozen.
pub proof fn law_unfreeze_all_releases_everything(m: Map<i32, FrozenMeta>, pids: Seq<i32>)
    requires
        forall|k: i32| pids.contains(k) <==> m.contains_key(k),
    ensures
        remove_all(m, pids).dom() == Set::<i32>::empty(),
{
    lemma_remove_all(m, pids);
    assert(remove_all(m, pids).dom() =~= Set::<i32>::empty());
}

/// Unfreezing everything is idempotent: once every frozen pid has been unfrozen, a
/// second pass finds no pid to unfreeze, so it unfreezes nothing and leaves the
/// table as the first pass left it.
pub proof fn law_unfreeze_all_idempotent(m: Map<i32, FrozenMeta>, pids: Seq<i32>, again: Seq<i32>)
    requires
        forall|k: i32| pids.contains(k) <==> m.contains_key(k),
        forall|k: i32| again.contains(k) <==> remove_all(m, pids).contains_key(k),
    ensures
        again.len() == 0,
        remove_all(remove_all(m, pids), again) == remove_all(m, pids),
{
    lemma_remove_all(m, pids);
    if again.len() > 0 {
        assert(again.contains(again[0]));
    }
}

/// Unfreezing the pids frozen for one application leaves none of its processes frozen
/// and the others as they were.
pub proof fn law_unfreeze_app_releases_app(m: Map<i32, FrozenMeta>, pids: Seq<i32>, pkg: Seq<char>)
    requires
        forall|k: i32| pids.contains(k) <==> (m.contains_key(k) && m[k].app@ == pkg),
    ensures
        forall|k: i32| #[trigger] remove_all(m, pids).contains_key(k) ==> remove_all(m, pids)[k].app@ != pkg,
        forall|k: i32| m.contains_key(k) && m[k].app@ != pkg ==> #[trigger] remove_all(m, pids).contains_key(k),
        forall|k: i32| m.contains_key(k) && m[k].app@ != pkg ==> #[trigger] remove_all(m, pids)[k] == m[k],
{
    lemma_remove_all(m, pids);
    assert forall|k: i32| m.contains_key(k) && m[k].app@ != pkg implies #[trigger] remove_all(m, pids).contains_key(k) by {
        assert(!pids.contains(k));
    }
    assert forall|k: i32| m.contains_key(k) && m[k].app@ != pkg implies #[trigger] remove_all(m, pids)[k] == m[k] by {
        assert(!pids.contains(k));
        assert(remove_all(m, pids).contains_key(k));
    }
}

}

