use vstd::prelude::*;
use crate::config::{ConfigView, Configuration};

verus! {

/// One named configuration of a [`Store`].
pub struct Entry {
    pub name: String,
    pub config: Configuration,
}

/// What a store holds, in order: each name with its configuration.
pub type StoreView = Seq<(Seq<char>, ConfigView)>;

/// The mathematical value of a sequence of entries.
pub open spec fn entries_view(v: Seq<Entry>) -> StoreView {
    v.map_values(|e: Entry| (e.name@, e.config@))
}

/// No name occurs twice.
pub open spec fn names_distinct(s: StoreView) -> bool {
    forall|i: int, j: int| 0 <= i < j < s.len() ==> s[i].0 != s[j].0
}

/// `name` is the name of some configuration of `s`.
pub open spec fn has_name(s: StoreView, name: Seq<char>) -> bool {
    exists|i: int| 0 <= i < s.len() && s[i].0 == name
}

/// `s` with `name` bound to `c`: the record of that name is replaced in
/// place where there is one, else the pair is appended.
pub open spec fn upsert(s: StoreView, name: Seq<char>, c: ConfigView) -> StoreView {
    if has_name(s, name) {
        s.update(choose|i: int| 0 <= i < s.len() && s[i].0 == name, (name, c))
    } else {
        s.push((name, c))
    }
}

/// The store that results from binding each pair of `es` in turn, starting
/// from an empty one.
pub open spec fn upsert_all(es: StoreView) -> StoreView
    decreases es.len(),
{
    if es.len() == 0 {
        Seq::empty()
    } else {
        upsert(upsert_all(es.drop_last()), es.last().0, es.last().1)
    }
}

/// A new configuration for `url`: active and not cloned.
pub open spec fn fresh(url: Seq<char>) -> ConfigView {
    ConfigView { active: true, url, clone_path: None }
}

/// `s` with the flag of every configuration named in `names` set to `active`.
pub open spec fn with_active(s: StoreView, names: Seq<Seq<char>>, active: bool) -> StoreView {
    s.map_values(
        |e: (Seq<char>, ConfigView)|
            if names.contains(e.0) {
                (e.0, ConfigView { active, ..e.1 })
            } else {
                e
            },
    )
}

/// The views of a sequence of strings.
pub open spec fn strings_view(v: Seq<String>) -> Seq<Seq<char>> {
    v.map_values(|x: String| x@)
}

/// Where `clone` puts the configuration at position `i` of `s`: the
/// directory `dest`, then a slash, then the configuration's name.
pub open spec fn target_of(s: StoreView, i: int, dest: Seq<char>) -> Seq<char> {
    dest + seq!['/'] + s[i].0
}

/// `s` with the configuration at position `i` recorded as cloned at `path`.
pub open spec fn cloned_at(s: StoreView, i: int, path: Seq<char>) -> StoreView {
    s.update(i, (s[i].0, ConfigView { clone_path: Some(path), ..s[i].1 }))
}

/// `start` and `stop` act on a configuration that is active and has a clone.
pub open spec fn runs(c: ConfigView) -> bool {
    c.active && c.clone_path is Some
}

/// What was found at a clone's target path before cloning.
#[derive(Clone, Copy, Debug, PartialEq, Eq, Structural)]
pub enum PathKind {
    Missing,
    Directory,
    Other,
}

/// What `clone` does with one configuration.
#[derive(Clone, Copy, Debug, PartialEq, Eq, Structural)]
pub enum CloneAction {
    /// The configuration is not active: nothing to do.
    Inactive,
    /// A directory is already at the target: it is taken as the clone.
    AlreadyCloned,
    /// Something that is no directory is at the target: reported, skipped.
    NotADirectory,
    /// The version-control client is to clone the URL into the target.
    Run,
}

/// The configurations, in insertion order, each under a name of its own.
pub struct Store {
    entries: Vec<Entry>,
}

impl View for Store {
    type V = StoreView;

    closed spec fn view(&self) -> StoreView {
        entries_view(self.entries@)
    }
}

impl Store {
    pub open spec fn wf(&self) -> bool {
        names_distinct(self@)
    }

    /// An empty store.
    pub fn new() -> (r: Store)
        ensures
            r.wf(),
            r@ == Seq::<(Seq<char>, ConfigView)>::empty(),
    {
        let r = Store { entries: Vec::new() };
        assert(r@ =~= Seq::<(Seq<char>, ConfigView)>::empty());
        r
    }

    /// The number of configurations.
    pub fn len(&self) -> (r: usize)
        ensures
            r == self@.len(),
    {
        self.entries.len()
    }

    /// The configuration at position `i`.
    pub fn entry(&self, i: usize) -> (r: &Entry)
        requires
            i < self@.len(),
        ensures
            (r.name@, r.config@) == self@[i as int],
    {
        &self.entries[i]
    }

    /// The position of the configuration called `name`, if there is one.
    pub fn find(&self, name: &String) -> (r: Option<usize>)
        ensures
            match r {
                Some(i) => i < self@.len() && self@[i as int].0 == name@,
                None => !has_name(self@, name@),
            },
    {
        let mut i: usize = 0;
        while i < self.entries.len()
            invariant
                i <= self.entries@.len(),
                forall|j: int| 0 <= j < i ==> self@[j].0 != name@,
            decreases self.entries@.len() - i,
        {
            if self.entries[i].name == *name {
                return Some(i);
            }
            i = i + 1;
        }
        None
    }
    /// Binds `name` to `config`: the record of that name is replaced in place
    /// where there is one, else the pair is appended.
    pub fn insert(&mut self, name: String, config: Configuration)
        requires
            old(self).wf(),
        ensures
            final(self).wf(),
            final(self)@ == upsert(old(self)@, name@, config@),
    {
        let ghost s = self@;
        match self.find(&name) {
            Some(i) => {
                assert(has_name(s, name@));
                let ghost j = choose|j: int| 0 <= j < s.len() && s[j].0 == name@;
                assert(j == i as int);
                self.entries.set(i, Entry { name, config });
                assert(self@ =~= upsert(s, name@, config@));
            },
            None => {
                self.entries.push(Entry { name, config });
                assert(self@ =~= upsert(s, name@, config@));
            },
        }
    }

    /// Adds (or replaces) the configuration `name` for `url`: active, and not
    /// cloned yet.
    pub fn add(&mut self, name: String, url: String)
        requires
            old(self).wf(),
        ensures
            final(self).wf(),
            final(self)@ == upsert(old(self)@, name@, fresh(url@)),
    {
        self.insert(name, Configuration::new(url));
    }

    /// Sets the flag of each configuration named in `names` to `active`.
    /// `found[k]` tells whether `names[k]` was in the store; an unknown name
    /// changes nothing and the others are still handled.
    pub fn set_active(&mut self, names: &Vec<String>, active: bool) -> (found: Vec<bool>)
        requires
            old(self).wf(),
        ensures
            final(self).wf(),
            final(self)@ == with_active(old(self)@, strings_view(names@), active),
            found@.len() == names@.len(),
            forall|k: int| 0 <= k < names@.len() ==> found@[k] == has_name(old(self)@, #[trigger] names@[k]@),
    {
        let ghost s = self@;
        let ghost ns = strings_view(names@);
        let mut found: Vec<bool> = Vec::new();
        let mut k: usize = 0;
        while k < names.len()
            invariant
                k <= names@.len(),
                ns == strings_view(names@),
                self@.len() == s.len(),
                names_distinct(s),
                forall|j: int| 0 <= j < s.len() ==> (#[trigger] self@[j]).0 == s[j].0,
                forall|j: int| 0 <= j < s.len() ==> #[trigger] self@[j] == if (exists|m: int| 0 <= m < k && ns[m] == s[j].0) {
                    (s[j].0, ConfigView { active, ..s[j].1 })
                } else {
                    s[j]
                },
                found@.len() == k,
                forall|m: int| 0 <= m < k ==> found@[m] == has_name(s, #[trigger] names@[m]@),
            decreases names@.len() - k,
        {
            let ghost before = self@;
            match self.find(&names[k]) {
                Some(i) => {
                    self.entries[i].config.active = active;
                    assert forall|j: int| 0 <= j < s.len() implies #[trigger] self@[j] == if (exists|m: int| 0 <= m < k + 1 && ns[m] == s[j].0) {
                        (s[j].0, ConfigView { active, ..s[j].1 })
                    } else {
                        s[j]
                    } by {
                        if j == i as int {
                            assert(ns[k as int] == s[j].0);
                        } else {
                            assert(self@[j] == before[j]);
                            if exists|m: int| 0 <= m < k + 1 && ns[m] == s[j].0 {
                                let m = choose|m: int| 0 <= m < k + 1 && ns[m] == s[j].0;
                                if m == k as int {
                                    assert(s[j].0 == s[i as int].0);
                                    assert(false);
                                }
                            }
                        }
                    }
                    assert(before[i as int].0 == s[i as int].0);
                    assert(has_name(s, names@[k as int]@));
                    found.push(true);
                },
                None => {
                    assert forall|j: int| 0 <= j < s.len() implies #[trigger] self@[j] == if (exists|m: int| 0 <= m < k + 1 && ns[m] == s[j].0) {
                        (s[j].0, ConfigView { active, ..s[j].1 })
                    } else {
                        s[j]
                    } by {
                        if exists|m: int| 0 <= m < k + 1 && ns[m] == s[j].0 {
                            let m = choose|m: int| 0 <= m < k + 1 && ns[m] == s[j].0;
                            if m == k as int {
                                assert(before[j].0 == s[j].0);
                                assert(false);
                            }
                        }
                    }
                    assert(!has_name(s, names@[k as int]@)) by {
                        if has_name(s, names@[k as int]@) {
                            let j = choose|j: int| 0 <= j < s.len() && s[j].0 == names@[k as int]@;
                            assert(before[j].0 == s[j].0);
                        }
                    }
                    found.push(false);
                },
            }
            k = k + 1;
        }
        assert forall|j: int| 0 <= j < s.len() implies ns.contains(s[j].0) == (exists|m: int| 0 <= m < names@.len() && ns[m] == s[j].0) by {
            if ns.contains(s[j].0) {
                let m = choose|m: int| 0 <= m < ns.len() && ns[m] == s[j].0;
            }
        }
        assert(self@ =~= with_active(s, ns, active));
        found
    }
    /// The path that `clone` gives to the configuration at position `i` when
    /// cloning into `dest`.
    pub fn clone_target(&self, i: usize, dest: &str) -> (r: String)
        requires
            i < self@.len(),
        ensures
            r@ == target_of(self@, i as int, dest@),
    {
        let mut r = String::from_str(dest);
        proof {
            reveal_strlit("/");
        }
        r.append("/");
        r.append(self.entries[i].name.as_str());
        r
    }

    /// The first half of cloning the configuration at position `i` into
    /// `dest`, where `existing` tells what is already at its target path.
    /// An inactive configuration is left alone; an existing directory is
    /// taken as the clone, without running the version-control client; any
    /// other existing file is a collision, and skipped; else the client is
    /// to run, and [`Store::finish_clone`] records its outcome.
    pub fn clone_entry(&mut self, i: usize, dest: &str, existing: PathKind) -> (r: CloneAction)
        requires
            old(self).wf(),
            i < old(self)@.len(),
        ensures
            final(self).wf(),
            !old(self)@[i as int].1.active ==> r == CloneAction::Inactive && final(self)@ == old(self)@,
            old(self)@[i as int].1.active && existing == PathKind::Directory ==> r == CloneAction::AlreadyCloned
                && final(self)@ == cloned_at(old(self)@, i as int, target_of(old(self)@, i as int, dest@)),
            old(self)@[i as int].1.active && existing == PathKind::Other ==> r == CloneAction::NotADirectory
                && final(self)@ == old(self)@,
            old(self)@[i as int].1.active && existing == PathKind::Missing ==> r == CloneAction::Run
                && final(self)@ == old(self)@,
    {
        if !self.entries[i].config.active {
            return CloneAction::Inactive;
        }
        match existing {
            PathKind::Directory => {
                self.finish_clone(i, dest, true);
                CloneAction::AlreadyCloned
            },
            PathKind::Other => CloneAction::NotADirectory,
            PathKind::Missing => CloneAction::Run,
        }
    }

    /// Records the outcome of cloning the configuration at position `i` into
    /// `dest`: on success it is cloned at its target path, else unchanged.
    pub fn finish_clone(&mut self, i: usize, dest: &str, succeeded: bool)
        requires
            old(self).wf(),
            i < old(self)@.len(),
        ensures
            final(self).wf(),
            succeeded ==> final(self)@ == cloned_at(old(self)@, i as int, target_of(old(self)@, i as int, dest@)),
            !succeeded ==> final(self)@ == old(self)@,
    {
        if succeeded {
            let ghost s = self@;
            let path = self.clone_target(i, dest);
            self.entries[i].config.clone_project(path);
            assert(self@ =~= cloned_at(s, i as int, target_of(s, i as int, dest@)));
        }
    }

    /// The positions, in increasing order, of the configurations that
    /// `start` and `stop` act on: the active ones that have a clone.
    pub fn compose_targets(&self) -> (r: Vec<usize>)
        ensures
            forall|k: int| 0 <= k < r@.len() ==> r@[k] < self@.len() && runs(self@[r@[k] as int].1),
            forall|a: int, b: int| 0 <= a < b < r@.len() ==> r@[a] < r@[b],
            forall|i: int| 0 <= i < self@.len() && runs(#[trigger] self@[i].1) ==> r@.contains(i as usize),
    {
        let mut r: Vec<usize> = Vec::new();
        let mut i: usize = 0;
        while i < self.entries.len()
            invariant
                i <= self@.len(),
                self@.len() == self.entries@.len(),
                forall|k: int| 0 <= k < r@.len() ==> r@[k] < i && runs(self@[r@[k] as int].1),
                forall|a: int, b: int| 0 <= a < b < r@.len() ==> r@[a] < r@[b],
                forall|j: int| 0 <= j < i && runs(#[trigger] self@[j].1) ==> r@.contains(j as usize),
            decreases self.entries@.len() - i,
        {
            let c = &self.entries[i].config;
            if c.active && c.clone_path.is_some() {
                let ghost r0 = r@;
                r.push(i);
                assert forall|j: int| 0 <= j < i + 1 && runs(#[trigger] self@[j].1) implies r@.contains(j as usize) by {
                    if j < i {
                        let k = choose|k: int| 0 <= k < r0.len() && r0[k] == j as usize;
                        assert(r@[k] == j as usize);
                    } else {
                        assert(r@[r0.len() as int] == i);
                    }
                }
            }
            i = i + 1;
        }
        r
    }

    /// The names of all configurations, in the store's order.
    pub fn names(&self) -> (r: Vec<String>)
        ensures
            strings_view(r@) == self@.map_values(|e: (Seq<char>, ConfigView)| e.0),
    {
        let mut r: Vec<String> = Vec::new();
        let mut i: usize = 0;
        while i < self.entries.len()
            invariant
                i <= self.entries@.len(),
                strings_view(r@) =~= self@.map_values(|e: (Seq<char>, ConfigView)| e.0).take(i as int),
            decreases self.entries@.len() - i,
        {
            let ghost r0 = r@;
            r.push(self.entries[i].name.clone());
            assert(strings_view(r@) =~= strings_view(r0).push(self@[i as int].0));
            i = i + 1;
        }
        assert(self@.map_values(|e: (Seq<char>, ConfigView)| e.0).take(i as int) =~= self@.map_values(|e: (Seq<char>, ConfigView)| e.0));
        r
    }

    /// The store that results from binding each entry of `v` in turn,
    /// starting from an empty one: what loading a saved list gives.
    pub fn from_entries(v: Vec<Entry>) -> (r: Store)
        ensures
            r.wf(),
            r@ == upsert_all(entries_view(v@)),
    {
        let ghost ev = entries_view(v@);
        let mut v = v;
        let mut r = Store::new();
        let ghost mut k: int = 0;
        assert(ev.take(0) =~= Seq::<(Seq<char>, ConfigView)>::empty());
        while v.len() > 0
            invariant
                r.wf(),
                0 <= k <= ev.len(),
                entries_view(v@) == ev.skip(k),
                r@ == upsert_all(ev.take(k)),
            decreases v@.len(),
        {
            assert(ev.skip(k).len() == v@.len());
            let ghost v0 = v@;
            let e = v.remove(0);
            assert(entries_view(v0)[0] == ev[k]);
            assert(ev.take(k + 1).drop_last() =~= ev.take(k));
            r.insert(e.name, e.config);
            proof {
                k = k + 1;
            }
            assert(v@ =~= v0.skip(1));
            assert(entries_view(v@) =~= entries_view(v0).skip(1));
            assert(entries_view(v@) =~= ev.skip(k));
        }
        assert(ev.take(k) =~= ev);
        r
    }
}

} // verus!
