//! The store: the index of the dotfiles below one directory.

use crate::dotfile::{dotted, Dotfile, DotfileView};
use crate::path::{
    is_absolute_path, joined, lemma_join_then_strip, lemma_precedes_irreflexive,
    lemma_precedes_total, lemma_precedes_transitive, precedes, precedes_chars, relative_to,
    strip_prefix,
};
use crate::scan::{entry_views, indexable, is_indexable, scanned, ScanEntry};
use crate::text::to_chars;
use vstd::prelude::*;

verus! {

/// What a `Store` stands for.
pub struct StoreView {
    /// The store directory.
    pub path: Seq<char>,
    /// The home directory.
    pub home: Seq<char>,
    /// The dotfiles, in listing order.
    pub entries: Seq<DotfileView>,
}

/// The dotfiles found below one directory, kept in the order of their names.
#[derive(Debug)]
pub struct Store {
    path: String,
    home: String,
    dotfiles: Vec<Dotfile>,
}

/// What a list of dotfiles stands for.
pub open spec fn views(dotfiles: Seq<Dotfile>) -> Seq<DotfileView> {
    dotfiles.map_values(|d: Dotfile| d@)
}

impl View for Store {
    type V = StoreView;

    closed spec fn view(&self) -> StoreView {
        StoreView { path: self.path@, home: self.home@, entries: views(self.dotfiles@) }
    }
}

/// The first index at which `flags` holds `true`, or its length when it
/// holds none.
pub open spec fn first_true(flags: Seq<bool>) -> int
    decreases flags.len(),
{
    if flags.len() == 0 || flags[0] {
        0
    } else {
        1 + first_true(flags.skip(1))
    }
}

/// `first_true(flags)` is the only index that holds `true` (or is the end)
/// and has only `false` before it.
pub proof fn lemma_first_true(flags: Seq<bool>, k: int)
    requires
        0 <= k <= flags.len(),
        forall|j: int| 0 <= j < k ==> !flags[j],
        k < flags.len() ==> flags[k],
    ensures
        first_true(flags) == k,
    decreases flags.len(),
{
    if flags.len() > 0 && !flags[0] {
        let rest = flags.skip(1);
        assert forall|j: int| 0 <= j < k - 1 implies !rest[j] by {
            assert(rest[j] == flags[j + 1]);
        }
        lemma_first_true(rest, k - 1);
    }
}

/// `first_true(flags)` lies within `flags` or at its end, holds `true`
/// unless it is the end, and has only `false` before it.
pub proof fn lemma_first_true_is_first(flags: Seq<bool>)
    ensures
        0 <= first_true(flags) <= flags.len(),
        forall|j: int| 0 <= j < first_true(flags) ==> !flags[j],
        first_true(flags) < flags.len() ==> flags[first_true(flags)],
    decreases flags.len(),
{
    if flags.len() > 0 && !flags[0] {
        let rest = flags.skip(1);
        lemma_first_true_is_first(rest);
        assert forall|j: int| 0 <= j < first_true(flags) implies !flags[j] by {
            if j > 0 {
                assert(rest[j - 1] == flags[j]);
            }
        }
    }
}

impl StoreView {
    /// For each entry, whether its name does not come before `name`.
    pub open spec fn not_before(self, name: Seq<char>) -> Seq<bool> {
        self.entries.map_values(|d: DotfileView| !precedes(d.name, name))
    }

    /// Where a dotfile called `name` belongs: behind the leading entries
    /// whose names come before `name`.
    pub open spec fn slot(self, name: Seq<char>) -> int {
        first_true(self.not_before(name))
    }

    /// For each entry, whether `reference` is one of its identities.
    pub open spec fn matches(self, reference: Seq<char>) -> Seq<bool> {
        self.entries.map_values(|d: DotfileView| d.referenced_by(reference))
    }

    /// The first entry in listing order that `reference` names, if any.
    pub open spec fn lookup(self, reference: Seq<char>) -> Option<DotfileView> {
        if first_true(self.matches(reference)) < self.entries.len() {
            Some(self.entries[first_true(self.matches(reference))])
        } else {
            None
        }
    }

    /// Whether an entry is called `name`.
    pub open spec fn holds_name(self, name: Seq<char>) -> bool {
        exists|i: int| 0 <= i < self.entries.len() && (#[trigger] self.entries[i]).name == name
    }

    /// The store and home directories are absolute paths and the names are
    /// relative ones.
    pub open spec fn well_named(self) -> bool {
        &&& is_absolute_path(self.path)
        &&& is_absolute_path(self.home)
        &&& forall|i: int|
            0 <= i < self.entries.len() ==> !is_absolute_path((#[trigger] self.entries[i]).name)
    }

    /// No entry lies in the store where another entry is linked to.
    pub open spec fn unambiguous(self) -> bool {
        forall|i: int, j: int|
            0 <= i < self.entries.len() && 0 <= j < self.entries.len() && i != j ==> (
            #[trigger] self.entries[i]).source != (#[trigger] self.entries[j]).target
    }

    /// Each entry has the source and target that follow from its name, and
    /// the entries stand in the strict order of their names, so that no name
    /// occurs twice.
    pub open spec fn wf(self) -> bool {
        &&& forall|i: int|
            0 <= i < self.entries.len() ==> (#[trigger] self.entries[i]).is_derived(
                self.path,
                self.home,
            )
        &&& forall|i: int, j: int|
            0 <= i < j < self.entries.len() ==> precedes(
                (#[trigger] self.entries[i]).name,
                (#[trigger] self.entries[j]).name,
            )
    }
}

/// A well-formed index stays well-formed when a dotfile of a new name,
/// with the source and target that follow from it, is put at its slot.
pub proof fn lemma_insert_keeps_order(store: StoreView, added: DotfileView)
    requires
        store.wf(),
        added.is_derived(store.path, store.home),
        !store.holds_name(added.name),
    ensures
        0 <= store.slot(added.name) <= store.entries.len(),
        (StoreView { entries: store.entries.insert(store.slot(added.name), added), ..store }).wf(),
{
    let k = store.slot(added.name);
    let old_entries = store.entries;
    let flags = store.not_before(added.name);
    lemma_first_true_is_first(flags);
    let new_entries = old_entries.insert(k, added);
    assert forall|i: int, j: int| 0 <= i < j < new_entries.len() implies precedes(
        (#[trigger] new_entries[i]).name,
        (#[trigger] new_entries[j]).name,
    ) by {
        if i < k && j == k {
            assert(!flags[i]);
        } else if i == k {
            assert(flags[k]);
            assert(old_entries[k].name != added.name);
            lemma_precedes_total(added.name, old_entries[k].name);
            if j - 1 > k {
                assert(precedes(old_entries[k].name, old_entries[j - 1].name));
                lemma_precedes_transitive(added.name, old_entries[k].name, old_entries[j - 1].name);
            }
        } else if j < k {
            assert(precedes(old_entries[i].name, old_entries[j].name));
        } else if i < k {
            assert(precedes(old_entries[i].name, old_entries[j - 1].name));
        } else {
            assert(precedes(old_entries[i - 1].name, old_entries[j - 1].name));
        }
    }
}

/// In a well-formed index whose entries do not collide, an entry is found
/// alike by its name, by its source and by its target.
pub proof fn lemma_lookup_equivalence(store: StoreView, i: int)
    requires
        store.wf(),
        store.well_named(),
        store.unambiguous(),
        0 <= i < store.entries.len(),
    ensures
        store.lookup(store.entries[i].name) == Some(store.entries[i]),
        store.lookup(store.entries[i].source) == Some(store.entries[i]),
        store.lookup(store.entries[i].target) == Some(store.entries[i]),
{
    let entry = store.entries[i];
    assert(entry.is_derived(store.path, store.home));
    assert forall|j: int| 0 <= j < i implies !(#[trigger] store.entries[j]).referenced_by(
        entry.name,
    ) && !store.entries[j].referenced_by(entry.source) && !store.entries[j].referenced_by(
        entry.target,
    ) by {
        let other = store.entries[j];
        assert(other.is_derived(store.path, store.home));
        // the names differ, and so do the sources and the targets that follow from them
        assert(precedes(other.name, entry.name));
        lemma_precedes_irreflexive(entry.name);
        lemma_join_then_strip(store.path, other.name);
        lemma_join_then_strip(store.path, entry.name);
        lemma_join_then_strip(store.home, dotted(other.name));
        lemma_join_then_strip(store.home, dotted(entry.name));
        assert(dotted(other.name).skip(1) =~= other.name);
        assert(dotted(entry.name).skip(1) =~= entry.name);
        // a relative name is neither a source nor a target, which are absolute
        assert(is_absolute_path(joined(store.path, other.name)));
        assert(is_absolute_path(joined(store.home, dotted(other.name))));
    }
    lemma_first_true(store.matches(entry.name), i);
    lemma_first_true(store.matches(entry.source), i);
    lemma_first_true(store.matches(entry.target), i);
}

/// All but the last entry of a well-formed index hold the names of the
/// index but the last one.
proof fn lemma_names_without_last(store: StoreView, name: Seq<char>)
    requires
        store.wf(),
        store.entries.len() > 0,
    ensures
        (StoreView { entries: store.entries.drop_last(), ..store }).wf(),
        (StoreView { entries: store.entries.drop_last(), ..store }).holds_name(name) <==> (
        store.holds_name(name) && name != store.entries.last().name),
{
    let front = StoreView { entries: store.entries.drop_last(), ..store };
    let last: int = store.entries.len() - 1;
    lemma_precedes_irreflexive(name);
    assert forall|i: int, j: int| 0 <= i < j < front.entries.len() implies precedes(
        (#[trigger] front.entries[i]).name,
        (#[trigger] front.entries[j]).name,
    ) by {
        assert(precedes(store.entries[i].name, store.entries[j].name));
    }
    assert forall|i: int| 0 <= i < front.entries.len() implies (
    #[trigger] front.entries[i]).is_derived(front.path, front.home) by {
        assert(store.entries[i].is_derived(store.path, store.home));
    }
    if front.holds_name(name) {
        let m = choose|m: int|
            0 <= m < front.entries.len() && (#[trigger] front.entries[m]).name == name;
        assert(store.entries[m].name == name);
        assert(precedes(store.entries[m].name, store.entries[last].name));
    }
    if store.holds_name(name) && name != store.entries.last().name {
        let m = choose|m: int|
            0 <= m < store.entries.len() && (#[trigger] store.entries[m]).name == name;
        assert(front.entries[m].name == name);
    }
}

/// A well-formed index is determined by its two directories and the names
/// that it holds.
pub proof fn lemma_names_determine_index(a: StoreView, b: StoreView)
    requires
        a.wf(),
        b.wf(),
        a.path == b.path,
        a.home == b.home,
        forall|name: Seq<char>| a.holds_name(name) <==> b.holds_name(name),
    ensures
        a.entries == b.entries,
    decreases a.entries.len(),
{
    if a.entries.len() == 0 || b.entries.len() == 0 {
        if a.entries.len() > 0 {
            assert(a.holds_name(a.entries[0].name));
            assert(b.holds_name(a.entries[0].name));
        }
        if b.entries.len() > 0 {
            assert(b.holds_name(b.entries[0].name));
            assert(a.holds_name(b.entries[0].name));
        }
        assert(a.entries =~= b.entries);
    } else {
        let last_a = a.entries.last();
        let last_b = b.entries.last();
        assert(a.holds_name(last_a.name));
        assert(b.holds_name(last_b.name));
        assert(b.holds_name(last_a.name));
        assert(a.holds_name(last_b.name));
        if last_a.name != last_b.name {
            let m = choose|m: int|
                0 <= m < b.entries.len() && (#[trigger] b.entries[m]).name == last_a.name;
            let p = choose|p: int|
                0 <= p < a.entries.len() && (#[trigger] a.entries[p]).name == last_b.name;
            assert(precedes(b.entries[m].name, b.entries[b.entries.len() - 1].name));
            assert(precedes(a.entries[p].name, a.entries[a.entries.len() - 1].name));
            lemma_precedes_transitive(last_a.name, last_b.name, last_a.name);
            lemma_precedes_irreflexive(last_a.name);
        }
        assert(last_a.is_derived(a.path, a.home));
        assert(last_b.is_derived(b.path, b.home));
        let front_a = StoreView { entries: a.entries.drop_last(), ..a };
        let front_b = StoreView { entries: b.entries.drop_last(), ..b };
        assert forall|name: Seq<char>| front_a.holds_name(name) <==> front_b.holds_name(name) by {
            lemma_names_without_last(a, name);
            lemma_names_without_last(b, name);
        }
        lemma_names_without_last(a, last_a.name);
        lemma_names_without_last(b, last_b.name);
        lemma_names_determine_index(front_a, front_b);
        assert(a.entries =~= front_a.entries.push(last_a));
        assert(b.entries =~= front_b.entries.push(last_b));
    }
}

/// In a well-formed index a name is found at its slot or nowhere.
pub proof fn lemma_name_is_at_slot(store: StoreView, name: Seq<char>)
    requires
        store.wf(),
    ensures
        0 <= store.slot(name) <= store.entries.len(),
        store.holds_name(name) <==> (store.slot(name) < store.entries.len()
            && store.entries[store.slot(name)].name == name),
{
    let k = store.slot(name);
    let flags = store.not_before(name);
    lemma_first_true_is_first(flags);
    lemma_precedes_irreflexive(name);
    if store.holds_name(name) {
        let m = choose|m: int|
            0 <= m < store.entries.len() && (#[trigger] store.entries[m]).name == name;
        assert(flags[m]);
        if k < m {
            assert(flags[k]);
            assert(precedes(store.entries[k].name, store.entries[m].name));
        }
    }
}

/// After an insertion the index holds the names that it held before, and
/// that of the new entry.
pub proof fn lemma_insert_adds_name(store: StoreView, k: int, added: DotfileView, name: Seq<char>)
    requires
        0 <= k <= store.entries.len(),
    ensures
        (StoreView { entries: store.entries.insert(k, added), ..store }).holds_name(name) <==> (
        store.holds_name(name) || name == added.name),
{
    let after = StoreView { entries: store.entries.insert(k, added), ..store };
    if store.holds_name(name) {
        let m = choose|m: int|
            0 <= m < store.entries.len() && (#[trigger] store.entries[m]).name == name;
        if m < k {
            assert(after.entries[m].name == name);
        } else {
            assert(after.entries[m + 1].name == name);
        }
    }
    if name == added.name {
        assert(after.entries[k].name == name);
    }
    if after.holds_name(name) {
        let m = choose|m: int|
            0 <= m < after.entries.len() && (#[trigger] after.entries[m]).name == name;
        if m < k {
            assert(store.entries[m].name == name);
        } else if m > k {
            assert(store.entries[m - 1].name == name);
        }
    }
}

impl Store {
    /// The index of the store at `path`, for the home directory `home`, from
    /// what a walk through the store directory came upon.
    ///
    /// A dotfile is indexed for each regular file among `found` that lies
    /// below `path` and whose name is indexable; what else was found is
    /// passed over. A well-formed index is determined by the names that it
    /// holds, so the order in which the walk found the files does not matter.
    pub fn new(path: &str, home: &str, found: &Vec<ScanEntry>) -> (store: Store)
        ensures
            store@.path == path@,
            store@.home == home@,
            store@.wf(),
            forall|name: Seq<char>|
                store@.holds_name(name) <==> scanned(path@, entry_views(found@), name),
            is_absolute_path(path@) && is_absolute_path(home@) ==> store@.well_named(),
    {
        let mut store = Store {
            path: String::from_str(path),
            home: String::from_str(home),
            dotfiles: Vec::new(),
        };
        let mut i: usize = 0;
        while i < found.len()
            invariant
                i <= found.len(),
                store@.path == path@,
                store@.home == home@,
                store@.wf(),
                forall|name: Seq<char>|
                    store@.holds_name(name) <==> scanned(
                        path@,
                        entry_views(found@).take(i as int),
                        name,
                    ),
            decreases found.len() - i,
        {
            let ghost before = store@;
            let ghost seen = entry_views(found@).take(i as int);
            let ghost next = entry_views(found@).take(i + 1);
            let ghost entry = found@[i as int]@;
            let mut indexed: Option<String> = None;
            if found[i].is_file {
                if let Some(name) = strip_prefix(found[i].path.as_str(), path) {
                    if is_indexable(name.as_str()) {
                        indexed = Some(name);
                    }
                }
            }
            proof {
                assert(next[i as int] == entry);
                assert forall|name: Seq<char>| scanned(path@, next, name) <==> (scanned(
                    path@,
                    seen,
                    name,
                ) || (indexable(name) && entry.is_file && relative_to(entry.path, path@) == Some(
                    name,
                ))) by {
                    if scanned(path@, seen, name) {
                        let m = choose|m: int|
                            0 <= m < seen.len() && (#[trigger] seen[m]).is_file && relative_to(
                                seen[m].path,
                                path@,
                            ) == Some(name);
                        assert(next[m] == seen[m]);
                    }
                    if scanned(path@, next, name) {
                        let m = choose|m: int|
                            0 <= m < next.len() && (#[trigger] next[m]).is_file && relative_to(
                                next[m].path,
                                path@,
                            ) == Some(name);
                        if m < i {
                            assert(seen[m] == next[m]);
                        }
                    }
                }
            }
            if let Some(name) = indexed {
                let chars = to_chars(name.as_str());
                let k: usize = store.slot_of(&chars);
                proof {
                    lemma_name_is_at_slot(before, name@);
                }
                if k == store.dotfiles.len() || store.dotfiles[k].name != name {
                    let dotfile = Dotfile::from_store_relative(path, home, name.as_str());
                    let ghost added = dotfile@;
                    store.dotfiles.insert(k, dotfile);
                    proof {
                        assert(store@.entries =~= before.entries.insert(k as int, added));
                        lemma_insert_keeps_order(before, added);
                        assert forall|n: Seq<char>| store@.holds_name(n) <==> scanned(
                            path@,
                            next,
                            n,
                        ) by {
                            lemma_insert_adds_name(before, k as int, added, n);
                        }
                    }
                }
            }
            i += 1;
        }
        proof {
            assert(entry_views(found@).take(i as int) =~= entry_views(found@));
            assert forall|j: int| 0 <= j < store@.entries.len() implies !is_absolute_path(
                (#[trigger] store@.entries[j]).name,
            ) by {
                assert(store@.holds_name(store@.entries[j].name));
            }
        }
        store
    }

    /// The store directory.
    pub fn path(&self) -> (r: &str)
        ensures
            r@ == self@.path,
    {
        self.path.as_str()
    }

    /// The home directory that the targets lie in.
    pub fn home(&self) -> (r: &str)
        ensures
            r@ == self@.home,
    {
        self.home.as_str()
    }

    /// The dotfile that `path` names: the first entry in listing order of
    /// which `path` is the name, the source or the target.
    pub fn get(&self, path: &str) -> (r: Option<&Dotfile>)
        ensures
            match r {
                Some(d) => self@.lookup(path@) == Some(d@),
                None => self@.lookup(path@) is None,
            },
    {
        let reference = String::from_str(path);
        let ghost flags = self@.matches(path@);
        let mut i: usize = 0;
        while i < self.dotfiles.len()
            invariant
                i <= self.dotfiles.len(),
                reference@ == path@,
                flags == self@.matches(path@),
                forall|j: int| 0 <= j < i ==> !flags[j],
            decreases self.dotfiles.len() - i,
        {
            if self.dotfiles[i].matches(&reference) {
                proof {
                    lemma_first_true(flags, i as int);
                }
                return Some(&self.dotfiles[i]);
            }
            i += 1;
        }
        proof {
            lemma_first_true(flags, i as int);
        }
        None
    }

    /// Puts `dotfile` into the index, at the place that the order of names
    /// gives it.
    pub fn add(&mut self, dotfile: Dotfile)
        ensures
            final(self)@.path == old(self)@.path,
            final(self)@.home == old(self)@.home,
            0 <= old(self)@.slot(dotfile@.name) <= old(self)@.entries.len(),
            final(self)@.entries == old(self)@.entries.insert(
                old(self)@.slot(dotfile@.name),
                dotfile@,
            ),
            old(self)@.wf() && dotfile@.is_derived(old(self)@.path, old(self)@.home) && !old(
                self,
            )@.holds_name(dotfile@.name) ==> final(self)@.wf(),
    {
        let name = to_chars(dotfile.name.as_str());
        let k: usize = self.slot_of(&name);
        let ghost before = self@;
        let ghost added = dotfile@;
        self.dotfiles.insert(k, dotfile);
        proof {
            assert(self@.entries =~= before.entries.insert(k as int, added));
            if before.wf() && added.is_derived(before.path, before.home) && !before.holds_name(
                added.name,
            ) {
                lemma_insert_keeps_order(before, added);
            }
        }
    }

    /// Takes out of the index every entry that `path` names.
    pub fn remove(&mut self, path: &str)
        ensures
            final(self)@.path == old(self)@.path,
            final(self)@.home == old(self)@.home,
            final(self)@.entries == old(self)@.entries.filter(
                |d: DotfileView| !d.referenced_by(path@),
            ),
            old(self)@.wf() ==> final(self)@.wf(),
    {
        let reference = String::from_str(path);
        let ghost before = self@;
        let ghost keep = |d: DotfileView| !d.referenced_by(path@);
        let ghost k: int = 0;
        let mut i: usize = 0;
        proof {
            reveal(Seq::filter);
            assert(before.entries.take(0).filter(keep) =~= Seq::<DotfileView>::empty());
            assert(before.entries.skip(0) =~= before.entries);
        }
        while i < self.dotfiles.len()
            invariant
                reference@ == path@,
                keep == (|d: DotfileView| !d.referenced_by(path@)),
                self@.path == before.path,
                self@.home == before.home,
                0 <= k <= before.entries.len(),
                i == before.entries.take(k).filter(keep).len(),
                self@.entries =~= before.entries.take(k).filter(keep) + before.entries.skip(k),
                before.wf() ==> self@.wf(),
            decreases self.dotfiles.len() - i,
        {
            let ghost current = self@;
            proof {
                reveal(Seq::filter);
                assert(before.entries.take(k + 1).drop_last() =~= before.entries.take(k));
                assert(current.entries[i as int] == before.entries.skip(k)[0]);
            }
            if self.dotfiles[i].matches(&reference) {
                self.dotfiles.remove(i);
                proof {
                    assert(self@.entries =~= current.entries.remove(i as int));
                    assert(self@.entries =~= before.entries.take(k + 1).filter(keep)
                        + before.entries.skip(k + 1));
                }
            } else {
                i += 1;
                proof {
                    assert(self@.entries =~= before.entries.take(k + 1).filter(keep)
                        + before.entries.skip(k + 1));
                }
            }
            proof {
                k = k + 1;
            }
        }
        proof {
            assert(before.entries.take(k) =~= before.entries);
        }
    }

    /// The place in the index where a dotfile called `name` belongs.
    fn slot_of(&self, name: &Vec<char>) -> (k: usize)
        ensures
            k == self@.slot(name@),
            k <= self.dotfiles.len(),
    {
        let ghost flags = self@.not_before(name@);
        let mut i: usize = 0;
        while i < self.dotfiles.len()
            invariant
                i <= self.dotfiles.len(),
                flags == self@.not_before(name@),
                forall|j: int| 0 <= j < i ==> !flags[j],
            decreases self.dotfiles.len() - i,
        {
            let entry = to_chars(self.dotfiles[i].name.as_str());
            if !precedes_chars(&entry, name) {
                proof {
                    lemma_first_true(flags, i as int);
                }
                return i;
            }
            i += 1;
        }
        proof {
            lemma_first_true(flags, i as int);
        }
        i
    }

    /// Whether no entry lies in the store where another entry is linked to,
    /// so that each path names one entry at most.
    pub fn is_unambiguous(&self) -> (r: bool)
        ensures
            r == self@.unambiguous(),
    {
        let ghost entries = self@.entries;
        let n: usize = self.dotfiles.len();
        let mut i: usize = 0;
        while i < n
            invariant
                i <= n,
                n == self.dotfiles.len(),
                entries == self@.entries,
                forall|a: int, b: int|
                    0 <= a < i && 0 <= b < n && a != b ==> (#[trigger] entries[a]).source != (
                    #[trigger] entries[b]).target,
            decreases n - i,
        {
            let mut j: usize = 0;
            while j < n
                invariant
                    i < n,
                    j <= n,
                    n == self.dotfiles.len(),
                    entries == self@.entries,
                    forall|b: int|
                        0 <= b < j && b != i ==> entries[i as int].source != (
                        #[trigger] entries[b]).target,
                decreases n - j,
            {
                if i != j && self.dotfiles[i].source == self.dotfiles[j].target {
                    assert(entries[i as int].source == entries[j as int].target);
                    return false;
                }
                j += 1;
            }
            i += 1;
        }
        true
    }

    /// The entries, in listing order.
    pub fn all(&self) -> (r: &Vec<Dotfile>)
        ensures
            views(r@) == self@.entries,
    {
        &self.dotfiles
    }
}

} // verus!
