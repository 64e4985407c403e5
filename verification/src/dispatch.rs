//! How each command is carried out.
//!
//! A command is carried out in three steps, between which the caller does the
//! work on the filesystem: `subject` finds the dotfile that the command is
//! about, `plan` decides from the state of that dotfile what is to be done, and
//! `settle` brings the index in line with what was done.

use crate::args::{Command, CommandView};
use crate::dotfile::{
    derived_from_target, lemma_target_is_derived, DFState, Dotfile, DotfileView,
};
use crate::error::{AppError, AppErrorView};
use crate::fs::{plan_of, FsOp, FsOpView};
use crate::model::{
    lemma_install_installs, lemma_parent_dirs_change_nothing, lemma_store_then_unstore,
    lemma_uninstall_uninstalls, Node, Tree,
};
use crate::store::{lemma_first_true, lemma_first_true_is_first, Store, StoreView};
use vstd::prelude::*;

verus! {

impl DFState {
    /// The character that marks the state in a listing.
    pub open spec fn marker(self) -> char {
        match self {
            DFState::Installed => 'x',
            DFState::Blocked => '-',
            DFState::Uninstalled => ' ',
        }
    }
}

/// The line of a listing for the dotfile called `name`: the marker of its
/// state in square brackets, a space, and the name.
pub open spec fn listed(name: Seq<char>, state: DFState) -> Seq<char> {
    seq!['[', state.marker(), ']', ' '] + name
}

/// The line of a listing for `dotfile`, whose target shows `state`.
pub fn list_row(dotfile: &Dotfile, state: DFState) -> (r: String)
    ensures
        r@ == listed(dotfile@.name, state),
{
    proof {
        reveal_strlit("[x] ");
        reveal_strlit("[-] ");
        reveal_strlit("[ ] ");
    }
    let mut row = match state {
        DFState::Installed => String::from_str("[x] "),
        DFState::Blocked => String::from_str("[-] "),
        DFState::Uninstalled => String::from_str("[ ] "),
    };
    assert(row@ =~= seq!['[', state.marker(), ']', ' ']);
    row.append(dotfile.name.as_str());
    row
}

impl CommandView {
    /// The dotfile that the command is about.
    ///
    /// `Install`, `Uninstall` and `Unmanage` are about the dotfile of the
    /// store that the path names, and fail with `NotFound` when there is none.
    /// `Manage` is about the dotfile that the path would be the target of: it
    /// fails with `AlreadyManaged` when the path names a dotfile of the store,
    /// and with `InvalidTarget` when the path cannot be a target. `List` is
    /// about no dotfile in particular.
    pub open spec fn subject(self, store: StoreView) -> Result<Option<DotfileView>, AppErrorView> {
        match self {
            CommandView::List => Ok(None),
            CommandView::Install(path) | CommandView::Uninstall(path) | CommandView::Unmanage(
                path,
            ) => match store.lookup(path) {
                Some(dotfile) => Ok(Some(dotfile)),
                None => Err(AppErrorView::NotFound(path)),
            },
            CommandView::Manage(target) => if store.lookup(target) is Some {
                Err(AppErrorView::AlreadyManaged(target))
            } else {
                match derived_from_target(store.path, store.home, target) {
                    Ok(dotfile) => Ok(Some(dotfile)),
                    Err(reason) => Err(AppErrorView::InvalidTarget(reason)),
                }
            },
        }
    }

    /// What is to be done to the filesystem for `subject`, whose target
    /// shows `state`.
    ///
    /// `Install` links an uninstalled dotfile and leaves an installed one as
    /// it is; `Uninstall` unlinks an installed dotfile and leaves an
    /// uninstalled one as it is. `Unmanage` moves the file out of the store,
    /// to the target. All three fail with `Blocked` on a blocked dotfile,
    /// rather than touch what lies at its target. `Manage` moves the file at
    /// the target into the store.
    pub open spec fn plan(self, subject: DotfileView, state: DFState) -> Result<
        Seq<FsOpView>,
        AppErrorView,
    > {
        match self {
            CommandView::List => Ok(Seq::empty()),
            CommandView::Install(_) => match state {
                DFState::Uninstalled => Ok(subject.install_plan()),
                DFState::Installed => Ok(Seq::empty()),
                DFState::Blocked => Err(AppErrorView::Blocked(subject.target)),
            },
            CommandView::Uninstall(_) => match state {
                DFState::Installed => Ok(subject.uninstall_plan()),
                DFState::Uninstalled => Ok(Seq::empty()),
                DFState::Blocked => Err(AppErrorView::Blocked(subject.target)),
            },
            CommandView::Manage(_) => Ok(subject.store_plan()),
            CommandView::Unmanage(_) => match state {
                DFState::Blocked => Err(AppErrorView::Blocked(subject.target)),
                _ => Ok(subject.unstore_plan()),
            },
        }
    }

    /// The index after the command was carried out on `subject`: `Manage`
    /// adds the subject, `Unmanage` takes out what its path names.
    pub open spec fn settled(self, store: StoreView, subject: DotfileView) -> StoreView {
        match self {
            CommandView::Manage(_) => StoreView {
                entries: store.entries.insert(store.slot(subject.name), subject),
                ..store
            },
            CommandView::Unmanage(path) => StoreView {
                entries: store.entries.filter(|d: DotfileView| !d.referenced_by(path)),
                ..store
            },
            _ => store,
        }
    }
}

impl Command {
    /// Finds the dotfile that the command is about.
    pub fn subject(&self, store: &Store) -> (r: Result<Option<Dotfile>, AppError>)
        ensures
            match r {
                Ok(Some(dotfile)) => self@.subject(store@) matches Ok(Some(expected))
                    && dotfile@ == expected,
                Ok(None) => self@.subject(store@) matches Ok(None),
                Err(e) => self@.subject(store@) matches Err(expected) && e@ == expected,
            },
            self@ is Manage ==> (r matches Ok(Some(dotfile)) ==> dotfile@.is_derived(
                store@.path,
                store@.home,
            )),
    {
        match self {
            Command::List => Ok(None),
            Command::Install(path) | Command::Uninstall(path) | Command::Unmanage(path) => {
                match store.get(path.as_str()) {
                    Some(dotfile) => Ok(Some(dotfile.clone())),
                    None => Err(AppError::NotFound(path.clone())),
                }
            },
            Command::Manage(target) => {
                if store.get(target.as_str()).is_some() {
                    return Err(AppError::AlreadyManaged(target.clone()));
                }
                match Dotfile::from_target(store.path(), store.home(), target.as_str()) {
                    Ok(dotfile) => Ok(Some(dotfile)),
                    Err(e) => Err(e),
                }
            },
        }
    }

    /// Decides what is to be done to the filesystem for `subject`, whose
    /// target shows `state`.
    pub fn plan(&self, subject: &Dotfile, state: DFState) -> (r: Result<Vec<FsOp>, AppError>)
        ensures
            match r {
                Ok(ops) => self@.plan(subject@, state) matches Ok(expected) && plan_of(ops@)
                    == expected,
                Err(e) => self@.plan(subject@, state) matches Err(expected) && e@ == expected,
            },
    {
        match self {
            Command::List => Ok(nothing()),
            Command::Install(_) => match state {
                DFState::Installed => Ok(nothing()),
                _ => subject.install(state),
            },
            Command::Uninstall(_) => match state {
                DFState::Uninstalled => Ok(nothing()),
                _ => subject.uninstall(state),
            },
            Command::Manage(_) => Ok(subject.store()),
            Command::Unmanage(_) => subject.unstore(state),
        }
    }

    /// Brings the index in line with the filesystem, given how the planned
    /// operations went: after a failure, whose cause `outcome` holds, the
    /// index stays as it is and the failure is reported as `IoFailure`.
    ///
    /// A well-formed index stays well-formed, provided that `subject` is the
    /// dotfile that the command is about.
    pub fn settle(&self, store: &mut Store, subject: Dotfile, outcome: Result<(), String>) -> (r:
        Result<(), AppError>)
        ensures
            outcome is Ok ==> r is Ok && final(store)@ == self@.settled(old(store)@, subject@),
            outcome matches Err(cause) ==> r is Err && r->Err_0@ == AppErrorView::IoFailure(cause@)
                && final(store)@ == old(store)@,
            old(store)@.wf() && (self@.subject(old(store)@) matches Ok(Some(found)) && found
                == subject@) ==> final(store)@.wf(),
    {
        match outcome {
            Err(cause) => Err(AppError::IoFailure(cause)),
            Ok(_) => {
                match self {
                    Command::Manage(target) => {
                        proof {
                            if store@.wf() && self@.subject(store@) is Ok {
                                lemma_subject_is_new(store@, target@);
                            }
                        }
                        store.add(subject);
                    },
                    Command::Unmanage(path) => {
                        store.remove(path.as_str());
                    },
                    _ => {},
                }
                Ok(())
            },
        }
    }
}

/// Where anything but the link to the source lies at the target, be it a
/// file or a link to another path, and be there anything at that path or not,
/// the state is `Blocked`, and `Install`, `Uninstall` and `Unmanage` are
/// refused with `Blocked`, so that nothing is done to the filesystem.
pub proof fn lemma_blocked_is_refused(tree: Tree, subject: DotfileView, path: Seq<char>)
    requires
        tree.holds(subject.target),
        tree.nodes[subject.target] != Node::Link(subject.source),
    ensures
        subject.state(tree.probe(subject.target)) == DFState::Blocked,
        CommandView::Install(path).plan(subject, subject.state(tree.probe(subject.target)))
            matches Err(e) && e == AppErrorView::Blocked(subject.target),
        CommandView::Uninstall(path).plan(subject, subject.state(tree.probe(subject.target)))
            matches Err(e) && e == AppErrorView::Blocked(subject.target),
        CommandView::Unmanage(path).plan(subject, subject.state(tree.probe(subject.target)))
            matches Err(e) && e == AppErrorView::Blocked(subject.target),
{
}

/// Where `Install`, `Uninstall` or `Unmanage` hands out a plan, nothing lies
/// at the target but, at most, the link to the source: what else may lie
/// there is never touched. The plan then succeeds; that of `Unmanage` does
/// if the file lies in the store.
pub proof fn lemma_plans_spare_the_target(tree: Tree, subject: DotfileView, command: CommandView)
    requires
        command is Install || command is Uninstall || command is Unmanage,
        command.plan(subject, subject.state(tree.probe(subject.target))) is Ok,
    ensures
        !tree.holds(subject.target) || tree.nodes[subject.target] == Node::Link(subject.source),
        !(command is Unmanage) || tree.holds(subject.source) ==> tree.run(
            command.plan(subject, subject.state(tree.probe(subject.target)))->Ok_0,
        ) is Some,
{
    lemma_install_installs(tree, subject);
    reveal_with_fuel(Tree::run, 3);
    if subject.state(tree.probe(subject.target)) == DFState::Installed {
        lemma_uninstall_uninstalls(tree, subject);
    }
    if command is Unmanage {
        let back = FsOpView::Rename { from: subject.source, to: subject.target };
        lemma_parent_dirs_change_nothing(tree, subject.target, seq![back]);
        assert(seq![back].skip(1) =~= Seq::<FsOpView>::empty());
    }
}

/// An uninstalled dotfile is left installed by `Install`; `Install` once more
/// succeeds and changes nothing; and `Uninstall` leaves the dotfile
/// uninstalled again, the tree being as it was.
pub proof fn lemma_install_then_uninstall(tree: Tree, subject: DotfileView, path: Seq<char>)
    requires
        subject.state(tree.probe(subject.target)) == DFState::Uninstalled,
    ensures
        CommandView::Install(path).plan(subject, DFState::Uninstalled) matches Ok(link)
            && tree.run(link) matches Some(linked) && {
            &&& subject.state(linked.probe(subject.target)) == DFState::Installed
            &&& CommandView::Install(path).plan(subject, DFState::Installed) matches Ok(again)
                && linked.run(again) == Some(linked)
            &&& CommandView::Uninstall(path).plan(subject, DFState::Installed) matches Ok(unlink)
                && linked.run(unlink) matches Some(unlinked) && {
                &&& subject.state(unlinked.probe(subject.target)) == DFState::Uninstalled
                &&& unlinked == tree
            }
        },
{
    lemma_install_installs(tree, subject);
    let linked = tree.run(subject.install_plan())->0;
    lemma_uninstall_uninstalls(linked, subject);
    let unlinked = linked.run(subject.uninstall_plan())->0;
    assert(unlinked.nodes =~= tree.nodes);
}

/// The dotfile that `Manage` is about has the source and target that follow
/// from its name, and a name that a well-formed index does not hold yet.
pub proof fn lemma_subject_is_new(store: StoreView, target: Seq<char>)
    requires
        store.wf(),
        CommandView::Manage(target).subject(store) is Ok,
    ensures
        CommandView::Manage(target).subject(store) matches Ok(Some(subject)) && {
            &&& subject.is_derived(store.path, store.home)
            &&& !store.holds_name(subject.name)
        },
{
    let subject = derived_from_target(store.path, store.home, target)->Ok_0;
    lemma_target_is_derived(store.path, store.home, target);
    if store.holds_name(subject.name) {
        lemma_managed_name_is_refused(store, target);
    }
}

/// A target whose name the index holds already is refused with
/// `AlreadyManaged`, before anything is planned.
pub proof fn lemma_managed_name_is_refused(store: StoreView, target: Seq<char>)
    requires
        store.wf(),
        derived_from_target(store.path, store.home, target) is Ok,
        store.holds_name(derived_from_target(store.path, store.home, target)->Ok_0.name),
    ensures
        CommandView::Manage(target).subject(store) matches Err(e) && e
            == AppErrorView::AlreadyManaged(target),
{
    let dotfile = derived_from_target(store.path, store.home, target)->Ok_0;
    lemma_target_is_derived(store.path, store.home, target);
    let i = choose|i: int|
        0 <= i < store.entries.len() && (#[trigger] store.entries[i]).name == dotfile.name;
    assert(store.entries[i].is_derived(store.path, store.home));
    assert(store.matches(target)[i]);
    lemma_first_true_is_first(store.matches(target));
}

/// Manage and unmanage undo one another. Where a file lies at a target that
/// can be managed, and nothing at the source that follows from it, `Manage`
/// moves the file into the store and leaves the new dotfile installed and
/// indexed. `Unmanage` of the same target then restores the file, with no
/// link and no file of the store left behind, and leaves the index as it was.
pub proof fn lemma_manage_then_unmanage(store: StoreView, tree: Tree, target: Seq<char>)
    requires
        CommandView::Manage(target).subject(store) is Ok,
        tree.holds(target),
        tree.nodes[target] is File,
        !tree.holds(derived_from_target(store.path, store.home, target)->Ok_0.source),
    ensures
        CommandView::Manage(target).subject(store) matches Ok(Some(subject)) && {
            let managed = CommandView::Manage(target).settled(store, subject);
            let moved_in = CommandView::Manage(target).plan(
                subject,
                subject.state(tree.probe(target)),
            );
            let moved_out = CommandView::Unmanage(target).plan(subject, DFState::Installed);
            &&& moved_in is Ok
            &&& tree.run(moved_in->Ok_0) matches Some(stored) && {
                &&& subject.state(stored.probe(target)) == DFState::Installed
                &&& moved_out is Ok
                &&& stored.run(moved_out->Ok_0) == Some(tree)
            }
            &&& CommandView::Unmanage(target).subject(managed) matches Ok(Some(found)) && found
                == subject
            &&& CommandView::Unmanage(target).settled(managed, subject) == store
        },
{
    let subject = derived_from_target(store.path, store.home, target)->Ok_0;
    let k = store.slot(subject.name);
    let keep = |d: DotfileView| !d.referenced_by(target);
    lemma_store_then_unstore(tree, subject);
    lemma_first_true_is_first(store.not_before(subject.name));
    lemma_first_true_is_first(store.matches(target));
    assert forall|j: int| 0 <= j < store.entries.len() implies keep(
        #[trigger] store.entries[j],
    ) by {
        assert(!store.matches(target)[j]);
    }
    lemma_found_where_inserted(store, k, subject, target);
    lemma_filter_undoes_insert(store.entries, k, subject, keep);
}

/// An entry put into the index before every entry that `reference` names
/// is the one that `reference` is looked up as, if it names that entry.
proof fn lemma_found_where_inserted(
    store: StoreView,
    k: int,
    added: DotfileView,
    reference: Seq<char>,
)
    requires
        0 <= k <= store.entries.len(),
        added.referenced_by(reference),
        forall|j: int| 0 <= j < k ==> !(#[trigger] store.entries[j]).referenced_by(reference),
    ensures
        (StoreView { entries: store.entries.insert(k, added), ..store }).lookup(reference) == Some(
            added,
        ),
{
    let after = StoreView { entries: store.entries.insert(k, added), ..store };
    let flags = after.matches(reference);
    assert forall|j: int| 0 <= j < k implies !flags[j] by {
        assert(after.entries[j] == store.entries[j]);
    }
    assert(after.entries[k] == added);
    lemma_first_true(flags, k);
}

/// Filtering takes an inserted element out again, and nothing else, when
/// the filter passes every element but that one.
proof fn lemma_filter_undoes_insert(
    entries: Seq<DotfileView>,
    k: int,
    added: DotfileView,
    keep: spec_fn(DotfileView) -> bool,
)
    requires
        0 <= k <= entries.len(),
        !keep(added),
        forall|j: int| 0 <= j < entries.len() ==> keep(#[trigger] entries[j]),
    ensures
        entries.insert(k, added).filter(keep) == entries,
    decreases entries.len() - k,
{
    reveal(Seq::filter);
    let inserted = entries.insert(k, added);
    if k == entries.len() {
        assert(inserted.drop_last() =~= entries);
        lemma_filter_keeps_all(entries, keep);
    } else {
        assert(inserted.drop_last() =~= entries.drop_last().insert(k, added));
        assert(inserted.last() == entries.last());
        lemma_filter_undoes_insert(entries.drop_last(), k, added, keep);
        assert(entries.drop_last().push(entries.last()) =~= entries);
    }
}

/// A filter that every element passes changes nothing.
proof fn lemma_filter_keeps_all(entries: Seq<DotfileView>, keep: spec_fn(DotfileView) -> bool)
    requires
        forall|j: int| 0 <= j < entries.len() ==> keep(#[trigger] entries[j]),
    ensures
        entries.filter(keep) == entries,
    decreases entries.len(),
{
    reveal(Seq::filter);
    if entries.len() > 0 {
        lemma_filter_keeps_all(entries.drop_last(), keep);
        assert(entries.drop_last().push(entries.last()) =~= entries);
    }
}

/// The empty plan.
fn nothing() -> (ops: Vec<FsOp>)
    ensures
        plan_of(ops@) == Seq::<FsOpView>::empty(),
{
    let ops: Vec<FsOp> = Vec::new();
    assert(plan_of(ops@) =~= Seq::<FsOpView>::empty());
    ops
}

} // verus!
