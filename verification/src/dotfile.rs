//! A dotfile and its three identities.
//!
//! A dotfile is known by its `name` (its path relative to the store), by its
//! `source` (where it lies inside the store) and by its `target` (where it is
//! linked to inside the home directory, with a leading `.`). Source and target
//! follow from the name, the store directory and the home directory.

use crate::error::{AppError, AppErrorView, InvalidTarget};
use crate::fs::{plan_of, FsOp, FsOpView, Probe, ProbeView};
use crate::path::{
    is_absolute_path, join, joined, lemma_join_then_strip, lemma_strip_then_join, parent,
    parent_of, relative_to, starts_with, strip_prefix, within,
};
use crate::text::to_chars;
use vstd::prelude::*;

verus! {

/// What a `Dotfile` stands for: its three paths as texts.
pub struct DotfileView {
    pub name: Seq<char>,
    pub source: Seq<char>,
    pub target: Seq<char>,
}

/// One file of the store.
#[derive(Debug, PartialEq, Eq)]
pub struct Dotfile {
    /// Path relative to the store directory.
    pub name: String,
    /// Path inside the store directory.
    pub source: String,
    /// Path inside the home directory.
    pub target: String,
}

impl View for Dotfile {
    type V = DotfileView;

    open spec fn view(&self) -> DotfileView {
        DotfileView { name: self.name@, source: self.source@, target: self.target@ }
    }
}

/// The name that a dotfile called `name` bears in the home directory.
pub open spec fn dotted(name: Seq<char>) -> Seq<char> {
    seq!['.'] + name
}

/// The dotfile called `name` of the store at `root`, for the home directory `home`.
pub open spec fn derived(root: Seq<char>, home: Seq<char>, name: Seq<char>) -> DotfileView {
    DotfileView { name, source: joined(root, name), target: joined(home, dotted(name)) }
}

/// The dotfile whose source is `source`, if `source` is within `root`: its
/// name is what is left of `source` below `root`, its source is `source` as
/// it was given, and its target follows from the name.
pub open spec fn derived_from_source(
    root: Seq<char>,
    home: Seq<char>,
    source: Seq<char>,
) -> Option<DotfileView> {
    match relative_to(source, root) {
        Some(name) => Some(DotfileView { name, source, target: joined(home, dotted(name)) }),
        None => None,
    }
}

/// The dotfile whose target is `target`, or the reason why there is none.
pub open spec fn derived_from_target(
    root: Seq<char>,
    home: Seq<char>,
    target: Seq<char>,
) -> Result<DotfileView, InvalidTarget> {
    if within(target, root) {
        Err(InvalidTarget::InStore)
    } else {
        match relative_to(target, home) {
            None => Err(InvalidTarget::OutsideHome),
            Some(rest) => if rest.len() == 0 || rest[0] != '.' {
                Err(InvalidTarget::NotDotfile)
            } else {
                Ok(DotfileView { name: rest.skip(1), source: joined(root, rest.skip(1)), target })
            },
        }
    }
}

/// How a dotfile stands in the home directory.
#[derive(Clone, Copy, Debug, PartialEq, Eq, Structural)]
pub enum DFState {
    /// The target is a link to the source.
    Installed,
    /// Nothing lies at the target.
    Uninstalled,
    /// Something other than the link to the source lies at the target.
    Blocked,
}

/// `rest`, preceded by the creation of the directory that holds `path` if
/// `path` has one.
pub open spec fn with_parent_dirs(path: Seq<char>, rest: Seq<FsOpView>) -> Seq<FsOpView> {
    match parent_of(path) {
        Some(dir) => seq![FsOpView::CreateDirAll(dir)] + rest,
        None => rest,
    }
}

impl DotfileView {
    /// The state that a probe of the target shows: `Uninstalled` when
    /// nothing lies there, `Installed` when a link to the source lies there,
    /// and `Blocked` when anything else does: a file, a directory, a link
    /// that could not be read, or a link to another path, be there anything
    /// at that path or not.
    pub open spec fn state(self, target: ProbeView) -> DFState {
        match target {
            ProbeView::Nothing => DFState::Uninstalled,
            ProbeView::Link(destination) => if destination == self.source {
                DFState::Installed
            } else {
                DFState::Blocked
            },
            ProbeView::Other => DFState::Blocked,
        }
    }

    /// Linking: a link to the source is created at the target.
    pub open spec fn install_plan(self) -> Seq<FsOpView> {
        with_parent_dirs(
            self.target,
            seq![FsOpView::Symlink { destination: self.source, link: self.target }],
        )
    }

    /// Unlinking: the link at the target is removed.
    pub open spec fn uninstall_plan(self) -> Seq<FsOpView> {
        seq![FsOpView::RemoveFile(self.target)]
    }

    /// Moving into the store: the file at the target is moved to the source
    /// and a link to it is left at the target.
    pub open spec fn store_plan(self) -> Seq<FsOpView> {
        with_parent_dirs(
            self.source,
            seq![
                FsOpView::Rename { from: self.target, to: self.source },
                FsOpView::Symlink { destination: self.source, link: self.target },
            ],
        )
    }

    /// Moving out of the store: the file at the source is moved to the
    /// target, where it replaces the link.
    pub open spec fn unstore_plan(self) -> Seq<FsOpView> {
        with_parent_dirs(self.target, seq![FsOpView::Rename { from: self.source, to: self.target }])
    }

    /// `reference` is one of the three identities.
    pub open spec fn referenced_by(self, reference: Seq<char>) -> bool {
        self.name == reference || self.source == reference || self.target == reference
    }

    /// Source and target are those that follow from the name.
    pub open spec fn is_derived(self, root: Seq<char>, home: Seq<char>) -> bool {
        self == derived(root, home, self.name)
    }
}

impl Clone for Dotfile {
    fn clone(&self) -> (r: Self)
        ensures
            r@ == self@,
    {
        Dotfile {
            name: self.name.clone(),
            source: self.source.clone(),
            target: self.target.clone(),
        }
    }
}

impl Dotfile {
    /// The dotfile called `name` in the store at `store_path`.
    pub fn from_store_relative(store_path: &str, home: &str, name: &str) -> (r: Dotfile)
        ensures
            r@ == derived(store_path@, home@, name@),
    {
        let mut marked = String::from_str(".");
        proof {
            reveal_strlit(".");
            assert("."@ =~= seq!['.']);
        }
        marked.append(name);
        Dotfile {
            name: String::from_str(name),
            source: join(store_path, name),
            target: join(home, marked.as_str()),
        }
    }

    /// The dotfile that lies at `source` in the store at `store_path`, or
    /// `None` when `source` is not within the store.
    ///
    /// The source is kept as it was given. For a path that lies below the
    /// store directory it is also the source that follows from the name. For
    /// the store directory itself the name is empty, and the source that
    /// follows from it is the same directory written with a separator at its
    /// end.
    pub fn from_source(store_path: &str, home: &str, source: &str) -> (r: Option<Dotfile>)
        ensures
            match r {
                Some(d) => derived_from_source(store_path@, home@, source@) == Some(d@),
                None => derived_from_source(store_path@, home@, source@) is None,
            },
            r matches Some(d) ==> d@.source == source@,
            r matches Some(d) ==> (d@.name.len() > 0 && !is_absolute_path(d@.name)
                ==> d@.is_derived(store_path@, home@)),
    {
        match strip_prefix(source, store_path) {
            Some(name) => {
                let target = Dotfile::from_store_relative(store_path, home, name.as_str()).target;
                proof {
                    if name@.len() > 0 && !is_absolute_path(name@) {
                        lemma_source_is_derived(store_path@, home@, source@);
                    }
                }
                Some(Dotfile { name, source: String::from_str(source), target })
            },
            None => None,
        }
    }

    /// The dotfile that would be linked at `target`, a path of the home
    /// directory that is not managed yet.
    ///
    /// Fails with `InvalidTarget` when `target` is within the store, when it is
    /// not within `home`, or when its remainder below `home` does not begin
    /// with `.`. Otherwise the name is that remainder without its first `.`.
    pub fn from_target(store_path: &str, home: &str, target: &str) -> (r: Result<Dotfile, AppError>)
        ensures
            match r {
                Ok(d) => derived_from_target(store_path@, home@, target@) matches Ok(expected)
                    && d@ == expected && d@.is_derived(store_path@, home@),
                Err(AppError::InvalidTarget(reason)) => derived_from_target(
                    store_path@,
                    home@,
                    target@,
                ) matches Err(expected) && reason == expected,
                Err(_) => false,
            },
    {
        if starts_with(target, store_path) {
            return Err(AppError::InvalidTarget(InvalidTarget::InStore));
        }
        let stripped = match strip_prefix(target, home) {
            Some(rest) => rest,
            None => {
                return Err(AppError::InvalidTarget(InvalidTarget::OutsideHome));
            },
        };
        let rest = to_chars(stripped.as_str());
        if rest.len() == 0 || rest[0] != '.' {
            return Err(AppError::InvalidTarget(InvalidTarget::NotDotfile));
        }
        let name = stripped.as_str().substring_char(1, rest.len());
        proof {
            assert(name@ =~= rest@.skip(1));
            lemma_target_is_derived(store_path@, home@, target@);
        }
        Ok(
            Dotfile {
                name: String::from_str(name),
                source: join(store_path, name),
                target: String::from_str(target),
            },
        )
    }

    /// Whether `reference` is the name, the source or the target.
    pub fn referenced_by(&self, reference: &str) -> (r: bool)
        ensures
            r == self@.referenced_by(reference@),
    {
        let reference = String::from_str(reference);
        self.matches(&reference)
    }

    /// The state of the dotfile, given what lies at its target.
    pub fn state(&self, target: &Probe) -> (s: DFState)
        ensures
            s == self@.state(target@),
    {
        match target {
            Probe::Nothing => DFState::Uninstalled,
            Probe::Link(destination) => {
                if *destination == self.source {
                    DFState::Installed
                } else {
                    DFState::Blocked
                }
            },
            Probe::Other => DFState::Blocked,
        }
    }

    /// The operations that link the dotfile into the home directory, given
    /// the state of the dotfile.
    ///
    /// A blocked dotfile is refused with `Blocked`, so that what lies at its
    /// target is not touched. The operations are meant for an uninstalled
    /// dotfile; on an installed one the link cannot be created again.
    pub fn install(&self, state: DFState) -> (r: Result<Vec<FsOp>, AppError>)
        ensures
            match r {
                Ok(ops) => state != DFState::Blocked && plan_of(ops@) == self@.install_plan(),
                Err(e) => state == DFState::Blocked && e@ == AppErrorView::Blocked(self@.target),
            },
    {
        if let DFState::Blocked = state {
            return Err(AppError::Blocked(self.target.clone()));
        }
        let mut ops = create_parent_dirs(self.target.as_str());
        ops.push(FsOp::Symlink { destination: self.source.clone(), link: self.target.clone() });
        proof {
            assert(plan_of(ops@) =~= self@.install_plan());
        }
        Ok(ops)
    }

    /// The operations that remove the dotfile's link from the home
    /// directory, given the state of the dotfile.
    ///
    /// A blocked dotfile is refused with `Blocked`, so that what lies at its
    /// target is not removed. The operations are meant for an installed
    /// dotfile; on an uninstalled one there is nothing to remove.
    pub fn uninstall(&self, state: DFState) -> (r: Result<Vec<FsOp>, AppError>)
        ensures
            match r {
                Ok(ops) => state != DFState::Blocked && plan_of(ops@) == self@.uninstall_plan(),
                Err(e) => state == DFState::Blocked && e@ == AppErrorView::Blocked(self@.target),
            },
    {
        if let DFState::Blocked = state {
            return Err(AppError::Blocked(self.target.clone()));
        }
        let mut ops: Vec<FsOp> = Vec::new();
        ops.push(FsOp::RemoveFile(self.target.clone()));
        proof {
            assert(plan_of(ops@) =~= self@.uninstall_plan());
        }
        Ok(ops)
    }

    /// The operations that move the file at the target into the store and
    /// link it back.
    ///
    /// They are meant for a dotfile that was built from its target and is
    /// not in the store yet: the file to move is what lies at the target, so
    /// there is no state in which the target is to be spared.
    pub fn store(&self) -> (ops: Vec<FsOp>)
        ensures
            plan_of(ops@) == self@.store_plan(),
    {
        let mut ops = create_parent_dirs(self.source.as_str());
        let ghost dirs = plan_of(ops@);
        ops.push(FsOp::Rename { from: self.target.clone(), to: self.source.clone() });
        ops.push(FsOp::Symlink { destination: self.source.clone(), link: self.target.clone() });
        proof {
            assert(plan_of(ops@) =~= dirs + seq![
                FsOpView::Rename { from: self@.target, to: self@.source },
                FsOpView::Symlink { destination: self@.source, link: self@.target },
            ]);
            assert(plan_of(ops@) =~= self@.store_plan());
        }
        ops
    }

    /// The operations that move the file out of the store, to the target,
    /// given the state of the dotfile.
    ///
    /// A blocked dotfile is refused with `Blocked`, so that what lies at its
    /// target is not replaced. Where the link lies at the target, the file
    /// takes its place.
    pub fn unstore(&self, state: DFState) -> (r: Result<Vec<FsOp>, AppError>)
        ensures
            match r {
                Ok(ops) => state != DFState::Blocked && plan_of(ops@) == self@.unstore_plan(),
                Err(e) => state == DFState::Blocked && e@ == AppErrorView::Blocked(self@.target),
            },
    {
        if let DFState::Blocked = state {
            return Err(AppError::Blocked(self.target.clone()));
        }
        let mut ops = create_parent_dirs(self.target.as_str());
        ops.push(FsOp::Rename { from: self.source.clone(), to: self.target.clone() });
        proof {
            assert(plan_of(ops@) =~= self@.unstore_plan());
        }
        Ok(ops)
    }

    pub(crate) fn matches(&self, reference: &String) -> (r: bool)
        ensures
            r == self@.referenced_by(reference@),
    {
        self.name == *reference || self.source == *reference || self.target == *reference
    }
}

/// A plan that begins with the creation of the directory that holds `path`,
/// if `path` has one.
fn create_parent_dirs(path: &str) -> (ops: Vec<FsOp>)
    ensures
        plan_of(ops@) == with_parent_dirs(path@, Seq::empty()),
{
    let mut ops: Vec<FsOp> = Vec::new();
    if let Some(dir) = parent(path) {
        ops.push(FsOp::CreateDirAll(dir));
    }
    proof {
        assert(plan_of(ops@) =~= with_parent_dirs(path@, Seq::empty()));
    }
    ops
}

/// A dotfile built from a source that lies below the store directory has
/// the source and the target that follow from its name.
pub proof fn lemma_source_is_derived(root: Seq<char>, home: Seq<char>, source: Seq<char>)
    requires
        derived_from_source(root, home, source) is Some,
        derived_from_source(root, home, source)->0.name.len() > 0,
        !is_absolute_path(derived_from_source(root, home, source)->0.name),
    ensures
        derived_from_source(root, home, source)->0.is_derived(root, home),
{
    lemma_strip_then_join(source, root);
}

/// A dotfile built from its target has the source and the target that follow
/// from its name.
pub proof fn lemma_target_is_derived(root: Seq<char>, home: Seq<char>, target: Seq<char>)
    requires
        derived_from_target(root, home, target) is Ok,
    ensures
        derived_from_target(root, home, target)->Ok_0.is_derived(root, home),
{
    let rest = relative_to(target, home)->0;
    assert(rest =~= dotted(rest.skip(1)));
    lemma_strip_then_join(target, home);
}

/// The three identities determine one another: the dotfile called `name` is
/// also the one found from its source, and, unless its target lies within the
/// store, the one found from its target.
pub proof fn lemma_identity_round_trip(root: Seq<char>, home: Seq<char>, name: Seq<char>)
    requires
        !is_absolute_path(name),
    ensures
        derived(root, home, name).source == joined(root, name),
        derived(root, home, name).target == joined(home, dotted(name)),
        derived_from_source(root, home, derived(root, home, name).source) == Some(
            derived(root, home, name),
        ),
        match derived_from_target(root, home, derived(root, home, name).target) {
            Ok(found) => !within(derived(root, home, name).target, root) && found == derived(
                root,
                home,
                name,
            ),
            Err(reason) => within(derived(root, home, name).target, root) && reason
                == InvalidTarget::InStore,
        },
{
    lemma_join_then_strip(root, name);
    lemma_join_then_strip(home, dotted(name));
    assert(dotted(name).skip(1) =~= name);
}

} // verus!
