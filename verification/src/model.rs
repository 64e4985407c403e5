//! A model of the filesystem, against which the plans are checked.
//!
//! The model is a map from paths to what lies there: a file with its contents
//! or a symbolic link with its destination. Directories are not part of it:
//! they are taken to be there wherever a path needs them, which is what the
//! `CreateDirAll` at the head of a plan is for. Links hold absolute paths, as
//! the links that the plans create do.

use crate::dotfile::{with_parent_dirs, DFState, DotfileView};
use crate::fs::{FsOpView, ProbeView};
use crate::path::parent_of;
use vstd::prelude::*;

verus! {

/// What lies at a path.
pub enum Node {
    /// A regular file and its contents.
    File(Seq<u8>),
    /// A symbolic link and the path that it points to.
    Link(Seq<char>),
}

/// The files and links, by their paths.
pub struct Tree {
    pub nodes: Map<Seq<char>, Node>,
}

impl Tree {
    /// Whether something lies at `path` itself, be it a link or a file.
    pub open spec fn holds(self, path: Seq<char>) -> bool {
        self.nodes.dom().contains(path)
    }

    /// What a caller sees at `path` itself: nothing, a link with the path
    /// that it points to, or something else. Links are not followed, so a link
    /// is seen whether or not anything lies where it points to.
    pub open spec fn probe(self, path: Seq<char>) -> ProbeView {
        if !self.holds(path) {
            ProbeView::Nothing
        } else {
            match self.nodes[path] {
                Node::Link(destination) => ProbeView::Link(destination),
                Node::File(_) => ProbeView::Other,
            }
        }
    }

    /// The tree after one operation, or `None` when the operation fails: a
    /// link cannot be created where something lies already, and nothing can
    /// be removed or moved from where nothing lies.
    pub open spec fn apply(self, op: FsOpView) -> Option<Tree> {
        match op {
            FsOpView::CreateDirAll(_) => Some(self),
            FsOpView::Symlink { destination, link } => if self.holds(link) {
                None
            } else {
                Some(Tree { nodes: self.nodes.insert(link, Node::Link(destination)) })
            },
            FsOpView::RemoveFile(path) => if self.holds(path) {
                Some(Tree { nodes: self.nodes.remove(path) })
            } else {
                None
            },
            FsOpView::Rename { from, to } => if self.holds(from) {
                Some(Tree { nodes: self.nodes.remove(from).insert(to, self.nodes[from]) })
            } else {
                None
            },
        }
    }

    /// The tree after the operations of a plan, carried out in order, or
    /// `None` when one of them fails.
    pub open spec fn run(self, plan: Seq<FsOpView>) -> Option<Tree>
        decreases plan.len(),
    {
        if plan.len() == 0 {
            Some(self)
        } else {
            match self.apply(plan[0]) {
                Some(next) => next.run(plan.skip(1)),
                None => None,
            }
        }
    }
}

/// A plan that begins by creating the directory above a path does to the
/// tree what the rest of it does.
pub proof fn lemma_parent_dirs_change_nothing(tree: Tree, path: Seq<char>, rest: Seq<FsOpView>)
    ensures
        tree.run(with_parent_dirs(path, rest)) == tree.run(rest),
{
    match parent_of(path) {
        Some(dir) => {
            let plan = seq![FsOpView::CreateDirAll(dir)] + rest;
            assert(plan.skip(1) =~= rest);
        },
        None => {},
    }
}

/// The state of a dotfile says what lies at its target: nothing when it is
/// uninstalled, the link to its source when it is installed, and anything else
/// when it is blocked.
pub proof fn lemma_state_reads_the_target(tree: Tree, dotfile: DotfileView)
    ensures
        dotfile.state(tree.probe(dotfile.target)) == DFState::Uninstalled <==> !tree.holds(
            dotfile.target,
        ),
        dotfile.state(tree.probe(dotfile.target)) == DFState::Installed <==> tree.holds(
            dotfile.target,
        ) && tree.nodes[dotfile.target] == Node::Link(dotfile.source),
        dotfile.state(tree.probe(dotfile.target)) == DFState::Blocked <==> tree.holds(
            dotfile.target,
        ) && tree.nodes[dotfile.target] != Node::Link(dotfile.source),
{
}

/// Linking succeeds exactly on an uninstalled dotfile. It leaves the dotfile
/// installed and changes nothing else.
pub proof fn lemma_install_installs(tree: Tree, dotfile: DotfileView)
    ensures
        tree.run(dotfile.install_plan()) is Some <==> dotfile.state(tree.probe(dotfile.target))
            == DFState::Uninstalled,
        tree.run(dotfile.install_plan()) matches Some(after) ==> {
            &&& after.nodes == tree.nodes.insert(dotfile.target, Node::Link(dotfile.source))
            &&& dotfile.state(after.probe(dotfile.target)) == DFState::Installed
        },
{
    let link = FsOpView::Symlink { destination: dotfile.source, link: dotfile.target };
    lemma_parent_dirs_change_nothing(tree, dotfile.target, seq![link]);
    assert(seq![link].skip(1) =~= Seq::<FsOpView>::empty());
    reveal_with_fuel(Tree::run, 3);
    if !tree.holds(dotfile.target) {
        let after = Tree { nodes: tree.nodes.insert(dotfile.target, Node::Link(dotfile.source)) };
        assert(tree.apply(link) == Some(after));
    }
}

/// Unlinking an installed dotfile succeeds and leaves it uninstalled, with
/// nothing else changed.
pub proof fn lemma_uninstall_uninstalls(tree: Tree, dotfile: DotfileView)
    requires
        dotfile.state(tree.probe(dotfile.target)) == DFState::Installed,
    ensures
        tree.run(dotfile.uninstall_plan()) == Some(
            Tree { nodes: tree.nodes.remove(dotfile.target) },
        ),
        dotfile.state(tree.run(dotfile.uninstall_plan())->0.probe(dotfile.target))
            == DFState::Uninstalled,
{
    let unlink = FsOpView::RemoveFile(dotfile.target);
    let after = Tree { nodes: tree.nodes.remove(dotfile.target) };
    assert(seq![unlink].skip(1) =~= Seq::<FsOpView>::empty());
    reveal_with_fuel(Tree::run, 3);
    assert(tree.apply(unlink) == Some(after));
}

/// Where a file lies at the target and nothing at the source, moving it into
/// the store leaves the dotfile installed, with the file in the store; moving
/// it out again restores the tree as it was, with no link and no file of the
/// store left.
pub proof fn lemma_store_then_unstore(tree: Tree, dotfile: DotfileView)
    requires
        tree.holds(dotfile.target),
        tree.nodes[dotfile.target] is File,
        !tree.holds(dotfile.source),
    ensures
        tree.run(dotfile.store_plan()) == Some(
            Tree {
                nodes: tree.nodes.remove(dotfile.target).insert(
                    dotfile.source,
                    tree.nodes[dotfile.target],
                ).insert(dotfile.target, Node::Link(dotfile.source)),
            },
        ),
        dotfile.state(tree.run(dotfile.store_plan())->0.probe(dotfile.target))
            == DFState::Installed,
        tree.run(dotfile.store_plan())->0.run(dotfile.unstore_plan()) == Some(tree),
{
    let file = tree.nodes[dotfile.target];
    let moved = Tree { nodes: tree.nodes.remove(dotfile.target).insert(dotfile.source, file) };
    let stored = Tree { nodes: moved.nodes.insert(dotfile.target, Node::Link(dotfile.source)) };
    let rename = FsOpView::Rename { from: dotfile.target, to: dotfile.source };
    let link = FsOpView::Symlink { destination: dotfile.source, link: dotfile.target };
    let back = FsOpView::Rename { from: dotfile.source, to: dotfile.target };
    lemma_parent_dirs_change_nothing(tree, dotfile.source, seq![rename, link]);
    lemma_parent_dirs_change_nothing(stored, dotfile.target, seq![back]);
    reveal_with_fuel(Tree::run, 4);
    assert(seq![rename, link].skip(1) =~= seq![link]);
    assert(seq![link].skip(1) =~= Seq::<FsOpView>::empty());
    assert(seq![back].skip(1) =~= Seq::<FsOpView>::empty());
    assert(tree.apply(rename) == Some(moved));
    assert(moved.apply(link) == Some(stored));
    let restored = Tree { nodes: stored.nodes.remove(dotfile.source).insert(dotfile.target, file) };
    assert(stored.apply(back) == Some(restored));
    assert(restored.nodes =~= tree.nodes);
}

} // verus!
