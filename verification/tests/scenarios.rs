use std::collections::BTreeMap;

use dots::args::Command;
use dots::dispatch::list_row;
use dots::dotfile::DFState;
use dots::error::AppError;
use dots::fs::{FsOp, Probe};
use dots::scan::ScanEntry;
use dots::store::Store;

const STORE: &str = "/home/u/dotfiles";
const HOME: &str = "/home/u";

#[derive(Clone, Debug, PartialEq, Eq)]
enum Node {
    File(String),
    Link(String),
}

/// Files and links by their paths; directories are taken to be there.
#[derive(Clone, Debug, PartialEq, Eq)]
struct Tree {
    nodes: BTreeMap<String, Node>,
}

impl Tree {
    fn new(nodes: &[(&str, Node)]) -> Tree {
        Tree { nodes: nodes.iter().map(|(path, node)| (path.to_string(), node.clone())).collect() }
    }

    fn probe(&self, path: &str) -> Probe {
        match self.nodes.get(path) {
            None => Probe::Nothing,
            Some(Node::Link(to)) => Probe::Link(to.clone()),
            Some(Node::File(_)) => Probe::Other,
        }
    }

    fn apply(&mut self, op: &FsOp) -> Result<(), String> {
        match op {
            FsOp::CreateDirAll(_) => Ok(()),
            FsOp::Symlink { destination, link } => {
                if self.nodes.contains_key(link) {
                    return Err("File exists".to_string());
                }
                self.nodes.insert(link.clone(), Node::Link(destination.clone()));
                Ok(())
            }
            FsOp::RemoveFile(path) => match self.nodes.remove(path) {
                Some(_) => Ok(()),
                None => Err("No such file or directory".to_string()),
            },
            FsOp::Rename { from, to } => match self.nodes.remove(from) {
                Some(node) => {
                    self.nodes.insert(to.clone(), node);
                    Ok(())
                }
                None => Err("No such file or directory".to_string()),
            },
        }
    }

    fn scan(&self, root: &str) -> Vec<ScanEntry> {
        let below = format!("{}/", root);
        self.nodes
            .iter()
            .filter(|(path, _)| path.starts_with(&below))
            .map(|(path, node)| ScanEntry {
                path: path.clone(),
                is_file: matches!(node, Node::File(_)),
            })
            .collect()
    }
}

/// Carries out a command as a caller of the library does.
fn run(tree: &mut Tree, store: &mut Store, command: &Command) -> Result<(), AppError> {
    let subject = match command.subject(store)? {
        Some(subject) => subject,
        None => return Ok(()),
    };
    let state = subject.state(&tree.probe(&subject.target));
    let ops = command.plan(&subject, state)?;
    let mut outcome = Ok(());
    for op in &ops {
        outcome = tree.apply(op);
        if outcome.is_err() {
            break;
        }
    }
    command.settle(store, subject, outcome)
}

fn state_of(tree: &Tree, store: &Store, path: &str) -> DFState {
    let dotfile = store.get(path).unwrap();
    dotfile.state(&tree.probe(&dotfile.target))
}

fn names(store: &Store) -> Vec<String> {
    store.all().iter().map(|d| d.name.clone()).collect()
}

fn file(contents: &str) -> Node {
    Node::File(contents.to_string())
}

fn link(to: &str) -> Node {
    Node::Link(to.to_string())
}

fn stored_bashrc() -> (Tree, Store) {
    let tree = Tree::new(&[
        ("/home/u/dotfiles/bashrc", file("alias ll='ls -l'")),
        ("/home/u/dotfiles/README.md", file("my dotfiles")),
        ("/home/u/dotfiles/.git/config", file("[core]")),
    ]);
    let store = Store::new(STORE, HOME, &tree.scan(STORE));
    (tree, store)
}

#[test]
fn scanning_a_store_indexes_its_dotfiles_only() {
    let (_, store) = stored_bashrc();
    assert_eq!(names(&store), vec!["bashrc"]);
}

#[test]
fn install_then_uninstall() {
    let (mut tree, mut store) = stored_bashrc();
    let before = tree.clone();
    assert_eq!(state_of(&tree, &store, "bashrc"), DFState::Uninstalled);

    let install = Command::Install("/home/u/dotfiles/bashrc".to_string());
    assert_eq!(run(&mut tree, &mut store, &install), Ok(()));
    assert_eq!(state_of(&tree, &store, "bashrc"), DFState::Installed);
    assert_eq!(tree.nodes.get("/home/u/.bashrc"), Some(&link("/home/u/dotfiles/bashrc")));

    let installed = tree.clone();
    assert_eq!(run(&mut tree, &mut store, &install), Ok(()));
    assert_eq!(tree, installed);

    let uninstall = Command::Uninstall("/home/u/.bashrc".to_string());
    assert_eq!(run(&mut tree, &mut store, &uninstall), Ok(()));
    assert_eq!(state_of(&tree, &store, "bashrc"), DFState::Uninstalled);
    assert_eq!(tree, before);

    assert_eq!(run(&mut tree, &mut store, &uninstall), Ok(()));
    assert_eq!(tree, before);
    assert_eq!(names(&store), vec!["bashrc"]);
}

#[test]
fn a_plain_file_at_the_target_blocks() {
    let (mut tree, mut store) = stored_bashrc();
    tree.nodes.insert("/home/u/.bashrc".to_string(), file("precious"));
    let before = tree.clone();
    assert_eq!(state_of(&tree, &store, "bashrc"), DFState::Blocked);

    let blocked = Err(AppError::Blocked("/home/u/.bashrc".to_string()));
    for command in [
        Command::Install("bashrc".to_string()),
        Command::Uninstall("bashrc".to_string()),
        Command::Unmanage("bashrc".to_string()),
    ] {
        assert_eq!(run(&mut tree, &mut store, &command), blocked);
        assert_eq!(tree, before);
        assert_eq!(names(&store), vec!["bashrc"]);
    }
}

#[test]
fn a_blocked_dotfile_refuses_its_own_transitions() {
    let (mut tree, store) = stored_bashrc();
    tree.nodes.insert("/home/u/.bashrc".to_string(), file("precious"));
    let dotfile = store.get("bashrc").unwrap();
    let state = dotfile.state(&tree.probe(&dotfile.target));
    assert_eq!(state, DFState::Blocked);

    let blocked = Err(AppError::Blocked("/home/u/.bashrc".to_string()));
    assert_eq!(dotfile.install(state), blocked);
    assert_eq!(dotfile.uninstall(state), blocked);
    assert_eq!(dotfile.unstore(state), blocked);
    assert_eq!(tree.nodes.get("/home/u/.bashrc"), Some(&file("precious")));
    assert_eq!(tree.nodes.get("/home/u/dotfiles/bashrc"), Some(&file("alias ll='ls -l'")));
}

#[test]
fn a_link_to_elsewhere_blocks() {
    let (mut tree, mut store) = stored_bashrc();
    tree.nodes.insert("/etc/bashrc".to_string(), file("system"));
    tree.nodes.insert("/home/u/.bashrc".to_string(), link("/etc/bashrc"));
    let before = tree.clone();
    assert_eq!(state_of(&tree, &store, "bashrc"), DFState::Blocked);
    assert_eq!(
        run(&mut tree, &mut store, &Command::Install("bashrc".to_string())),
        Err(AppError::Blocked("/home/u/.bashrc".to_string()))
    );
    assert_eq!(tree, before);
}

#[test]
fn a_link_to_elsewhere_that_leads_nowhere_blocks() {
    let (mut tree, mut store) = stored_bashrc();
    tree.nodes.insert("/home/u/.bashrc".to_string(), link("/gone"));
    let before = tree.clone();
    assert_eq!(state_of(&tree, &store, "bashrc"), DFState::Blocked);

    let blocked = Err(AppError::Blocked("/home/u/.bashrc".to_string()));
    for command in [
        Command::Install("bashrc".to_string()),
        Command::Uninstall("bashrc".to_string()),
        Command::Unmanage("bashrc".to_string()),
    ] {
        assert_eq!(run(&mut tree, &mut store, &command), blocked);
        assert_eq!(tree, before);
        assert_eq!(names(&store), vec!["bashrc"]);
    }
}

#[test]
fn a_link_to_a_source_that_is_gone_counts_as_installed() {
    let mut tree = Tree::new(&[("/home/u/dotfiles/bashrc", file("a"))]);
    let mut store = Store::new(STORE, HOME, &tree.scan(STORE));
    tree.nodes.remove("/home/u/dotfiles/bashrc");
    tree.nodes.insert("/home/u/.bashrc".to_string(), link("/home/u/dotfiles/bashrc"));
    assert_eq!(state_of(&tree, &store, "bashrc"), DFState::Installed);

    let before = tree.clone();
    assert_eq!(run(&mut tree, &mut store, &Command::Install("bashrc".to_string())), Ok(()));
    assert_eq!(tree, before);
    assert_eq!(run(&mut tree, &mut store, &Command::Uninstall("bashrc".to_string())), Ok(()));
    assert_eq!(tree.nodes.get("/home/u/.bashrc"), None);
    assert_eq!(state_of(&tree, &store, "bashrc"), DFState::Uninstalled);
}

#[test]
fn manage_then_unmanage() {
    let (mut tree, mut store) = stored_bashrc();
    tree.nodes.insert("/home/u/.foo".to_string(), file("foo = 1"));
    let before = tree.clone();

    let manage = Command::Manage("/home/u/.foo".to_string());
    assert_eq!(run(&mut tree, &mut store, &manage), Ok(()));
    assert_eq!(names(&store), vec!["bashrc", "foo"]);
    assert_eq!(tree.nodes.get("/home/u/dotfiles/foo"), Some(&file("foo = 1")));
    assert_eq!(tree.nodes.get("/home/u/.foo"), Some(&link("/home/u/dotfiles/foo")));
    assert_eq!(state_of(&tree, &store, "foo"), DFState::Installed);
    // the index is what a new scan would give
    assert_eq!(Store::new(STORE, HOME, &tree.scan(STORE)).all(), store.all());

    let unmanage = Command::Unmanage("/home/u/.foo".to_string());
    assert_eq!(run(&mut tree, &mut store, &unmanage), Ok(()));
    assert_eq!(names(&store), vec!["bashrc"]);
    assert_eq!(tree, before);
    assert_eq!(tree.nodes.get("/home/u/.foo"), Some(&file("foo = 1")));
    assert_eq!(tree.nodes.get("/home/u/dotfiles/foo"), None);
}

#[test]
fn manage_of_a_managed_target_changes_nothing() {
    let (mut tree, mut store) = stored_bashrc();
    let install = Command::Install("bashrc".to_string());
    assert_eq!(run(&mut tree, &mut store, &install), Ok(()));
    let before = tree.clone();

    let manage = Command::Manage("/home/u/.bashrc".to_string());
    assert_eq!(
        run(&mut tree, &mut store, &manage),
        Err(AppError::AlreadyManaged("/home/u/.bashrc".to_string()))
    );
    assert_eq!(tree, before);
    assert_eq!(names(&store), vec!["bashrc"]);
}

#[test]
fn manage_of_a_missing_file_fails_and_leaves_the_index_as_it_is() {
    let (mut tree, mut store) = stored_bashrc();
    let before = tree.clone();
    let manage = Command::Manage("/home/u/.missing".to_string());
    assert_eq!(
        run(&mut tree, &mut store, &manage),
        Err(AppError::IoFailure("No such file or directory".to_string()))
    );
    assert_eq!(tree, before);
    assert_eq!(names(&store), vec!["bashrc"]);
}

#[test]
fn unmanage_of_an_uninstalled_dotfile_moves_it_to_its_target() {
    let (mut tree, mut store) = stored_bashrc();
    let unmanage = Command::Unmanage("bashrc".to_string());
    assert_eq!(run(&mut tree, &mut store, &unmanage), Ok(()));
    assert_eq!(tree.nodes.get("/home/u/.bashrc"), Some(&file("alias ll='ls -l'")));
    assert_eq!(tree.nodes.get("/home/u/dotfiles/bashrc"), None);
    assert!(store.all().is_empty());
}

#[test]
fn listing_shows_each_dotfile_with_its_state() {
    let tree = Tree::new(&[
        ("/home/u/dotfiles/bashrc", file("a")),
        ("/home/u/dotfiles/vimrc", file("b")),
        ("/home/u/dotfiles/zshrc", file("c")),
        ("/home/u/.bashrc", link("/home/u/dotfiles/bashrc")),
        ("/home/u/.vimrc", file("mine")),
    ]);
    let store = Store::new(STORE, HOME, &tree.scan(STORE));
    let rows: Vec<String> = store
        .all()
        .iter()
        .map(|d| list_row(d, d.state(&tree.probe(&d.target))))
        .collect();
    assert_eq!(rows, vec!["[x] bashrc", "[-] vimrc", "[ ] zshrc"]);
}
