use dots::args::Command;
use dots::dispatch::list_row;
use dots::dotfile::{DFState, Dotfile};
use dots::error::{AppError, InvalidTarget};
use dots::fs::FsOp;
use dots::scan::ScanEntry;
use dots::store::Store;

const STORE: &str = "/home/u/dotfiles";
const HOME: &str = "/home/u";

fn sample() -> Store {
    let found = vec![
        ScanEntry { path: "/home/u/dotfiles/bashrc".to_string(), is_file: true },
        ScanEntry { path: "/home/u/dotfiles/vimrc".to_string(), is_file: true },
    ];
    Store::new(STORE, HOME, &found)
}

fn names(store: &Store) -> Vec<String> {
    store.all().iter().map(|d| d.name.clone()).collect()
}

fn bashrc() -> Dotfile {
    Dotfile::from_store_relative(STORE, HOME, "bashrc")
}

#[test]
fn verbs_name_the_commands() {
    let path = || Some("/home/u/.bashrc".to_string());
    assert_eq!(Command::from_verb("list", None), Some(Command::List));
    assert_eq!(Command::from_verb("list", path()), Some(Command::List));
    assert_eq!(
        Command::from_verb("install", path()),
        Some(Command::Install("/home/u/.bashrc".to_string()))
    );
    assert_eq!(
        Command::from_verb("uninstall", path()),
        Some(Command::Uninstall("/home/u/.bashrc".to_string()))
    );
    assert_eq!(
        Command::from_verb("manage", path()),
        Some(Command::Manage("/home/u/.bashrc".to_string()))
    );
    assert_eq!(
        Command::from_verb("unmanage", path()),
        Some(Command::Unmanage("/home/u/.bashrc".to_string()))
    );
}

#[test]
fn unknown_verbs_and_missing_paths_name_no_command() {
    assert_eq!(Command::from_verb("add", Some("x".to_string())), None);
    assert_eq!(Command::from_verb("", Some("x".to_string())), None);
    assert_eq!(Command::from_verb("Install", Some("x".to_string())), None);
    assert_eq!(Command::from_verb("install", None), None);
    assert_eq!(Command::from_verb("unmanage", None), None);
}

#[test]
fn list_is_about_no_dotfile() {
    assert_eq!(Command::List.subject(&sample()), Ok(None));
    assert_eq!(Command::List.plan(&bashrc(), DFState::Blocked), Ok(vec![]));
}

#[test]
fn install_finds_its_subject_by_any_identity() {
    for path in ["bashrc", "/home/u/dotfiles/bashrc", "/home/u/.bashrc"] {
        let command = Command::Install(path.to_string());
        assert_eq!(command.subject(&sample()), Ok(Some(bashrc())));
    }
}

#[test]
fn commands_on_an_unknown_path_fail_with_not_found() {
    let path = "/home/u/.zshrc".to_string();
    let expected = Err(AppError::NotFound(path.clone()));
    assert_eq!(Command::Install(path.clone()).subject(&sample()), expected);
    assert_eq!(Command::Uninstall(path.clone()).subject(&sample()), expected);
    assert_eq!(Command::Unmanage(path.clone()).subject(&sample()), expected);
}

#[test]
fn install_links_an_uninstalled_dotfile() {
    let command = Command::Install("bashrc".to_string());
    let link = bashrc().install(DFState::Uninstalled);
    assert!(link.is_ok());
    assert_eq!(command.plan(&bashrc(), DFState::Uninstalled), link);
    assert_eq!(
        command.plan(&bashrc(), DFState::Uninstalled).unwrap().last(),
        Some(&FsOp::Symlink {
            destination: "/home/u/dotfiles/bashrc".to_string(),
            link: "/home/u/.bashrc".to_string(),
        })
    );
}

#[test]
fn install_of_an_installed_dotfile_does_nothing() {
    let command = Command::Install("bashrc".to_string());
    assert_eq!(command.plan(&bashrc(), DFState::Installed), Ok(vec![]));
}

#[test]
fn install_of_a_blocked_dotfile_fails() {
    let command = Command::Install("bashrc".to_string());
    assert_eq!(
        command.plan(&bashrc(), DFState::Blocked),
        Err(AppError::Blocked("/home/u/.bashrc".to_string()))
    );
}

#[test]
fn uninstall_unlinks_an_installed_dotfile() {
    let command = Command::Uninstall("bashrc".to_string());
    assert_eq!(
        command.plan(&bashrc(), DFState::Installed),
        Ok(vec![FsOp::RemoveFile("/home/u/.bashrc".to_string())])
    );
}

#[test]
fn uninstall_of_an_uninstalled_dotfile_does_nothing() {
    let command = Command::Uninstall("bashrc".to_string());
    assert_eq!(command.plan(&bashrc(), DFState::Uninstalled), Ok(vec![]));
}

#[test]
fn uninstall_of_a_blocked_dotfile_fails() {
    let command = Command::Uninstall("bashrc".to_string());
    assert_eq!(
        command.plan(&bashrc(), DFState::Blocked),
        Err(AppError::Blocked("/home/u/.bashrc".to_string()))
    );
}

#[test]
fn unmanage_moves_the_file_out_of_the_store() {
    let command = Command::Unmanage("bashrc".to_string());
    assert_eq!(command.subject(&sample()), Ok(Some(bashrc())));
    let moved_out = bashrc().unstore(DFState::Installed);
    assert!(moved_out.is_ok());
    assert_eq!(command.plan(&bashrc(), DFState::Installed), moved_out);
    assert_eq!(command.plan(&bashrc(), DFState::Uninstalled), moved_out);
    let mut store = sample();
    assert_eq!(command.settle(&mut store, bashrc(), Ok(())), Ok(()));
    assert_eq!(names(&store), vec!["vimrc"]);
}

#[test]
fn unmanage_of_a_blocked_dotfile_fails() {
    let command = Command::Unmanage("bashrc".to_string());
    assert_eq!(
        command.plan(&bashrc(), DFState::Blocked),
        Err(AppError::Blocked("/home/u/.bashrc".to_string()))
    );
}

#[test]
fn install_and_uninstall_leave_the_index_as_it_is() {
    let commands =
        [Command::Install("bashrc".to_string()), Command::Uninstall("bashrc".to_string())];
    for command in commands {
        let mut store = sample();
        assert_eq!(command.settle(&mut store, bashrc(), Ok(())), Ok(()));
        assert_eq!(names(&store), vec!["bashrc", "vimrc"]);
    }
}

#[test]
fn manage_builds_its_subject_from_the_target() {
    let command = Command::Manage("/home/u/.config/git".to_string());
    let subject = command.subject(&sample()).unwrap().unwrap();
    assert_eq!(subject, Dotfile::from_store_relative(STORE, HOME, "config/git"));
    assert_eq!(command.plan(&subject, DFState::Blocked), Ok(subject.store()));
}

#[test]
fn manage_of_a_managed_target_fails() {
    let command = Command::Manage("/home/u/.bashrc".to_string());
    assert_eq!(
        command.subject(&sample()),
        Err(AppError::AlreadyManaged("/home/u/.bashrc".to_string()))
    );
}

#[test]
fn manage_of_an_invalid_target_fails() {
    let store = sample();
    assert_eq!(
        Command::Manage("/home/u/dotfiles/zshrc".to_string()).subject(&store),
        Err(AppError::InvalidTarget(InvalidTarget::InStore))
    );
    assert_eq!(
        Command::Manage("/etc/.zshrc".to_string()).subject(&store),
        Err(AppError::InvalidTarget(InvalidTarget::OutsideHome))
    );
    assert_eq!(
        Command::Manage("/home/u/zshrc".to_string()).subject(&store),
        Err(AppError::InvalidTarget(InvalidTarget::NotDotfile))
    );
}

#[test]
fn manage_then_unmanage_leaves_the_index_as_it_was() {
    let mut store = sample();
    let target = "/home/u/.inputrc".to_string();

    let manage = Command::Manage(target.clone());
    let subject = manage.subject(&store).unwrap().unwrap();
    assert_eq!(manage.settle(&mut store, subject.clone(), Ok(())), Ok(()));
    assert_eq!(names(&store), vec!["bashrc", "inputrc", "vimrc"]);
    assert_eq!(manage.subject(&store), Err(AppError::AlreadyManaged(target.clone())));

    let unmanage = Command::Unmanage(target.clone());
    assert_eq!(unmanage.subject(&store), Ok(Some(subject.clone())));
    assert_eq!(unmanage.plan(&subject, DFState::Installed), subject.unstore(DFState::Installed));
    assert_eq!(unmanage.settle(&mut store, subject, Ok(())), Ok(()));
    assert_eq!(names(&store), vec!["bashrc", "vimrc"]);
    assert_eq!(store.get(&target), None);
}

#[test]
fn a_failure_on_the_filesystem_leaves_the_index_as_it_is() {
    let mut store = sample();
    let manage = Command::Manage("/home/u/.inputrc".to_string());
    let subject = manage.subject(&store).unwrap().unwrap();
    assert_eq!(
        manage.settle(&mut store, subject, Err("permission denied".to_string())),
        Err(AppError::IoFailure("permission denied".to_string()))
    );
    assert_eq!(names(&store), vec!["bashrc", "vimrc"]);

    let unmanage = Command::Unmanage("bashrc".to_string());
    assert_eq!(
        unmanage.settle(&mut store, bashrc(), Err("disk full".to_string())),
        Err(AppError::IoFailure("disk full".to_string()))
    );
    assert_eq!(names(&store), vec!["bashrc", "vimrc"]);
}

#[test]
fn listing_marks_each_state() {
    assert_eq!(list_row(&bashrc(), DFState::Installed), "[x] bashrc");
    assert_eq!(list_row(&bashrc(), DFState::Blocked), "[-] bashrc");
    assert_eq!(list_row(&bashrc(), DFState::Uninstalled), "[ ] bashrc");
}

#[test]
fn errors_are_told_in_words() {
    assert_eq!(
        AppError::NotFound("/x".to_string()).message(),
        "Path `/x` is not a dotfile of the store."
    );
    assert_eq!(
        AppError::AlreadyManaged("/home/u/.x".to_string()).message(),
        "Target `/home/u/.x` is already managed."
    );
    assert_eq!(
        AppError::Blocked("/home/u/.x".to_string()).message(),
        "Target `/home/u/.x` is blocked by an existing file."
    );
    assert_eq!(
        AppError::InvalidTarget(InvalidTarget::InStore).message(),
        "Target cannot be in store path."
    );
    assert_eq!(
        AppError::InvalidTarget(InvalidTarget::OutsideHome).message(),
        "Target must be in the home directory."
    );
    assert_eq!(
        AppError::InvalidTarget(InvalidTarget::NotDotfile).message(),
        "Target must be a dotfile."
    );
    assert_eq!(AppError::IoFailure("disk full".to_string()).message(), "disk full");
}
