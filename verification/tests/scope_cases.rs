use tidydog::path::{file_name, stem_and_extension};
use tidydog::scope::make_guard;
use tidydog::{Denial, Guard, ScopeGuard};

fn guard() -> ScopeGuard {
    ScopeGuard::new(vec!["/ws/scope".to_string()], vec![])
}

#[test]
fn in_scope_file_allowed() {
    assert_eq!(guard().check("/ws/scope/a.txt"), Ok("/ws/scope/a.txt".to_string()));
}

#[test]
fn traversal_escape_denied() {
    assert_eq!(guard().check("/ws/scope/../secret.txt"), Err(Denial::OutsideScope));
}

#[test]
fn dotfile_denied() {
    assert_eq!(guard().check("/ws/scope/.secret"), Err(Denial::Hidden));
}

#[test]
fn node_modules_denied() {
    assert_eq!(guard().check("/ws/scope/node_modules/lib.js"), Err(Denial::Hidden));
}

#[test]
fn blacklist_denied() {
    let g = ScopeGuard::new(vec!["/ws/scope".to_string()], vec!["/ws/scope/system".to_string()]);
    assert_eq!(g.check("/ws/scope/system/important.conf"), Err(Denial::Blacklisted));
    assert!(g.check("/ws/scope/systems.txt").is_ok());
}

#[test]
fn hidden_root_itself_is_not_refused() {
    let g = ScopeGuard::new(vec!["/home/u/.config/app".to_string()], vec![]);
    assert!(g.check("/home/u/.config/app/notes.txt").is_ok());
    assert_eq!(g.check("/home/u/.config/app/.cache/x"), Err(Denial::Hidden));
}

#[test]
fn hidden_allowed_when_asked() {
    let g = guard().allow_hidden(true);
    assert!(g.check("/ws/scope/.secret").is_ok());
}

#[test]
fn system_folders_refused_even_as_roots() {
    let g = make_guard(vec!["/usr".to_string(), "/home/u".to_string()], "/home/u");
    assert_eq!(g.check("/usr/lib/x"), Err(Denial::Blacklisted));
    assert_eq!(g.check("/home/u/Library/Prefs"), Err(Denial::Blacklisted));
    assert!(g.check("/home/u/Documents/a.pdf").is_ok());
    assert_eq!(g.check("/etc/passwd"), Err(Denial::OutsideScope));
}

#[test]
fn file_names_follow_path_components() {
    assert_eq!(file_name("/r/a.txt").as_deref(), Some("a.txt"));
    assert_eq!(file_name("/r/docs/").as_deref(), Some("docs"));
    assert_eq!(file_name("/r/docs/.").as_deref(), Some("docs"));
    assert_eq!(file_name("/r/docs//").as_deref(), Some("docs"));
    assert_eq!(file_name("/"), None);
    assert_eq!(file_name("/r/.."), None);
    assert_eq!(file_name("."), None);
    let (stem, ext) = stem_and_extension("/r/a.tar.gz/");
    assert_eq!(stem.as_deref(), Some("a.tar"));
    assert_eq!(ext.as_deref(), Some("gz"));
}
