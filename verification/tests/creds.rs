//! Credentials, as the capability directory gives them.

use tabbify_broker::creds::{constant_time_eq, filled_text, wiped, CapFile, Creds, ForgeOwnerCreds};

fn file(name: &str, contents: &str) -> CapFile {
    CapFile { name: name.into(), contents: Some(contents.into()) }
}

fn owner() -> ForgeOwnerCreds {
    ForgeOwnerCreds {
        owner_user: "t_acme-bot".into(),
        owner_password: "ownerpw".into(),
        admin_token: "admintok".into(),
    }
}

fn caps_dir_with(repo: &str, url: &str) -> Vec<CapFile> {
    vec![file(&format!("{repo}.url"), &format!("{url}\n"))]
}

#[test]
fn loads_per_repo_cap_url_and_lists_names_only() {
    let files = caps_dir_with("demo", "http://172.31.0.1:8788/git/SECRETCAP");
    let creds = Creds::load(&files, None, None);
    assert_eq!(creds.git_cap_url("demo"), Some("http://172.31.0.1:8788/git/SECRETCAP"));
    let names = creds.cap_names();
    assert!(names.contains(&"git:demo".to_string()));
    assert!(names.iter().all(|n| !n.contains("SECRETCAP")));
}

#[test]
fn absent_dir_yields_no_caps() {
    let creds = Creds::load(&Vec::new(), None, None);
    assert!(creds.cap_names().is_empty());
    assert!(creds.git_cap_url("demo").is_none());
}

#[test]
fn scrub_drops_all_in_ram_creds() {
    let files = caps_dir_with("demo", "http://172.31.0.1:8788/git/SECRETCAP");
    let mut creds = Creds::load(&files, None, None);
    assert!(creds.git_cap_url("demo").is_some());
    creds.scrub();
    assert!(creds.git_cap_url("demo").is_none());
    assert!(creds.cap_names().is_empty());
}

#[test]
fn scrub_drops_the_forge_credentials() {
    let mut creds = Creds::load(&Vec::new(), Some("{}"), Some(owner()));
    assert!(creds.forge_owner().is_some());
    creds.scrub();
    assert_eq!(creds.forge_admin_token(), None);
    assert_eq!(creds.forge_owner(), None);
}

#[test]
fn scrub_hands_back_every_secret_overwritten() {
    let files = vec![file("a.url", "http://1"), file("b.url", "http://22")];
    let mut creds = Creds::load(&files, Some("{}"), Some(owner()));
    let mut lengths: Vec<usize> = creds
        .scrub()
        .iter()
        .map(|b| {
            assert!(b.iter().all(|x| *x == 0));
            b.len()
        })
        .collect();
    lengths.sort();
    // Two URLs, the admin token twice, the owner's name and password.
    assert_eq!(lengths, vec![7, 8, 8, 8, 9, 10]);
    assert!(creds.scrub().is_empty());
    assert!(creds.cap_names().is_empty());
}

#[test]
fn only_url_files_with_contents_give_a_capability() {
    let files = vec![
        file("authkeys.cap", "x"),
        file("blank.url", " \n"),
        CapFile { name: "unread.url".into(), contents: None },
        file("a.b.url", "\thttp://h/1\n"),
        file(".url", "http://h/2"),
        file("urls", "x"),
    ];
    let creds = Creds::load(&files, None, None);
    assert_eq!(creds.cap_names(), vec!["git:".to_string(), "git:a.b".to_string()]);
    assert_eq!(creds.git_cap_url("a.b"), Some("http://h/1"));
    assert_eq!(creds.git_cap_url(""), Some("http://h/2"));
    assert_eq!(creds.git_cap_url("blank"), None);
    assert_eq!(creds.git_cap_url("authkeys"), None);
}

#[test]
fn of_two_files_for_one_repo_the_later_counts() {
    let files = vec![file("a.url", "http://h/1"), file("b.url", "x"), file("a.url", "http://h/2")];
    let creds = Creds::load(&files, None, None);
    assert_eq!(creds.git_cap_url("a"), Some("http://h/2"));
    assert_eq!(creds.cap_names().len(), 2);
}

#[test]
fn names_are_sorted() {
    let files = vec![file("z.url", "1"), file("B.url", "2"), file("a.url", "3")];
    let creds = Creds::load(&files, Some("tok"), None);
    assert_eq!(creds.cap_names(), vec!["forge", "git:B", "git:a", "git:z"]);
}

#[test]
fn equal_repos_are_listed_alike_whatever_the_values() {
    let a = Creds::load(&vec![file("x.url", "1"), file("y.url", "2")], Some("t"), None);
    let b = Creds::load(&vec![file("y.url", "9"), file("x.url", "8")], Some("u"), Some(owner()));
    assert_eq!(a.cap_names(), b.cap_names());
}

#[test]
fn the_forge_file_is_a_bare_token_or_owner_credentials() {
    let bare = Creds::load(&Vec::new(), Some(" ghs_secret\n"), None);
    assert_eq!(bare.forge_admin_token(), Some("ghs_secret"));
    assert_eq!(bare.forge_owner(), None);
    let full = Creds::load(&Vec::new(), Some("{...}"), Some(owner()));
    assert_eq!(full.forge_admin_token(), Some("admintok"));
    assert_eq!(full.forge_owner(), Some(&owner()));
    let blank = Creds::load(&Vec::new(), Some("  \n"), Some(owner()));
    assert_eq!(blank.forge_admin_token(), None);
    assert_eq!(blank.forge_owner(), None);
}

#[test]
fn a_clone_holds_the_same() {
    let files = vec![file("z.url", "1"), file("a.url", "3")];
    let mut creds = Creds::load(&files, Some("t"), Some(owner()));
    let copy = creds.clone();
    creds.scrub();
    assert_eq!(copy.cap_names(), vec!["forge", "git:a", "git:z"]);
    assert_eq!(copy.git_cap_url("z"), Some("1"));
    assert_eq!(copy.forge_owner(), Some(&owner()));
}

#[test]
fn a_wiped_text_is_all_zeros() {
    assert_eq!(wiped("se\u{e9}".into()), vec![0u8; 4]);
    assert_eq!(wiped(String::new()), Vec::<u8>::new());
}

#[test]
fn filled_texts_are_trimmed() {
    assert_eq!(filled_text(Some(" a b \n")).as_deref(), Some("a b"));
    assert_eq!(filled_text(Some("")), None);
    assert_eq!(filled_text(None), None);
}

#[test]
fn constant_time_comparison_is_equality() {
    assert!(constant_time_eq(b"", b""));
    assert!(constant_time_eq(b"abc", b"abc"));
    assert!(!constant_time_eq(b"abc", b"abd"));
    assert!(!constant_time_eq(b"abc", b"ab"));
    assert!(!constant_time_eq(b"\x01\x01", b"\x03\x03"));
}
