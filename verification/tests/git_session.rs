//! The registry of git proxy sessions.

use tabbify_broker::forge::git_session::{GitSessionEntry, GitSessions};

fn entry(expires_at: u64) -> GitSessionEntry {
    GitSessionEntry {
        upstream_url: "http://forge.mesh/t_acme/app.git".into(),
        token: "scoped".into(),
        expires_at,
    }
}

const SECOND: u64 = 1_000_000_000;
const NOW: u64 = 1_000 * SECOND;

#[test]
fn registered_entry_is_looked_up_until_expiry() {
    let mut sessions = GitSessions::default();
    sessions.register("cap1".into(), entry(NOW + 60 * SECOND));
    let (url, tok) = sessions.lookup("cap1", NOW).expect("registered + unexpired");
    assert_eq!(url, "http://forge.mesh/t_acme/app.git");
    assert_eq!(tok, "scoped");
}

#[test]
fn expired_entry_is_not_returned() {
    let mut sessions = GitSessions::default();
    sessions.register("cap2".into(), entry(NOW - SECOND));
    assert!(sessions.lookup("cap2", NOW).is_none(), "expired entry must not resolve");
}

#[test]
fn unknown_cap_is_none() {
    let sessions = GitSessions::default();
    assert!(sessions.lookup("nope", NOW).is_none());
}

#[test]
fn an_entry_is_good_up_to_its_last_instant() {
    let mut sessions = GitSessions::default();
    sessions.register("c".into(), entry(NOW));
    assert!(sessions.lookup("c", NOW).is_some());
    assert!(sessions.lookup("c", NOW + 1).is_none());
}

#[test]
fn registering_again_replaces_the_entry() {
    let mut sessions = GitSessions::default();
    sessions.register("a".into(), entry(NOW));
    sessions.register("b".into(), entry(NOW));
    let mut other = entry(NOW);
    other.token = "fresh".into();
    sessions.register("a".into(), other);
    assert_eq!(sessions.lookup("a", NOW).unwrap().1, "fresh");
    assert_eq!(sessions.lookup("b", NOW).unwrap().1, "scoped");
}

#[test]
fn revoking_removes_one_entry_at_once() {
    let mut sessions = GitSessions::default();
    for cap in ["a", "b", "c"] {
        sessions.register(cap.into(), entry(NOW));
    }
    sessions.revoke("b");
    sessions.revoke("unknown");
    assert!(sessions.lookup("b", NOW).is_none());
    assert!(sessions.lookup("a", NOW).is_some());
    assert!(sessions.lookup("c", NOW).is_some());
}
