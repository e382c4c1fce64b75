//! Adding a key to an `authorized_keys` file.

use tabbify_broker::authorized_keys::{
    add_ssh_key, add_ssh_key_to, validated_key, AGENT_AUTH_KEYS,
};
use tabbify_broker::contract::{CodeError, CodeErrorCode};

/// Adds a key to the text of a file.
fn add(key: &str, body: &mut String) -> Result<(), CodeError> {
    if let Some(append) = add_ssh_key_to(key, "/tmp/authorized_keys", body)? {
        assert_eq!(append.path, "/tmp/authorized_keys");
        body.push_str(&append.line);
    }
    Ok(())
}

#[test]
fn appends_valid_key_idempotently_and_rejects_garbage() {
    let mut body = String::new();
    let key = "ssh-ed25519 AAAAC3NzaC1lZDI1NTE5 laptop";
    add(key, &mut body).unwrap();
    add(key, &mut body).unwrap();
    assert_eq!(body.lines().filter(|l| l.trim() == key).count(), 1);
    assert_eq!(
        add("ssh-ed25519 X\ncommand=\"rm -rf /\" ssh-rsa Y", &mut body).unwrap_err().code,
        CodeErrorCode::Invalid
    );
    assert_eq!(add("not-a-key blah", &mut body).unwrap_err().code, CodeErrorCode::Invalid);
}

#[test]
fn every_known_key_type_is_accepted() {
    for key in [
        "ssh-ed25519 A",
        "ssh-rsa A",
        "ecdsa-sha2-nistp256 A",
        "sk-ssh-ed25519@openssh.com A",
        "sk-ecdsa-sha2-nistp256@openssh.com A",
    ] {
        assert_eq!(validated_key(&format!("  {key}\n")).unwrap(), key);
    }
}

#[test]
fn refusals_say_why() {
    for key in ["", " \n ", "ssh-rsa A\rB", "ssh-rsa A\nssh-rsa B"] {
        let e = validated_key(key).unwrap_err();
        assert_eq!(e.code, CodeErrorCode::Invalid);
        assert_eq!(e.message, "key must be one line");
    }
    for key in ["ssh-ed25519", "ssh-dss A", "command=\"x\" ssh-rsa A", "SSH-RSA A"] {
        let e = validated_key(key).unwrap_err();
        assert_eq!(e.code, CodeErrorCode::Invalid);
        assert_eq!(e.message, "unrecognised key type");
    }
}

#[test]
fn the_key_goes_to_the_login_user() {
    let append = add_ssh_key(" ssh-rsa A\n", "ssh-rsa B\n").unwrap().unwrap();
    assert_eq!(append.path, AGENT_AUTH_KEYS);
    assert_eq!(append.path, "/home/agent/.ssh/authorized_keys");
    assert_eq!(append.line, "ssh-rsa A\n");
}

#[test]
fn a_listed_key_is_not_appended() {
    assert!(add_ssh_key("ssh-rsa A", "x\n  ssh-rsa A \r\ny").unwrap().is_none());
    assert!(add_ssh_key("ssh-rsa A", "ssh-rsa A").unwrap().is_none());
    assert!(add_ssh_key("ssh-rsa A", "ssh-rsa A b\n#ssh-rsa A\n").unwrap().is_some());
}

#[test]
fn an_appended_key_is_listed_whatever_the_file_held() {
    for existing in ["", "x\n", "x\n \t", "abc", "abc\r", "ssh-rsa B\r\nssh-rsa C"] {
        let mut body = existing.to_string();
        add("ssh-rsa A", &mut body).unwrap();
        assert!(add_ssh_key("ssh-rsa A", &body).unwrap().is_none(), "{existing:?}");
        let again = body.clone();
        add("ssh-rsa A", &mut body).unwrap();
        assert_eq!(body, again);
        for line in existing.lines() {
            assert!(body.lines().any(|l| l.trim() == line.trim()), "{existing:?}");
        }
    }
}

#[test]
fn appending_keeps_the_lines_that_are_there() {
    let mut body = "one\r\ntwo\n".to_string();
    add("ssh-rsa A", &mut body).unwrap();
    assert_eq!(body.lines().collect::<Vec<_>>(), vec!["one", "two", "ssh-rsa A"]);
    let mut body = "ssh-rsa AAAA a".to_string();
    add("ssh-ed25519 BBBB b", &mut body).unwrap();
    assert_eq!(body, "ssh-rsa AAAA a\nssh-ed25519 BBBB b\n");
}
