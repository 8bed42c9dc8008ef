use ssh_manager::{classify_probe, Config, ManagerError, ProbeOutcome, SshAccount, SshManager, Status};

fn account(name: &str, host: &str) -> SshAccount {
    SshAccount {
        name: name.to_string(),
        email: "a@b.com".to_string(),
        key_file: "id_x".to_string(),
        host: host.to_string(),
        description: None,
    }
}

fn manager() -> SshManager {
    SshManager::new("/home/u/.ssh".to_string(), Config::new())
}

fn add(m: &mut SshManager, name: &str, email: &str, host: &str) -> Result<(), ManagerError> {
    m.add_account(name.to_string(), email.to_string(), host.to_string(), None, true)
}

#[test]
fn alias_examples() {
    assert_eq!(SshManager::alias_for(&account("work", "github.com")), "github-work");
    assert_eq!(SshManager::alias_for(&account("Team One", "my.internal.host")), "my-Team-One");
    assert_eq!(SshManager::alias_for(&account("x", "localhost")), "localhost-x");
}

#[test]
fn key_file_name_example() {
    assert_eq!(SshManager::key_file_for("my work", "github.com"), "id_my_work_github_com");
}

#[test]
fn key_path_joins_directory() {
    assert_eq!(manager().key_path("id_a"), "/home/u/.ssh/id_a");
    let m = SshManager::new("/d/".to_string(), Config::new());
    assert_eq!(m.key_path("id_a"), "/d/id_a");
}

#[test]
fn email_validation() {
    let m = manager();
    assert_eq!(m.check_new_account("w", "a@b.com"), Ok(()));
    assert_eq!(m.check_new_account("w", "first.last-x@mail.example.org"), Ok(()));
    assert_eq!(m.check_new_account("w", "not-an-email"), Err(ManagerError::InvalidEmail));
    assert_eq!(m.check_new_account("w", "a@b.c"), Err(ManagerError::InvalidEmail));
    assert_eq!(m.check_new_account("w", ""), Err(ManagerError::InvalidEmail));
}

#[test]
fn add_rejects_invalid_email_and_failed_keygen() {
    let mut m = manager();
    assert_eq!(add(&mut m, "w", "bad", "github.com"), Err(ManagerError::InvalidEmail));
    let r = m.add_account("w".to_string(), "a@b.com".to_string(), "github.com".to_string(), None, false);
    assert_eq!(r, Err(ManagerError::KeyGenerationFailed));
    assert!(m.config.accounts().is_empty());
}

#[test]
fn add_twice_keeps_one_account() {
    let mut m = manager();
    assert_eq!(add(&mut m, "work", "a@b.com", "github.com"), Ok(()));
    assert_eq!(add(&mut m, "work", "other@x.org", "gitlab.com"), Err(ManagerError::DuplicateIdentity));
    let accounts = m.config.accounts();
    assert_eq!(accounts.len(), 1);
    assert_eq!(accounts[0].email, "a@b.com");
    assert_eq!(accounts[0].host, "github.com");
    assert_eq!(m.check_new_account("work", "a@b.com"), Err(ManagerError::DuplicateIdentity));
}

#[test]
fn add_switch_remove_scenario() {
    let mut m = manager();
    assert_eq!(add(&mut m, "work", "a@b.com", "github.com"), Ok(()));
    assert_eq!(m.config.accounts().len(), 1);
    assert_eq!(m.config.accounts()[0].name, "work");
    assert_eq!(m.config.accounts()[0].key_file, "id_work_github_com");
    assert_eq!(*m.config.current_account(), None);

    let text = m.switch_account("work", "").unwrap();
    assert_eq!(*m.config.current_account(), Some("work".to_string()));
    assert!(m.is_active("work"));
    assert!(text.starts_with("# ssh-manager ACTIVE START [github.com]\n"));
    assert!(text.ends_with("# ssh-manager ACTIVE END [github.com]\n"));
    assert!(text.contains("    IdentityFile /home/u/.ssh/id_work_github_com\n"));

    let text = m.update_ssh_config("work", &text).unwrap().unwrap();
    assert!(text.contains("\n# work - a@b.com\nHost github-work\n"));

    let removal = m.remove_account("work", &text).unwrap();
    assert!(m.config.accounts().is_empty());
    assert_eq!(*m.config.current_account(), None);
    assert!(removal.was_active);
    assert!(removal.section_found);
    assert_eq!(removal.account.name, "work");
    assert_eq!(removal.config_text, "");
}

#[test]
fn switch_unknown_changes_nothing() {
    let mut m = manager();
    let text = "Host x\n";
    assert_eq!(m.switch_account("missing", text).err(), Some(ManagerError::UnknownIdentity));
    assert!(m.config.accounts().is_empty());
    assert_eq!(*m.config.current_account(), None);
    assert_eq!(text, "Host x\n");
}

#[test]
fn switch_same_host_overwrites_block_and_other_host_is_kept() {
    let mut m = manager();
    add(&mut m, "work", "a@b.com", "github.com").unwrap();
    add(&mut m, "home", "h@b.com", "github.com").unwrap();
    add(&mut m, "lab", "l@b.com", "gitlab.com").unwrap();
    let t1 = m.switch_account("lab", "").unwrap();
    let t2 = m.switch_account("work", &t1).unwrap();
    let t3 = m.switch_account("home", &t2).unwrap();
    assert!(t3.starts_with(&t1));
    assert!(t3.contains("IdentityFile /home/u/.ssh/id_home_github_com\n"));
    assert!(!t3.contains("id_work_github_com"));
    assert_eq!(t3.matches("ACTIVE START [github.com]").count(), 1);
}

#[test]
fn remove_inactive_keeps_active_block() {
    let mut m = manager();
    add(&mut m, "work", "a@b.com", "github.com").unwrap();
    add(&mut m, "home", "h@b.com", "github.com").unwrap();
    let t = m.switch_account("work", "").unwrap();
    let removal = m.remove_account("home", &t).unwrap();
    assert!(!removal.was_active);
    assert!(!removal.section_found);
    assert_eq!(removal.config_text, t);
    assert!(m.is_active("work"));
}

#[test]
fn remove_unknown_is_an_error() {
    let mut m = manager();
    assert_eq!(m.remove_account("nobody", "").err().map(|_| ()), Some(()));
    match m.remove_account("nobody", "") {
        Err(e) => assert_eq!(e, ManagerError::UnknownIdentity),
        Ok(_) => panic!("removed an unknown account"),
    }
}

#[test]
fn update_ssh_config_appends_once_and_uses_description() {
    let mut m = manager();
    m.add_account(
        "work".to_string(),
        "a@b.com".to_string(),
        "github.com".to_string(),
        Some("Work laptop".to_string()),
        true,
    )
    .unwrap();
    let t = m.update_ssh_config("work", "Host x\n").unwrap().unwrap();
    assert_eq!(
        t,
        "Host x\n\n# work - Work laptop\nHost github-work\n    HostName github.com\n    User git\n    IdentityFile /home/u/.ssh/id_work_github_com\n    AddKeysToAgent yes\n    UseKeychain yes\n    IdentitiesOnly yes\n"
    );
    assert_eq!(m.update_ssh_config("work", &t).unwrap(), None);
    assert_eq!(m.update_ssh_config("nobody", &t), Err(ManagerError::UnknownIdentity));
}

#[test]
fn status_variants() {
    let mut m = manager();
    assert!(matches!(m.status(), Status::NoActive));
    add(&mut m, "work", "a@b.com", "github.com").unwrap();
    m.switch_account("work", "").unwrap();
    match m.status() {
        Status::Active(a) => assert_eq!(a.name, "work"),
        _ => panic!("expected an active account"),
    }
    let c = Config::from_parts(vec![account("a", "github.com")], Some("ghost".to_string())).unwrap();
    let m2 = SshManager::new("/d".to_string(), c);
    match m2.status() {
        Status::DanglingActiveReference(n) => assert_eq!(n, "ghost"),
        _ => panic!("expected a dangling reference"),
    }
}

#[test]
fn from_parts_rejects_duplicate_names() {
    let r = Config::from_parts(vec![account("a", "x.com"), account("a", "y.com")], None);
    assert!(matches!(r, Err(ManagerError::DuplicateIdentity)));
    let ok = Config::from_parts(vec![account("a", "x.com"), account("b", "y.com")], None).unwrap();
    assert!(ok.contains("a") && ok.contains("b") && !ok.contains("c"));
}

#[test]
fn probe_classification() {
    assert_eq!(
        classify_probe("Hi user! You've successfully authenticated, but GitHub does not provide shell access."),
        ProbeOutcome::Authenticated
    );
    assert_eq!(classify_probe("git@github.com: Permission denied (publickey)."), ProbeOutcome::PermissionDenied);
    assert_eq!(classify_probe("ssh: Could not resolve hostname"), ProbeOutcome::Other);
    assert_eq!(classify_probe(""), ProbeOutcome::Other);
}
