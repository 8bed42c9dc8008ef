use ssh_manager::sections::{has_named_section, remove_named_section};

const SECTION: &str = "\n# work - a@b.com\nHost github-work\n    HostName github.com\n    User git\n    IdentityFile /k/id_work_github_com\n    AddKeysToAgent yes\n    UseKeychain yes\n    IdentitiesOnly yes\n";

#[test]
fn has_named_section_finds_header() {
    let t = format!("Host other\n{}", SECTION);
    assert!(has_named_section(&t, "work"));
    assert!(!has_named_section(&t, "personal"));
    assert!(!has_named_section("", "work"));
}

#[test]
fn remove_named_section_with_header() {
    let base = "Host other\n    HostName x\n";
    let t = format!("{}{}", base, SECTION);
    let (r, found) = remove_named_section(&t, "work", "github-work");
    assert!(found);
    assert_eq!(r, base);
}

#[test]
fn remove_named_section_keeps_following_content() {
    let t = format!("a\n{}Host tail\n    User z\n", SECTION);
    let (r, found) = remove_named_section(&t, "work", "github-work");
    assert!(found);
    assert_eq!(r, "a\nHost tail\n    User z\n");
}

#[test]
fn remove_named_section_falls_back_to_bare_stanza() {
    let t = "a\nHost github-work\n    HostName github.com\nHost keep\n";
    let (r, found) = remove_named_section(t, "work", "github-work");
    assert!(found);
    assert_eq!(r, "a\nHost keep\n");
}

#[test]
fn remove_named_section_reports_nothing_found() {
    let t = "Host github-other\n    HostName github.com\n";
    let (r, found) = remove_named_section(t, "work", "github-work");
    assert!(!found);
    assert_eq!(r, t);
}

#[test]
fn remove_named_section_removes_every_occurrence() {
    let t = format!("x\n{}{}y\n", SECTION, SECTION);
    let (r, found) = remove_named_section(&t, "work", "github-work");
    assert!(found);
    assert_eq!(r, "x\ny\n");
}
