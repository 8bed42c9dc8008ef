use ssh_manager::blocks::{active_body_text, remove_marker_block, upsert_marker_block};

const START_GH: &str = "# ssh-manager ACTIVE START [github.com]\n";
const END_GH: &str = "# ssh-manager ACTIVE END [github.com]\n";

fn body(key: &str) -> String {
    active_body_text("github.com", key)
}

#[test]
fn active_body_lists_host_and_key() {
    assert_eq!(
        body("/k/id_work"),
        "Host github.com\n    HostName github.com\n    User git\n    IdentityFile /k/id_work\n    AddKeysToAgent yes\n    UseKeychain yes\n    IdentitiesOnly yes\n"
    );
}

#[test]
fn upsert_into_empty_text_appends_block() {
    let b = body("/k/a");
    let r = upsert_marker_block("", "github.com", &b);
    assert_eq!(r, format!("{}{}{}", START_GH, b, END_GH));
}

#[test]
fn upsert_adds_newline_before_block_when_missing() {
    let b = body("/k/a");
    let r = upsert_marker_block("Host x", "github.com", &b);
    assert_eq!(r, format!("Host x\n{}{}{}", START_GH, b, END_GH));
    let r2 = upsert_marker_block("Host x\n", "github.com", &b);
    assert_eq!(r2, format!("Host x\n{}{}{}", START_GH, b, END_GH));
}

#[test]
fn upsert_replaces_existing_block_in_place() {
    let old = format!("top\n{}{}{}bottom\n", START_GH, body("/k/old"), END_GH);
    let r = upsert_marker_block(&old, "github.com", &body("/k/new"));
    assert_eq!(r, format!("top\n{}{}{}bottom\n", START_GH, body("/k/new"), END_GH));
}

#[test]
fn upsert_is_idempotent() {
    for t in ["", "Host x", "a\nb\n", "pre\n# ssh-manager ACTIVE START [github.com]\nstale\n"] {
        let once = upsert_marker_block(t, "github.com", &body("/k/a"));
        let twice = upsert_marker_block(&once, "github.com", &body("/k/a"));
        assert_eq!(once, twice);
    }
}

#[test]
fn upsert_leaves_other_host_block_identical() {
    let other = "# ssh-manager ACTIVE START [gitlab.com]\nHost gitlab.com\n# ssh-manager ACTIVE END [gitlab.com]\n";
    let t = format!("a\n{}z\n", other);
    let r = upsert_marker_block(&t, "github.com", &body("/k/a"));
    assert!(r.contains(other));
    let r2 = upsert_marker_block(&r, "github.com", &body("/k/b"));
    assert!(r2.contains(other));
}

#[test]
fn remove_after_upsert_restores_text() {
    let t = "Host x\n    HostName x\n";
    let r = upsert_marker_block(t, "github.com", &body("/k/a"));
    assert_eq!(remove_marker_block(&r, "github.com"), t);
    let unterminated = "Host x";
    let r2 = upsert_marker_block(unterminated, "github.com", &body("/k/a"));
    assert_eq!(remove_marker_block(&r2, "github.com"), "Host x\n");
}

#[test]
fn remove_without_block_is_unchanged() {
    assert_eq!(remove_marker_block("Host x\n", "github.com"), "Host x\n");
    assert_eq!(remove_marker_block("", "github.com"), "");
}

#[test]
fn start_without_end_is_kept_on_remove_and_repaired_on_upsert() {
    let t = "keep\n# ssh-manager ACTIVE START [gitlab.com]\nHost gitlab.com\n    IdentityFile /old\n";
    assert_eq!(remove_marker_block(t, "gitlab.com"), t);
    let b = active_body_text("gitlab.com", "/new");
    let r = upsert_marker_block(t, "gitlab.com", &b);
    assert_eq!(
        r,
        format!(
            "keep\n# ssh-manager ACTIVE START [gitlab.com]\n{}# ssh-manager ACTIVE END [gitlab.com]\n",
            b
        )
    );
}

#[test]
fn markers_handle_non_ascii_text() {
    let t = "# café ✓\n";
    let r = upsert_marker_block(t, "github.com", "Host ü\n");
    assert_eq!(r, format!("# café ✓\n{}Host ü\n{}", START_GH, END_GH));
    assert_eq!(remove_marker_block(&r, "github.com"), t);
}
