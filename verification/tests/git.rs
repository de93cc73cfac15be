use passtui::pass::git::{
    has_origin, needs_upstream, parse_git_remote, parse_git_status_porcelain, reply_text,
    upstream_target, GitStatus, SyncStatus,
};

#[test]
fn test_parse_git_status_porcelain_synced() {
    let sample = "## main...origin/main\n";
    let (branch, upstream, ahead, behind, is_dirty) = parse_git_status_porcelain(sample);
    assert_eq!(branch, "main");
    assert_eq!(upstream.as_deref(), Some("origin/main"));
    assert_eq!(ahead, 0);
    assert_eq!(behind, 0);
    assert!(!is_dirty);
}

#[test]
fn test_parse_git_status_porcelain_ahead_behind() {
    let sample = "## feature/sync...origin/feature/sync [ahead 3, behind 1]\n M test.gpg\n";
    let (branch, upstream, ahead, behind, is_dirty) = parse_git_status_porcelain(sample);
    assert_eq!(branch, "feature/sync");
    assert_eq!(upstream.as_deref(), Some("origin/feature/sync"));
    assert_eq!(ahead, 3);
    assert_eq!(behind, 1);
    assert!(is_dirty);
}

#[test]
fn test_parse_git_status_porcelain_no_remote() {
    let sample = "## main\n";
    let (branch, upstream, ahead, behind, is_dirty) = parse_git_status_porcelain(sample);
    assert_eq!(branch, "main");
    assert_eq!(upstream, None);
    assert_eq!(ahead, 0);
    assert_eq!(behind, 0);
    assert!(!is_dirty);
}

#[test]
fn test_parse_git_remote() {
    let sample = "origin\tgit@github.com:user/passwords.git (fetch)\norigin\tgit@github.com:user/passwords.git (push)\n";
    let (name, url) = parse_git_remote(sample);
    assert_eq!(name.as_deref(), Some("origin"));
    assert_eq!(url.as_deref(), Some("git@github.com:user/passwords.git"));
}

#[test]
fn status_without_a_repository_is_empty() {
    let status = GitStatus::not_repo();
    assert!(!status.is_git_repo);
    assert_eq!(status.ahead, 0);
    assert_eq!(status.behind, 0);
    assert!(!status.is_dirty);
}

#[test]
fn reply_prefers_first_non_blank_stream() {
    assert_eq!(reply_text("  done\n", "warn", "fallback"), "done");
    assert_eq!(reply_text(" \n", " warn \n", "fallback"), "warn");
    assert_eq!(reply_text("", "  ", "Pushed successfully"), "Pushed successfully");
}

#[test]
fn push_without_upstream_is_recognised() {
    assert!(needs_upstream("fatal: The current branch main has no upstream branch."));
    assert!(needs_upstream("hint: use --set-upstream"));
    assert!(!needs_upstream("rejected: non-fast-forward"));
    assert_eq!(upstream_target(""), "main");
    assert_eq!(upstream_target("work"), "work");
}

#[test]
fn origin_is_found_on_its_own_line() {
    assert!(has_origin("backup\n  origin \n"));
    assert!(!has_origin("origins\nupstream\n"));
    assert!(!has_origin(""));
}

#[test]
fn sync_status_names_where_the_branch_stands() {
    let mut g = GitStatus::not_repo();
    g.is_git_repo = true;
    assert_eq!(g.sync_status(), SyncStatus::LocalOnly);
    g.remote_url = Some("git@example.com:me/pass.git".into());
    assert_eq!(g.sync_status(), SyncStatus::UpToDate);
    g.ahead = 2;
    assert_eq!(g.sync_status(), SyncStatus::Ahead(2));
    g.behind = 3;
    assert_eq!(g.sync_status(), SyncStatus::Diverged(2, 3));
    g.ahead = 0;
    assert_eq!(g.sync_status(), SyncStatus::Behind(3));
}
