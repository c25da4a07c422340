use chevron::repo_status::{
    ahead_behind, current_branch, find_main_branch, format_age, plural, render_branch_status, render_ci_status,
    render_drift, render_header, render_open_prs, render_recent_commits, Commit, Head,
};
use git2::{BranchType, Repository, Signature};
use tempfile::TempDir;

fn init_repo(path: &std::path::Path) -> Repository {
    let repo = Repository::init(path).unwrap();
    {
        let sig = Signature::now("t", "t@example.com").unwrap();
        let tree_id = repo.index().unwrap().write_tree().unwrap();
        let tree = repo.find_tree(tree_id).unwrap();
        repo.commit(Some("HEAD"), &sig, &sig, "init", &tree, &[]).unwrap();
    }
    repo
}

fn head_of(repo: &Repository) -> Head {
    if repo.head_detached().unwrap_or(false) {
        let id = repo.head().ok().and_then(|h| h.peel_to_commit().ok()).map(|c| c.id().to_string());
        Head::Detached(id)
    } else {
        Head::Branch(repo.head().ok().and_then(|h| h.shorthand().ok().map(str::to_string)))
    }
}

fn main_of(repo: &Repository) -> &'static str {
    let has = |name: &str| repo.find_branch(name, BranchType::Local).is_ok();
    find_main_branch(has("main"), has("master"))
}

fn now_secs() -> u64 {
    std::time::SystemTime::now()
        .duration_since(std::time::UNIX_EPOCH)
        .map_or(0, |d| d.as_secs())
}

// --- words ---

#[test]
fn plural_one_is_empty() {
    assert_eq!(plural(1), "");
}

#[test]
fn plural_zero_and_many_is_s() {
    assert_eq!(plural(0), "s");
    assert_eq!(plural(2), "s");
    assert_eq!(plural(100), "s");
}

#[test]
fn format_age_just_now() {
    let now = now_secs();
    let out = format_age(now, now as i64);
    assert_eq!(out, "just now");
}

#[test]
fn format_age_minutes() {
    let now = now_secs();
    let out = format_age(now, now as i64 - 300);
    assert!(out.contains("min"), "expected 'min' in: {out}");
    assert!(out.contains("ago"), "expected 'ago' in: {out}");
    assert!(out.contains('5'), "expected '5' in: {out}");
}

#[test]
fn format_age_one_minute_singular() {
    let now = now_secs();
    let out = format_age(now, now as i64 - 60);
    assert!(out.contains("1 min ago"), "expected '1 min ago' in: {out}");
}

#[test]
fn format_age_hours() {
    let now = now_secs();
    let out = format_age(now, now as i64 - 7200);
    assert!(out.contains("hour"), "expected 'hour' in: {out}");
    assert!(out.contains('2'), "expected '2' in: {out}");
}

#[test]
fn format_age_one_hour_singular() {
    let now = now_secs();
    let out = format_age(now, now as i64 - 3600);
    assert!(
        out.contains("1 hour ago"),
        "expected '1 hour ago' in: {out}"
    );
}

#[test]
fn format_age_days() {
    let now = now_secs();
    let out = format_age(now, now as i64 - 3 * 86400);
    assert!(out.contains("day"), "expected 'day' in: {out}");
    assert!(out.contains('3'), "expected '3' in: {out}");
}

#[test]
fn format_age_one_day_singular() {
    let now = now_secs();
    let out = format_age(now, now as i64 - 86400);
    assert!(out.contains("1 day ago"), "expected '1 day ago' in: {out}");
}

#[test]
fn format_age_of_the_future_is_now() {
    assert_eq!(format_age(100, 500), "just now");
    assert_eq!(format_age(59, -1), "just now");
}

// --- branches ---

#[test]
fn find_main_branch_finds_initial_branch() {
    let tmp = TempDir::new().unwrap();
    let repo = init_repo(tmp.path());
    let branch = main_of(&repo);
    assert!(
        branch == "master" || branch == "main",
        "expected main or master, got: {branch}"
    );
}

#[test]
fn find_main_branch_falls_back_to_main() {
    let tmp = TempDir::new().unwrap();
    let repo = init_repo(tmp.path());
    let head_ref = repo.head().unwrap().target().unwrap();
    repo.branch("feature", &repo.find_commit(head_ref).unwrap(), false)
        .unwrap();
    repo.set_head("refs/heads/feature").unwrap();
    let orig = main_of(&repo);
    let mut orig_branch = repo.find_branch(orig, BranchType::Local).unwrap();
    orig_branch.delete().unwrap();

    let branch = main_of(&repo);
    assert_eq!(
        branch, "main",
        "should fall back to 'main' when neither exists"
    );
}

#[test]
fn current_branch_returns_branch_name() {
    let tmp = TempDir::new().unwrap();
    let repo = init_repo(tmp.path());
    let branch = current_branch(&head_of(&repo));
    assert!(
        branch == "master" || branch == "main",
        "expected branch name, got: {branch}"
    );
}

#[test]
fn current_branch_detached_returns_short_sha() {
    let tmp = TempDir::new().unwrap();
    let repo = init_repo(tmp.path());
    let head_oid = repo.head().unwrap().target().unwrap();
    let expected = head_oid.to_string()[..7].to_string();
    repo.set_head_detached(head_oid).unwrap();
    let branch = current_branch(&head_of(&repo));
    assert_eq!(branch, expected, "detached HEAD should show short SHA");
}

#[test]
fn a_place_that_cannot_be_read_is_head() {
    assert_eq!(current_branch(&Head::Detached(None)), "HEAD");
    assert_eq!(current_branch(&Head::Branch(None)), "HEAD");
}

#[test]
fn counts_are_capped() {
    assert_eq!(ahead_behind(None), (0, 0));
    assert_eq!(ahead_behind(Some((2, usize::MAX))), (2, u32::MAX));
}

// --- parts ---

#[test]
fn render_header_contains_branch_and_repo_name() {
    let tmp = TempDir::new().unwrap();
    let repo = init_repo(tmp.path());
    let mut out = String::new();
    render_header("repo", &current_branch(&head_of(&repo)), &mut out);
    assert!(!out.is_empty());
    assert!(
        out.contains("master") || out.contains("main"),
        "expected branch name in: {out}"
    );
}

#[test]
fn render_branch_status_no_upstream_is_up_to_date() {
    let mut out = String::new();
    let (ahead, behind) = ahead_behind(None);
    render_branch_status(ahead, behind, &mut out);
    assert!(
        out.contains("up to date"),
        "expected 'up to date' in: {out}"
    );
}

#[test]
fn render_branch_status_counts_commits() {
    let mut out = String::new();
    render_branch_status(1, 2, &mut out);
    assert_eq!(out, "  \x1b[33m1 commit ahead\x1b[0m\n  \x1b[33m2 commits behind\x1b[0m\n\n");
}

#[test]
fn render_recent_commits_shows_initial_commit() {
    let tmp = TempDir::new().unwrap();
    let repo = init_repo(tmp.path());
    let mut revwalk = repo.revwalk().unwrap();
    revwalk.push_head().unwrap();
    let commits = revwalk
        .flatten()
        .map(|oid| {
            repo.find_commit(oid).ok().map(|c| Commit {
                id: c.id().to_string(),
                summary: c.summary().ok().flatten().unwrap_or("").to_string(),
                time: c.time().seconds(),
            })
        })
        .collect();
    let mut out = String::new();
    render_recent_commits(&Some(commits), now_secs(), &mut out);
    assert!(out.contains("Recent commits"), "expected header in: {out}");
    assert!(
        out.contains("init"),
        "expected initial commit message in: {out}"
    );
}

#[test]
fn only_five_commits_are_looked_at() {
    let commit = |n: usize| {
        Some(Commit { id: "0123456789".to_string(), summary: format!("s{n}"), time: 0 })
    };
    let mut out = String::new();
    render_recent_commits(&Some((0..7).map(commit).collect()), 0, &mut out);
    assert!(out.contains("s4") && !out.contains("s5"));
    assert!(out.contains("0123456\x1b") && !out.contains("01234567"));
    let mut none = String::new();
    render_recent_commits(&Some(vec![None]), 0, &mut none);
    assert!(none.contains("(no commits)"));
    let mut unreadable = String::new();
    render_recent_commits(&None, 0, &mut unreadable);
    assert_eq!(unreadable, "\x1b[1mRecent commits:\x1b[0m\n");
}

#[test]
fn render_drift_on_main_branch_is_silent() {
    let tmp = TempDir::new().unwrap();
    let repo = init_repo(tmp.path());
    let mut out = String::new();
    render_drift(&current_branch(&head_of(&repo)), main_of(&repo), Some((0, 0)), &mut out);
    assert!(
        out.is_empty(),
        "render_drift should be silent when on main branch: {out}"
    );
}

#[test]
fn render_drift_on_feature_branch_shows_ahead() {
    let mut out = String::new();
    render_drift("feature", "main", Some((1, 0)), &mut out);
    assert!(out.contains("Drift"), "expected 'Drift' in: {out}");
    assert!(out.contains("ahead"), "expected 'ahead' in: {out}");
    let mut even = String::new();
    render_drift("feature", "main", Some((0, 0)), &mut even);
    assert!(even.contains("even"));
}

// --- requests and checks ---

#[test]
fn open_requests_are_listed() {
    let mut out = String::new();
    render_open_prs(true, &b"7\tFix it\tfix\tpassing\nbroken line\n8\tNew\tnew\tunknown\n".to_vec(), &mut out);
    assert_eq!(
        out,
        "\x1b[1mOpen PRs:\x1b[0m\n  \x1b[36m#7\x1b[0m Fix it (fix) [\x1b[32mpassing\x1b[0m]\n  \x1b[36m#8\x1b[0m New (new)\n\n"
    );
    let mut none = String::new();
    render_open_prs(true, &b"  \n".to_vec(), &mut none);
    render_open_prs(false, &b"7\ta\tb\tpassing\n".to_vec(), &mut none);
    assert!(none.is_empty());
}

#[test]
fn checks_are_listed_with_their_sign() {
    let mut out = String::new();
    render_ci_status(true, &b"build\tCOMPLETED\tSUCCESS\nlint\tIN_PROGRESS\t\nold\tX\tY\n".to_vec(), &mut out);
    assert!(out.contains("\x1b[32m\u{2713}\x1b[0m build"));
    assert!(out.contains("\x1b[33m\u{25cf}\x1b[0m lint"));
    assert!(out.contains("\x1b[90m\u{25cb}\x1b[0m old"));
}

#[test]
fn bytes_that_are_no_text_are_replaced() {
    let mut out = String::new();
    render_open_prs(true, &b"7\t\xff\tb\tfailing\n".to_vec(), &mut out);
    assert!(out.contains("\u{fffd} (b) [\x1b[31mfailing\x1b[0m]"));
}
