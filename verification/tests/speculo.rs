use speculo::errors::SpeculoError;
use speculo::lifecycle::{add_guard, classify_repo_output, mirror_guard, remove_guard, unlink_guard};
use speculo::names::{derive_name, resolve_name};
use speculo::push::{BaseOutcome, PushAllSession, PushEvent, PushPhase, RootEntry};
use speculo::remotes::{filter_mirror_remotes, parse_remotes, select_unlink_target, split_lines};
use speculo::stamp::mirror_remote_name;

fn remotes_of(listing: &str) -> Vec<(String, String)> {
    parse_remotes(listing)
        .into_iter()
        .map(|r| (r.name, r.url))
        .collect()
}

#[test]
fn derived_name_strips_git_extension() {
    assert_eq!(derive_name("https://example.com/repo.git"), "repo");
}

#[test]
fn derived_name_strips_other_extensions() {
    assert_eq!(derive_name("ssh://host/path/to/project.tar"), "project");
    assert_eq!(derive_name("git@git.example.org:user/thing.git"), "thing");
}

#[test]
fn derived_name_without_extension_is_whole_segment() {
    assert_eq!(derive_name("https://example.com/plain"), "plain");
}

#[test]
fn derived_name_keeps_leading_dot() {
    assert_eq!(derive_name("https://example.com/x/.git"), ".git");
}

#[test]
fn derived_name_strips_only_last_extension() {
    assert_eq!(derive_name("a/b/c.d.e"), "c.d");
}

#[test]
fn resolve_name_derives_when_no_name_given() {
    assert_eq!(
        resolve_name("https://example.com/repo.git", "").as_deref(),
        Some("repo")
    );
}

#[test]
fn resolve_name_refuses_url_ending_in_slash() {
    assert_eq!(resolve_name("http://host/group/", ""), None);
}

#[test]
fn resolve_name_uses_explicit_name_verbatim() {
    assert_eq!(
        resolve_name("https://example.com/repo.git", "custom").as_deref(),
        Some("custom")
    );
    assert_eq!(
        resolve_name("whatever shape, even no url", "weird.name").as_deref(),
        Some("weird.name")
    );
}

#[test]
fn add_refused_when_target_exists() {
    assert_eq!(add_guard(true), Err(SpeculoError::AlreadyExists));
}

#[test]
fn add_allowed_when_target_absent() {
    assert_eq!(add_guard(false), Ok(()));
}

#[test]
fn mirror_requires_existing_base() {
    assert_eq!(mirror_guard(false), Err(SpeculoError::NotFound));
    assert_eq!(mirror_guard(true), Ok(()));
}

#[test]
fn mirror_name_carries_the_timestamp() {
    assert_eq!(mirror_remote_name(0), "mirror-0");
    assert_eq!(mirror_remote_name(1700000000), "mirror-1700000000");
    assert_eq!(mirror_remote_name(u64::MAX), "mirror-18446744073709551615");
}

#[test]
fn mirror_names_collide_exactly_within_one_second() {
    let first = mirror_remote_name(1700000123);
    let again = mirror_remote_name(1700000123);
    let later = mirror_remote_name(1700000124);
    assert_eq!(first, again);
    assert_ne!(first, later);
}

#[test]
fn classifier_wants_success_and_false_token() {
    assert!(classify_repo_output(true, "false\n"));
    assert!(!classify_repo_output(true, "true\n"));
    assert!(!classify_repo_output(false, "false\n"));
    assert!(!classify_repo_output(true, ""));
}

#[test]
fn listing_lines_are_parsed_into_names_and_urls() {
    let listing = "origin\tgit@h:a/b.git (fetch)\norigin\tgit@h:a/b.git (push)\nmirror-1\tssh://m/x.git (fetch)\n";
    let rs = remotes_of(listing);
    assert_eq!(
        rs,
        vec![
            ("origin".to_string(), "git@h:a/b.git".to_string()),
            ("origin".to_string(), "git@h:a/b.git".to_string()),
            ("mirror-1".to_string(), "ssh://m/x.git".to_string()),
        ]
    );
}

#[test]
fn unlink_refuses_origin_even_on_url_match() {
    let listing = "origin\tgit@h:a/b.git (fetch)\nmirror-1\tssh://m/x.git (fetch)\n";
    let remotes = parse_remotes(listing);
    assert_eq!(
        select_unlink_target(&remotes, "git@h:a/b.git"),
        Err(SpeculoError::ProtectedRemote)
    );
}

#[test]
fn unlink_picks_first_matching_remote() {
    let listing = "origin\tgit@h:a/b.git (fetch)\nmirror-1\tssh://m/x.git (fetch)\nmirror-2\tssh://m/x.git (fetch)\n";
    let remotes = parse_remotes(listing);
    assert_eq!(
        select_unlink_target(&remotes, "ssh://m/x.git"),
        Ok("mirror-1".to_string())
    );
    // A substring of the URL is enough.
    assert_eq!(
        select_unlink_target(&remotes, "m/x"),
        Ok("mirror-1".to_string())
    );
}

#[test]
fn unlink_with_no_match_reports_not_found() {
    let listing = "origin\tgit@h:a/b.git (fetch)\nmirror-1\tssh://m/x.git (fetch)\n";
    let remotes = parse_remotes(listing);
    let before = remotes_of(listing);
    assert_eq!(
        select_unlink_target(&remotes, "nothing-like-this"),
        Err(SpeculoError::NotFound)
    );
    // Selection reads the listing only: the remotes are left as they were.
    let after: Vec<(String, String)> = remotes
        .into_iter()
        .map(|r| (r.name, r.url))
        .collect();
    assert_eq!(before, after);
}

#[test]
fn unlink_requires_a_repository() {
    assert_eq!(unlink_guard(false), Err(SpeculoError::NotARepository));
    assert_eq!(unlink_guard(true), Ok(()));
}

#[test]
fn remove_refuses_non_repository_and_deletes_nothing() {
    // An arbitrary directory that exists but is no git repository: the guard
    // denies the deletion outright.
    assert_eq!(remove_guard(false, true), Err(SpeculoError::NotARepository));
    // Classification is checked before existence.
    assert_eq!(remove_guard(false, false), Err(SpeculoError::NotARepository));
}

#[test]
fn remove_wants_an_existing_repository() {
    assert_eq!(remove_guard(true, false), Err(SpeculoError::NotFound));
    assert_eq!(remove_guard(true, true), Ok(()));
}

#[test]
fn split_lines_drops_empty_lines() {
    assert_eq!(
        split_lines("origin\nmirror-123\n\nmirror-456\n"),
        vec!["origin", "mirror-123", "mirror-456"]
    );
    assert_eq!(split_lines(""), Vec::<String>::new());
}

#[test]
fn only_mirror_remotes_are_pushed() {
    let names = split_lines("origin\nmirror-123\nupstream\nmirror-456\n");
    assert_eq!(
        filter_mirror_remotes(&names),
        vec!["mirror-123", "mirror-456"]
    );
}

#[test]
fn push_skips_a_base_that_is_no_repository() {
    let p = PushPhase::Classify;
    let e = PushEvent::Classified {
        success: true,
        output: "true\n".to_string(),
    };
    assert_eq!(
        speculo::push::push_step(p, e),
        PushPhase::Done {
            outcome: BaseOutcome::Skipped
        }
    );
}

#[test]
fn push_aborts_base_when_update_fails() {
    let p = PushPhase::Update;
    let e = PushEvent::UpdateDone { ok: false };
    assert_eq!(
        speculo::push::push_step(p, e),
        PushPhase::Done {
            outcome: BaseOutcome::UpdateFailed
        }
    );
}

#[test]
fn push_walks_every_mirror_remote() {
    let mut p = speculo::push::push_step(
        PushPhase::Classify,
        PushEvent::Classified {
            success: true,
            output: "false\n".to_string(),
        },
    );
    assert_eq!(p, PushPhase::Update);
    p = speculo::push::push_step(p, PushEvent::UpdateDone { ok: true });
    assert_eq!(p, PushPhase::Prune);
    p = speculo::push::push_step(p, PushEvent::PruneDone { ok: true });
    assert_eq!(p, PushPhase::List);
    p = speculo::push::push_step(
        p,
        PushEvent::Listed {
            output: "origin\nmirror-1\nmirror-2\n".to_string(),
        },
    );
    assert_eq!(
        p,
        PushPhase::Pushing {
            remotes: vec!["mirror-1".to_string(), "mirror-2".to_string()],
            next: 0,
            failed: false,
        }
    );
    // The first push fails; the second remote is still attempted and the
    // failure is recorded in the outcome.
    p = speculo::push::push_step(p, PushEvent::PushDone { ok: false });
    assert_eq!(
        p,
        PushPhase::Pushing {
            remotes: vec!["mirror-1".to_string(), "mirror-2".to_string()],
            next: 1,
            failed: true,
        }
    );
    p = speculo::push::push_step(p, PushEvent::PushDone { ok: true });
    assert_eq!(
        p,
        PushPhase::Done {
            outcome: BaseOutcome::Completed {
                any_push_failed: true
            }
        }
    );
}

#[test]
fn push_with_no_mirror_remotes_completes_cleanly() {
    let p = speculo::push::push_step(
        PushPhase::List,
        PushEvent::Listed {
            output: "origin\n".to_string(),
        },
    );
    assert_eq!(
        p,
        PushPhase::Done {
            outcome: BaseOutcome::Completed {
                any_push_failed: false
            }
        }
    );
}

fn entry(name: &str, is_dir: bool) -> RootEntry {
    RootEntry {
        name: name.to_string(),
        is_dir,
    }
}

#[test]
fn push_all_visits_every_directory_once() {
    let mut s = PushAllSession::new(vec![
        entry("alpha", true),
        entry("stray-file", false),
        entry("beta", true),
        entry("gamma", true),
    ]);
    assert_eq!(s.next_target().as_deref(), Some("alpha"));
    // The first base fails its origin-update step...
    let after_failure = speculo::push::push_step(PushPhase::Update, PushEvent::UpdateDone { ok: false });
    assert_eq!(
        after_failure,
        PushPhase::Done {
            outcome: BaseOutcome::UpdateFailed
        }
    );
    // ...and the remaining bases are still handed out.
    assert_eq!(s.next_target().as_deref(), Some("beta"));
    assert_eq!(s.next_target().as_deref(), Some("gamma"));
    assert_eq!(s.next_target(), None);
}

#[test]
fn whole_lifecycle_of_one_repository() {
    // add https://example.com/repo.git
    let name = resolve_name("https://example.com/repo.git", "").unwrap();
    assert_eq!(name, "repo");
    assert_eq!(add_guard(false), Ok(()));

    // mirror repo ssh://host/target.git
    assert_eq!(mirror_guard(true), Ok(()));
    let remote_name = mirror_remote_name(1700000777);
    assert_eq!(remote_name, "mirror-1700000777");

    // push repo: the new remote is among the push targets.
    let listing = format!(
        "origin\tgit@example.com:repo.git (fetch)\n{}\tssh://host/target.git (fetch)\n",
        remote_name
    );
    let names = split_lines("origin\nmirror-1700000777\n");
    assert_eq!(filter_mirror_remotes(&names), vec!["mirror-1700000777"]);

    // unlink repo ssh://host/target.git
    let remotes = parse_remotes(&listing);
    assert_eq!(
        select_unlink_target(&remotes, "ssh://host/target.git"),
        Ok("mirror-1700000777".to_string())
    );

    // After removal the query matches nothing.
    let remotes_after = parse_remotes("origin\tgit@example.com:repo.git (fetch)\n");
    assert_eq!(
        select_unlink_target(&remotes_after, "ssh://host/target.git"),
        Err(SpeculoError::NotFound)
    );

    // rm repo
    assert_eq!(remove_guard(true, true), Ok(()));
}

#[test]
fn listing_line_without_space_keeps_whole_url() {
    let rs = remotes_of("mirror-9\tssh://m/y.git");
    assert_eq!(rs, vec![("mirror-9".to_string(), "ssh://m/y.git".to_string())]);
}

#[test]
fn listing_line_without_tab_names_no_remote() {
    assert_eq!(remotes_of("garbage\n"), Vec::<(String, String)>::new());
    assert_eq!(remotes_of(""), Vec::<(String, String)>::new());
}

#[test]
fn subprocess_failure_carries_stderr() {
    let e = SpeculoError::SubprocessFailure("fatal: not a git repository\n".to_string());
    assert_eq!(
        e,
        SpeculoError::SubprocessFailure("fatal: not a git repository\n".to_string())
    );
    assert_ne!(e, SpeculoError::ConfigurationMissing);
}
