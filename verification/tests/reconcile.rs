use rotten::config::{declare, position, Config, LinkConfig};
use rotten::env::Env;
use rotten::reconcile::{
    count_failures, exit_code, is_among, plan, task_for, without_repetitions, Reconciler,
    ReportRow, Task,
};
use rotten::symlink::{Event, LinkError, Outcome, Request, SourceKind, Symlink, TargetKind};

fn home_env() -> Env {
    let mut env = Env::new();
    env.set("HOME".to_string(), "/home/bob".to_string());
    env
}

fn entry(from: &str, to: &str, disabled: Option<bool>) -> LinkConfig {
    LinkConfig { disabled, symlink: Symlink { from: from.to_string(), to: to.to_string() } }
}

fn table(entries: &[(&str, LinkConfig)]) -> Config {
    let mut config = Config::new();
    for (name, link) in entries {
        config.insert(name.to_string(), link.clone());
    }
    config
}

fn names(items: &[&str]) -> Vec<String> {
    items.iter().map(|s| s.to_string()).collect()
}

fn row(name: &str, result: Result<Outcome, LinkError>) -> ReportRow {
    ReportRow { name: name.to_string(), result }
}

/// Answers every request as a disk would on which each source is a
/// directory and nothing is at any target, except that targets in `taken`
/// hold a file.
fn drive(
    mut reconciler: Reconciler,
    mut next: Option<Request>,
    taken: &[&str],
) -> (Vec<ReportRow>, Vec<Request>) {
    let mut requests = Vec::new();
    while let Some(request) = next {
        requests.push(request.clone());
        let event = match request {
            Request::Probe { target, .. } => Event::Probed {
                source: SourceKind::Directory,
                target: if taken.contains(&target.as_str()) {
                    TargetKind::File
                } else {
                    TargetKind::Absent
                },
            },
            Request::RemoveTree { .. } | Request::RemoveFile { .. } => Event::Removed { ok: true },
            Request::CreateLink { .. } => Event::Linked { ok: true },
        };
        next = reconciler.step(event);
    }
    assert!(reconciler.is_finished());
    (reconciler.into_report().unwrap(), requests)
}

#[test]
fn one_link_is_created() {
    let config = table(&[("nvim", entry("nvim", "~/.config/nvim", Some(false)))]);
    let (reconciler, next) =
        Reconciler::start(&config, None, "/dot".to_string(), home_env(), false);
    let (report, requests) = drive(reconciler, next, &[]);
    assert_eq!(report, vec![row("nvim", Ok(Outcome::Created))]);
    assert_eq!(
        requests,
        vec![
            Request::Probe {
                source: "/dot/nvim".to_string(),
                target: "/home/bob/.config/nvim".to_string()
            },
            Request::CreateLink {
                source: "/dot/nvim".to_string(),
                target: "/home/bob/.config/nvim".to_string()
            },
        ]
    );
}

#[test]
fn a_disabled_link_is_skipped_and_nothing_is_asked() {
    let config = table(&[("nvim", entry("nvim", "~/.config/nvim", Some(true)))]);
    let (reconciler, next) =
        Reconciler::start(&config, None, "/dot".to_string(), home_env(), true);
    assert_eq!(next, None);
    assert!(reconciler.is_finished());
    assert_eq!(reconciler.into_report(), Some(vec![row("nvim", Ok(Outcome::Skipped))]));
}

#[test]
fn a_filter_leaves_out_what_it_does_not_name() {
    let config = table(&[
        ("nvim", entry("nvim", "~/.config/nvim", None)),
        ("emacs", entry("emacs", "~/.emacs.d", None)),
    ]);
    let filter = names(&["nvim"]);
    let (reconciler, next) =
        Reconciler::start(&config, Some(&filter), "/dot".to_string(), home_env(), false);
    let (report, requests) = drive(reconciler, next, &[]);
    assert_eq!(report, vec![row("nvim", Ok(Outcome::Created))]);
    assert!(requests.iter().all(|r| match r {
        Request::Probe { target, .. } | Request::CreateLink { target, .. } =>
            target == "/home/bob/.config/nvim",
        _ => false,
    }));
}

#[test]
fn without_a_filter_every_link_has_its_turn_in_table_order() {
    let config = table(&[
        ("nvim", entry("nvim", "~/.config/nvim", None)),
        ("emacs", entry("emacs", "~/.emacs.d", None)),
    ]);
    let (reconciler, next) =
        Reconciler::start(&config, None, "/dot".to_string(), home_env(), false);
    let (report, _) = drive(reconciler, next, &[]);
    assert_eq!(report, vec![row("nvim", Ok(Outcome::Created)), row("emacs", Ok(Outcome::Created))]);
}

#[test]
fn a_failure_does_not_stop_the_links_after_it() {
    let config = table(&[
        ("broken", entry("broken", "$NOWHERE/x", None)),
        ("nvim", entry("nvim", "~/.config/nvim", None)),
        ("off", entry("off", "~/.off", Some(true))),
        ("emacs", entry("emacs", "~/.emacs.d", None)),
        ("vim", entry("vim", "~/.vim", None)),
    ]);
    let filter = names(&["broken", "nvim", "ghost", "off", "emacs", "vim"]);
    let (reconciler, next) =
        Reconciler::start(&config, Some(&filter), "/dot".to_string(), home_env(), false);
    let (report, _) = drive(reconciler, next, &["/home/bob/.config/nvim"]);
    assert_eq!(
        report,
        vec![
            row("broken", Err(LinkError::ResolutionFailed)),
            row("nvim", Err(LinkError::TargetExists)),
            row("ghost", Err(LinkError::UnknownEntry)),
            row("off", Ok(Outcome::Skipped)),
            row("emacs", Ok(Outcome::Created)),
            row("vim", Ok(Outcome::Created)),
        ]
    );
    assert_eq!(count_failures(&report), 3);
    assert_eq!(exit_code(&report), 1);
}

#[test]
fn overwriting_replaces_what_is_in_the_way() {
    let config = table(&[("nvim", entry("nvim", "~/.config/nvim", None))]);
    let (reconciler, next) =
        Reconciler::start(&config, None, "/dot".to_string(), home_env(), true);
    let (report, requests) = drive(reconciler, next, &["/home/bob/.config/nvim"]);
    assert_eq!(report, vec![row("nvim", Ok(Outcome::Replaced))]);
    assert_eq!(
        requests[1],
        Request::RemoveTree { target: "/home/bob/.config/nvim".to_string() }
    );
}

#[test]
fn an_unknown_name_is_reported() {
    let config = table(&[("nvim", entry("nvim", "~/.config/nvim", None))]);
    let filter = names(&["vim"]);
    let (reconciler, next) =
        Reconciler::start(&config, Some(&filter), "/dot".to_string(), home_env(), false);
    assert_eq!(next, None);
    assert_eq!(reconciler.into_report(), Some(vec![row("vim", Err(LinkError::UnknownEntry))]));
}

#[test]
fn a_name_that_is_listed_twice_has_one_row() {
    let config = table(&[
        ("nvim", entry("nvim", "~/.config/nvim", None)),
        ("emacs", entry("emacs", "~/.emacs.d", None)),
    ]);
    let filter = names(&["emacs", "nvim", "emacs"]);
    let (reconciler, next) =
        Reconciler::start(&config, Some(&filter), "/dot".to_string(), home_env(), false);
    let (report, _) = drive(reconciler, next, &[]);
    assert_eq!(report, vec![row("emacs", Ok(Outcome::Created)), row("nvim", Ok(Outcome::Created))]);
}

#[test]
fn an_empty_table_is_done_at_once() {
    let config = Config::new();
    let (reconciler, next) =
        Reconciler::start(&config, None, "/dot".to_string(), home_env(), false);
    assert_eq!(next, None);
    assert_eq!(reconciler.into_report(), Some(vec![]));
}

#[test]
fn the_report_is_not_handed_out_before_the_end() {
    let config = table(&[("nvim", entry("nvim", "~/.config/nvim", None))]);
    let (reconciler, next) =
        Reconciler::start(&config, None, "/dot".to_string(), home_env(), false);
    assert!(next.is_some());
    assert!(!reconciler.is_finished());
    assert_eq!(reconciler.into_report(), None);
}

#[test]
fn an_event_after_the_end_changes_nothing() {
    let config = table(&[("nvim", entry("nvim", "~/.config/nvim", Some(true)))]);
    let (mut reconciler, _) =
        Reconciler::start(&config, None, "/dot".to_string(), home_env(), false);
    assert_eq!(reconciler.step(Event::Linked { ok: true }), None);
    assert_eq!(reconciler.into_report(), Some(vec![row("nvim", Ok(Outcome::Skipped))]));
}

#[test]
fn an_event_out_of_turn_is_answered_with_the_same_request() {
    let config = table(&[("nvim", entry("nvim", "~/.config/nvim", None))]);
    let (mut reconciler, first) =
        Reconciler::start(&config, None, "/dot".to_string(), home_env(), false);
    assert_eq!(reconciler.step(Event::Removed { ok: true }), first);
    assert_eq!(reconciler.report.len(), 0);
}

#[test]
fn tasks_follow_the_declarations() {
    let on = entry("a", "b", None);
    let off = entry("a", "b", Some(true));
    let on_too = entry("a", "b", Some(false));
    assert_eq!(task_for(Some(&on)), Task::Link(on.symlink.clone()));
    assert_eq!(task_for(Some(&on_too)), Task::Link(on.symlink.clone()));
    assert_eq!(task_for(Some(&off)), Task::Skip);
    assert_eq!(task_for(None), Task::Unknown);
}

#[test]
fn planning_keeps_the_order() {
    let config = table(&[("b", entry("b", "/b", None)), ("a", entry("a", "/a", Some(true)))]);
    assert_eq!(
        plan(&config, None),
        vec![
            ("b".to_string(), Task::Link(Symlink { from: "b".to_string(), to: "/b".to_string() })),
            ("a".to_string(), Task::Skip),
        ]
    );
    let filter = names(&["a", "c", "a"]);
    assert_eq!(
        plan(&config, Some(&filter)),
        vec![("a".to_string(), Task::Skip), ("c".to_string(), Task::Unknown)]
    );
}

#[test]
fn repetitions_are_dropped_where_they_come_later() {
    assert_eq!(without_repetitions(&names(&["a", "b", "a", "c", "b"])), names(&["a", "b", "c"]));
    assert_eq!(without_repetitions(&names(&[])), names(&[]));
    assert!(is_among(&names(&["a", "b"]), "b"));
    assert!(!is_among(&names(&["a", "b"]), "c"));
}

#[test]
fn the_exit_code_is_zero_only_without_failures() {
    assert_eq!(exit_code(&vec![]), 0);
    assert_eq!(
        exit_code(&vec![row("a", Ok(Outcome::Created)), row("b", Ok(Outcome::Skipped))]),
        0
    );
    assert_eq!(
        exit_code(&vec![row("a", Ok(Outcome::Created)), row("b", Err(LinkError::TargetExists))]),
        1
    );
    assert_eq!(
        count_failures(&vec![
            row("a", Err(LinkError::SourceMissing)),
            row("b", Err(LinkError::TargetExists))
        ]),
        2
    );
}

#[test]
fn a_row_in_words() {
    assert_eq!(row("nvim", Ok(Outcome::Created)).message(), "nvim: created");
    assert_eq!(
        row("nvim", Err(LinkError::SourceMissing)).message(),
        "nvim: the source does not exist"
    );
}

#[test]
fn a_table_replaces_what_was_declared_under_a_name() {
    let mut config = table(&[
        ("a", entry("a", "/a", None)),
        ("b", entry("b", "/b", None)),
    ]);
    config.insert("a".to_string(), entry("a2", "/a2", Some(true)));
    assert_eq!(config.links.len(), 2);
    assert_eq!(config.link("a"), Some(&entry("a2", "/a2", Some(true))));
    assert_eq!(config.link("b"), Some(&entry("b", "/b", None)));
    assert_eq!(config.link("c"), None);
    assert_eq!(config.links[0].0, "a");
}

#[test]
fn profiles_are_found_by_name() {
    let mut config = Config::new();
    assert_eq!(config.profile("work"), None);
    config.add_profile("work".to_string(), names(&["nvim", "git"]));
    config.add_profile("home".to_string(), names(&["nvim"]));
    config.add_profile("work".to_string(), names(&["git"]));
    assert_eq!(config.profile("work"), Some(&names(&["git"])));
    assert_eq!(config.profile("home"), Some(&names(&["nvim"])));
    assert_eq!(config.profile("play"), None);
}

#[test]
fn declaring_keeps_the_place_of_a_name() {
    let mut entries: Vec<(String, u8)> = Vec::new();
    declare(&mut entries, "a".to_string(), 1);
    declare(&mut entries, "b".to_string(), 2);
    declare(&mut entries, "c".to_string(), 3);
    declare(&mut entries, "b".to_string(), 4);
    assert_eq!(
        entries,
        vec![("a".to_string(), 1), ("b".to_string(), 4), ("c".to_string(), 3)]
    );
    assert_eq!(position(&entries, "c"), Some(2));
    assert_eq!(position(&entries, "d"), None);
    entries.push(("a".to_string(), 9));
    assert_eq!(position(&entries, "a"), Some(0));
}
