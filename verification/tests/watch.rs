use pipelight::watch::{
    classify, homologous_watchers, may_signal, should_quit, Change, PathFilter, Process, Signal,
    WatchAction, WatchEvent, WatchState,
};

fn process(pid: u32, command: &str, cwd: &str) -> Process {
    Process { pid, command: command.to_owned(), cwd: cwd.to_owned() }
}

#[test]
fn watcher_course() {
    let mut state = WatchState::new();
    assert_eq!(state, WatchState::Idle);
    // nothing is fired before the watcher watches
    assert_eq!(state.step(WatchEvent::Changed(Change::Relevant)), WatchAction::Wait);
    assert_eq!(state.step(WatchEvent::Surveyed { alive: true }), WatchAction::KillHomologous);
    assert_eq!(state, WatchState::Idle);
    assert_eq!(state.step(WatchEvent::Surveyed { alive: false }), WatchAction::Watch);
    assert_eq!(state, WatchState::Watching);
    assert_eq!(state.step(WatchEvent::Changed(Change::Relevant)), WatchAction::Fire);
    assert_eq!(state.step(WatchEvent::Changed(Change::Internal)), WatchAction::Wait);
    assert_eq!(state, WatchState::Watching);
    assert_eq!(state.step(WatchEvent::Changed(Change::IgnoreFile)), WatchAction::ReloadFilter);
    assert_eq!(state, WatchState::ReloadingFilter);
    assert_eq!(state.step(WatchEvent::Changed(Change::Relevant)), WatchAction::Wait);
    assert_eq!(state.step(WatchEvent::FilterReady), WatchAction::Wait);
    assert_eq!(state, WatchState::Watching);
    assert_eq!(state.step(WatchEvent::Signalled(Signal::Hangup)), WatchAction::Wait);
    assert_eq!(state, WatchState::Watching);
    assert_eq!(state.step(WatchEvent::Signalled(Signal::Terminate)), WatchAction::Quit);
    assert_eq!(state, WatchState::ShuttingDown);
    assert_eq!(state.step(WatchEvent::Changed(Change::Relevant)), WatchAction::Wait);
    assert_eq!(state.step(WatchEvent::Surveyed { alive: false }), WatchAction::Wait);
    assert_eq!(state.step(WatchEvent::Signalled(Signal::Interrupt)), WatchAction::Wait);
    assert_eq!(state, WatchState::ShuttingDown);
}

#[test]
fn interrupt_stops_from_any_state() {
    let mut idle = WatchState::Idle;
    assert_eq!(idle.step(WatchEvent::Signalled(Signal::Interrupt)), WatchAction::Quit);
    assert_eq!(idle, WatchState::ShuttingDown);
    let mut reloading = WatchState::ReloadingFilter;
    assert_eq!(reloading.step(WatchEvent::Signalled(Signal::Terminate)), WatchAction::Quit);
    assert_eq!(reloading, WatchState::ShuttingDown);
}

#[test]
fn quit_on_interrupt_or_terminate() {
    assert!(!should_quit(&vec![]));
    assert!(!should_quit(&vec![Signal::Hangup, Signal::Quit, Signal::Other]));
    assert!(should_quit(&vec![Signal::Hangup, Signal::Interrupt]));
    assert!(should_quit(&vec![Signal::Terminate]));
    assert!(Signal::Interrupt.is_stopping());
    assert!(!Signal::Quit.is_stopping());
}

#[test]
fn changed_paths_are_told_apart() {
    let fallback = PathFilter::new();
    let ig = ".pipelight_ignore";
    assert_eq!(classify(".pipelight_ignore", ig, &fallback), Change::IgnoreFile);
    assert_eq!(classify("./.pipelight_ignore", ig, &fallback), Change::IgnoreFile);
    assert_eq!(classify(".gitignore", "./.gitignore", &fallback), Change::IgnoreFile);
    assert_eq!(classify(".pipelight", ig, &fallback), Change::Internal);
    assert_eq!(classify(".pipelight/logs/x.json", ig, &fallback), Change::Internal);
    assert_eq!(classify("./.pipelight/_internals/out/1", ig, &fallback), Change::Internal);
    assert_eq!(classify(".pipelight/", ig, &fallback), Change::Internal);
    assert_eq!(classify(".pipelightrc", ig, &fallback), Change::Relevant);
    assert_eq!(classify("src/.pipelight/x", ig, &fallback), Change::Relevant);
    assert_eq!(classify("src/main.rs", ig, &fallback), Change::Relevant);
    assert_eq!(classify("", ig, &fallback), Change::Relevant);
    assert_eq!(classify("./", ig, &fallback), Change::Relevant);
    assert_eq!(classify("\u{e9}t\u{e9}/.pipelight", ig, &fallback), Change::Relevant);
}

#[test]
fn ignore_file_gives_the_filter() {
    let filter = PathFilter::from_ignore_file("# build output\ntarget/*\n\n*.log\n#x\nnode_modules/*");
    let patterns: Vec<String> = filter.patterns.iter().map(|p| p.iter().collect()).collect();
    assert_eq!(patterns, vec!["target/*", "*.log", "node_modules/*"]);
    assert!(filter.excludes("target/debug/build"));
    assert!(filter.excludes("./target/x"));
    assert!(filter.excludes("deep/down/app.log"));
    assert!(!filter.excludes("target"));
    assert!(!filter.excludes("src/main.rs"));
    assert!(!filter.excludes("app.logs"));
    let ig = ".pipelight_ignore";
    assert_eq!(classify("target/debug/x", ig, &filter), Change::Ignored);
    assert_eq!(classify("src/main.rs", ig, &filter), Change::Relevant);
    assert_eq!(classify(".pipelight/logs/a.log", ig, &filter), Change::Internal);
    assert_eq!(classify(ig, ig, &filter), Change::IgnoreFile);
}

#[test]
fn filter_falls_back_to_the_default() {
    let filter = PathFilter::rebuild(None);
    let patterns: Vec<String> = filter.patterns.iter().map(|p| p.iter().collect()).collect();
    assert_eq!(patterns, vec![".pipelight", ".pipelight/*"]);
    // the default leaves out the tool's own output, and nothing else
    assert!(filter.excludes(".pipelight"));
    assert!(filter.excludes(".pipelight/"));
    assert!(filter.excludes(".pipelight/logs/build.json"));
    assert!(filter.excludes("./.pipelight/_internals/out/1"));
    assert!(!filter.excludes(".pipelightrc"));
    assert!(!filter.excludes(".pipelight_ignore"));
    assert!(!filter.excludes("src/.pipelight/x"));
    assert!(!filter.excludes("anything"));
    assert!(!filter.excludes(""));
    assert_eq!(classify(".pipelight/out", "none", &filter), Change::Internal);
    assert_eq!(classify("src/main.rs", "none", &filter), Change::Relevant);
    let same: Vec<String> =
        PathFilter::new().patterns.iter().map(|p| p.iter().collect()).collect();
    assert_eq!(same, patterns);
    let filter = PathFilter::rebuild(Some("*.tmp\n"));
    assert_eq!(filter.patterns.len(), 1);
    assert!(filter.excludes("a.tmp"));
    assert!(!filter.excludes(".pipelight/x"));
    assert_eq!(PathFilter::from_ignore_file("").patterns.len(), 0);
    assert_eq!(PathFilter::from_ignore_file("\n\n#only\n").patterns.len(), 0);
}

#[test]
fn ignored_changes_fire_nothing() {
    let mut state = WatchState::Watching;
    assert_eq!(state.step(WatchEvent::Changed(Change::Ignored)), WatchAction::Wait);
    assert_eq!(state, WatchState::Watching);
}

#[test]
fn homologous_watchers_share_command_and_directory() {
    let own = process(10, "pipelight watch --attach", "/repo");
    let found = vec![
        process(7, "pipelight watch --attach", "/repo"),
        process(10, "pipelight watch --attach", "/repo"),
        process(8, "pipelight watch --attach", "/other"),
        process(9, "pipelight run", "/repo"),
        process(11, "pipelight watch --attach", "/repo"),
    ];
    assert_eq!(homologous_watchers(&own, &found), vec![7, 11]);
    assert!(own.is_homologous(&found[0]));
    assert!(!own.is_homologous(&found[1]));
    assert_eq!(homologous_watchers(&own, &vec![]), Vec::<u32>::new());
}

#[test]
fn a_lone_watcher_signals_nobody() {
    let own = process(10, "pipelight watch --attach", "/repo");
    let found = vec![process(10, "pipelight watch --attach", "/repo"), process(9, "sh", "/repo")];
    assert_eq!(pipelight::watch::kill_homologous(&own, &found), 0);
}

#[test]
fn the_own_group_and_the_first_process_get_no_signal() {
    assert!(may_signal(None, 2));
    assert!(may_signal(Some(7), 8));
    assert!(!may_signal(Some(7), 7));
    assert!(!may_signal(None, 1));
    assert!(!may_signal(Some(7), 1));
    assert!(!may_signal(None, 0));
    assert!(!may_signal(None, -5));
}
