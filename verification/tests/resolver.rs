use depends::{Action, Event, GraphResolver, NodeStatus, ResolveError};

fn located(loc: Option<&str>) -> Event {
    Event::Located { location: loc.map(|s| s.to_string()) }
}

fn reported(text: Option<&str>) -> Event {
    Event::Reported { text: text.map(|s| s.to_string()) }
}

fn expect_probe(m: &mut GraphResolver, a: Action, name: &str, answer: Option<&str>) -> Action {
    match a {
        Action::Probe { name: n, .. } => {
            assert_eq!(n, name);
            m.on_event(located(answer))
        }
        _ => panic!("expected a probe for {name}"),
    }
}

fn expect_analyze(m: &mut GraphResolver, a: Action, loc: &str, answer: Option<&str>) -> Action {
    match a {
        Action::Analyze { location } => {
            assert_eq!(location, loc);
            m.on_event(reported(answer))
        }
        _ => panic!("expected an analyze of {loc}"),
    }
}

#[test]
fn end_to_end_filtered_tree() {
    // Target `app.exe`: its report lists `user32.dll` (resolves into the
    // system directory, so it is filtered out) and `mylib.dll` (resolves
    // next to the target and has no dependencies of its own).
    let (mut m, a) = GraphResolver::start("C:/proj/app.exe", false);
    match &a {
        Action::Probe { name, dir } => {
            assert_eq!(name, "C:/proj/app.exe");
            assert_eq!(dir, "C:/proj");
        }
        _ => panic!("expected the root probe"),
    }
    let a = m.on_event(located(Some("C:/proj/app.exe")));
    let a = expect_analyze(
        &mut m,
        a,
        "C:/proj/app.exe",
        Some("Image has the following dependencies:\n    user32.dll\n    mylib.dll\n\nSummary\n"),
    );
    let a = expect_probe(&mut m, a, "user32.dll", Some("C:\\Windows\\System32\\user32.dll"));
    // user32.dll was suppressed by the path filter: the machine moves
    // straight on to the next reported name.
    let a = expect_probe(&mut m, a, "mylib.dll", Some("C:/proj/mylib.dll"));
    let a = expect_analyze(
        &mut m,
        a,
        "C:/proj/mylib.dll",
        Some("Image has the following dependencies:\n\nSummary\n"),
    );
    match a {
        Action::Done { root } => {
            let root = root.expect("root was not suppressed");
            assert_eq!(root.name, "app.exe");
            assert_eq!(root.location.as_deref(), Some("C:/proj/app.exe"));
            assert!(matches!(root.status, NodeStatus::Resolved));
            assert_eq!(root.children.len(), 1);
            let child = &root.children[0];
            assert_eq!(child.name, "mylib.dll");
            assert_eq!(child.location.as_deref(), Some("C:/proj/mylib.dll"));
            assert!(matches!(child.status, NodeStatus::Resolved));
            assert!(child.children.is_empty());
        }
        _ => panic!("expected the finished tree"),
    }
}

#[test]
fn show_system_keeps_system_modules() {
    let (mut m, a) = GraphResolver::start("C:/proj/app.exe", true);
    let a = expect_probe(&mut m, a, "C:/proj/app.exe", Some("C:/proj/app.exe"));
    let a = expect_analyze(
        &mut m,
        a,
        "C:/proj/app.exe",
        Some("Image has the following dependencies:\n    user32.dll\n\nSummary\n"),
    );
    let a = expect_probe(&mut m, a, "user32.dll", Some("C:\\Windows\\System32\\user32.dll"));
    let a = expect_analyze(
        &mut m,
        a,
        "C:\\Windows\\System32\\user32.dll",
        Some("Image has the following dependencies:\n\nSummary\n"),
    );
    match a {
        Action::Done { root } => {
            let root = root.unwrap();
            assert_eq!(root.children.len(), 1);
            assert_eq!(root.children[0].name, "user32.dll");
            assert_eq!(
                root.children[0].location.as_deref(),
                Some("C:\\Windows\\System32\\user32.dll")
            );
        }
        _ => panic!("expected the finished tree"),
    }
}

#[test]
fn name_filter_skips_stub_without_probing() {
    // With filtering on, an api-ms-* name must never be probed: the next
    // action after the report goes straight to the following name.
    let (mut m, a) = GraphResolver::start("C:/proj/app.exe", false);
    let a = expect_probe(&mut m, a, "C:/proj/app.exe", Some("C:/proj/app.exe"));
    let a = expect_analyze(
        &mut m,
        a,
        "C:/proj/app.exe",
        Some(
            "Image has the following dependencies:\n    \
             api-ms-win-core-util-l1-1-0.dll\n    mylib.dll\n\nSummary\n",
        ),
    );
    match &a {
        Action::Probe { name, .. } => assert_eq!(name, "mylib.dll"),
        _ => panic!("expected the probe to skip the stub"),
    }
    let a = expect_probe(&mut m, a, "mylib.dll", None);
    match a {
        Action::Done { root } => {
            let root = root.unwrap();
            assert_eq!(root.children.len(), 1);
            assert_eq!(root.children[0].name, "mylib.dll");
        }
        _ => panic!("expected the finished tree"),
    }
}

#[test]
fn show_system_probes_stub_names() {
    let (mut m, a) = GraphResolver::start("C:/proj/app.exe", true);
    let a = expect_probe(&mut m, a, "C:/proj/app.exe", Some("C:/proj/app.exe"));
    let a = expect_analyze(
        &mut m,
        a,
        "C:/proj/app.exe",
        Some("Image has the following dependencies:\n    api-ms-win-core-util-l1-1-0.dll\n\n"),
    );
    match &a {
        Action::Probe { name, .. } => assert_eq!(name, "api-ms-win-core-util-l1-1-0.dll"),
        _ => panic!("expected the stub to be probed when filters are off"),
    }
    let a = expect_probe(
        &mut m,
        a,
        "api-ms-win-core-util-l1-1-0.dll",
        Some("C:\\Windows\\System32\\api-ms-win-core-util-l1-1-0.dll"),
    );
    let a = expect_analyze(
        &mut m,
        a,
        "C:\\Windows\\System32\\api-ms-win-core-util-l1-1-0.dll",
        Some(""),
    );
    match a {
        Action::Done { root } => {
            let root = root.unwrap();
            assert_eq!(root.children.len(), 1);
            assert_eq!(root.children[0].name, "api-ms-win-core-util-l1-1-0.dll");
            assert!(root.children[0].location.is_some());
        }
        _ => panic!("expected the finished tree"),
    }
}

#[test]
fn unresolved_module_becomes_leaf_and_is_not_expanded() {
    let (mut m, a) = GraphResolver::start("C:/proj/app.exe", false);
    let a = expect_probe(&mut m, a, "C:/proj/app.exe", Some("C:/proj/app.exe"));
    let a = expect_analyze(
        &mut m,
        a,
        "C:/proj/app.exe",
        Some("Image has the following dependencies:\n    ghost.dll\n\nSummary\n"),
    );
    // ghost.dll resolves nowhere: the machine must not ask to analyze it.
    let a = expect_probe(&mut m, a, "ghost.dll", None);
    match a {
        Action::Done { root } => {
            let root = root.unwrap();
            assert_eq!(root.children.len(), 1);
            let leaf = &root.children[0];
            assert_eq!(leaf.name, "ghost.dll");
            assert!(leaf.location.is_none());
            assert!(matches!(leaf.status, NodeStatus::NotFound));
            assert!(leaf.children.is_empty());
        }
        _ => panic!("expected the finished tree"),
    }
}

#[test]
fn cycles_terminate_and_names_resolve_once() {
    // a.dll lists itself and the root: both are already visited, so the
    // run finishes without probing either of them again.
    let (mut m, a) = GraphResolver::start("app.exe", false);
    let a = expect_probe(&mut m, a, "app.exe", Some("C:/proj/app.exe"));
    let a = expect_analyze(
        &mut m,
        a,
        "C:/proj/app.exe",
        Some("Image has the following dependencies:\n    a.dll\n\nSummary\n"),
    );
    let a = expect_probe(&mut m, a, "a.dll", Some("C:/proj/a.dll"));
    let a = expect_analyze(
        &mut m,
        a,
        "C:/proj/a.dll",
        Some("Image has the following dependencies:\n    a.dll\n    app.exe\n\nSummary\n"),
    );
    match a {
        Action::Done { root } => {
            let root = root.unwrap();
            assert_eq!(root.name, "app.exe");
            assert_eq!(root.children.len(), 1);
            assert_eq!(root.children[0].name, "a.dll");
            assert!(root.children[0].children.is_empty());
        }
        _ => panic!("expected the run to end instead of re-probing"),
    }
}

#[test]
fn repeated_name_across_parents_appears_once() {
    // Both the root and b.dll list shared.dll; only the first encounter
    // produces a node.
    let (mut m, a) = GraphResolver::start("app.exe", false);
    let a = expect_probe(&mut m, a, "app.exe", Some("C:/p/app.exe"));
    let a = expect_analyze(
        &mut m,
        a,
        "C:/p/app.exe",
        Some("Image has the following dependencies:\n    shared.dll\n    b.dll\n\nSummary\n"),
    );
    let a = expect_probe(&mut m, a, "shared.dll", Some("C:/p/shared.dll"));
    let a = expect_analyze(&mut m, a, "C:/p/shared.dll", Some(""));
    let a = expect_probe(&mut m, a, "b.dll", Some("C:/p/b.dll"));
    let a = expect_analyze(
        &mut m,
        a,
        "C:/p/b.dll",
        Some("Image has the following dependencies:\n    shared.dll\n\nSummary\n"),
    );
    match a {
        Action::Done { root } => {
            let root = root.unwrap();
            assert_eq!(root.children.len(), 2);
            assert_eq!(root.children[0].name, "shared.dll");
            assert_eq!(root.children[1].name, "b.dll");
            // the second occurrence of shared.dll is dropped
            assert!(root.children[1].children.is_empty());
        }
        _ => panic!("expected the finished tree"),
    }
}

#[test]
fn children_keep_report_order_with_delay_load_last() {
    let (mut m, a) = GraphResolver::start("app.exe", false);
    let a = expect_probe(&mut m, a, "app.exe", Some("C:/p/app.exe"));
    let a = expect_analyze(
        &mut m,
        a,
        "C:/p/app.exe",
        Some(
            "Image has the following dependencies:\n    one.dll\n    two.dll\n\n\
             Image has the following delay load dependencies:\n    three.dll\n\nSummary\n",
        ),
    );
    let a = expect_probe(&mut m, a, "one.dll", None);
    let a = expect_probe(&mut m, a, "two.dll", None);
    let a = expect_probe(&mut m, a, "three.dll", None);
    match a {
        Action::Done { root } => {
            let root = root.unwrap();
            let names: Vec<&str> = root.children.iter().map(|c| c.name.as_str()).collect();
            assert_eq!(names, vec!["one.dll", "two.dll", "three.dll"]);
        }
        _ => panic!("expected the finished tree"),
    }
}

#[test]
fn root_not_found_is_fatal() {
    let (mut m, a) = GraphResolver::start("missing.exe", false);
    let a = expect_probe(&mut m, a, "missing.exe", None);
    assert!(matches!(a, Action::Fail { error: ResolveError::RootNotFound }));
}

#[test]
fn root_report_failure_is_fatal() {
    let (mut m, a) = GraphResolver::start("app.exe", false);
    let a = expect_probe(&mut m, a, "app.exe", Some("C:/p/app.exe"));
    let a = expect_analyze(&mut m, a, "C:/p/app.exe", None);
    assert!(matches!(a, Action::Fail { error: ResolveError::RootReportUnavailable }));
}

#[test]
fn child_report_failure_degrades_to_error_leaf() {
    let (mut m, a) = GraphResolver::start("app.exe", false);
    let a = expect_probe(&mut m, a, "app.exe", Some("C:/p/app.exe"));
    let a = expect_analyze(
        &mut m,
        a,
        "C:/p/app.exe",
        Some("Image has the following dependencies:\n    sad.dll\n\nSummary\n"),
    );
    let a = expect_probe(&mut m, a, "sad.dll", Some("C:/p/sad.dll"));
    let a = expect_analyze(&mut m, a, "C:/p/sad.dll", None);
    match a {
        Action::Done { root } => {
            let root = root.unwrap();
            assert_eq!(root.children.len(), 1);
            let leaf = &root.children[0];
            assert_eq!(leaf.name, "sad.dll");
            assert_eq!(leaf.location.as_deref(), Some("C:/p/sad.dll"));
            assert!(matches!(leaf.status, NodeStatus::ReportUnavailable));
            assert!(leaf.children.is_empty());
        }
        _ => panic!("expected the rest of the tree to survive"),
    }
}

#[test]
fn filtered_root_name_ends_run_without_probing() {
    let (_m, a) = GraphResolver::start("api-ms-win-core-util-l1-1-0.dll", false);
    match a {
        Action::Done { root } => assert!(root.is_none()),
        _ => panic!("expected the run to end with no tree"),
    }
}

#[test]
fn filtered_root_path_ends_run_without_tree() {
    let (mut m, a) = GraphResolver::start("user32.dll", false);
    let a = expect_probe(&mut m, a, "user32.dll", Some("C:\\Windows\\System32\\user32.dll"));
    match a {
        Action::Done { root } => assert!(root.is_none()),
        _ => panic!("expected the run to end with no tree"),
    }
}
