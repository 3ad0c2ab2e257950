use depends::extract_deps;

#[test]
fn both_blocks_in_order() {
    let report = "Dump of file app.exe\n\
                  \n\
                  Image has the following dependencies:\n\
                  \x20   KERNEL32.dll\n\
                  \x20   USER32.dll\n\
                  \n\
                  Image has the following delay load dependencies:\n\
                  \x20   COMCTL32.dll\n\
                  \n\
                  Summary\n";
    let deps = extract_deps(report);
    assert_eq!(deps, vec!["KERNEL32.dll", "USER32.dll", "COMCTL32.dll"]);
}

#[test]
fn no_markers_yields_empty() {
    let report = "Dump of file app.exe\n\nSummary\n";
    let deps = extract_deps(report);
    assert!(deps.is_empty());
}

#[test]
fn empty_text_yields_empty() {
    assert!(extract_deps("").is_empty());
}

#[test]
fn primary_marker_only() {
    let report = "Image has the following dependencies:\n\
                  \x20 a.dll\n\
                  \x20 b.dll\n";
    let deps = extract_deps(report);
    assert_eq!(deps, vec!["a.dll", "b.dll"]);
}

#[test]
fn delay_marker_only() {
    let report = "Image has the following delay load dependencies:\n\
                  \x20 late.dll\n\
                  \n\
                  Summary\n";
    let deps = extract_deps(report);
    assert_eq!(deps, vec!["late.dll"]);
}

#[test]
fn blank_line_ends_block() {
    let report = "Image has the following dependencies:\n\
                  \x20 a.dll\n\
                  \n\
                  \x20 not-a-dep.dll\n";
    let deps = extract_deps(report);
    assert_eq!(deps, vec!["a.dll"]);
}

#[test]
fn blank_line_right_after_marker_yields_empty_block() {
    let report = "Image has the following dependencies:\n\n\x20 x.dll\n";
    assert!(extract_deps(report).is_empty());
}

#[test]
fn entries_are_trimmed() {
    let report = "Image has the following dependencies:\n\
                  \t  spaced.dll \r\n\
                  plain.dll\n\
                  \n";
    let deps = extract_deps(report);
    assert_eq!(deps, vec!["spaced.dll", "plain.dll"]);
}

#[test]
fn duplicates_within_report_are_preserved() {
    let report = "Image has the following dependencies:\n\
                  \x20 twice.dll\n\
                  \x20 twice.dll\n";
    let deps = extract_deps(report);
    assert_eq!(deps, vec!["twice.dll", "twice.dll"]);
}

#[test]
fn marker_line_matched_after_trimming() {
    let report = "  Image has the following dependencies:\r\n\
                  \x20 one.dll\n\
                  \n";
    let deps = extract_deps(report);
    assert_eq!(deps, vec!["one.dll"]);
}
