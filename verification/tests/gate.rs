use entry_commands::gate::{
    gate, is_branch, is_directory, kind_code, kind_from_str, output_names_branch, Kind,
    Observation, ToolReport,
};

fn report(success: bool, stdout: &[u8]) -> ToolReport {
    ToolReport { success, stdout: stdout.to_vec() }
}

#[test]
fn the_two_codes_are_read_in_any_case() {
    assert_eq!(kind_from_str("dir"), Some(Kind::Directory));
    assert_eq!(kind_from_str("DIR"), Some(Kind::Directory));
    assert_eq!(kind_from_str("Dir"), Some(Kind::Directory));
    assert_eq!(kind_from_str("bra"), Some(Kind::Branch));
    assert_eq!(kind_from_str("BrA"), Some(Kind::Branch));
}

#[test]
fn any_other_code_is_no_kind() {
    assert_eq!(kind_from_str("xyz"), None);
    assert_eq!(kind_from_str(""), None);
    assert_eq!(kind_from_str("di"), None);
    assert_eq!(kind_from_str("dirs"), None);
    assert_eq!(kind_from_str("branch"), None);
    assert_eq!(kind_from_str(" dir"), None);
    assert_eq!(kind_from_str("ASYNC"), None);
}

#[test]
fn a_kind_has_its_code() {
    assert_eq!(kind_code(Kind::Directory), "dir");
    assert_eq!(kind_code(Kind::Branch), "bra");
    assert_eq!(kind_from_str(kind_code(Kind::Directory)), Some(Kind::Directory));
    assert_eq!(kind_from_str(kind_code(Kind::Branch)), Some(Kind::Branch));
}

#[test]
fn the_directory_gate_matches_the_name_whatever_its_case() {
    assert!(is_directory(Some("myfolder"), "MyFolder"));
    assert!(is_directory(Some("myfolder"), "myfolder"));
    assert!(is_directory(Some("MYFOLDER"), "myfolder"));
    assert!(is_directory(Some(""), ""));
    assert!(!is_directory(Some("myfolder"), "my"));
    assert!(!is_directory(Some("my"), "myfolder"));
    assert!(!is_directory(Some(" myfolder"), "myfolder"));
}

#[test]
fn an_unknown_directory_never_matches() {
    assert!(!is_directory(None, "myfolder"));
    assert!(!is_directory(None, ""));
}

#[test]
fn the_output_of_the_tool_is_trimmed_before_it_is_held_against_the_target() {
    assert!(output_names_branch("main\n", "main"));
    assert!(output_names_branch("  Main \r\n", "mAIN"));
    assert!(output_names_branch("", ""));
    assert!(!output_names_branch("main", " main"));
    assert!(!output_names_branch("main\n", "master"));
    assert!(!output_names_branch("ma in", "main"));
}

#[test]
fn the_branch_gate_matches_the_reported_branch() {
    assert!(is_branch(Some(&report(true, b"main\n")), "main"));
    assert!(is_branch(Some(&report(true, b"Feature/X\n")), "feature/x"));
    assert!(!is_branch(Some(&report(true, b"main\n")), "develop"));
    assert!(!is_branch(Some(&report(true, b"")), "main"));
}

#[test]
fn the_branch_gate_decodes_what_the_tool_wrote() {
    assert!(is_branch(Some(&report(true, "zweig-\u{e4}\n".as_bytes())), "ZWEIG-\u{e4}"));
    assert!(is_branch(Some(&report(true, b"ma\xffin\n")), "ma\u{fffd}in"));
    assert!(!is_branch(Some(&report(true, b"ma\xffin\n")), "main"));
}

#[test]
fn a_tool_that_failed_or_did_not_run_never_matches() {
    assert!(!is_branch(Some(&report(false, b"main\n")), "main"));
    assert!(!is_branch(Some(&report(false, b"")), ""));
    assert!(!is_branch(None, "main"));
    assert!(!is_branch(None, ""));
}

#[test]
fn the_gate_of_a_kind_reads_the_observation_made_for_it() {
    let folder = Observation::Directory(Some("myfolder".to_string()));
    let branch = Observation::Branch(Some(report(true, b"main\n")));
    assert!(gate(Kind::Directory, "MyFolder", &folder));
    assert!(!gate(Kind::Directory, "other", &folder));
    assert!(gate(Kind::Branch, "MAIN", &branch));
    assert!(!gate(Kind::Branch, "other", &branch));
}

#[test]
fn the_gate_fails_closed() {
    let folder = Observation::Directory(Some("main".to_string()));
    let branch = Observation::Branch(Some(report(true, b"main\n")));
    assert!(!gate(Kind::Branch, "main", &folder));
    assert!(!gate(Kind::Directory, "main", &branch));
    assert!(!gate(Kind::Directory, "main", &Observation::Directory(None)));
    assert!(!gate(Kind::Branch, "main", &Observation::Branch(None)));
    assert!(!gate(Kind::Branch, "main", &Observation::Branch(Some(report(false, b"main\n")))));
}
