use entry_commands::gate::Kind;
use entry_commands::job::{parse_entry, parse_environment, Entry, Job};
use entry_commands::logger::{Record, Role, Stream};

fn job(kind: Kind, target: &str, commands: &[&str], concurrent: bool) -> Entry {
    Entry::Job(Job {
        kind,
        target: target.to_string(),
        commands: commands.iter().map(|command| command.to_string()).collect(),
        concurrent,
    })
}

fn malformed(named: &str) -> Entry {
    Entry::Malformed(Record {
        role: Role::Malformed,
        text: format!("\x1b[31mE.\x1b[0m unrecognised format: {}", named),
    })
}

#[test]
fn a_key_without_the_prefix_is_unrelated() {
    assert_eq!(parse_entry("PATH", "/usr/bin"), Entry::Unrelated);
    assert_eq!(parse_entry("", ""), Entry::Unrelated);
    assert_eq!(parse_entry("EC", "ls"), Entry::Unrelated);
    assert_eq!(parse_entry("XEC_dir_a", "ls"), Entry::Unrelated);
    assert_eq!(parse_entry("dir_a", "ls"), Entry::Unrelated);
    assert_eq!(parse_entry("xyz_target", "ls"), Entry::Unrelated);
}

#[test]
fn the_prefix_is_matched_as_written() {
    assert_eq!(parse_entry("ec_dir_a", "ls"), Entry::Unrelated);
    assert_eq!(parse_entry("Ec_dir_a", "ls"), Entry::Unrelated);
    assert_eq!(parse_entry("EC-dir_a", "ls"), Entry::Unrelated);
}

#[test]
fn a_directory_job_is_declared() {
    assert_eq!(
        parse_entry("EC_dir_myfolder", "echo a,echo b"),
        job(Kind::Directory, "myfolder", &["echo a", "echo b"], false)
    );
}

#[test]
fn a_branch_job_is_declared() {
    assert_eq!(
        parse_entry("EC_bra_main", "make"),
        job(Kind::Branch, "main", &["make"], false)
    );
}

#[test]
fn the_kind_is_read_in_any_case_and_the_target_is_kept_as_written() {
    assert_eq!(
        parse_entry("EC_DIR_MyFolder", "ls"),
        job(Kind::Directory, "MyFolder", &["ls"], false)
    );
    assert_eq!(parse_entry("EC_Bra_Main", "ls"), job(Kind::Branch, "Main", &["ls"], false));
}

#[test]
fn the_concurrent_marker_asks_for_a_concurrent_job() {
    assert_eq!(
        parse_entry("EC_ASYNC_dir_app", "npm run watch,cargo watch"),
        job(Kind::Directory, "app", &["npm run watch", "cargo watch"], true)
    );
    assert_eq!(parse_entry("EC_ASYNC_BRA_dev", "ls"), job(Kind::Branch, "dev", &["ls"], true));
}

#[test]
fn the_concurrent_marker_is_matched_as_written() {
    assert_eq!(parse_entry("EC_async_dir_app", "ls"), malformed("async_dir_app"));
    assert_eq!(parse_entry("EC_Async_dir_app", "ls"), malformed("Async_dir_app"));
}

#[test]
fn only_the_first_segment_behind_the_kind_is_the_target() {
    assert_eq!(
        parse_entry("EC_dir_my_folder", "ls"),
        job(Kind::Directory, "my", &["ls"], false)
    );
    assert_eq!(
        parse_entry("EC_ASYNC_bra_a_b_c", "ls"),
        job(Kind::Branch, "a", &["ls"], true)
    );
}

#[test]
fn an_empty_target_is_a_target() {
    assert_eq!(parse_entry("EC_dir_", "ls"), job(Kind::Directory, "", &["ls"], false));
    assert_eq!(parse_entry("EC_dir__x", "ls"), job(Kind::Directory, "", &["ls"], false));
}

#[test]
fn an_unknown_kind_is_malformed() {
    assert_eq!(parse_entry("EC_xyz_target", "ls"), malformed("xyz_target"));
    assert_eq!(parse_entry("EC_directory_target", "ls"), malformed("directory_target"));
    assert_eq!(parse_entry("EC__target", "ls"), malformed("_target"));
    assert_eq!(parse_entry("EC_ASYNC_xyz_target", "ls"), malformed("ASYNC_xyz_target"));
}

#[test]
fn a_missing_target_is_malformed() {
    assert_eq!(parse_entry("EC_dir", "ls"), malformed("dir"));
    assert_eq!(parse_entry("EC_bra", "ls"), malformed("bra"));
    assert_eq!(parse_entry("EC_ASYNC_dir", "ls"), malformed("ASYNC_dir"));
    assert_eq!(parse_entry("EC_", "ls"), malformed(""));
    assert_eq!(parse_entry("EC_ASYNC_", "ls"), malformed("ASYNC_"));
    assert_eq!(parse_entry("EC_ASYNC", "ls"), malformed("ASYNC"));
}

#[test]
fn a_malformed_key_gives_one_error_line_for_the_error_stream() {
    match parse_entry("EC_xyz_target", "echo never") {
        Entry::Malformed(record) => {
            assert_eq!(record.role, Role::Malformed);
            assert_eq!(record.stream(), Stream::Error);
            assert_eq!(record.text, "\x1b[31mE.\x1b[0m unrecognised format: xyz_target");
            assert!(record.text.contains("xyz_target"));
        }
        other => panic!("{:?}", other),
    }
}

#[test]
fn the_commands_are_the_pieces_of_the_value_as_written() {
    assert_eq!(
        parse_entry("EC_dir_a", "echo 'a b' | wc -c, ls ,,x"),
        job(Kind::Directory, "a", &["echo 'a b' | wc -c", " ls ", "", "x"], false)
    );
    assert_eq!(parse_entry("EC_dir_a", ""), job(Kind::Directory, "a", &[""], false));
    assert_eq!(parse_entry("EC_dir_a", ","), job(Kind::Directory, "a", &["", ""], false));
}

#[test]
fn a_declared_job_has_at_least_one_command() {
    let values = ["", ",", "a", "a,b,c"];
    for value in values {
        match parse_entry("EC_bra_main", value) {
            Entry::Job(job) => assert!(job.commands.len() >= 1),
            other => panic!("{:?}", other),
        }
    }
}

#[test]
fn an_environment_is_read_in_its_order_and_unrelated_entries_leave_no_trace() {
    let entries: Vec<(String, String)> = vec![
        ("HOME".to_string(), "/root".to_string()),
        ("EC_dir_app".to_string(), "ls,pwd".to_string()),
        ("EC_xyz_target".to_string(), "ls".to_string()),
        ("PATH".to_string(), "/bin".to_string()),
        ("EC_ASYNC_bra_main".to_string(), "make".to_string()),
        ("ec_dir_app".to_string(), "ls".to_string()),
    ];
    assert_eq!(
        parse_environment(&entries),
        vec![
            job(Kind::Directory, "app", &["ls", "pwd"], false),
            malformed("xyz_target"),
            job(Kind::Branch, "main", &["make"], true),
        ]
    );
}

#[test]
fn an_environment_without_marked_keys_gives_nothing() {
    let entries: Vec<(String, String)> = vec![
        ("HOME".to_string(), "/root".to_string()),
        ("TERM".to_string(), "xterm".to_string()),
    ];
    assert_eq!(parse_environment(&entries), Vec::<Entry>::new());
    assert_eq!(parse_environment(&Vec::new()), Vec::<Entry>::new());
}

#[test]
fn reading_an_environment_twice_gives_the_same() {
    let entries: Vec<(String, String)> = vec![
        ("EC_dir_app".to_string(), "ls,pwd".to_string()),
        ("EC_nope".to_string(), "ls".to_string()),
    ];
    assert_eq!(parse_environment(&entries), parse_environment(&entries));
}
