use entry_commands::dispatcher::{start, Dispatcher, Effect, Stage};
use entry_commands::gate::{Kind, Observation, ToolReport};
use entry_commands::job::{parse_entry, Entry, Job};
use entry_commands::logger::{Record, Role, Stream};
use entry_commands::runner::{Action, Event, Phase};

fn declared(key: &str, value: &str) -> Job {
    match parse_entry(key, value) {
        Entry::Job(job) => job,
        other => panic!("{:?}", other),
    }
}

fn folder(name: &str) -> Observation {
    Observation::Directory(Some(name.to_string()))
}

fn roles(effects: &[Effect]) -> Vec<Role> {
    let mut found: Vec<Role> = Vec::new();
    for effect in effects {
        if let Effect::Log(record) = effect {
            found.push(record.role);
        }
    }
    found
}

fn texts(effects: &[Effect]) -> Vec<String> {
    let mut found: Vec<String> = Vec::new();
    for effect in effects {
        if let Effect::Log(record) = effect {
            found.push(record.text.clone());
        }
    }
    found
}

fn position(effects: &[Effect], role: Role) -> Option<usize> {
    roles(effects).iter().position(|found| *found == role)
}

/// Answers every action with the report that a command gives which starts, writes the
/// lines given for it and exits.
fn serve(dispatcher: &mut Dispatcher, opened: Vec<Effect>, lines: &[Vec<&str>]) -> Vec<Effect> {
    let mut done: Vec<Effect> = Vec::new();
    let mut due: std::collections::VecDeque<Effect> = opened.into();
    let mut read: Vec<usize> = vec![0; lines.len()];
    while let Some(effect) = due.pop_front() {
        if let Effect::Perform { index, action } = &effect {
            let event = match action {
                Action::Spawn(_) => Event::Spawned,
                Action::OpenStream => Event::StreamOpened,
                Action::ReadLine => {
                    if read[*index] < lines[*index].len() {
                        read[*index] += 1;
                        Event::Line(lines[*index][read[*index] - 1].to_string())
                    } else {
                        Event::StreamEnded
                    }
                }
                Action::Wait => Event::Exited,
            };
            for next in dispatcher.step(*index, &event) {
                due.push_back(next);
            }
        }
        done.push(effect);
    }
    done
}

#[test]
fn a_matching_job_runs_its_commands_in_order() {
    let job = declared("EC_dir_myfolder", "echo a,echo b");
    let (mut dispatcher, opened) = start(job, &folder("myfolder"));
    assert_eq!(dispatcher.stage(), Stage::Running);
    let done = serve(&mut dispatcher, opened, &[vec!["a"], vec!["b"]]);
    assert_eq!(
        roles(&done),
        vec![
            Role::JobStart,
            Role::CommandStart(0),
            Role::Output(0),
            Role::CommandEnd(0),
            Role::CommandStart(1),
            Role::Output(1),
            Role::CommandEnd(1),
            Role::JobEnd,
        ]
    );
    assert_eq!(
        texts(&done),
        vec![
            "\x1b[32mI.\x1b[0m [+] dir myfolder",
            "\x1b[94m0.\x1b[0m [+] echo a",
            "\x1b[94m0.\x1b[0m a",
            "\x1b[94m0.\x1b[0m [-] echo a",
            "\x1b[95m1.\x1b[0m [+] echo b",
            "\x1b[95m1.\x1b[0m b",
            "\x1b[95m1.\x1b[0m [-] echo b",
            "\x1b[32mI.\x1b[0m [-] dir myfolder",
        ]
    );
    assert!(dispatcher.is_finished());
}

#[test]
fn the_shell_is_asked_for_each_command_with_its_streams_merged() {
    let job = declared("EC_dir_myfolder", "echo a,echo b");
    let (mut dispatcher, opened) = start(job, &folder("myfolder"));
    let done = serve(&mut dispatcher, opened, &[vec!["a"], vec!["b"]]);
    let mut scripts: Vec<(usize, String)> = Vec::new();
    for effect in &done {
        if let Effect::Perform { index, action: Action::Spawn(script) } = effect {
            scripts.push((*index, script.clone()));
        }
    }
    assert_eq!(
        scripts,
        vec![(0, "echo a 2>&1".to_string()), (1, "echo b 2>&1".to_string())]
    );
}

#[test]
fn the_gate_matches_whatever_the_case_of_the_name() {
    let job = declared("EC_DIR_MyFolder", "ls");
    let (dispatcher, opened) = start(job, &folder("myfolder"));
    assert_eq!(dispatcher.stage(), Stage::Running);
    assert_eq!(roles(&opened), vec![Role::JobStart, Role::CommandStart(0)]);
    assert_eq!(texts(&opened)[0], "\x1b[32mI.\x1b[0m [+] dir MyFolder");
}

#[test]
fn a_branch_job_runs_on_its_branch() {
    let seen = Observation::Branch(Some(ToolReport { success: true, stdout: b"main\n".to_vec() }));
    let (mut dispatcher, opened) = start(declared("EC_bra_MAIN", "make"), &seen);
    let done = serve(&mut dispatcher, opened, &[vec![]]);
    assert_eq!(
        texts(&done),
        vec![
            "\x1b[32mI.\x1b[0m [+] bra MAIN",
            "\x1b[94m0.\x1b[0m [+] make",
            "\x1b[94m0.\x1b[0m [-] make",
            "\x1b[32mI.\x1b[0m [-] bra MAIN",
        ]
    );
}

#[test]
fn a_job_whose_gate_does_not_match_is_silent() {
    let observations = [
        folder("elsewhere"),
        Observation::Directory(None),
        Observation::Branch(None),
        Observation::Branch(Some(ToolReport { success: true, stdout: b"myfolder".to_vec() })),
    ];
    for seen in observations.iter() {
        for key in ["EC_dir_myfolder", "EC_ASYNC_dir_myfolder"] {
            let (mut dispatcher, opened) = start(declared(key, "echo a,echo b"), seen);
            assert_eq!(opened, Vec::<Effect>::new());
            assert_eq!(dispatcher.stage(), Stage::Gated);
            let reports = [
                Event::Spawned,
                Event::StreamOpened,
                Event::Line("a".to_string()),
                Event::StreamEnded,
                Event::Exited,
                Event::Aborted,
            ];
            for event in reports.iter() {
                for index in 0..3usize {
                    assert_eq!(dispatcher.step(index, event), Vec::<Effect>::new());
                }
            }
            assert_eq!(dispatcher.stage(), Stage::Gated);
            assert_eq!(dispatcher.phase(0), Some(Phase::Idle));
            assert_eq!(dispatcher.phase(1), Some(Phase::Idle));
        }
    }
}

#[test]
fn an_unknown_kind_runs_nothing() {
    match parse_entry("EC_xyz_target", "echo a") {
        Entry::Malformed(record) => {
            assert_eq!(record.stream(), Stream::Error);
            assert_eq!(record.text, "\x1b[31mE.\x1b[0m unrecognised format: xyz_target");
        }
        other => panic!("{:?}", other),
    }
}

#[test]
fn a_sequential_job_begins_a_command_only_when_the_one_before_is_closed() {
    let job = declared("EC_dir_app", "A,B,C");
    let (mut dispatcher, opened) = start(job, &folder("app"));
    assert_eq!(roles(&opened), vec![Role::JobStart, Role::CommandStart(0)]);
    assert_eq!(dispatcher.phase(0), Some(Phase::Spawning));
    assert_eq!(dispatcher.phase(1), Some(Phase::Idle));
    assert_eq!(dispatcher.phase(2), Some(Phase::Idle));
    let done = serve(&mut dispatcher, opened, &[vec!["1", "2"], vec![], vec!["3"]]);
    let end_a = position(&done, Role::CommandEnd(0)).unwrap();
    let start_b = position(&done, Role::CommandStart(1)).unwrap();
    let end_b = position(&done, Role::CommandEnd(1)).unwrap();
    let start_c = position(&done, Role::CommandStart(2)).unwrap();
    let end_c = position(&done, Role::CommandEnd(2)).unwrap();
    let end = position(&done, Role::JobEnd).unwrap();
    assert!(end_a < start_b);
    assert!(end_b < start_c);
    assert!(end_c < end);
    assert_eq!(end, roles(&done).len() - 1);
}

#[test]
fn a_sequential_job_ignores_reports_about_commands_not_begun() {
    let job = declared("EC_dir_app", "A,B");
    let (mut dispatcher, _) = start(job, &folder("app"));
    assert_eq!(dispatcher.step(1, &Event::Spawned), Vec::<Effect>::new());
    assert_eq!(dispatcher.step(1, &Event::Aborted), Vec::<Effect>::new());
    assert_eq!(dispatcher.step(2, &Event::Spawned), Vec::<Effect>::new());
    assert_eq!(dispatcher.phase(1), Some(Phase::Idle));
    assert_eq!(dispatcher.phase(2), None);
    assert_eq!(dispatcher.len(), 2);
}

#[test]
fn a_failing_command_does_not_stop_the_ones_behind_it() {
    let job = declared("EC_dir_app", "A,B");
    let (mut dispatcher, opened) = start(job, &folder("app"));
    assert_eq!(roles(&opened), vec![Role::JobStart, Role::CommandStart(0)]);
    let failed = dispatcher.step(0, &Event::SpawnFailed);
    assert_eq!(
        failed,
        vec![
            Effect::Log(Record {
                role: Role::Failure(0),
                text: "\x1b[31mE.\x1b[0m [0] unable to start".to_string(),
            }),
            Effect::Log(Record {
                role: Role::CommandStart(1),
                text: "\x1b[95m1.\x1b[0m [+] B".to_string(),
            }),
            Effect::Perform { index: 1, action: Action::Spawn("B 2>&1".to_string()) },
        ]
    );
    let done = serve(&mut dispatcher, failed, &[vec![], vec!["b"]]);
    assert_eq!(
        roles(&done),
        vec![
            Role::Failure(0),
            Role::CommandStart(1),
            Role::Output(1),
            Role::CommandEnd(1),
            Role::JobEnd,
        ]
    );
}

#[test]
fn a_concurrent_job_begins_all_its_commands_at_once() {
    let job = declared("EC_ASYNC_dir_app", "A,B,C");
    let (dispatcher, opened) = start(job, &folder("app"));
    assert_eq!(
        opened,
        vec![
            Effect::Log(Record {
                role: Role::JobStart,
                text: "\x1b[32mI.\x1b[0m [+] dir app".to_string(),
            }),
            Effect::Log(Record {
                role: Role::CommandStart(0),
                text: "\x1b[94m0.\x1b[0m [+] A".to_string(),
            }),
            Effect::Perform { index: 0, action: Action::Spawn("A 2>&1".to_string()) },
            Effect::Log(Record {
                role: Role::CommandStart(1),
                text: "\x1b[95m1.\x1b[0m [+] B".to_string(),
            }),
            Effect::Perform { index: 1, action: Action::Spawn("B 2>&1".to_string()) },
            Effect::Log(Record {
                role: Role::CommandStart(2),
                text: "\x1b[96m2.\x1b[0m [+] C".to_string(),
            }),
            Effect::Perform { index: 2, action: Action::Spawn("C 2>&1".to_string()) },
        ]
    );
    for index in 0..3usize {
        assert_eq!(dispatcher.phase(index), Some(Phase::Spawning));
    }
}

#[test]
fn a_concurrent_job_ends_only_when_every_command_is_closed() {
    let job = declared("EC_ASYNC_dir_app", "A,B,C");
    let (mut dispatcher, _) = start(job, &folder("app"));
    let mut log: Vec<Effect> = Vec::new();
    for index in [2usize, 0, 1] {
        log.extend(dispatcher.step(index, &Event::Spawned));
        log.extend(dispatcher.step(index, &Event::StreamOpened));
    }
    log.extend(dispatcher.step(1, &Event::Line("b".to_string())));
    log.extend(dispatcher.step(0, &Event::Line("a".to_string())));
    for index in [1usize, 2, 0] {
        log.extend(dispatcher.step(index, &Event::StreamEnded));
    }
    log.extend(dispatcher.step(2, &Event::Exited));
    assert_eq!(position(&log, Role::JobEnd), None);
    assert!(!dispatcher.is_finished());
    log.extend(dispatcher.step(0, &Event::Exited));
    assert_eq!(position(&log, Role::JobEnd), None);
    assert!(!dispatcher.is_finished());
    let last = dispatcher.step(1, &Event::Exited);
    assert_eq!(roles(&last), vec![Role::CommandEnd(1), Role::JobEnd]);
    log.extend(last);
    assert!(dispatcher.is_finished());
    let end = position(&log, Role::JobEnd).unwrap();
    for index in 0..3usize {
        assert!(position(&log, Role::CommandEnd(index)).unwrap() < end);
    }
    assert_eq!(
        roles(&log),
        vec![
            Role::Output(1),
            Role::Output(0),
            Role::CommandEnd(2),
            Role::CommandEnd(0),
            Role::CommandEnd(1),
            Role::JobEnd,
        ]
    );
}

#[test]
fn a_concurrent_job_waits_for_all_even_where_one_breaks_down() {
    let job = declared("EC_ASYNC_bra_main", "A,B");
    let seen = Observation::Branch(Some(ToolReport { success: true, stdout: b"main\n".to_vec() }));
    let (mut dispatcher, _) = start(job, &seen);
    let broken = dispatcher.step(0, &Event::Aborted);
    assert_eq!(
        broken,
        vec![Effect::Log(Record {
            role: Role::Failure(0),
            text: "\x1b[31mE.\x1b[0m [0] thread panic".to_string(),
        })]
    );
    assert!(!dispatcher.is_finished());
    assert_eq!(dispatcher.step(1, &Event::Spawned).len(), 1);
    assert_eq!(dispatcher.step(1, &Event::StreamOpened).len(), 1);
    assert_eq!(dispatcher.step(1, &Event::StreamEnded).len(), 1);
    assert_eq!(
        roles(&dispatcher.step(1, &Event::WaitFailed("gone".to_string()))),
        vec![Role::Failure(1), Role::JobEnd]
    );
    assert!(dispatcher.is_finished());
}

#[test]
fn a_finished_job_answers_nothing_more() {
    let job = declared("EC_dir_app", "A");
    let (mut dispatcher, opened) = start(job, &folder("app"));
    serve(&mut dispatcher, opened, &[vec![]]);
    assert!(dispatcher.is_finished());
    assert_eq!(dispatcher.stage(), Stage::Running);
    for event in [Event::Spawned, Event::Exited, Event::Aborted, Event::Line("x".to_string())] {
        assert_eq!(dispatcher.step(0, &event), Vec::<Effect>::new());
    }
}

#[test]
fn a_job_without_commands_starts_and_ends_at_once() {
    for concurrent in [false, true] {
        let job = Job {
            kind: Kind::Directory,
            target: "app".to_string(),
            commands: Vec::new(),
            concurrent,
        };
        let (dispatcher, opened) = start(job, &folder("app"));
        assert_eq!(roles(&opened), vec![Role::JobStart, Role::JobEnd]);
        assert!(dispatcher.is_finished());
        assert_eq!(dispatcher.len(), 0);
    }
}

#[test]
fn running_a_job_again_gives_the_same_log() {
    for key in ["EC_dir_app", "EC_ASYNC_dir_app"] {
        let (mut first, opened) = start(declared(key, "A,B,C"), &folder("app"));
        let one = serve(&mut first, opened, &[vec!["x"], vec![], vec!["y", "z"]]);
        let (mut second, opened) = start(declared(key, "A,B,C"), &folder("app"));
        let two = serve(&mut second, opened, &[vec!["x"], vec![], vec!["y", "z"]]);
        assert_eq!(one, two);
        assert_eq!(first, second);
    }
}

#[test]
fn running_a_job_again_with_other_output_gives_a_log_of_the_same_shape() {
    let (mut first, opened) = start(declared("EC_dir_app", "A,B"), &folder("app"));
    let one = serve(&mut first, opened, &[vec!["x"], vec!["y"]]);
    let (mut second, opened) = start(declared("EC_dir_app", "A,B"), &folder("app"));
    let two = serve(&mut second, opened, &[vec!["something"], vec!["else"]]);
    assert_eq!(roles(&one), roles(&two));
    assert_eq!(first, second);
    let mut index: usize = 0;
    while index < one.len() {
        match (&one[index], &two[index]) {
            (Effect::Log(a), Effect::Log(b)) if matches!(a.role, Role::Output(_)) => {
                assert_ne!(a.text, b.text);
            }
            (a, b) => assert_eq!(a, b),
        }
        index += 1;
    }
}

#[test]
fn the_lines_of_a_command_are_logged_in_the_order_in_which_they_come() {
    let (mut dispatcher, opened) = start(declared("EC_dir_app", "A,B"), &folder("app"));
    let done = serve(&mut dispatcher, opened, &[vec!["1", "2", "3"], vec!["x", "y"]]);
    assert_eq!(
        texts(&done),
        vec![
            "\x1b[32mI.\x1b[0m [+] dir app",
            "\x1b[94m0.\x1b[0m [+] A",
            "\x1b[94m0.\x1b[0m 1",
            "\x1b[94m0.\x1b[0m 2",
            "\x1b[94m0.\x1b[0m 3",
            "\x1b[94m0.\x1b[0m [-] A",
            "\x1b[95m1.\x1b[0m [+] B",
            "\x1b[95m1.\x1b[0m x",
            "\x1b[95m1.\x1b[0m y",
            "\x1b[95m1.\x1b[0m [-] B",
            "\x1b[32mI.\x1b[0m [-] dir app",
        ]
    );
}

#[test]
fn the_lines_of_a_command_lie_between_its_markers_in_a_concurrent_job() {
    let (mut dispatcher, opened) = start(declared("EC_ASYNC_dir_app", "A,B"), &folder("app"));
    let mut log: Vec<Effect> = opened;
    for index in [1usize, 0] {
        log.extend(dispatcher.step(index, &Event::Spawned));
        log.extend(dispatcher.step(index, &Event::StreamOpened));
    }
    log.extend(dispatcher.step(0, &Event::Line("a1".to_string())));
    log.extend(dispatcher.step(1, &Event::Line("b1".to_string())));
    log.extend(dispatcher.step(0, &Event::Line("a2".to_string())));
    log.extend(dispatcher.step(1, &Event::StreamEnded));
    log.extend(dispatcher.step(1, &Event::Line("late".to_string())));
    log.extend(dispatcher.step(1, &Event::Exited));
    log.extend(dispatcher.step(0, &Event::Line("a3".to_string())));
    log.extend(dispatcher.step(0, &Event::ReadFailed));
    log.extend(dispatcher.step(0, &Event::Exited));
    assert_eq!(
        texts(&log),
        vec![
            "\x1b[32mI.\x1b[0m [+] dir app",
            "\x1b[94m0.\x1b[0m [+] A",
            "\x1b[95m1.\x1b[0m [+] B",
            "\x1b[94m0.\x1b[0m a1",
            "\x1b[95m1.\x1b[0m b1",
            "\x1b[94m0.\x1b[0m a2",
            "\x1b[95m1.\x1b[0m [-] B",
            "\x1b[94m0.\x1b[0m a3",
            "\x1b[94m0.\x1b[0m [-] A",
            "\x1b[32mI.\x1b[0m [-] dir app",
        ]
    );
}

fn besides_output(log: &[Effect]) -> Vec<(Role, String)> {
    let mut kept: Vec<(Role, String)> = Vec::new();
    for effect in log {
        if let Effect::Log(record) = effect {
            if !matches!(record.role, Role::Output(_)) {
                kept.push((record.role, record.text.clone()));
            }
        }
    }
    kept
}

#[test]
fn what_is_logged_besides_the_output_does_not_depend_on_the_output() {
    let (mut first, opened) = start(declared("EC_dir_app", "A,B"), &folder("app"));
    let one = serve(&mut first, opened, &[vec![], vec!["y"]]);
    let (mut second, opened) = start(declared("EC_dir_app", "A,B"), &folder("app"));
    let two = serve(&mut second, opened, &[vec!["p", "q", "r"], vec![]]);
    assert_ne!(one.len(), two.len());
    assert_eq!(besides_output(&one), besides_output(&two));
    assert_eq!(first, second);
}

#[test]
fn what_a_concurrent_job_logs_besides_the_output_does_not_depend_on_the_output() {
    let outputs: [Vec<&str>; 2] = [vec![], vec!["p", "q", "r"]];
    let mut logs: Vec<Vec<(Role, String)>> = Vec::new();
    for lines in outputs.iter() {
        let (mut dispatcher, opened) = start(declared("EC_ASYNC_dir_app", "A,B"), &folder("app"));
        let mut log: Vec<Effect> = opened;
        for index in [0usize, 1] {
            log.extend(dispatcher.step(index, &Event::Spawned));
            log.extend(dispatcher.step(index, &Event::StreamOpened));
        }
        for line in lines.iter() {
            log.extend(dispatcher.step(1, &Event::Line(line.to_string())));
            log.extend(dispatcher.step(0, &Event::Line(line.to_string())));
        }
        for index in [1usize, 0] {
            log.extend(dispatcher.step(index, &Event::StreamEnded));
            log.extend(dispatcher.step(index, &Event::Exited));
        }
        assert!(dispatcher.is_finished());
        logs.push(besides_output(&log));
    }
    assert_eq!(logs[0], logs[1]);
    assert_eq!(logs[0].len(), 6);
}
