use intercept::display::{envelope_summary, execution_summary, u64_to_decimal};
use intercept::intercept::{
    exit_code_from_status, insert_to_path, BuildCommand, InterceptEnvironment, FAILURE_EXIT_CODE,
    KEY_DESTINATION,
};
use intercept::model::{env_set, Envelope, Event, Execution, ProcessId, ReporterId};
use intercept::service::{shutdown_plan, ShutdownAction};

#[test]
fn insert_to_path_removes_existing_entry() {
    assert_eq!(insert_to_path("/a:/b", String::from("/a")), "/a:/b");
}

#[test]
fn insert_to_path_prepends_new_entry() {
    assert_eq!(insert_to_path("/b:/c", String::from("/a")), "/a:/b:/c");
}

#[test]
fn insert_to_path_on_empty_value_yields_entry_alone() {
    assert_eq!(insert_to_path("", String::from("/a")), "/a");
}

#[test]
fn insert_to_path_removes_entry_from_middle() {
    assert_eq!(insert_to_path("/b:/a:/c", String::from("/a")), "/a:/b:/c");
}

#[test]
fn insert_to_path_matches_exactly_not_normalized() {
    // "/a/" is not the same entry as "/a": both survive.
    assert_eq!(insert_to_path("/a/:/b", String::from("/a")), "/a:/a/:/b");
}

#[test]
fn exit_code_passes_reported_code_through() {
    assert_eq!(exit_code_from_status(Some(3)), 3);
    assert_eq!(exit_code_from_status(Some(0)), 0);
    assert_eq!(exit_code_from_status(Some(255)), 255);
}

#[test]
fn exit_code_for_signal_termination_is_failure() {
    assert_eq!(exit_code_from_status(None), FAILURE_EXIT_CODE);
}

#[test]
fn wrapper_overlay_rewrites_path_and_sets_destination() {
    let env = InterceptEnvironment::new_wrapper(
        String::from("/tmp/bear-xyz"),
        String::from("127.0.0.1:5555"),
    );
    assert_eq!(env.path_variable_name(), "PATH");
    let overlay = env.environment("/usr/bin:/bin");
    assert_eq!(overlay.len(), 2);
    assert_eq!(overlay[0].0, "PATH");
    assert_eq!(overlay[0].1, "/tmp/bear-xyz:/usr/bin:/bin");
    assert_eq!(overlay[1].0, KEY_DESTINATION);
    assert_eq!(overlay[1].1, "127.0.0.1:5555");
}

#[test]
fn preload_overlay_rewrites_preload_list() {
    let env = InterceptEnvironment::new_preload(
        String::from("/usr/lib/libintercept.so"),
        String::from("127.0.0.1:5556"),
    );
    assert_eq!(env.path_variable_name(), "LD_PRELOAD");
    let overlay = env.environment("");
    assert_eq!(overlay.len(), 2);
    assert_eq!(overlay[0].0, "LD_PRELOAD");
    assert_eq!(overlay[0].1, "/usr/lib/libintercept.so");
    assert_eq!(overlay[1].0, KEY_DESTINATION);
    assert_eq!(overlay[1].1, "127.0.0.1:5556");
}

#[test]
fn prepare_build_command_splits_program_and_arguments() {
    let env = InterceptEnvironment::new_preload(
        String::from("/usr/lib/libintercept.so"),
        String::from("127.0.0.1:5557"),
    );
    let command = BuildCommand {
        arguments: vec![
            String::from("make"),
            String::from("-j4"),
            String::from("all"),
        ],
    };
    let launch = env.prepare_build_command(&command, "").unwrap();
    assert_eq!(launch.program, "make");
    assert_eq!(launch.arguments, vec![String::from("-j4"), String::from("all")]);
    assert_eq!(launch.overlay.len(), 2);
}

#[test]
fn prepare_build_command_rejects_empty_command() {
    let env = InterceptEnvironment::new_preload(
        String::from("/usr/lib/libintercept.so"),
        String::from("127.0.0.1:5558"),
    );
    let command = BuildCommand { arguments: Vec::new() };
    assert!(env.prepare_build_command(&command, "").is_none());
}

#[test]
fn shutdown_plan_is_stop_then_join_network_then_join_processing() {
    let plan = shutdown_plan();
    assert_eq!(
        plan,
        vec![
            ShutdownAction::StopCollector,
            ShutdownAction::JoinNetworkWorker,
            ShutdownAction::JoinProcessingWorker,
        ]
    );
}

#[test]
fn env_set_last_write_wins() {
    let mut environment = vec![
        (String::from("PATH"), String::from("/bin")),
        (String::from("HOME"), String::from("/root")),
    ];
    env_set(&mut environment, String::from("PATH"), String::from("/usr/bin"));
    assert_eq!(
        environment,
        vec![
            (String::from("HOME"), String::from("/root")),
            (String::from("PATH"), String::from("/usr/bin")),
        ]
    );
}

#[test]
fn env_set_adds_fresh_key() {
    let mut environment: Vec<(String, String)> = Vec::new();
    env_set(&mut environment, String::from("LANG"), String::from("C"));
    assert_eq!(environment, vec![(String::from("LANG"), String::from("C"))]);
}

#[test]
fn decimal_rendering_is_exact() {
    assert_eq!(u64_to_decimal(0), "0");
    assert_eq!(u64_to_decimal(7), "7");
    assert_eq!(u64_to_decimal(1234567890), "1234567890");
    assert_eq!(u64_to_decimal(u64::MAX), "18446744073709551615");
}

#[test]
fn summaries_have_documented_shape() {
    let envelope = Envelope {
        rid: ReporterId(7),
        timestamp: 99,
        event: Event {
            pid: ProcessId(41),
            execution: Execution {
                executable: String::from("/usr/bin/cc"),
                arguments: vec![String::from("cc"), String::from("-c")],
                working_dir: String::from("/work"),
                environment: Vec::new(),
            },
        },
    };
    assert_eq!(
        execution_summary(&envelope.event.execution),
        "Execution path=/usr/bin/cc, args=[cc,-c]"
    );
    assert_eq!(
        envelope_summary(&envelope),
        "Envelope rid=7, timestamp=99, event=Event pid=41, \
         execution=Execution path=/usr/bin/cc, args=[cc,-c]"
    );
}
