use ade_core::introspect::QueryError;
use ade_core::pty::{
    create_pty, get_pty_cwd, kill_pty, plan_launch, resize_pty, write_pty, HostEnv, PtyInstance,
    PtyManager, SpawnError, SpawnStage, TerminalSize,
};
use ade_core::writer::{WriteOutcome, WriteStep};

fn host() -> HostEnv {
    HostEnv {
        shell: Some("/bin/bash".to_string()),
        home: Some("/home/ada".to_string()),
        user: Some("ada".to_string()),
        path: Some("/usr/bin:/bin".to_string()),
        lang: Some("en_US.UTF-8".to_string()),
    }
}

fn bare_host() -> HostEnv {
    HostEnv { shell: None, home: None, user: None, path: None, lang: None }
}

fn session(pid: Option<u32>) -> PtyInstance<&'static str> {
    PtyInstance { handles: "handles", pid }
}

fn pair(name: &str, value: &str) -> (String, String) {
    (name.to_string(), value.to_string())
}

#[test]
fn launch_uses_the_configured_shell_as_login_shell() {
    let plan = plan_launch(24, 80, Some("/tmp".to_string()), &host());
    assert_eq!(plan.size, TerminalSize { rows: 24, cols: 80, pixel_width: 0, pixel_height: 0 });
    assert_eq!(plan.command.program, "/bin/bash");
    assert_eq!(plan.command.args, vec!["-l".to_string()]);
    assert_eq!(plan.command.cwd, Some("/tmp".to_string()));
}

#[test]
fn launch_falls_back_to_the_default_shell() {
    let plan = plan_launch(10, 20, None, &bare_host());
    assert_eq!(plan.command.program, "/bin/zsh");
    assert_eq!(plan.command.args, vec!["-l".to_string()]);
    assert_eq!(plan.command.cwd, None);
    assert_eq!(plan.command.env, vec![pair("TERM", "xterm-256color")]);
}

#[test]
fn launch_directory_falls_back_to_home() {
    let plan = plan_launch(24, 80, None, &host());
    assert_eq!(plan.command.cwd, Some("/home/ada".to_string()));
}

#[test]
fn launch_passes_on_only_the_listed_variables() {
    let plan = plan_launch(24, 80, None, &host());
    assert_eq!(
        plan.command.env,
        vec![
            pair("TERM", "xterm-256color"),
            pair("HOME", "/home/ada"),
            pair("USER", "ada"),
            pair("PATH", "/usr/bin:/bin"),
            pair("LANG", "en_US.UTF-8"),
        ]
    );
}

#[test]
fn launch_leaves_out_unset_variables() {
    let mut partial = bare_host();
    partial.path = Some("/bin".to_string());
    let plan = plan_launch(24, 80, None, &partial);
    assert_eq!(plan.command.env, vec![pair("TERM", "xterm-256color"), pair("PATH", "/bin")]);
}

#[test]
fn terminal_size_has_no_pixel_dimensions() {
    let size = TerminalSize::of_cells(50, 132);
    assert_eq!(size.rows, 50);
    assert_eq!(size.cols, 132);
    assert_eq!(size.pixel_width, 0);
    assert_eq!(size.pixel_height, 0);
}

#[test]
fn create_registers_sessions_under_increasing_ids() {
    let mut manager: PtyManager<&'static str> = PtyManager::new();
    assert!(manager.can_create());
    assert_eq!(create_pty(&mut manager, Ok(session(Some(100)))), Ok(1));
    assert_eq!(create_pty(&mut manager, Ok(session(Some(200)))), Ok(2));
    assert_eq!(create_pty(&mut manager, Ok(session(None))), Ok(3));
    assert_eq!(manager.len(), 3);
    assert_eq!(manager.instance(2).map(|instance| instance.pid), Some(Some(200)));
}

#[test]
fn failed_launch_leaves_no_session_and_uses_no_id() {
    let mut manager: PtyManager<&'static str> = PtyManager::new();
    let error = SpawnError { stage: SpawnStage::Spawn, detail: "no such file".to_string() };
    assert_eq!(create_pty(&mut manager, Err(error.clone())), Err(error));
    assert_eq!(manager.len(), 0);
    assert_eq!(create_pty(&mut manager, Ok(session(None))), Ok(1));
}

#[test]
fn spawn_errors_name_the_failed_step() {
    let error = |stage| SpawnError { stage, detail: "boom".to_string() };
    assert_eq!(error(SpawnStage::OpenPty).message(), "openpty failed: boom");
    assert_eq!(error(SpawnStage::Spawn).message(), "spawn failed: boom");
    assert_eq!(error(SpawnStage::TakeWriter).message(), "take_writer failed: boom");
    assert_eq!(error(SpawnStage::CloneReader).message(), "clone_reader failed: boom");
}

#[test]
fn ids_are_not_reused_after_a_kill() {
    let mut manager: PtyManager<&'static str> = PtyManager::new();
    assert_eq!(create_pty(&mut manager, Ok(session(None))), Ok(1));
    assert!(kill_pty(&mut manager, 1).is_some());
    assert_eq!(create_pty(&mut manager, Ok(session(None))), Ok(2));
    assert!(manager.instance(1).is_none());
}

#[test]
fn many_creations_give_distinct_increasing_ids() {
    let mut manager: PtyManager<&'static str> = PtyManager::new();
    let mut ids = Vec::new();
    for round in 0..50u32 {
        let id = create_pty(&mut manager, Ok(session(None))).unwrap();
        if round % 3 == 0 {
            kill_pty(&mut manager, id);
        }
        ids.push(id);
    }
    for pair in ids.windows(2) {
        assert!(pair[0] < pair[1]);
    }
    assert_eq!(ids[0], 1);
    assert_eq!(ids[49], 50);
}

#[test]
fn resize_asks_for_the_size_of_a_live_session_only() {
    let mut manager: PtyManager<&'static str> = PtyManager::new();
    let id = create_pty(&mut manager, Ok(session(None))).unwrap();
    assert_eq!(
        resize_pty(&manager, id, 40, 120),
        Some(TerminalSize { rows: 40, cols: 120, pixel_width: 0, pixel_height: 0 })
    );
    assert_eq!(resize_pty(&manager, id + 1, 40, 120), None);
}

#[test]
fn write_to_an_unknown_session_succeeds_at_once() {
    let manager: PtyManager<&'static str> = PtyManager::new();
    let job = write_pty(&manager, 9, b"ls\n".to_vec());
    assert_eq!(job.step(), WriteStep::Finished(Ok(())));
    assert_eq!(job.pending(), b"");
}

#[test]
fn kill_is_a_no_op_on_an_unknown_session() {
    let mut manager: PtyManager<&'static str> = PtyManager::new();
    let id = create_pty(&mut manager, Ok(session(None))).unwrap();
    assert!(kill_pty(&mut manager, id + 5).is_none());
    assert_eq!(manager.len(), 1);
}

#[test]
fn after_kill_every_operation_is_a_successful_no_op() {
    let mut manager: PtyManager<&'static str> = PtyManager::new();
    let id = create_pty(&mut manager, Ok(session(Some(42)))).unwrap();
    let killed = kill_pty(&mut manager, id);
    assert_eq!(killed.map(|instance| instance.pid), Some(Some(42)));
    assert!(manager.instance(id).is_none());
    assert!(manager.instance_mut(id).is_none());
    assert_eq!(write_pty(&manager, id, b"x".to_vec()).step(), WriteStep::Finished(Ok(())));
    assert_eq!(resize_pty(&manager, id, 1, 1), None);
    assert!(kill_pty(&mut manager, id).is_none());
    assert_eq!(get_pty_cwd(&manager, id), Err(QueryError::NotFound));
}

#[test]
fn cwd_lookup_starts_from_the_shell_pid() {
    let mut manager: PtyManager<&'static str> = PtyManager::new();
    let with_pid = create_pty(&mut manager, Ok(session(Some(4242)))).unwrap();
    let without_pid = create_pty(&mut manager, Ok(session(None))).unwrap();
    assert_eq!(get_pty_cwd(&manager, with_pid), Ok(4242));
    assert_eq!(get_pty_cwd(&manager, without_pid), Err(QueryError::NoPid));
    assert_eq!(get_pty_cwd(&manager, 77), Err(QueryError::NotFound));
}

#[test]
fn instance_mut_reaches_the_handles_of_one_session() {
    let mut manager: PtyManager<Vec<u8>> = PtyManager::new();
    let first = create_pty(&mut manager, Ok(PtyInstance { handles: vec![], pid: None })).unwrap();
    let second = create_pty(&mut manager, Ok(PtyInstance { handles: vec![], pid: None })).unwrap();
    manager.instance_mut(first).unwrap().handles.push(7);
    assert_eq!(manager.instance(first).unwrap().handles, vec![7]);
    assert_eq!(manager.instance(second).unwrap().handles, Vec::<u8>::new());
}

#[test]
fn scenario_create_write_kill_then_late_write() {
    let mut manager: PtyManager<Vec<u8>> = PtyManager::new();
    let plan = plan_launch(24, 80, Some("/tmp".to_string()), &host());
    assert_eq!(plan.size.rows, 24);
    assert_eq!(plan.size.cols, 80);
    assert_eq!(plan.command.cwd, Some("/tmp".to_string()));
    let id = create_pty(&mut manager, Ok(PtyInstance { handles: vec![], pid: Some(1234) }));
    assert_eq!(id, Ok(1));

    let mut job = write_pty(&manager, 1, b"echo hi\n".to_vec());
    loop {
        match job.step() {
            WriteStep::Write { offset } => {
                assert_eq!(&b"echo hi\n"[offset..], job.pending());
                let offered = job.pending().to_vec();
                let taken = offered.len().min(3);
                manager.instance_mut(1).unwrap().handles.extend_from_slice(&offered[..taken]);
                job.record(WriteOutcome::Wrote(taken));
            }
            WriteStep::Flush => job.record(WriteOutcome::Flushed),
            WriteStep::Finished(result) => {
                assert_eq!(result, Ok(()));
                break;
            }
        }
    }
    assert_eq!(manager.instance(1).unwrap().handles, b"echo hi\n".to_vec());

    assert!(kill_pty(&mut manager, 1).is_some());
    assert!(manager.instance(1).is_none());
    let late = write_pty(&manager, 1, b"exit\n".to_vec());
    assert_eq!(late.step(), WriteStep::Finished(Ok(())));
}
