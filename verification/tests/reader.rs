use ade_core::event::PtyEvent;
use ade_core::pty::{create_pty, kill_pty, PtyInstance, PtyManager};
use ade_core::reader::{
    ReadLoop, ReadOutcome, ReaderDirective, ReaderPhase, ReaderStep, READ_CHUNK_SIZE,
};

fn manager_with_one() -> (PtyManager<&'static str>, u32) {
    let mut manager = PtyManager::new();
    let id = create_pty(&mut manager, Ok(PtyInstance { handles: "h", pid: None })).unwrap();
    (manager, id)
}

fn chunk(bytes: &[u8]) -> ReadOutcome {
    ReadOutcome::Chunk(bytes.to_vec())
}

/// Drives a unit the way a background thread does and collects its events.
fn run(
    manager: &mut PtyManager<&'static str>,
    id: u32,
    reads: Vec<ReadOutcome>,
) -> (Vec<PtyEvent>, ReaderPhase) {
    let mut unit = ReadLoop::new(id);
    let mut events = Vec::new();
    let mut reads = reads.into_iter();
    loop {
        match unit.directive() {
            ReaderDirective::Read => match reads.next() {
                Some(outcome) => {
                    let step = unit.on_read(outcome);
                    events.extend(step.emit);
                    assert_eq!(step.next, unit.directive());
                }
                None => break,
            },
            ReaderDirective::Close => {
                let (_removed, event) = unit.close(manager);
                if event.is_some() {
                    assert!(manager.instance(id).is_none());
                }
                events.extend(event);
            }
            ReaderDirective::Stop => break,
        }
    }
    (events, unit.phase())
}

#[test]
fn chunk_size_is_4096() {
    assert_eq!(READ_CHUNK_SIZE, 4096);
}

#[test]
fn new_unit_reads_first() {
    let unit = ReadLoop::new(3);
    assert_eq!(unit.id(), 3);
    assert_eq!(unit.phase(), ReaderPhase::Reading);
    assert_eq!(unit.directive(), ReaderDirective::Read);
}

#[test]
fn bytes_are_emitted_exactly_as_read() {
    let mut unit = ReadLoop::new(1);
    let step = unit.on_read(chunk(b"abc"));
    assert_eq!(
        step,
        ReaderStep {
            emit: Some(PtyEvent::Output { data: b"abc".to_vec() }),
            next: ReaderDirective::Read
        }
    );
    assert_eq!(unit.phase(), ReaderPhase::Reading);
}

#[test]
fn end_of_stream_emits_nothing_and_closes() {
    let mut unit = ReadLoop::new(1);
    let step = unit.on_read(chunk(b""));
    assert_eq!(step, ReaderStep { emit: None, next: ReaderDirective::Close });
    assert_eq!(unit.phase(), ReaderPhase::Closing);
}

#[test]
fn failed_read_emits_error_and_closes() {
    let mut unit = ReadLoop::new(1);
    let step = unit.on_read(ReadOutcome::Failed("io error".to_string()));
    assert_eq!(
        step,
        ReaderStep {
            emit: Some(PtyEvent::Error { message: "io error".to_string() }),
            next: ReaderDirective::Close
        }
    );
    assert_eq!(unit.phase(), ReaderPhase::Closing);
}

#[test]
fn close_removes_the_session_before_exit() {
    let (mut manager, id) = manager_with_one();
    let mut unit = ReadLoop::new(id);
    unit.on_read(chunk(b""));
    let (removed, event) = unit.close(&mut manager);
    assert!(removed.is_some());
    assert_eq!(event, Some(PtyEvent::Exit {}));
    assert!(manager.instance(id).is_none());
    assert_eq!(unit.phase(), ReaderPhase::Finished);
    assert_eq!(unit.directive(), ReaderDirective::Stop);
}

#[test]
fn close_tolerates_a_session_already_killed() {
    let (mut manager, id) = manager_with_one();
    let mut unit = ReadLoop::new(id);
    assert!(kill_pty(&mut manager, id).is_some());
    unit.on_read(ReadOutcome::Failed("closed".to_string()));
    let (removed, event) = unit.close(&mut manager);
    assert!(removed.is_none());
    assert_eq!(event, Some(PtyEvent::Exit {}));
}

#[test]
fn close_does_nothing_while_reading_or_when_finished() {
    let (mut manager, id) = manager_with_one();
    let mut unit = ReadLoop::new(id);
    let (removed, event) = unit.close(&mut manager);
    assert!(removed.is_none());
    assert_eq!(event, None);
    assert!(manager.instance(id).is_some());
    assert_eq!(unit.phase(), ReaderPhase::Reading);

    unit.on_read(chunk(b""));
    unit.close(&mut manager);
    let (removed, event) = unit.close(&mut manager);
    assert!(removed.is_none());
    assert_eq!(event, None);
    assert_eq!(unit.phase(), ReaderPhase::Finished);
}

#[test]
fn nothing_is_emitted_after_exit() {
    let (mut manager, id) = manager_with_one();
    let mut unit = ReadLoop::new(id);
    unit.on_read(chunk(b""));
    unit.close(&mut manager);
    let step = unit.on_read(chunk(b"late"));
    assert_eq!(step, ReaderStep { emit: None, next: ReaderDirective::Stop });
    let step = unit.on_read(ReadOutcome::Failed("late".to_string()));
    assert_eq!(step, ReaderStep { emit: None, next: ReaderDirective::Stop });
    assert_eq!(unit.phase(), ReaderPhase::Finished);
}

#[test]
fn reads_after_the_end_are_ignored_until_closed() {
    let mut unit = ReadLoop::new(1);
    unit.on_read(chunk(b""));
    let step = unit.on_read(chunk(b"more"));
    assert_eq!(step, ReaderStep { emit: None, next: ReaderDirective::Close });
    assert_eq!(unit.phase(), ReaderPhase::Closing);
}

#[test]
fn session_stream_is_output_then_exit() {
    let (mut manager, id) = manager_with_one();
    let (events, phase) =
        run(&mut manager, id, vec![chunk(b"one"), chunk(b"two"), chunk(b""), chunk(b"lost")]);
    assert_eq!(
        events,
        vec![
            PtyEvent::Output { data: b"one".to_vec() },
            PtyEvent::Output { data: b"two".to_vec() },
            PtyEvent::Exit {},
        ]
    );
    assert_eq!(phase, ReaderPhase::Finished);
    assert!(manager.instance(id).is_none());
}

#[test]
fn session_stream_with_error_ends_in_error_then_exit() {
    let (mut manager, id) = manager_with_one();
    let (events, phase) =
        run(&mut manager, id, vec![chunk(b"one"), ReadOutcome::Failed("bad fd".to_string())]);
    assert_eq!(
        events,
        vec![
            PtyEvent::Output { data: b"one".to_vec() },
            PtyEvent::Error { message: "bad fd".to_string() },
            PtyEvent::Exit {},
        ]
    );
    assert_eq!(phase, ReaderPhase::Finished);
}

#[test]
fn stream_has_exactly_one_exit_whatever_is_read() {
    let scripts: Vec<Vec<ReadOutcome>> = vec![
        vec![chunk(b"")],
        vec![ReadOutcome::Failed("x".to_string())],
        vec![chunk(b"a"), chunk(b"b"), chunk(b"c"), chunk(b"")],
        vec![chunk(b"a"), ReadOutcome::Failed("x".to_string()), chunk(b"b"), chunk(b"")],
        vec![chunk(b""), chunk(b""), ReadOutcome::Failed("x".to_string())],
    ];
    for script in scripts {
        let (mut manager, id) = manager_with_one();
        let (events, phase) = run(&mut manager, id, script);
        let exits = events.iter().filter(|event| matches!(event, PtyEvent::Exit {})).count();
        assert_eq!(exits, 1);
        assert_eq!(events.last(), Some(&PtyEvent::Exit {}));
        assert_eq!(phase, ReaderPhase::Finished);
    }
}
