use ade_core::writer::{IoError, WriteJob, WriteOutcome, WriteStep};

fn failed(message: &str) -> WriteOutcome {
    WriteOutcome::Failed { interrupted: false, message: message.to_string() }
}

fn interrupted() -> WriteOutcome {
    WriteOutcome::Failed { interrupted: true, message: "interrupted".to_string() }
}

fn error(message: &str) -> WriteStep {
    WriteStep::Finished(Err(IoError { message: message.to_string() }))
}

/// Runs one job against a sink that takes at most `limit` bytes a time.
fn deliver(sink: &mut Vec<u8>, data: &[u8], limit: usize) -> Result<(), IoError> {
    let mut job = WriteJob::new(data.to_vec());
    loop {
        match job.step() {
            WriteStep::Write { offset } => {
                assert_eq!(job.pending(), &data[offset..]);
                let taken = job.pending().len().min(limit);
                sink.extend_from_slice(&job.pending()[..taken]);
                job.record(WriteOutcome::Wrote(taken));
            }
            WriteStep::Flush => job.record(WriteOutcome::Flushed),
            WriteStep::Finished(result) => return result,
        }
    }
}

#[test]
fn whole_write_then_flush_succeeds() {
    let mut job = WriteJob::new(b"hello".to_vec());
    assert_eq!(job.step(), WriteStep::Write { offset: 0 });
    assert_eq!(job.pending(), b"hello");
    job.record(WriteOutcome::Wrote(5));
    assert_eq!(job.step(), WriteStep::Flush);
    assert_eq!(job.pending(), b"");
    job.record(WriteOutcome::Flushed);
    assert_eq!(job.step(), WriteStep::Finished(Ok(())));
}

#[test]
fn partial_writes_are_retried_with_the_rest() {
    let mut job = WriteJob::new(b"hello".to_vec());
    job.record(WriteOutcome::Wrote(2));
    assert_eq!(job.step(), WriteStep::Write { offset: 2 });
    assert_eq!(job.pending(), b"llo");
    job.record(WriteOutcome::Wrote(1));
    assert_eq!(job.step(), WriteStep::Write { offset: 3 });
    assert_eq!(job.pending(), b"lo");
    job.record(WriteOutcome::Wrote(2));
    assert_eq!(job.step(), WriteStep::Flush);
}

#[test]
fn empty_write_still_flushes() {
    let mut job = WriteJob::new(Vec::new());
    assert_eq!(job.step(), WriteStep::Flush);
    job.record(WriteOutcome::Flushed);
    assert_eq!(job.step(), WriteStep::Finished(Ok(())));
}

#[test]
fn skipped_job_is_done_without_a_step() {
    let mut job = WriteJob::skipped();
    assert_eq!(job.step(), WriteStep::Finished(Ok(())));
    job.record(WriteOutcome::Flushed);
    job.record(failed("late"));
    assert_eq!(job.step(), WriteStep::Finished(Ok(())));
}

#[test]
fn sink_that_takes_nothing_fails_the_write() {
    let mut job = WriteJob::new(b"abc".to_vec());
    job.record(WriteOutcome::Wrote(0));
    assert_eq!(job.step(), error("failed to write whole buffer"));
}

#[test]
fn interrupted_write_offers_the_same_bytes_again() {
    let mut job = WriteJob::new(b"abc".to_vec());
    job.record(WriteOutcome::Wrote(1));
    job.record(interrupted());
    assert_eq!(job.step(), WriteStep::Write { offset: 1 });
    assert_eq!(job.pending(), b"bc");
}

#[test]
fn write_error_ends_the_job_with_its_text() {
    let mut job = WriteJob::new(b"abc".to_vec());
    job.record(WriteOutcome::Wrote(1));
    job.record(failed("broken pipe"));
    assert_eq!(job.step(), error("broken pipe"));
    job.record(WriteOutcome::Wrote(2));
    job.record(WriteOutcome::Flushed);
    assert_eq!(job.step(), error("broken pipe"));
}

#[test]
fn flush_error_fails_the_write_even_when_interrupted() {
    let mut job = WriteJob::new(b"abc".to_vec());
    job.record(WriteOutcome::Wrote(3));
    job.record(interrupted());
    assert_eq!(job.step(), error("interrupted"));

    let mut other = WriteJob::new(b"abc".to_vec());
    other.record(WriteOutcome::Wrote(3));
    other.record(failed("disk full"));
    assert_eq!(other.step(), error("disk full"));
}

#[test]
fn reports_that_do_not_belong_to_the_step_are_ignored() {
    let mut job = WriteJob::new(b"abc".to_vec());
    job.record(WriteOutcome::Flushed);
    assert_eq!(job.step(), WriteStep::Write { offset: 0 });
    job.record(WriteOutcome::Wrote(3));
    job.record(WriteOutcome::Wrote(1));
    assert_eq!(job.step(), WriteStep::Flush);
}

#[test]
fn sink_receives_the_writes_joined_in_call_order() {
    for limit in 1..6 {
        let mut sink = Vec::new();
        assert_eq!(deliver(&mut sink, b"echo ", limit), Ok(()));
        assert_eq!(deliver(&mut sink, b"", limit), Ok(()));
        assert_eq!(deliver(&mut sink, b"hi", limit), Ok(()));
        assert_eq!(deliver(&mut sink, b"\n", limit), Ok(()));
        assert_eq!(sink, b"echo hi\n".to_vec());
    }
}

#[test]
fn failed_write_leaves_a_front_part_in_the_sink() {
    let mut sink = Vec::new();
    assert_eq!(deliver(&mut sink, b"ab", 1), Ok(()));

    let mut job = WriteJob::new(b"cdef".to_vec());
    sink.extend_from_slice(&job.pending()[..1]);
    job.record(WriteOutcome::Wrote(1));
    job.record(failed("broken pipe"));
    assert_eq!(job.step(), error("broken pipe"));

    assert_eq!(deliver(&mut sink, b"gh", 2), Ok(()));
    assert_eq!(sink, b"abcgh".to_vec());
}
