use maelstrom_core::job::{ExitCodeAccumulator, JobError, JobEffects, JobOutcome,
    JobOutputResult, JobStatus, JobTracker, exit_code_for, visit_result};
use maelstrom_core::upload::pad_or_truncate;
use maelstrom_core::upload::{construct_upload_name, ArtifactUploadTracker};

#[test]
fn pad_or_truncate_pads_with_zeros() {
    let data = vec![1u8, 2, 3];
    assert_eq!(pad_or_truncate(&data, 5), vec![1, 2, 3, 0, 0]);
    assert_eq!(pad_or_truncate(&data, 2), vec![1, 2]);
    assert_eq!(pad_or_truncate(&data, 3), vec![1, 2, 3]);
    assert_eq!(pad_or_truncate(&data, 0), vec![]);
}

#[test]
fn upload_name_has_short_digest_and_file_name() {
    let digest = "00e14955ebf1352266dc2ff8067e68104607e750abb9d3b36582b8af909fcb58";
    let name = construct_upload_name(&digest.to_string(), &"/x/y/a.tar".to_string());
    assert_eq!(name, "09fcb58 a.tar");
    let name = construct_upload_name(&digest.to_string(), &"a.tar".to_string());
    assert_eq!(name, "09fcb58 a.tar");
}

#[test]
fn upload_progress_never_exceeds_size() {
    let mut t = ArtifactUploadTracker::new();
    t.new_upload("909fcb58 a.tar".to_string(), 1_048_576);
    t.add_progress(&"909fcb58 a.tar".to_string(), 400_000);
    let snap = t.get_artifact_upload_progress();
    assert_eq!(snap.len(), 1);
    assert_eq!(snap[0].size, 1_048_576);
    assert_eq!(snap[0].progress, 400_000);
    t.add_progress(&"909fcb58 a.tar".to_string(), 648_576);
    let snap = t.get_artifact_upload_progress();
    assert_eq!(snap[0].progress, 1_048_576);
    // More reads than the header promised cannot push the counter past the
    // total size.
    t.add_progress(&"909fcb58 a.tar".to_string(), 123);
    let snap = t.get_artifact_upload_progress();
    assert!(snap[0].progress <= snap[0].size);
    assert_eq!(snap[0].progress, 1_048_576);
    // Completion removes the record.
    t.remove_upload(&"909fcb58 a.tar".to_string());
    assert!(t.get_artifact_upload_progress().is_empty());
}

#[test]
fn exit_codes_for_outcomes() {
    let effects = JobEffects {
        stdout: JobOutputResult::Empty,
        stderr: JobOutputResult::Empty,
        duration_nanos: 5,
    };
    assert_eq!(
        exit_code_for(&Ok(JobOutcome::Completed {
            status: JobStatus::Exited(0),
            effects: effects.clone()
        })),
        0
    );
    assert_eq!(
        exit_code_for(&Ok(JobOutcome::Completed {
            status: JobStatus::Exited(3),
            effects: effects.clone()
        })),
        3
    );
    assert_eq!(
        exit_code_for(&Ok(JobOutcome::Completed {
            status: JobStatus::Signaled(9),
            effects: effects.clone()
        })),
        1
    );
    assert_eq!(exit_code_for(&Ok(JobOutcome::TimedOut(effects.clone()))), 1);
    assert_eq!(
        exit_code_for(&Err(JobError::Execution("boom".into()))),
        1
    );
}

#[test]
fn visit_result_notes() {
    let effects = JobEffects {
        stdout: JobOutputResult::Empty,
        stderr: JobOutputResult::Empty,
        duration_nanos: 5,
    };
    let (code, note) = visit_result(
        0,
        &Ok(JobOutcome::Completed { status: JobStatus::Exited(0), effects: effects.clone() }),
    );
    assert_eq!(code, 0);
    assert_eq!(note, None);

    let (code, note) = visit_result(
        7,
        &Ok(JobOutcome::Completed { status: JobStatus::Exited(3), effects: effects.clone() }),
    );
    assert_eq!(code, 3);
    assert_eq!(note, Some("job 7: exited with code 3".to_string()));

    let (code, note) = visit_result(
        2,
        &Ok(JobOutcome::Completed { status: JobStatus::Signaled(9), effects: effects.clone() }),
    );
    assert_eq!(code, 1);
    assert_eq!(note, Some("job 2: killed by signal 9".to_string()));

    let (code, note) = visit_result(1, &Ok(JobOutcome::TimedOut(effects.clone())));
    assert_eq!(code, 1);
    assert_eq!(note, Some("job 1: timed out".to_string()));

    let (code, note) = visit_result(4, &Err(JobError::System("disk full".into())));
    assert_eq!(code, 1);
    assert_eq!(note, Some("job 4: system error: disk full".to_string()));
}

#[test]
fn tracker_counts_and_accumulates() {
    let mut t = JobTracker::new();
    t.add_outstanding();
    t.add_outstanding();
    assert!(!t.all_done());
    t.job_completed(0);
    t.job_completed(3);
    assert!(t.all_done());
    assert_eq!(t.accum.get(), 3);

    let mut acc = ExitCodeAccumulator::new();
    acc.add(0);
    assert_eq!(acc.get(), 0);
    acc.add(5);
    acc.add(7);
    // The first failure wins.
    assert_eq!(acc.get(), 5);
}
