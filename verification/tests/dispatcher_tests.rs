use maelstrom_core::dispatcher::{ArtifactType, BrokerToClient, Dispatcher, DispatcherAction,
    DispatcherMessage, JobSpec, JobStateCounts, LayerRef};
use maelstrom_core::job::{JobEffects, JobOutcome, JobOutputResult, JobStatus};

fn spec(program: &str) -> JobSpec {
    JobSpec { program: program.into(), arguments: vec![], layers: vec![] }
}

fn completed_ok() -> Result<JobOutcome, maelstrom_core::job::JobError> {
    Ok(JobOutcome::Completed {
        status: JobStatus::Exited(0),
        effects: JobEffects {
            stdout: JobOutputResult::Empty,
            stderr: JobOutputResult::Empty,
            duration_nanos: 1_000_000_000,
        },
    })
}

#[test]
fn simple_job_round_trip() {
    // Submit one job: it gets id zero and a request goes to the broker.
    let mut d = Dispatcher::new();
    let (actions, halt) = d.handle_message(DispatcherMessage::AddJob(spec("/bin/true")));
    assert!(!halt);
    assert_eq!(actions.len(), 1);
    match &actions[0] {
        DispatcherAction::SendJobRequest(cjid, s) => {
            assert_eq!(*cjid, 0);
            assert_eq!(s.program, "/bin/true".to_string());
        }
        _ => panic!("expected a job request"),
    }

    // The broker answers: the handler for job zero is invoked exactly once.
    let (actions, halt) = d.handle_message(DispatcherMessage::Broker(
        BrokerToClient::JobResponse(0, completed_ok()),
    ));
    assert!(!halt);
    assert_eq!(actions.len(), 1);
    match &actions[0] {
        DispatcherAction::InvokeHandler(cjid, res) => {
            assert_eq!(*cjid, 0);
            assert_eq!(*res, completed_ok());
        }
        _ => panic!("expected a handler invocation"),
    }

    // A stop with nothing outstanding terminates at once.
    let (actions, halt) = d.handle_message(DispatcherMessage::Stop);
    assert!(halt);
    assert!(actions.is_empty());
}

#[test]
fn stop_drains_outstanding_jobs() {
    let mut d = Dispatcher::new();
    let (_, _) = d.handle_message(DispatcherMessage::AddJob(spec("/bin/a")));
    let (_, _) = d.handle_message(DispatcherMessage::AddJob(spec("/bin/b")));
    // Stop with two jobs outstanding: keep going, draining.
    let (actions, halt) = d.handle_message(DispatcherMessage::Stop);
    assert!(!halt);
    assert!(actions.is_empty());
    // First response: still draining.
    let (_, halt) = d.handle_message(DispatcherMessage::Broker(BrokerToClient::JobResponse(
        0,
        completed_ok(),
    )));
    assert!(!halt);
    // Last response: terminate.
    let (_, halt) = d.handle_message(DispatcherMessage::Broker(BrokerToClient::JobResponse(
        1,
        completed_ok(),
    )));
    assert!(halt);
}

#[test]
fn artifact_push_on_demand() {
    let mut d = Dispatcher::new();
    let digest = "00e14955ebf1352266dc2ff8067e68104607e750abb9d3b36582b8af909fcb58";
    let (actions, _) = d.handle_message(DispatcherMessage::AddArtifact(
        "/a.tar".to_string(),
        digest.to_string(),
    ));
    assert!(actions.is_empty());

    // The broker asks for the artifact: exactly one push comes out.
    let (actions, halt) = d.handle_message(DispatcherMessage::Broker(
        BrokerToClient::TransferArtifact(digest.to_string()),
    ));
    assert!(!halt);
    assert_eq!(actions.len(), 1);
    match &actions[0] {
        DispatcherAction::PushArtifact { path, digest: dg } => {
            assert_eq!(path, "/a.tar");
            assert_eq!(dg, digest);
        }
        _ => panic!("expected a push"),
    }

    // A second request for the same digest while the first may still be in
    // flight is serviced again, independently.
    let (actions, _) = d.handle_message(DispatcherMessage::Broker(
        BrokerToClient::TransferArtifact(digest.to_string()),
    ));
    assert_eq!(actions.len(), 1);
    assert!(matches!(
        &actions[0],
        DispatcherAction::PushArtifact { .. }
    ));
}

#[test]
fn artifact_registration_is_idempotent_and_latest_wins() {
    let mut d = Dispatcher::new();
    let (_, _) = d.handle_message(DispatcherMessage::AddArtifact(
        "/a.tar".to_string(),
        "d1".to_string(),
    ));
    let (_, _) = d.handle_message(DispatcherMessage::AddArtifact(
        "/b.tar".to_string(),
        "d1".to_string(),
    ));
    let (actions, _) = d.handle_message(DispatcherMessage::Broker(
        BrokerToClient::TransferArtifact("d1".to_string()),
    ));
    match &actions[0] {
        DispatcherAction::PushArtifact { path, .. } => assert_eq!(path, "/b.tar"),
        _ => panic!("expected a push"),
    }
}

#[test]
fn stats_requests_are_answered_in_fifo_order() {
    let mut d = Dispatcher::new();
    let (actions, _) = d.handle_message(DispatcherMessage::GetJobStateCounts(7));
    assert!(matches!(&actions[0], DispatcherAction::SendStatsRequest));
    let (_, _) = d.handle_message(DispatcherMessage::GetJobStateCounts(8));
    let counts = JobStateCounts { waiting_for_artifacts: 1, pending: 2, running: 3, complete: 4 };
    let (actions, _) = d.handle_message(DispatcherMessage::Broker(
        BrokerToClient::JobStateCountsResponse(counts),
    ));
    match &actions[0] {
        DispatcherAction::DeliverStats(ticket, c) => {
            assert_eq!(*ticket, 7);
            assert_eq!(*c, counts);
        }
        _ => panic!("expected a delivery"),
    }
    let (actions, _) = d.handle_message(DispatcherMessage::Broker(
        BrokerToClient::JobStateCountsResponse(counts),
    ));
    match &actions[0] {
        DispatcherAction::DeliverStats(ticket, _) => assert_eq!(*ticket, 8),
        _ => panic!("expected a delivery"),
    }
}

#[test]
fn job_ids_are_assigned_in_order() {
    let mut d = Dispatcher::new();
    for expected in 0..5u32 {
        let (actions, _) = d.handle_message(DispatcherMessage::AddJob(JobSpec {
            program: "/bin/true".into(),
            arguments: vec!["x".into()],
            layers: vec![LayerRef { digest: "d".into(), kind: ArtifactType::Tar }],
        }));
        match &actions[0] {
            DispatcherAction::SendJobRequest(cjid, _) => assert_eq!(*cjid, expected),
            _ => panic!("expected a job request"),
        }
    }
}
