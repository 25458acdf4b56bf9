use maelstrom_core::filter::SimpleFilter;
use maelstrom_core::test_db::{Artifact, CaseOutcome, OutcomeTimings, Package, TestDb, TimingData};
use CaseOutcome::{Failure, Success};

fn millis(n: u64) -> u64 {
    n * 1_000_000
}

fn data(
    when_read: Option<(CaseOutcome, Vec<u64>)>,
    this_run: Option<(CaseOutcome, Vec<u64>)>,
) -> TimingData {
    TimingData {
        when_read: when_read.map(|(outcome, timings)| OutcomeTimings { outcome, timings }),
        this_run: this_run.map(|(outcome, timings)| OutcomeTimings { outcome, timings }),
    }
}

fn artifact_from_cases(
    cases: Vec<(&str, Option<(CaseOutcome, Vec<u64>)>, Option<(CaseOutcome, Vec<u64>)>)>,
) -> Artifact<()> {
    Artifact {
        case_names: cases.iter().map(|(n, _, _)| (*n).to_string()).collect(),
        case_metas: cases.iter().map(|_| ()).collect(),
        case_timings: cases
            .into_iter()
            .map(|(_, when_read, this_run)| data(when_read, this_run))
            .collect(),
    }
}

fn db_from(entries: Vec<(&str, Vec<(&str, Artifact<()>)>)>) -> TestDb<()> {
    TestDb {
        package_names: entries.iter().map(|(n, _)| (*n).to_string()).collect(),
        packages: entries
            .into_iter()
            .map(|(_, arts)| Package {
                artifact_keys: arts.iter().map(|(k, _)| (*k).to_string()).collect(),
                artifacts: arts.into_iter().map(|(_, a)| a).collect(),
            })
            .collect(),
    }
}

fn cases(names: &[&str]) -> Vec<(String, ())> {
    names.iter().map(|n| ((*n).to_string(), ())).collect()
}

#[test]
fn update_artifact_cases() {
    let mut listing = db_from(vec![(
        "package-1",
        vec![(
            "artifact-1.library",
            artifact_from_cases(vec![
                (
                    "case-1-1L-1",
                    Some((Success, vec![millis(10), millis(11), millis(12)])),
                    None,
                ),
                (
                    "case-1-1L-2",
                    Some((Failure, vec![millis(20), millis(21)])),
                    None,
                ),
                ("case-1-1L-3", None, Some((Failure, vec![millis(30)]))),
            ]),
        )],
    )]);

    // Add some more cases with the same artifact name, but a different kind, in the same
    // package.
    listing.update_artifact_cases(
        &"package-1".to_string(),
        &"artifact-1.binary".to_string(),
        cases(&["case-1-1B-1", "case-1-1B-2", "case-1-1B-3"]),
    );
    assert_eq!(
        listing,
        db_from(vec![(
            "package-1",
            vec![
                (
                    "artifact-1.library",
                    artifact_from_cases(vec![
                        (
                            "case-1-1L-1",
                            Some((Success, vec![millis(10), millis(11), millis(12)])),
                            None,
                        ),
                        (
                            "case-1-1L-2",
                            Some((Failure, vec![millis(20), millis(21)])),
                            None,
                        ),
                        ("case-1-1L-3", None, Some((Failure, vec![millis(30)]))),
                    ]),
                ),
                (
                    "artifact-1.binary",
                    artifact_from_cases(vec![
                        ("case-1-1B-1", None, None),
                        ("case-1-1B-2", None, None),
                        ("case-1-1B-3", None, None),
                    ]),
                ),
            ],
        )]),
    );

    // Add some more cases that partially overlap with previous ones. This should retain the
    // timings, but remove cases that no longer exist.
    listing.update_artifact_cases(
        &"package-1".to_string(),
        &"artifact-1.library".to_string(),
        cases(&["case-1-1L-2", "case-1-1L-3", "case-1-1L-4"]),
    );
    listing.update_artifact_cases(
        &"package-1".to_string(),
        &"artifact-1.binary".to_string(),
        cases(&["case-1-1B-2", "case-1-1B-3", "case-1-1B-4"]),
    );
    assert_eq!(
        listing,
        db_from(vec![(
            "package-1",
            vec![
                (
                    "artifact-1.library",
                    artifact_from_cases(vec![
                        (
                            "case-1-1L-2",
                            Some((Failure, vec![millis(20), millis(21)])),
                            None,
                        ),
                        ("case-1-1L-3", None, Some((Failure, vec![millis(30)]))),
                        ("case-1-1L-4", None, None),
                    ]),
                ),
                (
                    "artifact-1.binary",
                    artifact_from_cases(vec![
                        ("case-1-1B-2", None, None),
                        ("case-1-1B-3", None, None),
                        ("case-1-1B-4", None, None),
                    ]),
                ),
            ],
        )]),
    );

    // Add some more cases for a different package. They should be independent.
    listing.update_artifact_cases(
        &"package-2".to_string(),
        &"artifact-1.library".to_string(),
        cases(&["case-2-1L-1", "case-2-1L-2", "case-2-1L-3"]),
    );
    assert_eq!(
        listing,
        db_from(vec![
            (
                "package-1",
                vec![
                    (
                        "artifact-1.library",
                        artifact_from_cases(vec![
                            (
                                "case-1-1L-2",
                                Some((Failure, vec![millis(20), millis(21)])),
                                None,
                            ),
                            ("case-1-1L-3", None, Some((Failure, vec![millis(30)]))),
                            ("case-1-1L-4", None, None),
                        ]),
                    ),
                    (
                        "artifact-1.binary",
                        artifact_from_cases(vec![
                            ("case-1-1B-2", None, None),
                            ("case-1-1B-3", None, None),
                            ("case-1-1B-4", None, None),
                        ]),
                    ),
                ],
            ),
            (
                "package-2",
                vec![(
                    "artifact-1.library",
                    artifact_from_cases(vec![
                        ("case-2-1L-1", None, None),
                        ("case-2-1L-2", None, None),
                        ("case-2-1L-3", None, None),
                    ]),
                )],
            ),
        ]),
    );
}

#[test]
fn update_artifact_cases_with_changed_metadata() {
    #[derive(Clone, Copy, Debug, Eq, Hash, Ord, PartialEq, PartialOrd)]
    enum FakeCaseMetadata {
        A,
        B,
    }

    let mut listing: TestDb<FakeCaseMetadata> = TestDb {
        package_names: vec!["package-1".to_string()],
        packages: vec![Package {
            artifact_keys: vec!["artifact-1.library".to_string()],
            artifacts: vec![Artifact {
                case_names: vec![
                    "case-1-1L-1".to_string(),
                    "case-1-1L-2".to_string(),
                    "case-1-1L-3".to_string(),
                ],
                case_metas: vec![FakeCaseMetadata::A, FakeCaseMetadata::A, FakeCaseMetadata::A],
                case_timings: vec![
                    data(
                        Some((Success, vec![millis(10), millis(11), millis(12)])),
                        None,
                    ),
                    data(Some((Failure, vec![millis(20), millis(21)])), None),
                    data(None, Some((Failure, vec![millis(30)]))),
                ],
            }],
        }],
    };

    // Add some more cases that partially overlap with previous ones. This should retain the
    // timings, but remove cases that no longer exist.
    listing.update_artifact_cases(
        &"package-1".to_string(),
        &"artifact-1.library".to_string(),
        vec![
            ("case-1-1L-2".to_string(), FakeCaseMetadata::B),
            ("case-1-1L-3".to_string(), FakeCaseMetadata::B),
            ("case-1-1L-4".to_string(), FakeCaseMetadata::B),
        ],
    );
    assert_eq!(
        listing,
        TestDb {
            package_names: vec!["package-1".to_string()],
            packages: vec![Package {
                artifact_keys: vec!["artifact-1.library".to_string()],
                artifacts: vec![Artifact {
                    case_names: vec![
                        "case-1-1L-2".to_string(),
                        "case-1-1L-3".to_string(),
                        "case-1-1L-4".to_string(),
                    ],
                    case_metas: vec![
                        FakeCaseMetadata::B,
                        FakeCaseMetadata::B,
                        FakeCaseMetadata::B
                    ],
                    case_timings: vec![
                        data(Some((Failure, vec![millis(20), millis(21)])), None),
                        data(None, Some((Failure, vec![millis(30)]))),
                        data(None, None),
                    ],
                }],
            }],
        },
    );
}

#[test]
fn retain_packages_and_artifacts() {
    let mut listing = db_from(vec![
        (
            "package-1",
            vec![
                (
                    "artifact-1.library",
                    artifact_from_cases(vec![
                        (
                            "case-1-1L-1",
                            Some((Failure, vec![millis(10), millis(11)])),
                            None,
                        ),
                        (
                            "case-1-1L-2",
                            Some((Success, vec![millis(20)])),
                            Some((Failure, vec![millis(20), millis(21)])),
                        ),
                    ]),
                ),
                (
                    "artifact-1.binary",
                    artifact_from_cases(vec![
                        (
                            "case-1-1B-1",
                            Some((Failure, vec![millis(15), millis(16)])),
                            None,
                        ),
                        (
                            "case-1-1B-2",
                            Some((Success, vec![millis(25)])),
                            Some((Success, vec![millis(25), millis(26)])),
                        ),
                    ]),
                ),
            ],
        ),
        (
            "package-2",
            vec![(
                "artifact-1.library",
                artifact_from_cases(vec![
                    (
                        "case-2-1L-1",
                        Some((Success, vec![millis(10), millis(12)])),
                        None,
                    ),
                    (
                        "case-2-1L-2",
                        Some((Failure, vec![millis(20), millis(22)])),
                        None,
                    ),
                ]),
            )],
        ),
    ]);

    listing.retain_packages_and_artifacts(&vec![
        (
            "package-1".to_string(),
            vec![
                "artifact-1.library".to_string(),
                "artifact-2.binary".to_string(),
            ],
        ),
        (
            "package-3".to_string(),
            vec!["artifact-1.library".to_string()],
        ),
    ]);

    assert_eq!(
        listing,
        db_from(vec![(
            "package-1",
            vec![(
                "artifact-1.library",
                artifact_from_cases(vec![
                    (
                        "case-1-1L-1",
                        Some((Failure, vec![millis(10), millis(11)])),
                        None
                    ),
                    (
                        "case-1-1L-2",
                        Some((Success, vec![millis(20)])),
                        Some((Failure, vec![millis(20), millis(21)])),
                    ),
                ]),
            )],
        )]),
    );
}

#[test]
fn add_timing_none_before() {
    let mut listing: TestDb<()> = TestDb::new();

    listing.update_artifact_cases(
        &"package-1".to_string(),
        &"artifact-1.library".to_string(),
        cases(&["case-1-1L-1"]),
    );

    listing.add_timing(
        &"package-1".to_string(),
        &"artifact-1.library".to_string(),
        &"case-1-1L-1".to_string(),
        false,
        millis(10),
    );
    assert_eq!(
        listing,
        db_from(vec![(
            "package-1",
            vec![(
                "artifact-1.library",
                artifact_from_cases(vec![(
                    "case-1-1L-1",
                    None,
                    Some((Success, vec![millis(10)]))
                )]),
            )],
        )]),
    );

    listing.add_timing(
        &"package-1".to_string(),
        &"artifact-1.library".to_string(),
        &"case-1-1L-1".to_string(),
        true,
        millis(11),
    );
    assert_eq!(
        listing,
        db_from(vec![(
            "package-1",
            vec![(
                "artifact-1.library",
                artifact_from_cases(vec![(
                    "case-1-1L-1",
                    None,
                    Some((Failure, vec![millis(10), millis(11)]))
                )]),
            )],
        )]),
    );

    listing.add_timing(
        &"package-1".to_string(),
        &"artifact-1.library".to_string(),
        &"case-1-1L-1".to_string(),
        false,
        millis(12),
    );
    assert_eq!(
        listing,
        db_from(vec![(
            "package-1",
            vec![(
                "artifact-1.library",
                artifact_from_cases(vec![(
                    "case-1-1L-1",
                    None,
                    Some((Failure, vec![millis(10), millis(11), millis(12)]))
                )]),
            )],
        )]),
    );

    listing.add_timing(
        &"package-1".to_string(),
        &"artifact-1.library".to_string(),
        &"case-1-1L-1".to_string(),
        false,
        millis(13),
    );
    assert_eq!(
        listing,
        db_from(vec![(
            "package-1",
            vec![(
                "artifact-1.library",
                artifact_from_cases(vec![(
                    "case-1-1L-1",
                    None,
                    Some((Failure, vec![millis(11), millis(12), millis(13)]))
                )]),
            )],
        )]),
    );
}

#[test]
fn add_timing_already_too_many() {
    let mut listing = db_from(vec![(
        "package-1",
        vec![(
            "artifact-1.library",
            artifact_from_cases(vec![(
                "case-1-1L-1",
                Some((
                    Failure,
                    vec![
                        millis(10),
                        millis(11),
                        millis(12),
                        millis(13),
                        millis(14),
                    ],
                )),
                None,
            )]),
        )],
    )]);

    listing.add_timing(
        &"package-1".to_string(),
        &"artifact-1.library".to_string(),
        &"case-1-1L-1".to_string(),
        false,
        millis(15),
    );
    assert_eq!(
        listing,
        db_from(vec![(
            "package-1",
            vec![(
                "artifact-1.library",
                artifact_from_cases(vec![(
                    "case-1-1L-1",
                    Some((
                        Failure,
                        vec![
                            millis(10),
                            millis(11),
                            millis(12),
                            millis(13),
                            millis(14)
                        ]
                    )),
                    Some((Success, vec![millis(13), millis(14), millis(15)])),
                )]),
            )],
        )]),
    );
}

#[test]
fn get_timing() {
    let listing = db_from(vec![(
        "package-1",
        vec![(
            "artifact-1.library",
            artifact_from_cases(vec![
                ("case-1", None, None),
                ("case-2", Some((Failure, vec![millis(10)])), None),
                (
                    "case-3",
                    Some((Success, vec![millis(10), millis(12)])),
                    None,
                ),
                (
                    "case-4",
                    None,
                    Some((Success, vec![millis(10), millis(12)])),
                ),
            ]),
        )],
    )]);

    let p = "package-1".to_string();
    let a = "artifact-1.library".to_string();
    assert_eq!(listing.get_timing(&p, &a, &"case-1".to_string()), None);
    assert_eq!(
        listing.get_timing(&p, &a, &"case-2".to_string()),
        Some((Failure, millis(10))),
    );
    assert_eq!(
        listing.get_timing(&p, &a, &"case-3".to_string()),
        Some((Success, millis(11))),
    );
    assert_eq!(listing.get_timing(&p, &a, &"case-4".to_string()), None);
    assert_eq!(listing.get_timing(&p, &a, &"case-5".to_string()), None);
    assert_eq!(
        listing.get_timing(&p, &"artifact-1.binary".to_string(), &"case-1".to_string()),
        None,
    );
    assert_eq!(
        listing.get_timing(&"package-2".to_string(), &a, &"case-1".to_string()),
        None
    );
}

#[test]
fn case_outcomes() {
    assert_eq!(CaseOutcome::from_failure(false), Success);
    assert_eq!(CaseOutcome::from_failure(true), Failure);
    assert_eq!(Success.combine(Success), Success);
    assert_eq!(Success.combine(Failure), Failure);
    assert_eq!(Failure.combine(Success), Failure);
    assert!(Failure.failure());
    assert!(!Success.failure());
}

#[test]
fn expected_job_count() {
    let listing = db_from(vec![
        (
            "package-1",
            vec![
                (
                    "artifact-1.library",
                    artifact_from_cases(vec![
                        (
                            "case-1-1L-1",
                            Some((Success, vec![millis(10), millis(11)])),
                            None,
                        ),
                        ("case-1-1L-2", Some((Success, vec![millis(20)])), None),
                        ("case-1-1L-3", None, None),
                    ]),
                ),
                (
                    "artifact-1.binary",
                    artifact_from_cases(vec![
                        (
                            "case-1-1B-1",
                            Some((Success, vec![millis(15), millis(16)])),
                            None,
                        ),
                        ("case-1-1B-2", None, None),
                    ]),
                ),
            ],
        ),
        (
            "package-2",
            vec![(
                "artifact-1.library",
                artifact_from_cases(vec![(
                    "case-2-1L-1",
                    Some((Success, vec![millis(10), millis(12)])),
                    None,
                )]),
            )],
        ),
    ]);

    let packages = vec!["package-1".to_string(), "package-2".to_string()];

    assert_eq!(listing.expected_job_count(&packages, &SimpleFilter::All), 6);
    assert_eq!(listing.expected_job_count(&packages, &SimpleFilter::Nothing), 0);
    assert_eq!(
        listing.expected_job_count(&packages, &SimpleFilter::Package("package-1".into())),
        5
    );
    assert_eq!(
        listing.expected_job_count(&packages, &SimpleFilter::ArtifactEndsWith(".library".into())),
        4
    );
}
