use maelstrom_core::test_db::{Artifact, CaseOutcome, OutcomeTimings, Package, TestDb, TimingData};
use maelstrom_core::test_db_disk::{TestDbStore, TestDbStoreDeps};
use std::cell::RefCell;
use std::rc::Rc;
use CaseOutcome::{Failure, Success};

fn millis(n: u64) -> u64 {
    n * 1_000_000
}

fn data(
    when_read: Option<(CaseOutcome, Vec<u64>)>,
    this_run: Option<(CaseOutcome, Vec<u64>)>,
) -> TimingData {
    TimingData {
        when_read: when_read.map(|(outcome, timings)| OutcomeTimings { outcome, timings }),
        this_run: this_run.map(|(outcome, timings)| OutcomeTimings { outcome, timings }),
    }
}

fn artifact_from_cases(
    cases: Vec<(&str, Option<(CaseOutcome, Vec<u64>)>, Option<(CaseOutcome, Vec<u64>)>)>,
) -> Artifact<()> {
    Artifact {
        case_names: cases.iter().map(|(n, _, _)| (*n).to_string()).collect(),
        case_metas: cases.iter().map(|_| ()).collect(),
        case_timings: cases
            .into_iter()
            .map(|(_, when_read, this_run)| data(when_read, this_run))
            .collect(),
    }
}

fn db_from(entries: Vec<(&str, Vec<(&str, Artifact<()>)>)>) -> TestDb<()> {
    TestDb {
        package_names: entries.iter().map(|(n, _)| (*n).to_string()).collect(),
        packages: entries
            .into_iter()
            .map(|(_, arts)| Package {
                artifact_keys: arts.iter().map(|(k, _)| (*k).to_string()).collect(),
                artifacts: arts.into_iter().map(|(_, a)| a).collect(),
            })
            .collect(),
    }
}

#[test]
fn load_passes_proper_path() {
    struct Deps;
    impl TestDbStoreDeps for Deps {
        fn read_to_string_if_exists(&self, path: &String) -> Result<Option<String>, String> {
            assert_eq!(path, "path/to/state/test-listing.toml");
            Ok(None)
        }
        fn create_dir_all(&self, _path: &String) -> Result<(), String> {
            Ok(())
        }
        fn write(&self, _path: &String, _contents: &String) -> Result<(), String> {
            Ok(())
        }
    }
    let store = TestDbStore::new(Deps, &"path/to/state".to_string());
    assert_eq!(store.load().unwrap(), TestDb::new());
}

#[test]
fn error_reading_in_load_propagates_error() {
    struct Deps;
    impl TestDbStoreDeps for Deps {
        fn read_to_string_if_exists(&self, _path: &String) -> Result<Option<String>, String> {
            Err("error!".to_string())
        }
        fn create_dir_all(&self, _path: &String) -> Result<(), String> {
            Ok(())
        }
        fn write(&self, _path: &String, _contents: &String) -> Result<(), String> {
            Ok(())
        }
    }
    let store = TestDbStore::new(Deps, &"".to_string());
    assert_eq!(store.load().unwrap_err(), "error!");
}

struct FixedContents(Option<&'static str>);

impl TestDbStoreDeps for FixedContents {
    fn read_to_string_if_exists(&self, _path: &String) -> Result<Option<String>, String> {
        Ok(self.0.map(|s| s.to_string()))
    }
    fn create_dir_all(&self, _path: &String) -> Result<(), String> {
        Ok(())
    }
    fn write(&self, _path: &String, _contents: &String) -> Result<(), String> {
        Ok(())
    }
}

#[test]
fn load_of_nonexistent_file_gives_default_listing() {
    let store = TestDbStore::new(FixedContents(None), &"".to_string());
    assert_eq!(store.load().unwrap(), TestDb::new());
}

#[test]
fn load_of_file_with_invalid_toml_gives_toml_parse_error() {
    let store = TestDbStore::new(
        FixedContents(Some(r#""garbage": { "foo", "bar" }"#)),
        &"".to_string(),
    );
    let error = store.load().unwrap_err();
    assert!(error.starts_with("TOML parse error"));
}

#[test]
fn load_of_empty_file_gives_missing_version_error() {
    let store = TestDbStore::new(FixedContents(Some("foo = 3\n")), &"".to_string());
    assert_eq!(store.load().unwrap_err(), "missing version");
}

#[test]
fn load_of_file_without_version_gives_missing_version_error() {
    let store = TestDbStore::new(FixedContents(Some("foo = 3\n")), &"".to_string());
    assert_eq!(store.load().unwrap_err(), "missing version");
}

#[test]
fn load_of_file_with_non_integer_version_gives_version_not_an_integer_error() {
    let store = TestDbStore::new(FixedContents(Some("version = \"v1\"\n")), &"".to_string());
    assert_eq!(store.load().unwrap_err(), "version field is not an integer");
}

#[test]
fn load_of_file_with_old_version_gives_default_listing() {
    let store = TestDbStore::new(
        FixedContents(Some("version = 0\nfoo = \"bar\"\n")),
        &"".to_string(),
    );
    assert_eq!(store.load().unwrap(), TestDb::new());
}

#[test]
fn load_of_file_with_newer_version_gives_default_listing() {
    let store = TestDbStore::new(
        FixedContents(Some("version = 1000000\nfoo = \"bar\"\n")),
        &"".to_string(),
    );
    assert_eq!(store.load().unwrap(), TestDb::new());
}

#[test]
fn load_of_file_with_correct_version_gives_deserialized_listing() {
    let store = TestDbStore::new(
        FixedContents(Some(
            "version = 3\n\
             \n\
             [package-1.\"artifact-1.library\".case-1-1L-1]\n\
             outcome = \"success\"\n\
             timings = [0.01, 0.011]\n\
             \n\
             [package-1.\"artifact-1.library\".case-1-1L-2]\n\
             outcome = \"failure\"\n\
             timings = [0.02]\n\
             \n\
             [package-1.\"artifact-1.library\".case-1-1L-3]\n\
             timings = [0.03]\n\
             \n\
             [package-1.\"artifact-1.library\".case-1-1L-4]\n\
             outcome = \"success\"\n\
             timings = []\n\
             \n\
             [package-1.\"artifact-1.library\".case-1-1L-5]\n\
             outcome = \"failure\"\n\
             timings = []\n\
             \n\
             [package-1.\"artifact-1.library\".case-1-1L-6]\n\
             outcome = \"new\"\n\
             timings = []\n\
             \n\
             [package-1.\"artifact-1.library\".case-1-1L-7]\n\
             timings = []\n",
        )),
        &"".to_string(),
    );
    let expected = db_from(vec![(
        "package-1",
        vec![(
            "artifact-1.library",
            artifact_from_cases(vec![
                (
                    "case-1-1L-1",
                    Some((Success, vec![millis(10), millis(11)])),
                    None,
                ),
                ("case-1-1L-2", Some((Failure, vec![millis(20)])), None),
                ("case-1-1L-3", Some((Success, vec![millis(30)])), None),
                ("case-1-1L-4", None, None),
                ("case-1-1L-5", None, None),
                ("case-1-1L-6", None, None),
                ("case-1-1L-7", None, None),
            ]),
        )],
    )]);
    assert_eq!(store.load().unwrap(), expected);
}

#[test]
fn load_of_file_with_correct_version_but_bad_toml_gives_toml_parse_error() {
    let store = TestDbStore::new(
        FixedContents(Some(
            "version = 3\n\
             \n\
             [[frob.blah]]\n\
             foo = \"package1\"\n\
             bar = \"Library\"\n\
             baz = [\n\
                 \"case1\",\n\
                 \"case2\",\n\
             ]\n",
        )),
        &"".to_string(),
    );
    let error = store.load().unwrap_err();
    assert!(error.starts_with("TOML parse error"));
}

#[test]
fn error_creating_dir_in_save_propagates_error() {
    struct Deps;
    impl TestDbStoreDeps for Deps {
        fn read_to_string_if_exists(&self, _path: &String) -> Result<Option<String>, String> {
            Ok(None)
        }
        fn create_dir_all(&self, _path: &String) -> Result<(), String> {
            Err("error!".to_string())
        }
        fn write(&self, _path: &String, _contents: &String) -> Result<(), String> {
            Ok(())
        }
    }
    let store = TestDbStore::new(Deps, &"state".to_string());
    assert_eq!(store.save(&TestDb::new()).unwrap_err(), "error!");
}

#[test]
fn error_writing_in_save_propagates_error() {
    struct Deps;
    impl TestDbStoreDeps for Deps {
        fn read_to_string_if_exists(&self, _path: &String) -> Result<Option<String>, String> {
            Ok(None)
        }
        fn create_dir_all(&self, _path: &String) -> Result<(), String> {
            Ok(())
        }
        fn write(&self, _path: &String, _contents: &String) -> Result<(), String> {
            Err("error!".to_string())
        }
    }
    let store = TestDbStore::new(Deps, &"state".to_string());
    assert_eq!(store.save(&TestDb::new()).unwrap_err(), "error!");
}

#[derive(Default)]
struct LoggingDeps {
    create_dir_all: Option<String>,
    write: Option<(String, String)>,
}

struct SharedLoggingDeps(Rc<RefCell<LoggingDeps>>);

impl TestDbStoreDeps for SharedLoggingDeps {
    fn read_to_string_if_exists(&self, _path: &String) -> Result<Option<String>, String> {
        Ok(None)
    }
    fn create_dir_all(&self, path: &String) -> Result<(), String> {
        let prev = self.0.borrow_mut().create_dir_all.replace(path.clone());
        assert!(prev.is_none());
        Ok(())
    }
    fn write(&self, path: &String, contents: &String) -> Result<(), String> {
        let prev = self
            .0
            .borrow_mut()
            .write
            .replace((path.clone(), contents.clone()));
        assert!(prev.is_none());
        Ok(())
    }
}

#[test]
fn save_creates_parent_directory() {
    let deps = Rc::new(RefCell::new(LoggingDeps::default()));
    let store = TestDbStore::new(SharedLoggingDeps(deps.clone()), &"maelstrom/state/".to_string());
    store.save(&TestDb::new()).unwrap();
    assert_eq!(
        deps.borrow().create_dir_all,
        Some("maelstrom/state".to_string())
    );
}

#[test]
fn save_of_default() {
    let deps = Rc::new(RefCell::new(LoggingDeps::default()));
    let store = TestDbStore::new(SharedLoggingDeps(deps.clone()), &"maelstrom/state/".to_string());
    store.save(&TestDb::new()).unwrap();
    assert_eq!(
        deps.borrow().write,
        Some((
            "maelstrom/state/test-listing.toml".to_string(),
            "version = 3\n".to_string()
        ))
    );
}

#[test]
fn save_of_listing() {
    let deps = Rc::new(RefCell::new(LoggingDeps::default()));
    let store = TestDbStore::new(SharedLoggingDeps(deps.clone()), &"maelstrom/state/".to_string());
    let listing = db_from(vec![
        (
            "package-2",
            vec![(
                "artifact-1.library",
                artifact_from_cases(vec![("case-2-1L-1", None, None)]),
            )],
        ),
        (
            "package-1",
            vec![
                (
                    "artifact-1.binary",
                    artifact_from_cases(vec![
                        (
                            "case-1-1B-1",
                            Some((Success, vec![millis(13), millis(14)])),
                            None,
                        ),
                        (
                            "case-1-1B-2",
                            Some((Failure, vec![millis(15), millis(16)])),
                            None,
                        ),
                    ]),
                ),
                (
                    "artifact-1.library",
                    artifact_from_cases(vec![
                        (
                            "case-1-1L-1",
                            None,
                            Some((Success, vec![millis(30), millis(40)])),
                        ),
                        (
                            "case-1-1L-2",
                            None,
                            Some((Failure, vec![millis(25), millis(26)])),
                        ),
                    ]),
                ),
            ],
        ),
        (
            "package-3",
            vec![(
                "artifact-1.binary",
                artifact_from_cases(vec![
                    (
                        "case-3-1B-1",
                        Some((Success, vec![millis(13), millis(14)])),
                        Some((Failure, vec![millis(23), millis(24)])),
                    ),
                    (
                        "case-3-1B-2",
                        Some((Failure, vec![millis(15), millis(16)])),
                        Some((Success, vec![millis(25), millis(26)])),
                    ),
                ]),
            )],
        ),
    ]);
    store.save(&listing).unwrap();
    let (actual_path, actual_contents) = deps.borrow_mut().write.take().unwrap();
    assert_eq!(actual_path, "maelstrom/state/test-listing.toml");
    assert_eq!(
        actual_contents,
        "version = 3\n\
         \n\
         [package-1.\"artifact-1.binary\".case-1-1B-1]\n\
         timings = [0.013, 0.014]\n\
         outcome = \"success\"\n\
         \n\
         [package-1.\"artifact-1.binary\".case-1-1B-2]\n\
         timings = [0.015, 0.016]\n\
         outcome = \"failure\"\n\
         \n\
         [package-1.\"artifact-1.library\".case-1-1L-1]\n\
         timings = [0.03, 0.04]\n\
         outcome = \"success\"\n\
         \n\
         [package-1.\"artifact-1.library\".case-1-1L-2]\n\
         timings = [0.025, 0.026]\n\
         outcome = \"failure\"\n\
         \n\
         [package-2.\"artifact-1.library\".case-2-1L-1]\n\
         timings = []\n\
         outcome = \"new\"\n\
         \n\
         [package-3.\"artifact-1.binary\".case-3-1B-1]\n\
         timings = [0.023, 0.024]\n\
         outcome = \"failure\"\n\
         \n\
         [package-3.\"artifact-1.binary\".case-3-1B-2]\n\
         timings = [0.025, 0.026]\n\
         outcome = \"success\"\n",
    );
}

#[test]
fn save_then_load_round_trip() {
    let deps = Rc::new(RefCell::new(LoggingDeps::default()));
    let store = TestDbStore::new(SharedLoggingDeps(deps.clone()), &"state/".to_string());
    let listing = db_from(vec![(
        "package-1",
        vec![(
            "artifact-1.library",
            artifact_from_cases(vec![
                (
                    "case-a",
                    None,
                    Some((Success, vec![millis(30), millis(40)])),
                ),
                ("case-b", Some((Failure, vec![millis(25)])), None),
            ]),
        )],
    )]);
    store.save(&listing).unwrap();
    let (_, contents) = deps.borrow_mut().write.take().unwrap();
    let store2 = TestDbStore::new(
        FixedContents2(contents),
        &"state/".to_string(),
    );
    let reread = store2.load().unwrap();
    // What this run produced becomes what the next run reads.
    let expected = db_from(vec![(
        "package-1",
        vec![(
            "artifact-1.library",
            artifact_from_cases(vec![
                (
                    "case-a",
                    Some((Success, vec![millis(30), millis(40)])),
                    None,
                ),
                ("case-b", Some((Failure, vec![millis(25)])), None),
            ]),
        )],
    )]);
    assert_eq!(reread, expected);
}

struct FixedContents2(String);

impl TestDbStoreDeps for FixedContents2 {
    fn read_to_string_if_exists(&self, _path: &String) -> Result<Option<String>, String> {
        Ok(Some(self.0.clone()))
    }
    fn create_dir_all(&self, _path: &String) -> Result<(), String> {
        Ok(())
    }
    fn write(&self, _path: &String, _contents: &String) -> Result<(), String> {
        Ok(())
    }
}
