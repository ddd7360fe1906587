use dotlink::context::Context;
use dotlink::filesystem::{FileSystem, FsEntry};
use dotlink::link::{
    classify, classify_create_result, parent_component, reconcile, reconcile_all, symlink,
    CreateResult, ErrorKind, LinkOutcome, LinkRequest,
};

fn workspace() -> (FileSystem, Context) {
    let mut fs = FileSystem::new();
    fs.add_dir("/work".to_string());
    (fs, Context::new("/work".to_string()))
}

#[test]
fn symlink_linked() {
    let (mut fs, ctx) = workspace();
    fs.add_file("/work/file".to_string());

    let result = symlink(&mut fs, "file", &"/work/file2".to_string(), &ctx);
    assert!(result.is_success());
}

#[test]
fn symlink_already_linked() {
    let (mut fs, ctx) = workspace();
    fs.add_file("/work/file".to_string());
    fs.create_symlink("/work/file2".to_string(), "/work/file".to_string());

    let result = symlink(&mut fs, "file", &"/work/file2".to_string(), &ctx);
    assert!(result.is_success());
}

#[test]
fn symlink_other_link() {
    let (mut fs, ctx) = workspace();
    fs.add_file("/work/file".to_string());
    fs.add_file("/work/file2".to_string());
    fs.create_symlink("/work/file1".to_string(), "/work/file".to_string());

    let result = symlink(&mut fs, "file2", &"/work/file1".to_string(), &ctx);
    assert!(!result.is_success());
    assert_eq!(result.message(), "Destination exists");
}

#[test]
fn symlink_source_not_found() {
    let (mut fs, ctx) = workspace();

    let result = symlink(&mut fs, "file", &"/work/file2".to_string(), &ctx);
    assert!(!result.is_success());
    assert_eq!(result.message(), "Source not found");
}

#[test]
fn symlink_destination_exists() {
    let (mut fs, ctx) = workspace();
    fs.add_file("/work/file".to_string());
    fs.add_file("/work/file2".to_string());

    let result = symlink(&mut fs, "file", &"/work/file2".to_string(), &ctx);
    assert!(!result.is_success());
    assert_eq!(result.message(), "Destination exists");
}

#[test]
fn test_destination_directory_not_found() {
    let (mut fs, ctx) = workspace();
    fs.add_file("/work/file".to_string());

    let result = symlink(&mut fs, "file", &"/work/dir/file2".to_string(), &ctx);
    assert!(!result.is_success());
    assert_eq!(result.message(), "Destination directory not found");
}

fn request(source: &str, destination: &str) -> LinkRequest {
    LinkRequest { source: source.to_string(), destination: destination.to_string() }
}

#[test]
fn reconcile_creates_symlink() {
    let (mut fs, _) = workspace();
    fs.add_file("/work/file".to_string());

    let o = reconcile(&mut fs, &request("/work/file", "/work/link"), false);
    assert_eq!(o, LinkOutcome::Created);
    match fs.get("/work/link") {
        Some(FsEntry::Symlink(target)) => assert_eq!(target, "/work/file"),
        _ => panic!("expected a symlink at the destination"),
    }
}

#[test]
fn reconcile_is_idempotent() {
    let (mut fs, _) = workspace();
    fs.add_file("/work/file".to_string());
    let req = request("/work/file", "/work/link");

    assert_eq!(reconcile(&mut fs, &req, false), LinkOutcome::Created);
    assert_eq!(reconcile(&mut fs, &req, false), LinkOutcome::AlreadyLinked);
}

#[test]
fn reconcile_never_overwrites() {
    let (mut fs, _) = workspace();
    fs.add_file("/work/file".to_string());
    fs.add_file("/work/busy".to_string());

    let o = reconcile(&mut fs, &request("/work/file", "/work/busy"), false);
    assert_eq!(o, LinkOutcome::DestinationConflict);
    assert!(matches!(fs.get("/work/busy"), Some(FsEntry::File)));
}

#[test]
fn reconcile_conflict_on_differently_spelled_target() {
    let (mut fs, _) = workspace();
    fs.add_file("/work/file".to_string());
    fs.create_symlink("/work/link".to_string(), "/work/./file".to_string());

    let o = reconcile(&mut fs, &request("/work/file", "/work/link"), false);
    assert_eq!(o, LinkOutcome::DestinationConflict);
}

#[test]
fn reconcile_dry_run_matches_real_run() {
    let (mut fs, _) = workspace();
    fs.add_file("/work/file".to_string());
    let req = request("/work/file", "/work/link");

    let simulated = reconcile(&mut fs, &req, true);
    assert_eq!(simulated, LinkOutcome::Created);
    assert!(fs.get("/work/link").is_none());

    let real = reconcile(&mut fs, &req, false);
    assert_eq!(real, LinkOutcome::Created);
    assert!(matches!(fs.get("/work/link"), Some(FsEntry::Symlink(_))));
}

#[test]
fn reconcile_missing_source_beats_conflicting_destination() {
    let (mut fs, _) = workspace();
    fs.add_file("/work/busy".to_string());

    let o = reconcile(&mut fs, &request("/work/ghost", "/work/busy"), false);
    assert_eq!(o, LinkOutcome::SourceNotFound);
}

#[test]
fn reconcile_root_has_no_parent() {
    let (mut fs, _) = workspace();
    fs.add_file("/work/file".to_string());

    let o = reconcile(&mut fs, &request("/work/file", "/"), false);
    assert_eq!(o, LinkOutcome::DestinationDirectoryMissing);
}

#[test]
fn reconcile_all_keeps_request_order() {
    let (mut fs, _) = workspace();
    fs.add_file("/work/a".to_string());
    fs.add_file("/work/b".to_string());
    let reqs = vec![request("/work/a", "/work/la"), request("/work/b", "/work/lb")];

    let log = reconcile_all(&mut fs, &reqs, false);
    assert_eq!(log.len(), 2);
    assert_eq!(log[0].0.destination, "/work/la");
    assert_eq!(log[0].1, LinkOutcome::Created);
    assert_eq!(log[1].0.destination, "/work/lb");
    assert_eq!(log[1].1, LinkOutcome::Created);
}

#[test]
fn rerun_of_a_satisfied_run_changes_nothing() {
    let (mut fs, _) = workspace();
    fs.add_file("/work/a".to_string());
    fs.add_file("/work/b".to_string());
    let reqs = vec![request("/work/a", "/work/la"), request("/work/b", "/work/lb")];

    let first = reconcile_all(&mut fs, &reqs, false);
    assert!(first.iter().all(|(_, o)| o.is_success()));

    let second = reconcile_all(&mut fs, &reqs, false);
    assert!(second.iter().all(|(_, o)| *o == LinkOutcome::AlreadyLinked));
}

#[test]
fn classify_reports_each_observation() {
    let source = "/work/file".to_string();
    assert_eq!(classify(false, true, None, &source), LinkOutcome::SourceNotFound);
    assert_eq!(classify(true, false, None, &source), LinkOutcome::DestinationDirectoryMissing);
    assert_eq!(classify(true, true, None, &source), LinkOutcome::Created);
    assert_eq!(
        classify(true, true, Some(&FsEntry::Symlink("/work/file".to_string())), &source),
        LinkOutcome::AlreadyLinked
    );
    assert_eq!(
        classify(true, true, Some(&FsEntry::Symlink("/work/other".to_string())), &source),
        LinkOutcome::DestinationConflict
    );
    assert_eq!(
        classify(true, true, Some(&FsEntry::File), &source),
        LinkOutcome::DestinationConflict
    );
    assert_eq!(
        classify(true, true, Some(&FsEntry::Dir), &source),
        LinkOutcome::DestinationConflict
    );
}

#[test]
fn classify_create_result_reclassifies_races() {
    let source = "/work/file".to_string();
    assert_eq!(
        classify_create_result(CreateResult::Done, None, &source),
        LinkOutcome::Created
    );
    assert_eq!(
        classify_create_result(
            CreateResult::AlreadyExists,
            Some(&FsEntry::Symlink("/work/file".to_string())),
            &source
        ),
        LinkOutcome::AlreadyLinked
    );
    assert_eq!(
        classify_create_result(CreateResult::AlreadyExists, Some(&FsEntry::File), &source),
        LinkOutcome::DestinationConflict
    );
    assert_eq!(
        classify_create_result(CreateResult::AlreadyExists, None, &source),
        LinkOutcome::SystemError(ErrorKind::Other)
    );
    assert_eq!(
        classify_create_result(CreateResult::Failed(ErrorKind::PermissionDenied), None, &source),
        LinkOutcome::SystemError(ErrorKind::PermissionDenied)
    );
}

#[test]
fn any_system_error_flags_failed_creations() {
    let ok_log = vec![(request("/s/a", "/d/a"), LinkOutcome::Created)];
    assert!(!dotlink::report::any_system_error(&ok_log));

    let bad_log = vec![
        (request("/s/a", "/d/a"), LinkOutcome::Created),
        (request("/s/b", "/d/b"), LinkOutcome::SystemError(ErrorKind::Other)),
    ];
    assert!(dotlink::report::any_system_error(&bad_log));
}

#[test]
fn parent_component_cases() {
    assert_eq!(parent_component("/a/b"), "/a");
    assert_eq!(parent_component("/a"), "/");
    assert_eq!(parent_component("/"), "");
    assert_eq!(parent_component("ab"), "");
}

#[test]
fn outcome_messages() {
    assert_eq!(LinkOutcome::Created.message(), "Created");
    assert_eq!(LinkOutcome::AlreadyLinked.message(), "Already linked");
    assert_eq!(LinkOutcome::SourceNotFound.message(), "Source not found");
    assert_eq!(
        LinkOutcome::DestinationDirectoryMissing.message(),
        "Destination directory not found"
    );
    assert_eq!(LinkOutcome::DestinationConflict.message(), "Destination exists");
    assert_eq!(LinkOutcome::SystemError(ErrorKind::Other).message(), "System error");
}
