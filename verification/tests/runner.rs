use aws_login::context::TestContext;
use aws_login::run::{
    in_path, missing_program_error, output_outcome, pass_through_outcome, preflight, PathCache,
    Run,
};

#[test]
fn argument_building() {
    let run = Run::new("test").arg("arg1").arg("arg2").arg("arg3");

    assert_eq!(run.get_args().as_slice(), ["arg1", "arg2", "arg3"]);
}

#[test]
fn aws_options_added() {
    let context = TestContext::default()
        .with_profile("profile".to_owned())
        .with_region("region".to_owned());

    let run = Run::new("aws").with_aws_options(context.profile(), context.region());

    assert_eq!(
        run.get_args().as_slice(),
        ["--profile", "profile", "--region", "region"]
    );
}

#[test]
fn aws_options_profile_only() {
    let context = TestContext::default().with_profile("p".to_owned());
    let run = Run::new("aws").with_aws_options(context.profile(), context.region());
    assert_eq!(run.get_args().as_slice(), ["--profile", "p"]);
}

#[test]
fn aws_options_region_only() {
    let context = TestContext::default().with_region("r".to_owned());
    let run = Run::new("aws").with_aws_options(context.profile(), context.region());
    assert_eq!(run.get_args().as_slice(), ["--region", "r"]);
}

#[test]
fn aws_options_absent() {
    let context = TestContext::default();
    let run = Run::new("aws").with_aws_options(context.profile(), context.region());
    assert!(run.get_args().is_empty());
}

#[test]
fn found_in_path() {
    let mut cache = PathCache::new();

    assert!(in_path(&mut cache, "printf"));
    assert_eq!(cache.lookup("printf"), Some(true));
}

#[test]
fn not_found_in_path() {
    let mut cache = PathCache::new();

    assert!(!in_path(&mut cache, "does-not-exist"));
    assert_eq!(cache.lookup("does-not-exist"), Some(false));
}

#[test]
fn preflight_refuses_a_missing_program() {
    let mut cache = PathCache::new();

    let error = preflight(&mut cache, "does-not-exist").unwrap_err();

    assert_eq!(error.status(), 1);
    assert_eq!(
        error.message().as_deref(),
        Some("The program, does-not-exist, could be found in PATH.")
    );
}

#[test]
fn missing_program_error_text() {
    let error = missing_program_error("does-not-exist");
    assert_eq!(
        error.render(),
        "The program, does-not-exist, could be found in PATH.\n"
    );
}

#[test]
fn output_outcome_returns_stdout_exactly() {
    let result = output_outcome(
        "printf",
        true,
        Some(0),
        b"Hello, world!".to_vec(),
        Vec::new(),
    );

    assert_eq!(result.unwrap(), "Hello, world!");
}

#[test]
fn output_outcome_keeps_trailing_newlines() {
    let result = output_outcome("cat", true, Some(0), b"line\n".to_vec(), Vec::new());
    assert_eq!(result.unwrap(), "line\n");
}

#[test]
fn output_outcome_decodes_multibyte_text() {
    let bytes = "snow \u{2603}".as_bytes().to_vec();
    let result = output_outcome("cat", true, Some(0), bytes, Vec::new());
    assert_eq!(result.unwrap(), "snow \u{2603}");
}

#[test]
fn output_outcome_rejects_invalid_utf8() {
    let error =
        output_outcome("cat", true, Some(0), vec![0xff, 0xfe], Vec::new()).unwrap_err();

    assert_eq!(error.status(), 1);
    assert_eq!(
        error.message().as_deref(),
        Some("The output of, cat, is not valid UTF-8.")
    );
}

#[test]
fn output_outcome_reports_failure_with_stderr() {
    let error = output_outcome(
        "aws",
        false,
        Some(42),
        Vec::new(),
        b"something broke".to_vec(),
    )
    .unwrap_err();

    assert_eq!(error.status(), 42);
    assert_eq!(error.message().as_deref(), Some("something broke"));
}

#[test]
fn output_outcome_failure_without_code_is_one() {
    let error = output_outcome("aws", false, None, Vec::new(), Vec::new()).unwrap_err();
    assert_eq!(error.status(), 1);
}

#[test]
fn pass_through_outcome_forms() {
    assert!(pass_through_outcome(true, Some(0)).is_ok());

    let error = pass_through_outcome(false, Some(3)).unwrap_err();
    assert_eq!(error.status(), 3);
    assert!(error.message().is_none());
    assert_eq!(error.render(), "");

    let error = pass_through_outcome(false, None).unwrap_err();
    assert_eq!(error.status(), 1);
}

#[test]
fn get_profile() {
    let context = TestContext::default().with_profile("test".to_owned());

    assert_eq!(context.profile().as_deref(), Some("test"));
}

#[test]
fn get_region() {
    let context = TestContext::default().with_region("test".to_owned());

    assert_eq!(context.region().as_deref(), Some("test"));
}

#[test]
fn read_write_error() {
    let mut context = TestContext::default();

    context.write_error_line("A test message.");

    assert!(context.error_as_string().contains("A test message."));
}

#[test]
fn read_write_output() {
    let mut context = TestContext::default();

    context.write_output_line("A test message.");

    assert_eq!(context.output_as_string(), "A test message.\n");
}

#[test]
fn with_profile_set() {
    let context = TestContext::default().with_profile("test".to_owned());

    assert_eq!(context.profile().as_deref(), Some("test"));
}

#[test]
fn with_region_set() {
    let context = TestContext::default().with_region("test".to_owned());

    assert_eq!(context.region().as_deref(), Some("test"));
}
