use aws_login::commands::{
    configure_set_args, docker_login_args, generate_registry_uri, get_cli_profiles, is_configured,
    merge_profile_names, parse_name_list, parse_proxies, port_or_default, rds_port_requirement,
    rds_token_args, sso_args, sso_required_settings, validate_cluster, Action, Resolve,
};
use aws_login::error::{with_context, Error};
use aws_login::installer::{Installer, Shell as InstallerShell};
use aws_login::shell::{get_setup, Setup, Shell};
use aws_login::template::{SettingValue, Template, Templates};

#[test]
fn error_renders_context_most_recent_first() {
    let error = Error::new(1)
        .with_message("The original message.".to_owned())
        .with_context("The lower level context message.".to_owned())
        .with_context("The higher level context message.".to_owned());

    assert_eq!(
        error.render(),
        "The higher level context message.\n  The lower level context message.\n    The original message.\n"
    );
}

#[test]
fn error_without_message_renders_nothing() {
    let error = Error::new(7).with_context("Context without a message.".to_owned());

    assert_eq!(error.status(), 7);
    assert_eq!(error.render(), "");
}

#[test]
fn error_with_message_renders_one_line() {
    let error = Error::new(1).with_message("The original message.".to_owned());

    assert_eq!(error.render(), "The original message.\n");
}

#[test]
fn error_from_io_details() {
    let error = Error::from_io(Some(2), "No such file or directory".to_owned());
    assert_eq!(error.status(), 2);
    assert_eq!(error.message().as_deref(), Some("No such file or directory"));

    let error = Error::from_io(None, "unknown".to_owned());
    assert_eq!(error.status(), 1);
}

#[test]
fn with_context_touches_only_the_error_branch() {
    let ok: Result<i32, Error> = Ok(5);
    assert_eq!(with_context(ok, "ignored".to_owned()).unwrap(), 5);

    let err: Result<i32, Error> = Err(Error::new(3).with_message("inner".to_owned()));
    let wrapped = with_context(err, "outer".to_owned()).unwrap_err();
    assert_eq!(wrapped.status(), 3);
    assert_eq!(wrapped.context().as_slice(), ["outer"]);
    assert_eq!(wrapped.render(), "outer\n  inner\n");
}

#[test]
fn registry_uri_from_outputs() {
    let uri = generate_registry_uri("123456789\n", &None, "eu-west-1\n").unwrap();
    assert_eq!(uri, "123456789.dkr.ecr.eu-west-1.amazonaws.com");
}

#[test]
fn registry_uri_prefers_the_override() {
    let region = Some("us-east-2".to_owned());
    let uri = generate_registry_uri("42\n", &region, "").unwrap();
    assert_eq!(uri, "42.dkr.ecr.us-east-2.amazonaws.com");
}

#[test]
fn registry_uri_without_region_fails() {
    let error = generate_registry_uri("42\n", &None, "  \n").unwrap_err();
    assert_eq!(error.status(), 1);
    assert_eq!(
        error.message().as_deref(),
        Some("The region could not be determined.")
    );
}

#[test]
fn docker_login_arguments() {
    let args = docker_login_args("secret", "42.dkr.ecr.eu-west-1.amazonaws.com");
    assert_eq!(
        args.as_slice(),
        [
            "login",
            "--username",
            "AWS",
            "--password",
            "secret",
            "42.dkr.ecr.eu-west-1.amazonaws.com"
        ]
    );
}

#[test]
fn cluster_listing_and_choice() {
    let clusters = parse_name_list("alpha\tbeta\ngamma\n");
    assert_eq!(clusters.as_slice(), ["alpha", "beta", "gamma"]);

    assert!(validate_cluster(&"beta".to_owned(), &clusters).is_ok());

    let error = validate_cluster(&"delta".to_owned(), &clusters).unwrap_err();
    assert_eq!(error.status(), 1);
    assert_eq!(
        error.message().as_deref(),
        Some("The specified cluster is not available.")
    );
}

#[test]
fn empty_listing_has_no_names() {
    assert!(parse_name_list("").is_empty());
    assert!(parse_name_list(" \t\n ").is_empty());
}

#[test]
fn profile_names_merge_sorted_and_unique() {
    let merged = merge_profile_names(
        vec!["beta".to_owned(), "alpha".to_owned()],
        vec!["beta".to_owned(), "gamma".to_owned()],
    )
    .unwrap();

    assert_eq!(merged.as_slice(), ["alpha", "beta", "gamma"]);
}

#[test]
fn profile_names_empty_is_an_error() {
    let error = merge_profile_names(Vec::new(), Vec::new()).unwrap_err();
    assert_eq!(error.status(), 1);
    assert_eq!(
        error.message().as_deref(),
        Some("There are no profiles available to choose from.")
    );
}

#[test]
fn cli_profiles_add_enabled_templates() {
    let mut templates = Templates::new();
    templates.insert("zeta".to_owned(), Template::new(true, None, vec![]));
    templates.insert("beta".to_owned(), Template::new(true, None, vec![]));
    templates.insert("hidden".to_owned(), Template::new(false, None, vec![]));

    let names = get_cli_profiles("beta alpha", &templates);

    assert_eq!(names.as_slice(), ["alpha", "beta", "zeta"]);
}

#[test]
fn sso_settings_and_arguments() {
    assert_eq!(
        sso_required_settings().as_slice(),
        ["sso_account_id", "sso_region", "sso_role_name", "sso_start_url"]
    );

    assert_eq!(sso_args(true).as_slice(), ["sso", "login"]);
    assert_eq!(sso_args(false).as_slice(), ["configure", "sso"]);
}

#[test]
fn sso_configuration_check() {
    let all = vec![
        Some("a".to_owned()),
        Some("b\n".to_owned()),
        Some("c".to_owned()),
        Some("d".to_owned()),
    ];
    assert!(is_configured(&all));

    let with_blank = vec![Some("a".to_owned()), Some("  \n".to_owned())];
    assert!(!is_configured(&with_blank));

    let with_missing = vec![Some("a".to_owned()), None];
    assert!(!is_configured(&with_missing));
}

#[test]
fn configure_set_arguments() {
    let args = configure_set_args("work", "region", "eu-west-1");
    assert_eq!(
        args.as_slice(),
        ["--profile", "work", "configure", "set", "region", "eu-west-1"]
    );
}

#[test]
fn proxy_listing_is_parsed() {
    let output = "one\tone.example.com\tPOSTGRESQL\tTrue\tavailable\n\
                  two\ttwo.example.com\tMYSQL\tFalse\tavailable\n\
                  down\tdown.example.com\tMYSQL\tFalse\tcreating\n";

    let proxies = parse_proxies(output).unwrap();

    assert_eq!(proxies.len(), 2);
    assert_eq!(proxies[0].name(), "one");
    assert_eq!(proxies[0].endpoint(), "one.example.com");
    assert_eq!(proxies[0].engine(), "POSTGRESQL");
    assert!(proxies[0].require_tls());
    assert_eq!(proxies[1].name(), "two");
    assert!(!proxies[1].require_tls());
}

#[test]
fn proxy_listing_with_short_line_fails() {
    let error = parse_proxies("only\tfour\tfields\there\n").unwrap_err();
    assert_eq!(error.status(), 1);
    assert_eq!(
        error.message().as_deref(),
        Some("The RDS Proxy listing could not be understood.")
    );
}

#[test]
fn proxy_listing_accepts_mixed_casing() {
    let proxies = parse_proxies("p\te.example.com\tMYSQL\ttRuE\tavailable\n").unwrap();
    assert_eq!(proxies.len(), 1);
    assert!(proxies[0].require_tls());
}

#[test]
fn proxy_listing_with_bad_flag_fails() {
    let error = parse_proxies("p\te\tMYSQL\tmaybe\tavailable\n").unwrap_err();
    assert_eq!(error.status(), 1);
    assert_eq!(
        error.message().as_deref(),
        Some("The RequireTLS field from the AWS CLI is not a boolean value.")
    );
}

#[test]
fn proxy_port_rules() {
    assert!(rds_port_requirement("POSTGRESQL", &None).is_ok());
    assert!(rds_port_requirement("MYSQL", &Some("3306".to_owned())).is_ok());

    let error = rds_port_requirement("MYSQL", &None).unwrap_err();
    assert_eq!(error.status(), 1);
    assert_eq!(
        error.message().as_deref(),
        Some("The database server port number is required for MYSQL engines.")
    );

    assert_eq!(port_or_default(&None), "5432");
    assert_eq!(port_or_default(&Some("6432".to_owned())), "6432");

    let args = rds_token_args("proxy.example.com", "5432", "admin");
    assert_eq!(
        args.as_slice(),
        [
            "rds",
            "generate-db-auth-token",
            "--hostname",
            "proxy.example.com",
            "--port",
            "5432",
            "--username",
            "admin"
        ]
    );
}

#[test]
fn resolve_options() {
    assert_eq!(Resolve::parse("cancel").unwrap(), Resolve::Cancel);
    assert_eq!(Resolve::parse("merge").unwrap(), Resolve::Merge);
    assert_eq!(Resolve::parse("replace").unwrap(), Resolve::Replace);
    assert_eq!(Resolve::parse("other").unwrap_err(), "other");

    assert_eq!(Resolve::Cancel.label(), "Cancel the download.");
    assert_eq!(Resolve::Merge.label(), "Merge with the existing templates.");
    assert_eq!(Resolve::Replace.label(), "Replace the existing templates.");
}

#[test]
fn action_options() {
    assert_eq!(Action::parse("init").unwrap(), Action::Init);
    assert_eq!(Action::parse("install").unwrap(), Action::Install);
    assert_eq!(Action::parse("remove").unwrap_err(), "remove");
}

#[test]
fn shell_accumulates_code() {
    let mut shell = Shell::new();

    shell.eval("echo hello").unwrap();
    shell.export("AWS_PROFILE", "work").unwrap();
    shell.exit();

    assert_eq!(
        shell.script(),
        "echo hello\nexport AWS_PROFILE=\"work\"\nbreak 2> /dev/null\n"
    );
}

#[test]
fn setup_is_chosen_by_shell_name() {
    assert!(get_setup("bash", None, "/home/user").is_some());
    assert!(get_setup("zsh", None, "/home/user").is_some());
    assert!(get_setup("fish", None, "/home/user").is_none());

    let setup = get_setup("bash", None, "/home/user").unwrap();
    assert_eq!(setup.script_path(), "/home/user/.bashrc");

    let custom = "/tmp/rc".to_owned();
    let setup = get_setup("zsh", Some(&custom), "/home/user").unwrap();
    assert_eq!(setup.script_path(), "/tmp/rc");
}

#[test]
fn setup_detects_installation() {
    let setup = Setup::new("bash".to_owned(), None, "/home/user");

    assert!(setup.is_installed(
        true,
        "# Integrate aws-login into the shell environment.\neval ...\n"
    ));
    assert!(!setup.is_installed(true, "nothing here"));
    assert!(!setup.is_installed(false, "# Integrate aws-login into the shell environment."));
}

#[test]
fn setup_scripts_name_the_binary() {
    let setup = Setup::new("bash".to_owned(), None, "/home/user");

    let init = setup.generate_script("/usr/local/bin/aws-login");
    assert!(init.contains("export AWS_LOGIN_SHELL=\"bash\""));
    assert!(init.contains("/usr/local/bin/aws-login"));

    let addition = setup.install_addition("/usr/local/bin/aws-login");
    assert!(addition.contains("# Integrate aws-login into the shell environment."));
    assert!(addition.contains("eval \"$(/usr/local/bin/aws-login shell init -s bash)\""));
}

#[test]
fn installer_layout_per_shell() {
    let bash = Installer::for_shell(&InstallerShell::BASH, "/home/user");
    assert_eq!(bash.script_path(), "/home/user/.aws-login.sh");
    assert_eq!(bash.startup_path(), "/home/user/.bashrc");
    assert_eq!(bash.startup_line(), ". /home/user/.aws-login.sh\n");

    let posix = Installer::for_shell(&InstallerShell::POSIX, "/home/user");
    assert_eq!(posix.startup_path(), "/home/user/.profile");
    assert_eq!(posix.startup_line(), "source /home/user/.aws-login.sh\n");

    let zsh = Installer::for_shell(&InstallerShell::ZSH, "/home/user");
    assert_eq!(zsh.startup_path(), "/home/user/.zshrc");

    let content = bash.script_content();
    assert!(content.contains("aws-login()"));
    let posix_content = posix.script_content();
    assert!(posix_content.contains("aws_login()"));
}

#[test]
fn installer_checks_the_startup_script() {
    let installer = Installer::for_shell(&InstallerShell::BASH, "/home/user");

    assert!(installer.is_installed(true, ". /home/user/.aws-login.sh\n"));
    assert!(!installer.is_installed(true, ""));
    assert!(!installer.is_installed(false, ". /home/user/.aws-login.sh\n"));

    assert!(installer.startup_needs_line(""));
    assert!(!installer.startup_needs_line(". /home/user/.aws-login.sh\n"));
}

#[test]
fn installer_install_decisions() {
    let installer = Installer::for_shell(&InstallerShell::BASH, "/home/user");

    let (script, line) = installer.install(false, "");
    assert!(script.unwrap().contains("aws-login()"));
    assert_eq!(line.unwrap(), ". /home/user/.aws-login.sh\n");

    let (script, line) = installer.install(true, ". /home/user/.aws-login.sh\n");
    assert!(script.is_none());
    assert!(line.is_none());
}

#[test]
fn installer_shell_names() {
    assert!(matches!(InstallerShell::parse("bash"), Ok(InstallerShell::BASH)));
    assert!(matches!(InstallerShell::parse("posix"), Ok(InstallerShell::POSIX)));
    assert!(matches!(InstallerShell::parse("zsh"), Ok(InstallerShell::ZSH)));
    assert_eq!(
        InstallerShell::parse("csh").unwrap_err(),
        "Unrecognized shell: csh"
    );
}
