use kubectl_tail::cli::{Cli, CliError, DEFAULT_BUFFER_SIZE};

#[test]
fn test_cli_parsing_deployment() {
    let args = vec!["kubectl-tail", "deployment/my-deployment"];
    let cli = Cli::try_parse_from(args).unwrap();
    assert_eq!(cli.resources, vec!["deployment/my-deployment".to_string()]);
    assert!(cli.selector.is_none());
}

#[test]
fn test_cli_parsing_pod() {
    let args = vec!["kubectl-tail", "my-pod"];
    let cli = Cli::try_parse_from(args).unwrap();
    assert_eq!(cli.resources, vec!["my-pod".to_string()]);
}

#[test]
fn test_cli_parsing_labels() {
    let args = vec!["kubectl-tail", "-l", "app=nginx"];
    let cli = Cli::try_parse_from(args).unwrap();
    assert_eq!(cli.selector, Some("app=nginx".to_string()));
}

#[test]
fn test_cli_parsing_container() {
    let args = vec!["kubectl-tail", "my-pod", "-c", "app"];
    let cli = Cli::try_parse_from(args).unwrap();
    assert_eq!(cli.container, Some("app".to_string()));
}

#[test]
fn test_cli_parsing_multiple_resources() {
    let args = vec!["kubectl-tail", "deployment/app1", "pod/my-pod"];
    let cli = Cli::try_parse_from(args).unwrap();
    assert_eq!(
        cli.resources,
        vec!["deployment/app1".to_string(), "pod/my-pod".to_string()]
    );
}

#[test]
fn test_cli_parsing_tail() {
    let args = vec!["kubectl-tail", "pod/my-pod", "--tail", "10"];
    let cli = Cli::try_parse_from(args).unwrap();
    assert_eq!(cli.tail, Some(10));
}

#[test]
fn test_cli_parsing_verbose() {
    let args = vec!["kubectl-tail", "pod/my-pod", "-v"];
    let cli = Cli::try_parse_from(args).unwrap();
    assert!(cli.verbose);
}

#[test]
fn defaults_apply_when_nothing_is_given() {
    let cli = Cli::try_parse_from(vec!["kubectl-tail"]).unwrap();
    assert!(cli.resources.is_empty());
    assert_eq!(cli.selector, None);
    assert_eq!(cli.namespace, None);
    assert_eq!(cli.container, None);
    assert_eq!(cli.context, None);
    assert_eq!(cli.tail, None);
    assert!(!cli.verbose);
    assert_eq!(cli.grep, None);
    assert!(!cli.no_tui);
    assert_eq!(cli.buffer_size, 10000);
    assert_eq!(DEFAULT_BUFFER_SIZE, 10000);
}

#[test]
fn an_empty_command_line_is_like_a_bare_program_name() {
    let cli = Cli::try_parse_from(Vec::new()).unwrap();
    assert!(cli.resources.is_empty());
    assert_eq!(cli.buffer_size, 10000);
}

#[test]
fn every_option_is_read() {
    let cli = Cli::try_parse_from(vec![
        "kubectl-tail",
        "--selector",
        "app=web",
        "--namespace",
        "prod",
        "--container",
        "srv",
        "--context",
        "east",
        "--tail",
        "25",
        "--verbose",
        "--grep",
        "error|warn",
        "--no-tui",
        "--buffer-size",
        "500",
        "deployment/web",
    ])
    .unwrap();
    assert_eq!(cli.selector, Some("app=web".to_string()));
    assert_eq!(cli.namespace, Some("prod".to_string()));
    assert_eq!(cli.container, Some("srv".to_string()));
    assert_eq!(cli.context, Some("east".to_string()));
    assert_eq!(cli.tail, Some(25));
    assert!(cli.verbose);
    assert_eq!(cli.grep, Some("error|warn".to_string()));
    assert!(cli.no_tui);
    assert_eq!(cli.buffer_size, 500);
    assert_eq!(cli.resources, vec!["deployment/web".to_string()]);
}

#[test]
fn values_may_be_attached() {
    let cli = Cli::try_parse_from(vec![
        "kubectl-tail",
        "--namespace=prod",
        "-lapp=web",
        "-c=srv",
        "--tail=-1",
        "-vg",
        "panic",
    ])
    .unwrap();
    assert_eq!(cli.namespace, Some("prod".to_string()));
    assert_eq!(cli.selector, Some("app=web".to_string()));
    assert_eq!(cli.container, Some("srv".to_string()));
    assert_eq!(cli.tail, Some(-1));
    assert!(cli.verbose);
    assert_eq!(cli.grep, Some("panic".to_string()));
}

#[test]
fn plain_output_is_another_name_for_no_tui() {
    let cli = Cli::try_parse_from(vec!["kubectl-tail", "--plain-output", "my-pod"]).unwrap();
    assert!(cli.no_tui);
}

#[test]
fn everything_after_a_double_dash_is_a_resource() {
    let cli = Cli::try_parse_from(vec!["kubectl-tail", "--", "-v", "--tail"]).unwrap();
    assert_eq!(cli.resources, vec!["-v".to_string(), "--tail".to_string()]);
    assert!(!cli.verbose);
}

#[test]
fn a_single_dash_is_a_resource() {
    let cli = Cli::try_parse_from(vec!["kubectl-tail", "-"]).unwrap();
    assert_eq!(cli.resources, vec!["-".to_string()]);
}

#[test]
fn unknown_options_are_turned_down() {
    let err = Cli::try_parse_from(vec!["kubectl-tail", "--frobnicate"]).unwrap_err();
    assert!(matches!(err, CliError::UnknownOption(ref o) if o == "--frobnicate"));
    let err = Cli::try_parse_from(vec!["kubectl-tail", "-x"]).unwrap_err();
    assert!(matches!(err, CliError::UnknownOption(ref o) if o == "-x"));
    let err = Cli::try_parse_from(vec!["kubectl-tail", "--frob=1"]).unwrap_err();
    assert!(matches!(err, CliError::UnknownOption(ref o) if o == "--frob"));
}

#[test]
fn an_option_without_its_value_is_turned_down() {
    let err = Cli::try_parse_from(vec!["kubectl-tail", "--tail"]).unwrap_err();
    assert!(matches!(err, CliError::MissingValue(ref o) if o == "--tail"));
    let err = Cli::try_parse_from(vec!["kubectl-tail", "-n", "-v"]).unwrap_err();
    assert!(matches!(err, CliError::MissingValue(ref o) if o == "-n"));
}

#[test]
fn a_flag_with_a_value_is_turned_down() {
    let err = Cli::try_parse_from(vec!["kubectl-tail", "--verbose=yes"]).unwrap_err();
    assert!(matches!(err, CliError::UnexpectedValue(ref o) if o == "--verbose"));
}

#[test]
fn a_repeated_option_is_turned_down() {
    let err = Cli::try_parse_from(vec!["kubectl-tail", "-n", "a", "--namespace", "b"]).unwrap_err();
    assert!(matches!(err, CliError::Repeated(ref o) if o == "--namespace"));
    let err = Cli::try_parse_from(vec!["kubectl-tail", "-vv"]).unwrap_err();
    assert!(matches!(err, CliError::Repeated(ref o) if o == "-v"));
}

#[test]
fn numbers_must_be_numbers() {
    let err = Cli::try_parse_from(vec!["kubectl-tail", "--tail", "ten"]).unwrap_err();
    assert!(
        matches!(err, CliError::InvalidNumber { ref option, ref value } if option == "--tail" && value == "ten")
    );
    let err = Cli::try_parse_from(vec!["kubectl-tail", "--buffer-size=-3"]).unwrap_err();
    assert!(matches!(err, CliError::InvalidNumber { .. }));
    let err =
        Cli::try_parse_from(vec!["kubectl-tail", "--tail", "9223372036854775808"]).unwrap_err();
    assert!(matches!(err, CliError::InvalidNumber { .. }));
    let cli =
        Cli::try_parse_from(vec!["kubectl-tail", "--tail=-9223372036854775808"]).unwrap();
    assert_eq!(cli.tail, Some(i64::MIN));
    let cli = Cli::try_parse_from(vec!["kubectl-tail", "--tail", "+7"]).unwrap();
    assert_eq!(cli.tail, Some(7));
}

#[test]
fn help_is_reported() {
    let err = Cli::try_parse_from(vec!["kubectl-tail", "--help"]).unwrap_err();
    assert!(matches!(err, CliError::HelpRequested));
    let err = Cli::try_parse_from(vec!["kubectl-tail", "-h"]).unwrap_err();
    assert!(matches!(err, CliError::HelpRequested));
}
