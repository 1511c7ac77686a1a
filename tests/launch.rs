use cheru::entry::CommandError;
use cheru::launch::{
    check_launch_path, command_words, prepare_launch, require_absolute, require_within_home,
    strip_field_codes, LaunchRequest,
};

fn rejection(r: Result<impl Sized, CommandError>) -> String {
    match r {
        Err(CommandError::LaunchError(m)) => m,
        Err(CommandError::WindowError(m)) => panic!("unexpected window error {}", m),
        Ok(_) => panic!("expected a rejection"),
    }
}

#[test]
fn test_strip_field_codes() {
    assert_eq!(strip_field_codes("firefox %u"), "firefox");
    assert_eq!(strip_field_codes("code %F"), "code");
    assert_eq!(strip_field_codes("gimp %U --new-instance"), "gimp --new-instance");
    assert_eq!(strip_field_codes("nautilus"), "nautilus");
}

#[test]
fn strip_field_codes_collapses_whitespace() {
    assert_eq!(strip_field_codes("  a\t\tb  %f  c "), "a b c");
    assert_eq!(strip_field_codes(""), "");
    assert_eq!(strip_field_codes("%u %F"), "");
}

#[test]
fn command_words_split_on_whitespace() {
    assert_eq!(command_words("/usr/bin/gimp %U --new-instance"), vec!["/usr/bin/gimp", "--new-instance"]);
}

#[test]
fn relative_program_is_rejected() {
    assert_eq!(rejection(prepare_launch("firefox %u", false)), "Exec path must be absolute");
}

#[test]
fn empty_command_is_rejected() {
    assert_eq!(rejection(prepare_launch("  %u ", false)), "Empty exec command");
}

#[test]
fn program_and_arguments_are_split() {
    match prepare_launch("/usr/bin/gimp %U --new-instance", false) {
        Ok(LaunchRequest::Program { program, args }) => {
            assert_eq!(program, "/usr/bin/gimp");
            assert_eq!(args, vec!["--new-instance".to_string()]);
        }
        _ => panic!("expected a program"),
    }
}

#[test]
fn bundles_open_as_a_whole() {
    match prepare_launch("/Applications/Safari.app", true) {
        Ok(LaunchRequest::Bundle(p)) => assert_eq!(p, "/Applications/Safari.app"),
        _ => panic!("expected a bundle"),
    }
    assert_eq!(rejection(prepare_launch("Safari.app", true)), "Exec path must be absolute");
    assert!(matches!(prepare_launch("/Applications/Safari.app", false), Ok(LaunchRequest::Program { .. })));
}

#[test]
fn traversal_outside_allowed_locations_is_rejected() {
    // "/Applications/../etc/passwd" resolves to this path.
    assert_eq!(
        rejection(check_launch_path("/etc/passwd", None)),
        "Path not in allowed locations: /etc/passwd"
    );
}

#[test]
fn allowed_locations_are_accepted() {
    assert!(check_launch_path("/Applications/Safari.app", None).is_ok());
    assert!(check_launch_path("/usr/bin/gimp", None).is_ok());
    assert!(check_launch_path("/opt", None).is_ok());
    assert!(check_launch_path("/home/ann/Applications/Tool.app", Some("/home/ann/Applications")).is_ok());
}

#[test]
fn prefix_checks_respect_path_segments() {
    assert!(check_launch_path("/usr/binfoo", None).is_err());
    assert!(check_launch_path("/optional/x", None).is_err());
    assert!(check_launch_path("/home/ann/ApplicationsX/t", Some("/home/ann/Applications")).is_err());
}

#[test]
fn absolute_paths_only() {
    assert!(require_absolute("/home/ann").is_ok());
    assert_eq!(rejection(require_absolute("docs/a.png")), "Path must be absolute");
}

#[test]
fn home_containment() {
    assert!(require_within_home("/home/ann/Pictures/a.png", "/home/ann", "open").is_ok());
    assert!(require_within_home("/home/ann", "/home/ann", "browse").is_ok());
    assert_eq!(
        rejection(require_within_home("/home/anna/x", "/home/ann", "open")),
        "Can only open paths under home directory"
    );
    assert_eq!(
        rejection(require_within_home("/etc", "/home/ann", "browse")),
        "Can only browse paths under home directory"
    );
}

#[test]
fn error_messages_name_their_kind() {
    assert_eq!(CommandError::LaunchError("x".to_string()).message(), "Failed to launch application: x");
    assert_eq!(CommandError::WindowError("y".to_string()).message(), "Window error: y");
}
