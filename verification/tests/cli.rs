use hamster::cli::{click_args, moveto_args, moveto_relative_args, parse_args, Action};
use hamster::error::{HWheelError, HWheelReturn};

fn args(list: &[&str]) -> Vec<String> {
    list.iter().map(|s| s.to_string()).collect()
}

#[test]
fn no_argument_is_an_error() {
    assert!(matches!(parse_args(&args(&["hamster"])), Err(HWheelError::ForgotArgument)));
    assert!(matches!(parse_args(&args(&[])), Err(HWheelError::ForgotArgument)));
}

#[test]
fn commands_are_recognised() {
    assert!(matches!(parse_args(&args(&["hamster", "overlay"])), Ok(Action::Overlay)));
    assert!(matches!(parse_args(&args(&["hamster", "scrollup"])), Ok(Action::Click { button }) if button == "4"));
    assert!(matches!(parse_args(&args(&["hamster", "scrolldown"])), Ok(Action::Click { button }) if button == "5"));
    assert!(matches!(parse_args(&args(&["hamster", "click", "3"])), Ok(Action::Click { button }) if button == "3"));
    assert!(matches!(parse_args(&args(&["hamster", "click", "+2"])), Ok(Action::Click { button }) if button == "+2"));
    assert!(matches!(parse_args(&args(&["hamster", "moveto", "10", "20"])), Ok(Action::MoveTo { y: 10, x: 20 })));
    assert!(matches!(parse_args(&args(&["hamster", "dance"])), Ok(Action::Nothing)));
    assert!(matches!(parse_args(&args(&["hamster", "Overlay"])), Ok(Action::Nothing)));
}

#[test]
fn click_needs_a_number() {
    assert!(matches!(parse_args(&args(&["hamster", "click"])), Err(HWheelError::NoClickButton)));
    assert!(matches!(parse_args(&args(&["hamster", "click", "left"])), Err(HWheelError::ClickButtonIsntNumber)));
    assert!(matches!(parse_args(&args(&["hamster", "click", "-1"])), Err(HWheelError::ClickButtonIsntNumber)));
}

#[test]
fn moveto_needs_row_then_column() {
    assert!(matches!(parse_args(&args(&["hamster", "moveto"])), Err(HWheelError::NoMoveY)));
    assert!(matches!(parse_args(&args(&["hamster", "moveto", "x"])), Err(HWheelError::InvalidMoveY)));
    assert!(matches!(parse_args(&args(&["hamster", "moveto", "x", "y"])), Err(HWheelError::InvalidMoveY)));
    assert!(matches!(parse_args(&args(&["hamster", "moveto", "5"])), Err(HWheelError::NoMoveX)));
    assert!(matches!(parse_args(&args(&["hamster", "moveto", "5", "y"])), Err(HWheelError::InvalidMoveX)));
}

#[test]
fn xdotool_arguments() {
    assert_eq!(click_args("1"), vec!["click", "1"]);
    assert_eq!(moveto_args(1037, 1824), vec!["mousemove", "--sync", "1824", "1037"]);
    assert_eq!(moveto_relative_args(-10, 0), vec!["mousemove_relative", "--sync", "--", "0", "-10"]);
    assert_eq!(moveto_relative_args(0, 10), vec!["mousemove_relative", "--sync", "--", "10", "0"]);
}

#[test]
fn error_messages_and_exit_codes() {
    let all = [
        (HWheelError::ForgotArgument, "no argument given", 10),
        (HWheelError::UnrecognizedArg("foo".to_string()), "could not recognize argument: foo", 11),
        (HWheelError::NoClickButton, "click command sent with no button number", 12),
        (HWheelError::ClickButtonIsntNumber, "button number must be a number", 13),
        (HWheelError::ClickButtonIsNotButton, "button number was not 1, 2 or 3", 14),
        (
            HWheelError::CouldNotReachXDoTool("No such file or directory (os error 2)".to_string()),
            "could not run 'xdotool', is it installed?: No such file or directory (os error 2)",
            15,
        ),
        (HWheelError::NoMoveY, "moved without providing row", 16),
        (HWheelError::NoMoveX, "moved without providing column", 17),
        (HWheelError::InvalidMoveY, "invalid move row", 18),
        (HWheelError::InvalidMoveX, "invalid move column", 19),
        (HWheelError::MonitorIsntInteger, "monitor is not integer", 20),
    ];
    for (e, m, c) in all {
        assert_eq!(e.message(), m);
        assert_eq!(e.exit_code(), c);
    }
}

#[test]
fn first_version_outcomes() {
    let all = [
        (HWheelReturn::Success, "finished with no problems", 0),
        (HWheelReturn::ForgotArgument, "no argument given", 10),
        (HWheelReturn::UnrecognizedArg("x".to_string()), "could not recognize argument: x", 11),
        (HWheelReturn::NoClickButton, "click command sent with no button number", 12),
        (HWheelReturn::ClickButtonIsntNumber, "button number must be a number", 13),
    ];
    for (r, m, c) in all {
        assert_eq!(r.message(), m);
        assert_eq!(r.exit_code(), c);
    }
}
