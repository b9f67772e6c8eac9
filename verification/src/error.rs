use vstd::prelude::*;

verus! {

/// Why the program stops early.
#[derive(Debug, Clone, PartialEq, Eq)]
pub enum HWheelError {
    ForgotArgument,
    UnrecognizedArg(String),
    NoClickButton,
    ClickButtonIsntNumber,
    ClickButtonIsNotButton,
    /// `xdotool` could not be started; holds the system's reason.
    CouldNotReachXDoTool(String),
    NoMoveY,
    NoMoveX,
    InvalidMoveY,
    InvalidMoveX,
    MonitorIsntInteger,
}

/// The text that describes `e`.
pub open spec fn error_message(e: HWheelError) -> Seq<char> {
    match e {
        HWheelError::ForgotArgument => "no argument given"@,
        HWheelError::UnrecognizedArg(s) => "could not recognize argument: "@ + s@,
        HWheelError::NoClickButton => "click command sent with no button number"@,
        HWheelError::ClickButtonIsntNumber => "button number must be a number"@,
        HWheelError::ClickButtonIsNotButton => "button number was not 1, 2 or 3"@,
        HWheelError::CouldNotReachXDoTool(r) => "could not run 'xdotool', is it installed?: "@
            + r@,
        HWheelError::NoMoveY => "moved without providing row"@,
        HWheelError::NoMoveX => "moved without providing column"@,
        HWheelError::InvalidMoveY => "invalid move row"@,
        HWheelError::InvalidMoveX => "invalid move column"@,
        HWheelError::MonitorIsntInteger => "monitor is not integer"@,
    }
}

/// The process exit status for `e`.
pub open spec fn error_exit_code(e: HWheelError) -> u8 {
    match e {
        HWheelError::ForgotArgument => 10,
        HWheelError::UnrecognizedArg(_) => 11,
        HWheelError::NoClickButton => 12,
        HWheelError::ClickButtonIsntNumber => 13,
        HWheelError::ClickButtonIsNotButton => 14,
        HWheelError::CouldNotReachXDoTool(_) => 15,
        HWheelError::NoMoveY => 16,
        HWheelError::NoMoveX => 17,
        HWheelError::InvalidMoveY => 18,
        HWheelError::InvalidMoveX => 19,
        HWheelError::MonitorIsntInteger => 20,
    }
}

impl HWheelError {
    /// The text that describes the error.
    pub fn message(&self) -> (m: String)
        ensures
            m@ == error_message(*self),
    {
        match self {
            HWheelError::ForgotArgument => String::from_str("no argument given"),
            HWheelError::UnrecognizedArg(s) => String::from_str(
                "could not recognize argument: ",
            ).concat(s.as_str()),
            HWheelError::NoClickButton => String::from_str("click command sent with no button number"),
            HWheelError::ClickButtonIsntNumber => String::from_str("button number must be a number"),
            HWheelError::ClickButtonIsNotButton => String::from_str(
                "button number was not 1, 2 or 3",
            ),
            HWheelError::CouldNotReachXDoTool(r) => String::from_str(
                "could not run 'xdotool', is it installed?: ",
            ).concat(r.as_str()),
            HWheelError::NoMoveY => String::from_str("moved without providing row"),
            HWheelError::NoMoveX => String::from_str("moved without providing column"),
            HWheelError::InvalidMoveY => String::from_str("invalid move row"),
            HWheelError::InvalidMoveX => String::from_str("invalid move column"),
            HWheelError::MonitorIsntInteger => String::from_str("monitor is not integer"),
        }
    }

    /// The process exit status for the error: 10 to 20, one per kind.
    pub fn exit_code(&self) -> (c: u8)
        ensures
            c == error_exit_code(*self),
    {
        match self {
            HWheelError::ForgotArgument => 10,
            HWheelError::UnrecognizedArg(_) => 11,
            HWheelError::NoClickButton => 12,
            HWheelError::ClickButtonIsntNumber => 13,
            HWheelError::ClickButtonIsNotButton => 14,
            HWheelError::CouldNotReachXDoTool(_) => 15,
            HWheelError::NoMoveY => 16,
            HWheelError::NoMoveX => 17,
            HWheelError::InvalidMoveY => 18,
            HWheelError::InvalidMoveX => 19,
            HWheelError::MonitorIsntInteger => 20,
        }
    }
}

/// The outcome of a run of the command, each with its exit status.
#[derive(Debug, Clone, PartialEq, Eq)]
pub enum HWheelReturn {
    Success,
    ForgotArgument,
    UnrecognizedArg(String),
    NoClickButton,
    ClickButtonIsntNumber,
}

/// The text that describes `r`.
pub open spec fn return_message(r: HWheelReturn) -> Seq<char> {
    match r {
        HWheelReturn::Success => "finished with no problems"@,
        HWheelReturn::ForgotArgument => "no argument given"@,
        HWheelReturn::UnrecognizedArg(s) => "could not recognize argument: "@ + s@,
        HWheelReturn::NoClickButton => "click command sent with no button number"@,
        HWheelReturn::ClickButtonIsntNumber => "button number must be a number"@,
    }
}

/// The process exit status for `r`: 0 on success, else 10 to 13.
pub open spec fn return_exit_code(r: HWheelReturn) -> u8 {
    match r {
        HWheelReturn::Success => 0,
        HWheelReturn::ForgotArgument => 10,
        HWheelReturn::UnrecognizedArg(_) => 11,
        HWheelReturn::NoClickButton => 12,
        HWheelReturn::ClickButtonIsntNumber => 13,
    }
}

impl HWheelReturn {
    /// The text that describes the outcome.
    pub fn message(&self) -> (m: String)
        ensures
            m@ == return_message(*self),
    {
        match self {
            HWheelReturn::Success => String::from_str("finished with no problems"),
            HWheelReturn::ForgotArgument => String::from_str("no argument given"),
            HWheelReturn::UnrecognizedArg(s) => String::from_str(
                "could not recognize argument: ",
            ).concat(s.as_str()),
            HWheelReturn::NoClickButton => String::from_str(
                "click command sent with no button number",
            ),
            HWheelReturn::ClickButtonIsntNumber => String::from_str(
                "button number must be a number",
            ),
        }
    }

    /// The process exit status for the outcome.
    pub fn exit_code(&self) -> (c: u8)
        ensures
            c == return_exit_code(*self),
    {
        match self {
            HWheelReturn::Success => 0,
            HWheelReturn::ForgotArgument => 10,
            HWheelReturn::UnrecognizedArg(_) => 11,
            HWheelReturn::NoClickButton => 12,
            HWheelReturn::ClickButtonIsntNumber => 13,
        }
    }
}

} // verus!
