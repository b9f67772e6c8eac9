use vstd::prelude::*;

use crate::decimal::{
    decimal, isize_to_string, lemma_parse_decimal, parse_usize, parsed_usize, signed_decimal,
    usize_to_string,
};
use crate::error::HWheelError;

verus! {

/// What the command line asks for.
pub enum Action {
    /// Bring up the selection overlay.
    Overlay,
    /// Click the mouse button `button` (as `xdotool` numbers them).
    Click { button: String },
    /// Move the pointer to row `y` and column `x` of the screen.
    MoveTo { y: usize, x: usize },
    /// An argument that names no command: nothing to do.
    Nothing,
}

/// What the command line asks for, as plain values.
pub enum ActionView {
    Overlay,
    Click { button: Seq<char> },
    MoveTo { y: usize, x: usize },
    Nothing,
}

impl View for Action {
    type V = ActionView;

    open spec fn view(&self) -> ActionView {
        match self {
            Action::Overlay => ActionView::Overlay,
            Action::Click { button } => ActionView::Click { button: button@ },
            Action::MoveTo { y, x } => ActionView::MoveTo { y: *y, x: *x },
            Action::Nothing => ActionView::Nothing,
        }
    }
}

/// The command that the arguments `args` (the program's name first) ask for,
/// or why they ask for none. Only the arguments that a command reads count.
pub open spec fn parsed_action(args: Seq<Seq<char>>) -> Result<ActionView, HWheelError> {
    if args.len() < 2 {
        Err(HWheelError::ForgotArgument)
    } else {
        let cmd = args[1];
        if cmd == "overlay"@ {
            Ok(ActionView::Overlay)
        } else if cmd == "scrollup"@ {
            Ok(ActionView::Click { button: "4"@ })
        } else if cmd == "scrolldown"@ {
            Ok(ActionView::Click { button: "5"@ })
        } else if cmd == "click"@ {
            if args.len() < 3 {
                Err(HWheelError::NoClickButton)
            } else if parsed_usize(args[2]) is None {
                Err(HWheelError::ClickButtonIsntNumber)
            } else {
                Ok(ActionView::Click { button: args[2] })
            }
        } else if cmd == "moveto"@ {
            if args.len() < 3 {
                Err(HWheelError::NoMoveY)
            } else if parsed_usize(args[2]) is None {
                Err(HWheelError::InvalidMoveY)
            } else if args.len() < 4 {
                Err(HWheelError::NoMoveX)
            } else if parsed_usize(args[3]) is None {
                Err(HWheelError::InvalidMoveX)
            } else {
                Ok(
                    ActionView::MoveTo {
                        y: parsed_usize(args[2])->Some_0,
                        x: parsed_usize(args[3])->Some_0,
                    },
                )
            }
        } else {
            Ok(ActionView::Nothing)
        }
    }
}

fn arg_is(a: &String, lit: &str) -> (b: bool)
    ensures
        b == (a@ == lit@),
{
    let l = String::from_str(lit);
    *a == l
}

/// Reads the command from the program's arguments, the program's name first.
pub fn parse_args(args: &Vec<String>) -> (r: Result<Action, HWheelError>)
    ensures
        match r {
            Ok(a) => parsed_action(args.deep_view()) == Ok::<ActionView, HWheelError>(a@),
            Err(e) => parsed_action(args.deep_view()) == Err::<ActionView, HWheelError>(e),
        },
{
    let ghost dv = args.deep_view();
    assert(dv.len() == args@.len());
    assert(forall|k: int| 0 <= k < args@.len() ==> dv[k] == (#[trigger] args@[k])@);
    if args.len() < 2 {
        return Err(HWheelError::ForgotArgument);
    }
    let cmd = &args[1];
    if arg_is(cmd, "overlay") {
        Ok(Action::Overlay)
    } else if arg_is(cmd, "scrollup") {
        Ok(Action::Click { button: String::from_str("4") })
    } else if arg_is(cmd, "scrolldown") {
        Ok(Action::Click { button: String::from_str("5") })
    } else if arg_is(cmd, "click") {
        if args.len() < 3 {
            return Err(HWheelError::NoClickButton);
        }
        let b = &args[2];
        match parse_usize(b.as_str()) {
            None => Err(HWheelError::ClickButtonIsntNumber),
            Some(_) => Ok(Action::Click { button: b.clone() }),
        }
    } else if arg_is(cmd, "moveto") {
        if args.len() < 3 {
            return Err(HWheelError::NoMoveY);
        }
        let y = match parse_usize(args[2].as_str()) {
            None => {
                return Err(HWheelError::InvalidMoveY);
            },
            Some(y) => y,
        };
        if args.len() < 4 {
            return Err(HWheelError::NoMoveX);
        }
        let x = match parse_usize(args[3].as_str()) {
            None => {
                return Err(HWheelError::InvalidMoveX);
            },
            Some(x) => x,
        };
        Ok(Action::MoveTo { y, x })
    } else {
        Ok(Action::Nothing)
    }
}

/// The arguments of `xdotool` that click the button `btn`.
pub fn click_args(btn: &str) -> (a: Vec<String>)
    ensures
        a.deep_view() == seq!["click"@, btn@],
{
    let a = vec![String::from_str("click"), String::from_str(btn)];
    assert(a.deep_view() =~= seq!["click"@, btn@]);
    a
}

/// The arguments of `xdotool` that move the pointer to row `y` and column `x`.
pub fn moveto_args(y: usize, x: usize) -> (a: Vec<String>)
    ensures
        a.deep_view() == seq![
            "mousemove"@,
            "--sync"@,
            decimal(x as nat),
            decimal(y as nat),
        ],
{
    let a = vec![
        String::from_str("mousemove"),
        String::from_str("--sync"),
        usize_to_string(x),
        usize_to_string(y),
    ];
    assert(a.deep_view() =~= seq!["mousemove"@, "--sync"@, decimal(x as nat), decimal(y as nat)]);
    a
}

/// The arguments of `xdotool` that move the pointer by `dy` rows and `dx` columns.
pub fn moveto_relative_args(dy: isize, dx: isize) -> (a: Vec<String>)
    ensures
        a.deep_view() == seq![
            "mousemove_relative"@,
            "--sync"@,
            "--"@,
            signed_decimal(dx as int),
            signed_decimal(dy as int),
        ],
{
    let a = vec![
        String::from_str("mousemove_relative"),
        String::from_str("--sync"),
        String::from_str("--"),
        isize_to_string(dx),
        isize_to_string(dy),
    ];
    assert(a.deep_view() =~= seq![
        "mousemove_relative"@,
        "--sync"@,
        "--"@,
        signed_decimal(dx as int),
        signed_decimal(dy as int),
    ]);
    a
}

/// `click` with a button that reads as a number clicks that button, passing
/// its text on unchanged whatever the number is; in particular every number
/// written in decimal is a button. `scrollup` and `scrolldown` click the
/// wheel's buttons 4 and 5.
pub proof fn lemma_click_passes_button(args: Seq<Seq<char>>, n: usize, prog: Seq<char>)
    ensures
        args.len() >= 3 && args[1] == "click"@ && parsed_usize(args[2]) is Some ==> parsed_action(
            args,
        ) == Ok::<ActionView, HWheelError>(ActionView::Click { button: args[2] }),
        parsed_action(seq![prog, "click"@, decimal(n as nat)]) == Ok::<ActionView, HWheelError>(
            ActionView::Click { button: decimal(n as nat) },
        ),
        parsed_action(seq![prog, "scrollup"@]) == Ok::<ActionView, HWheelError>(
            ActionView::Click { button: "4"@ },
        ),
        parsed_action(seq![prog, "scrolldown"@]) == Ok::<ActionView, HWheelError>(
            ActionView::Click { button: "5"@ },
        ),
{
    reveal_strlit("click");
    reveal_strlit("overlay");
    reveal_strlit("scrollup");
    reveal_strlit("scrolldown");
    assert("click"@ != "overlay"@) by {
        assert("click"@.len() != "overlay"@.len());
    }
    assert("click"@ != "scrollup"@) by {
        assert("click"@.len() != "scrollup"@.len());
    }
    assert("click"@ != "scrolldown"@) by {
        assert("click"@.len() != "scrolldown"@.len());
    }
    assert("scrollup"@ != "overlay"@) by {
        assert("scrollup"@[0] != "overlay"@[0]);
    }
    assert("scrolldown"@ != "overlay"@) by {
        assert("scrolldown"@[0] != "overlay"@[0]);
    }
    assert("scrolldown"@ != "scrollup"@) by {
        assert("scrolldown"@.len() != "scrollup"@.len());
    }
    lemma_parse_decimal(n);
}

} // verus!
