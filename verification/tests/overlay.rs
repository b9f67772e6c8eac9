use hamster::grid::Segment;
use hamster::overlay::{
    checked_frame, frame, frame_nudges, overlay_keys, FaultKind, FrameInput, FrameOutcome,
    OverlayState, Screen,
};

fn idle() -> FrameInput {
    FrameInput {
        space_pressed: false,
        shift_pressed: false,
        shift_down: false,
        left_down: false,
        right_down: false,
        up_down: false,
        down_down: false,
        h_down: false,
        j_down: false,
        k_down: false,
        l_down: false,
        char_pressed: None,
    }
}

fn typing(c: char) -> FrameInput {
    FrameInput { char_pressed: Some(c), ..idle() }
}

fn moveto_of(out: &FrameOutcome) -> Option<(usize, usize)> {
    match out {
        FrameOutcome::Continue { moveto, .. } => *moveto,
        FrameOutcome::Close { .. } => panic!("closed"),
    }
}

#[test]
fn screen_splits_monitor_into_cells() {
    let s = Screen::new(1920, 1080);
    assert_eq!(s.cell_width, 192);
    assert_eq!(s.cell_height, 83);
    assert_eq!(s.font_size, 83);
}

#[test]
fn space_closes_with_left_or_right_click() {
    let kd = overlay_keys();
    let scr = Screen::new(1920, 1080);
    let (st, out) = frame(OverlayState::new(), &kd, &scr, &FrameInput { space_pressed: true, ..idle() });
    assert!(!st.is_specifying());
    match out {
        FrameOutcome::Close { click } => assert_eq!(click, "1"),
        _ => panic!("expected close"),
    }
    let input = FrameInput { space_pressed: true, shift_pressed: true, ..idle() };
    let (_, out) = frame(OverlayState::new(), &kd, &scr, &input);
    match out {
        FrameOutcome::Close { click } => assert_eq!(click, "3"),
        _ => panic!("expected close"),
    }
}

#[test]
fn arrows_and_shifted_hjkl_nudge() {
    let input = FrameInput { left_down: true, down_down: true, h_down: true, ..idle() };
    assert_eq!(frame_nudges(&input), vec![(0, -10), (10, 0)]);
    let input = FrameInput { shift_down: true, left_down: true, h_down: true, l_down: true, ..idle() };
    assert_eq!(frame_nudges(&input), vec![(0, -10), (0, 10)]);
    assert_eq!(frame_nudges(&idle()), vec![]);
}

#[test]
fn two_keys_move_to_the_cell_centre() {
    let kd = overlay_keys();
    let scr = Screen::new(1920, 1080);
    let st = OverlayState::new();
    let (st, out) = frame(st, &kd, &scr, &typing('p'));
    assert_eq!(moveto_of(&out), None);
    assert!(!st.is_specifying());
    let (st, out) = frame(st, &kd, &scr, &typing('j'));
    assert_eq!(moveto_of(&out), Some((1037, 1824)));
    assert!(st.is_specifying());
    match st {
        OverlayState::Specifying { base_y, base_x, spec_key_seq, len_of_last_move } => {
            assert_eq!((base_y, base_x), (996, 1728));
            assert!(spec_key_seq.is_empty());
            assert_eq!(len_of_last_move, None);
        }
        _ => panic!("expected refining"),
    }
}

#[test]
fn shift_and_space_do_not_type() {
    let kd = overlay_keys();
    let scr = Screen::new(1920, 1080);
    let (st, _) = frame(OverlayState::new(), &kd, &scr, &FrameInput { shift_down: true, ..typing('q') });
    let (st, _) = frame(st, &kd, &scr, &typing(' '));
    match &st {
        OverlayState::Selecting { key_seq } => assert!(key_seq.is_empty()),
        _ => panic!("still selecting"),
    }
}

#[test]
fn refining_moves_within_the_cell() {
    let kd = overlay_keys();
    let scr = Screen::new(1920, 1080);
    let (st, _) = frame(OverlayState::new(), &kd, &scr, &typing('q'));
    let (st, out) = frame(st, &kd, &scr, &typing('a'));
    assert_eq!(moveto_of(&out), Some((41, 96)));
    let (st, out) = frame(st, &kd, &scr, &typing('u'));
    assert_eq!(moveto_of(&out), Some((7, 96)));
    match &out {
        FrameOutcome::Continue { lines, labels, .. } => {
            assert_eq!(lines.len(), 23 + 8);
            assert_eq!(lines[23], Segment { x1: 0, y1: 0, x2: 0, y2: 83 });
            assert_eq!(labels.len(), 8);
        }
        _ => panic!("continue"),
    }
    match &st {
        OverlayState::Specifying { base_y, base_x, spec_key_seq, len_of_last_move } => {
            assert_eq!((*base_y, *base_x), (0, 64));
            assert_eq!(spec_key_seq, &vec!['u']);
            assert_eq!(*len_of_last_move, Some(0));
        }
        _ => panic!("refining"),
    }
    // Second level: part (2, 2) of the part just picked.
    let (st, out) = frame(st, &kd, &scr, &typing(','));
    // s = 9, font 83 / 4 = 20; x = 64 + 384 / 9 + 21 / 2 = 64 + 42 + 10; y = 166 / 9 - 4 + 20 / 4.
    assert_eq!(moveto_of(&out), Some((19, 116)));
    match &st {
        OverlayState::Specifying { base_y, base_x, len_of_last_move, .. } => {
            assert_eq!((*base_y, *base_x), (18, 106));
            assert_eq!(*len_of_last_move, Some(1));
        }
        _ => panic!("refining"),
    }
    // A key that names no part only adds to the typed keys.
    let (_, out) = frame(st, &kd, &scr, &typing('q'));
    assert_eq!(moveto_of(&out), None);
}

#[test]
fn unknown_pair_is_a_fault() {
    let kd = overlay_keys();
    let scr = Screen::new(1920, 1080);
    let (st, _) = frame(OverlayState::new(), &kd, &scr, &typing('z'));
    let input = FrameInput { left_down: true, ..typing('z') };
    let (st, res) = checked_frame(st, &kd, &scr, &input);
    match res {
        Err(f) => {
            assert_eq!(f.kind, FaultKind::NoCellForKeys);
            assert_eq!(f.nudges, vec![(0, -10)]);
        }
        Ok(_) => panic!("expected a fault"),
    }
    match st {
        OverlayState::Selecting { key_seq } => assert_eq!(key_seq, vec!['z']),
        _ => panic!("unchanged"),
    }
}

#[test]
fn refining_too_deep_is_a_fault() {
    let kd = overlay_keys();
    let scr = Screen::new(1920, 1080);
    let st = OverlayState::Specifying {
        base_y: 0,
        base_x: 0,
        spec_key_seq: vec!['q'; 19],
        len_of_last_move: None,
    };
    let (_, res) = checked_frame(st, &kd, &scr, &idle());
    assert!(matches!(res, Err(f) if f.kind == FaultKind::Overflow));
    let st = OverlayState::Specifying {
        base_y: 0,
        base_x: 0,
        spec_key_seq: vec!['q'; 18],
        len_of_last_move: None,
    };
    let (_, res) = checked_frame(st, &kd, &scr, &idle());
    assert!(res.is_ok());
}

#[test]
fn refining_near_the_edge_of_i32_is_a_fault() {
    let kd = overlay_keys();
    let scr = Screen::new(1920, 1080);
    let st = OverlayState::Specifying {
        base_y: i32::MAX - 10,
        base_x: 0,
        spec_key_seq: vec![],
        len_of_last_move: None,
    };
    let (_, res) = checked_frame(st, &kd, &scr, &idle());
    assert!(matches!(res, Err(f) if f.kind == FaultKind::Overflow));
}

#[test]
fn checked_frame_agrees_with_frame() {
    let kd = overlay_keys();
    let scr = Screen::new(1920, 1080);
    let (st, res) = checked_frame(OverlayState::new(), &kd, &scr, &typing('e'));
    assert!(res.is_ok());
    let (st, res) = checked_frame(st, &kd, &scr, &typing('d'));
    match res {
        Ok(out) => assert_eq!(moveto_of(&out), Some((4 * 83 + 41, 2 * 192 + 96))),
        Err(_) => panic!("defined"),
    }
    assert!(st.is_specifying());
}

#[test]
fn every_frame_keeps_the_overlay_consistent() {
    let kd = overlay_keys();
    let scr = Screen::new(1920, 1080);
    let script = ['q', 'A', 'u', 'u', 'y', 'm', ',', 'k', 'k', 'i', 'h', 'n', 'q', 'l', 'x'];
    let mut st = OverlayState::new();
    for (n, c) in script.iter().enumerate() {
        let input = FrameInput { shift_down: n % 4 == 3, ..typing(*c) };
        let (next, res) = checked_frame(st, &kd, &scr, &input);
        assert!(res.is_ok());
        st = next;
        match &st {
            OverlayState::Selecting { key_seq } => assert!(key_seq.len() <= 1),
            OverlayState::Specifying { spec_key_seq, len_of_last_move, .. } => {
                if let Some(l) = len_of_last_move {
                    assert!(*l <= spec_key_seq.len());
                }
            }
        }
    }
    assert!(st.is_specifying());
}

#[test]
fn no_second_move_until_another_key_is_typed() {
    let kd = overlay_keys();
    let scr = Screen::new(900, 1300);
    let st = OverlayState::Specifying {
        base_y: 0,
        base_x: 0,
        spec_key_seq: vec!['q', 'q'],
        len_of_last_move: None,
    };
    let shifted_y = FrameInput { shift_down: true, ..typing('y') };
    let (st, out) = frame(st, &kd, &scr, &shifted_y);
    assert!(moveto_of(&out).is_some());
    let (st, out) = frame(st, &kd, &scr, &shifted_y);
    assert_eq!(moveto_of(&out), None);
    // Typed without shift: no move yet, but the key is added.
    let (st, out) = frame(st, &kd, &scr, &typing('y'));
    assert_eq!(moveto_of(&out), None);
    match &st {
        OverlayState::Specifying { spec_key_seq, len_of_last_move, .. } => {
            assert_eq!(spec_key_seq.len(), 3);
            assert_eq!(*len_of_last_move, Some(2));
        }
        _ => panic!("refining"),
    }
    let (_, out) = frame(st, &kd, &scr, &typing('y'));
    assert!(moveto_of(&out).is_some());
}

#[test]
fn refining_never_leaves_the_picked_cell() {
    let kd = overlay_keys();
    let scr = Screen::new(1920, 1080);
    let (st, _) = frame(OverlayState::new(), &kd, &scr, &typing('r'));
    let (mut st, _) = frame(st, &kd, &scr, &typing('c'));
    // 'r' names column 3, 'c' row 5.
    let keys = [',', ',', ',', 'm', 'k', ',', ',', 'n', ',', ',', ',', ',', ','];
    for (n, c) in keys.iter().enumerate() {
        let input = FrameInput { shift_down: n % 3 == 2, ..typing(*c) };
        let (next, _) = frame(st, &kd, &scr, &input);
        st = next;
        match &st {
            OverlayState::Specifying { base_y, base_x, .. } => {
                assert!(5 * 83 <= *base_y && *base_y < 6 * 83);
                assert!(3 * 192 <= *base_x && *base_x < 4 * 192);
            }
            _ => panic!("refining"),
        }
    }
}

#[test]
fn eighteen_refining_keys_never_overflow() {
    let kd = overlay_keys();
    let scr = Screen::new(1920, 1080);
    let (st, _) = frame(OverlayState::new(), &kd, &scr, &typing('p'));
    let (mut st, _) = frame(st, &kd, &scr, &typing('j'));
    let parts = [',', 'm', 'n', 'k', 'h', 'i', 'u', 'y'];
    // Frames with 0 to 18 keys already typed are all defined.
    for n in 0..19 {
        let (next, res) = checked_frame(st, &kd, &scr, &typing(parts[n % 8]));
        assert!(res.is_ok(), "frame {n}");
        st = next;
    }
    // With 19 keys typed the refinement depth passes what `i32` holds.
    let (_, res) = checked_frame(st, &kd, &scr, &typing(','));
    assert!(matches!(res, Err(f) if f.kind == FaultKind::Overflow));
}
