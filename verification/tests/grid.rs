use hamster::grid::{
    grid_letters, grid_lines, keyseq_associated_to_cell, pow3_i32, smaller_grid_letters,
    smaller_grid_lines, Label, Segment,
};
use hamster::overlay::overlay_keys;
use hamster::{GRID_HEIGHT, GRID_WIDTH};

#[test]
fn cell_keys_name_column_then_row() {
    let kd = overlay_keys();
    assert_eq!(keyseq_associated_to_cell(&kd, 0, 0), ['Q', 'A']);
    assert_eq!(keyseq_associated_to_cell(&kd, 1, 0), ['Q', 'Z']);
    assert_eq!(keyseq_associated_to_cell(&kd, 5, 3), ['R', 'C']);
    assert_eq!(keyseq_associated_to_cell(&kd, 12, 9), ['P', 'J']);
    assert_eq!(keyseq_associated_to_cell(&kd, 0, 10), ['?', 'A']);
    assert_eq!(keyseq_associated_to_cell(&kd, -1, 0), ['Q', 'Q']);
}

#[test]
fn every_cell_has_its_own_keys() {
    let kd = overlay_keys();
    let mut seen = Vec::new();
    for i in 0..GRID_HEIGHT {
        for j in 0..GRID_WIDTH {
            let ks = keyseq_associated_to_cell(&kd, i, j);
            assert!(!seen.contains(&ks));
            seen.push(ks);
        }
    }
    assert_eq!(seen.len(), 130);
}

#[test]
fn nothing_typed_shows_every_cell() {
    let kd = overlay_keys();
    let (labels, dest) = grid_letters(&kd, 192, 83, 83, &[]);
    assert_eq!(labels.len(), 260);
    assert_eq!(dest, None);
    assert_eq!(labels[0], Label { text: 'Q', x: 20, y: 0, font_size: 83 });
    assert_eq!(labels[1], Label { text: 'A', x: 62, y: 0, font_size: 83 });
    assert_eq!(labels[259], Label { text: 'J', x: 9 * 192 + 62, y: 12 * 83, font_size: 83 });
}

#[test]
fn one_key_shows_its_column() {
    let kd = overlay_keys();
    let (labels, dest) = grid_letters(&kd, 192, 83, 83, &['w']);
    assert_eq!(dest, None);
    assert_eq!(labels.len(), 26);
    assert!(labels.iter().step_by(2).all(|l| l.text == 'W' && l.x == 192 + 20));
}

#[test]
fn two_keys_select_their_cell() {
    let kd = overlay_keys();
    let (labels, dest) = grid_letters(&kd, 192, 83, 83, &['q', 'a']);
    assert_eq!(dest, Some((0, 0)));
    assert_eq!(labels.len(), 2);
    let (_, dest) = grid_letters(&kd, 192, 83, 83, &['P', 'j']);
    assert_eq!(dest, Some((12, 9)));
    for i in 0..GRID_HEIGHT {
        for j in 0..GRID_WIDTH {
            let ks = keyseq_associated_to_cell(&kd, i, j);
            let lower = [ks[0].to_ascii_lowercase(), ks[1].to_ascii_lowercase()];
            assert_eq!(grid_letters(&kd, 192, 83, 83, &lower).1, Some((i, j)));
        }
    }
}

#[test]
fn two_keys_that_name_no_cell_select_nothing() {
    let kd = overlay_keys();
    let (labels, dest) = grid_letters(&kd, 192, 83, 83, &['z', 'z']);
    assert_eq!(dest, None);
    assert!(labels.is_empty());
}

#[test]
fn grid_lines_cross_rows_then_columns() {
    let lines = grid_lines(83, 1920, 192, 1080);
    assert_eq!(lines.len(), 23);
    assert_eq!(lines[0], Segment { x1: 0, y1: 0, x2: 1920, y2: 0 });
    assert_eq!(lines[12], Segment { x1: 0, y1: 996, x2: 1920, y2: 996 });
    assert_eq!(lines[13], Segment { x1: 0, y1: 0, x2: 0, y2: 1080 });
    assert_eq!(lines[22], Segment { x1: 1728, y1: 0, x2: 1728, y2: 1080 });
}

#[test]
fn powers_of_three() {
    assert_eq!(pow3_i32(0), 1);
    assert_eq!(pow3_i32(1), 3);
    assert_eq!(pow3_i32(4), 81);
    assert_eq!(pow3_i32(19), 1162261467);
}

#[test]
fn refining_lines_split_the_cell_in_three() {
    let lines = smaller_grid_lines(83, 0, 192, 0, 1);
    assert_eq!(lines.len(), 8);
    assert_eq!(lines[0], Segment { x1: 0, y1: 0, x2: 0, y2: 83 });
    assert_eq!(lines[1], Segment { x1: 0, y1: 0, x2: 192, y2: 0 });
    assert_eq!(lines[2], Segment { x1: 64, y1: 0, x2: 64, y2: 83 });
    assert_eq!(lines[3], Segment { x1: 0, y1: 27, x2: 192, y2: 27 });
    assert_eq!(lines[7], Segment { x1: 0, y1: 81, x2: 192, y2: 81 });
    let deeper = smaller_grid_lines(83, 100, 192, 200, 2);
    assert_eq!(deeper[2], Segment { x1: 221, y1: 100, x2: 221, y2: 127 });
    assert_eq!(deeper[3], Segment { x1: 200, y1: 109, x2: 264, y2: 109 });
}

#[test]
fn refining_letters_surround_the_centre() {
    let kd = overlay_keys();
    let (labels, chosen) = smaller_grid_letters(&kd, 192, 83, 0, 0, 83, None, 1);
    assert_eq!(chosen, None);
    let texts: Vec<char> = labels.iter().map(|l| l.text).collect();
    assert_eq!(texts, vec!['y', 'u', 'i', 'h', 'k', 'n', 'm', ',']);
    assert_eq!(labels[0], Label { text: 'y', x: 32, y: -13, font_size: 41 });
    assert_eq!(labels[3], Label { text: 'h', x: 32, y: 14, font_size: 41 });
    assert_eq!(labels[5], Label { text: 'n', x: 32, y: 42, font_size: 41 });
    assert_eq!(labels[7], Label { text: ',', x: 160, y: 42, font_size: 41 });
}

#[test]
fn refining_key_picks_its_part() {
    let kd = overlay_keys();
    let (_, chosen) = smaller_grid_letters(&kd, 192, 83, 0, 0, 83, Some('u'), 1);
    assert_eq!(chosen, Some(((7, 96), (0, 1))));
    let (_, chosen) = smaller_grid_letters(&kd, 192, 83, 0, 0, 83, Some('j'), 1);
    assert_eq!(chosen, None);
    let (_, chosen) = smaller_grid_letters(&kd, 192, 83, 0, 0, 83, Some('U'), 1);
    assert_eq!(chosen, None);
    let expected = [(0, 0, 'y'), (0, 1, 'u'), (0, 2, 'i'), (1, 0, 'h'), (1, 2, 'k'), (2, 0, 'n'), (2, 1, 'm'), (2, 2, ',')];
    for (i, j, k) in expected {
        let (_, chosen) = smaller_grid_letters(&kd, 192, 83, 0, 0, 83, Some(k), 1);
        assert_eq!(chosen.map(|c| c.1), Some((i, j)));
    }
}

#[test]
fn typing_more_never_shows_a_hidden_cell() {
    let kd = overlay_keys();
    let visible = |p: &[char]| -> Vec<(i32, i32)> {
        let mut v = Vec::new();
        for i in 0..GRID_HEIGHT {
            for j in 0..GRID_WIDTH {
                if hamster::grid::is_cell_visible(&kd, p, i, j) {
                    v.push((i, j));
                }
            }
        }
        v
    };
    assert_eq!(visible(&[]).len(), 130);
    for p in [vec!['e'], vec!['e', 'd'], vec!['x'], vec!['E', 'x'], vec!['e', 'd', 'q']] {
        let shorter = visible(&p[..p.len() - 1]);
        assert!(visible(&p).iter().all(|c| shorter.contains(c)));
    }
}
