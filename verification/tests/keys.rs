use hamster::ascii::{eq_ignore_ascii_case, is_prefix_of, to_ascii_uppercase};
use hamster::overlay::overlay_keys;
use hamster::KeyDistribution;

#[test]
fn new_places_rows_and_pads_with_none() {
    let kd: KeyDistribution<4> = KeyDistribution::new(['a', 'b'], ['c', 'd', 'e', 'f'], []);
    assert_eq!(kd.max_width(), 4);
    assert_eq!(kd.get(0, 0), Some('a'));
    assert_eq!(kd.get(0, 1), Some('b'));
    assert_eq!(kd.get(0, 2), None);
    assert_eq!(kd.get(1, 3), Some('f'));
    assert_eq!(kd.get(2, 0), None);
}

#[test]
fn get_outside_the_table_is_none() {
    let kd: KeyDistribution<2> = KeyDistribution::new(['a', 'b'], ['c', 'd'], ['e', 'f']);
    assert_eq!(kd.get(3, 0), None);
    assert_eq!(kd.get(0, 2), None);
    assert_eq!(kd.get(100, 100), None);
    assert_eq!(kd.get(2, 1), Some('f'));
}

#[test]
fn get_after_new_gives_back_each_key() {
    let rows: [[char; 3]; 3] = [['x', 'y', 'z'], ['1', '2', '3'], ['!', '?', '#']];
    let kd: KeyDistribution<5> = KeyDistribution::new(rows[0], rows[1], rows[2]);
    for r in 0..3 {
        for c in 0..5 {
            let expected = if c < 3 { Some(rows[r][c]) } else { None };
            assert_eq!(kd.get(r as i32, c as i32), expected);
        }
    }
}

#[test]
fn overlay_layout_has_the_three_keyboard_rows() {
    let kd = overlay_keys();
    assert_eq!(kd.max_width(), 10);
    assert_eq!(kd.get(0, 0), Some('q'));
    assert_eq!(kd.get(0, 9), Some('p'));
    assert_eq!(kd.get(1, 9), Some('ñ'));
    assert_eq!(kd.get(2, 7), Some(','));
    assert_eq!(kd.get(2, 9), Some('-'));
    assert_eq!(kd.get(3, 0), None);
    assert_eq!(kd.get(0, 10), None);
}

#[test]
fn uppercase_changes_only_ascii_lowercase() {
    assert_eq!(to_ascii_uppercase('a'), 'A');
    assert_eq!(to_ascii_uppercase('z'), 'Z');
    assert_eq!(to_ascii_uppercase('Q'), 'Q');
    assert_eq!(to_ascii_uppercase('ñ'), 'ñ');
    assert_eq!(to_ascii_uppercase(','), ',');
    for c in ['a', 'm', 'z', 'A', '0', 'ñ', 'é', '-', ' ', '~', '`', '{'] {
        assert_eq!(to_ascii_uppercase(c), c.to_ascii_uppercase());
    }
}

#[test]
fn equality_ignores_ascii_case_only() {
    assert!(eq_ignore_ascii_case('q', 'Q'));
    assert!(eq_ignore_ascii_case('Q', 'q'));
    assert!(!eq_ignore_ascii_case('q', 'w'));
    assert!(!eq_ignore_ascii_case('ñ', 'Ñ'));
    assert!(eq_ignore_ascii_case(',', ','));
}

#[test]
fn prefix_ignores_case() {
    assert!(is_prefix_of(&[], &['Q', 'A']));
    assert!(is_prefix_of(&['q'], &['Q', 'A']));
    assert!(is_prefix_of(&['q', 'a'], &['Q', 'A']));
    assert!(!is_prefix_of(&['q', 'z'], &['Q', 'A']));
    assert!(!is_prefix_of(&['q', 'a', 'x'], &['Q', 'A']));
    assert!(!is_prefix_of(&['w'], &['Q', 'A']));
    assert!(is_prefix_of(&['Q', 'a'], &['q', 'A']));
}
