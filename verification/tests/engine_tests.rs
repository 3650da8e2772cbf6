use bsh::engine::Scan;
use bsh::engine::fill_hole;
use bsh::engine::is_blank;
use bsh::engine::next_hole;
use bsh::store::Store;

fn chars(x: &str) -> Vec<char> {
    x.chars().collect()
}

fn text(v: &[char]) -> String {
    v.iter().collect()
}

#[test]
fn repeated_placeholder_is_answered_once_per_occurrence() {
    let t0 = chars("echo <[x]> <[x]>");
    match next_hole(&t0) {
        Scan::Hole { start, end, name } => {
            assert_eq!(start, 5);
            assert_eq!(end, 10);
            assert_eq!(text(&name), "x");
        }
        _ => panic!("expected the first placeholder"),
    }
    let t1 = fill_hole(&t0, &chars("A")).expect("first splice");
    assert_eq!(text(&t1), "echo A <[x]>");
    match next_hole(&t1) {
        Scan::Hole { name, .. } => assert_eq!(text(&name), "x"),
        _ => panic!("expected the second placeholder"),
    }
    let t2 = fill_hole(&t1, &chars("B")).expect("second splice");
    assert_eq!(text(&t2), "echo A B");
    assert!(matches!(next_hole(&t2), Scan::Ready));
}

#[test]
fn unmatched_marker_aborts_and_stored_text_survives() {
    let mut store = Store::new();
    store.add_or_update_command(
        &"misc".to_string(),
        &"bad".to_string(),
        &"echo <[x]".to_string(),
    );
    let t = chars("echo <[x]");
    assert!(matches!(next_hole(&t), Scan::Unmatched));
    assert!(fill_hole(&t, &chars("A")).is_none());
    assert_eq!(
        store.lookup(&"misc".to_string(), &"bad".to_string()),
        Some("echo <[x]".to_string())
    );
}

#[test]
fn text_without_markers_is_ready() {
    assert!(matches!(next_hole(&chars("echo hi")), Scan::Ready));
    assert!(matches!(next_hole(&chars("")), Scan::Ready));
    assert!(fill_hole(&chars("echo hi"), &chars("A")).is_none());
}

#[test]
fn empty_placeholder_name_is_allowed() {
    let t = chars("ls <[]>");
    match next_hole(&t) {
        Scan::Hole { start, end, name } => {
            assert_eq!(start, 3);
            assert_eq!(end, 7);
            assert_eq!(text(&name), "");
        }
        _ => panic!("expected a placeholder"),
    }
    let filled = fill_hole(&t, &chars("-la")).expect("splice");
    assert_eq!(text(&filled), "ls -la");
}

#[test]
fn answer_is_spliced_raw() {
    let t = chars("sh -c <[cmd]>");
    let filled = fill_hole(&t, &chars("rm \"a b\"; echo $X")).expect("splice");
    assert_eq!(text(&filled), "sh -c rm \"a b\"; echo $X");
}

#[test]
fn only_first_occurrence_is_replaced() {
    let t = chars("<[a]> and <[b]>");
    let filled = fill_hole(&t, &chars("1")).expect("splice");
    assert_eq!(text(&filled), "1 and <[b]>");
}

#[test]
fn close_marker_before_open_is_not_a_hole() {
    let t = chars("]> then <[x");
    assert!(matches!(next_hole(&t), Scan::Unmatched));
}

#[test]
fn blank_text_is_recognized() {
    assert!(is_blank(&chars("")));
    assert!(is_blank(&chars("  \t ")));
    assert!(!is_blank(&chars(" x ")));
}

#[test]
fn later_unmatched_marker_surfaces_after_earlier_holes() {
    let t0 = chars("a <[x]> b <[");
    let t1 = fill_hole(&t0, &chars("1")).expect("first splice");
    assert_eq!(text(&t1), "a 1 b <[");
    assert!(matches!(next_hole(&t1), Scan::Unmatched));
    assert!(fill_hole(&t1, &chars("2")).is_none());
}
