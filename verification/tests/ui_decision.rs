use wl_lock::{needs_redraw, ui_decision, TryExit, UiDecision};

fn pwd(d: &UiDecision) -> Option<&str> {
    match d {
        UiDecision::Authenticate(p) => Some(p.as_str()),
        _ => None,
    }
}

#[test]
fn force_wins_over_passwords() {
    let exits = vec![
        TryExit::PasswdCheck("hunter2".to_string()),
        TryExit::Force,
        TryExit::PasswdCheck("other".to_string()),
    ];
    assert!(matches!(ui_decision(&exits), UiDecision::Exit));
}

#[test]
fn last_password_is_checked() {
    let exits = vec![
        TryExit::PasswdCheck("first".to_string()),
        TryExit::Stay,
        TryExit::PasswdCheck("second".to_string()),
        TryExit::Stay,
    ];
    let d = ui_decision(&exits);
    assert_eq!(pwd(&d), Some("second"));
}

#[test]
fn nothing_asked_continues() {
    assert!(matches!(ui_decision(&vec![TryExit::Stay, TryExit::Stay]), UiDecision::Continue));
    assert!(matches!(ui_decision(&Vec::new()), UiDecision::Continue));
}

#[test]
fn empty_password_is_still_checked() {
    let d = ui_decision(&vec![TryExit::PasswdCheck(String::new())]);
    assert_eq!(pwd(&d), Some(""));
}

#[test]
fn redraw_when_input_or_repaint() {
    assert!(!needs_redraw(false, false));
    assert!(needs_redraw(true, false));
    assert!(needs_redraw(false, true));
    assert!(needs_redraw(true, true));
}
