use chess_menu::window::{FullscreenChange, WindowSizing};

#[test]
fn entering_fullscreen_saves_the_windowed_size() {
    let mut w = WindowSizing::new((800, 600));
    assert_eq!(w.toggle_fullscreen(false, false, (1024, 768)), FullscreenChange::Enter);
    assert!(w.is_fullscreen);
    assert_eq!(w.windowed_size_before_fullscreen, Some((1024, 768)));
    assert_eq!(w.last_windowed_size, (1024, 768));
}

#[test]
fn entering_from_maximized_keeps_the_last_windowed_size() {
    let mut w = WindowSizing::new((800, 600));
    assert_eq!(w.toggle_fullscreen(false, true, (1920, 1080)), FullscreenChange::Enter);
    assert_eq!(w.windowed_size_before_fullscreen, Some((800, 600)));
    assert_eq!(w.last_windowed_size, (800, 600));
    let mut z = WindowSizing::new((640, 480));
    z.toggle_fullscreen(false, false, (0, 300));
    assert_eq!(z.windowed_size_before_fullscreen, Some((640, 480)));
}

#[test]
fn leaving_fullscreen_schedules_the_restore() {
    let mut w = WindowSizing::new((800, 600));
    w.toggle_fullscreen(false, false, (1000, 700));
    assert_eq!(w.toggle_fullscreen(true, false, (1920, 1080)), FullscreenChange::Leave);
    assert!(!w.is_fullscreen);
    assert!(w.suppress_maximize_to_fullscreen_once);
    assert_eq!(w.restore_windowed_size_after_fullscreen, Some((1000, 700)));
    let mut z = WindowSizing::new((800, 600));
    z.windowed_size_before_fullscreen = None;
    z.is_fullscreen = true;
    z.toggle_fullscreen(true, false, (1920, 1080));
    assert_eq!(z.restore_windowed_size_after_fullscreen, Some((800, 600)));
}

#[test]
fn restore_is_asked_for_until_reached() {
    let mut w = WindowSizing::new((800, 600));
    w.toggle_fullscreen(false, false, (1000, 700));
    w.toggle_fullscreen(true, false, (1920, 1080));
    assert_eq!(w.apply_pending_window_restore((1920, 1080)), Some((1000, 700)));
    assert_eq!(w.pending_size, Some((1000, 700)));
    assert_eq!(w.apply_pending_window_restore((1002, 698)), None);
    assert_eq!(w.restore_windowed_size_after_fullscreen, None);
    assert_eq!(w.last_windowed_size, (1002, 698));
    assert_eq!(w.apply_pending_window_restore((500, 500)), None);
}

#[test]
fn no_restore_while_fullscreen() {
    let mut w = WindowSizing::new((800, 600));
    w.restore_windowed_size_after_fullscreen = Some((800, 600));
    w.is_fullscreen = true;
    assert_eq!(w.apply_pending_window_restore((1920, 1080)), None);
    assert_eq!(w.restore_windowed_size_after_fullscreen, Some((800, 600)));
}

#[test]
fn maximizing_goes_fullscreen_unless_let_pass() {
    let mut w = WindowSizing::new((800, 600));
    assert!(w.maximized_resize_goes_fullscreen(true));
    assert!(!w.maximized_resize_goes_fullscreen(false));
    w.suppress_maximize_to_fullscreen_once = true;
    assert!(!w.maximized_resize_goes_fullscreen(true));
    assert!(!w.suppress_maximize_to_fullscreen_once);
    assert!(w.maximized_resize_goes_fullscreen(true));
}

#[test]
fn own_requests_are_recognised_within_two_pixels() {
    let mut w = WindowSizing::new((800, 600));
    assert!(!w.take_own_request((800, 600)));
    w.pending_size = Some((900, 600));
    assert!(!w.take_own_request((903, 600)));
    assert_eq!(w.pending_size, Some((900, 600)));
    assert!(w.take_own_request((898, 601)));
    assert_eq!(w.pending_size, None);
}

#[test]
fn windowed_size_is_noted_only_when_plain() {
    let mut w = WindowSizing::new((800, 600));
    w.note_windowed_size(true, (1920, 1080));
    assert_eq!(w.last_windowed_size, (800, 600));
    w.note_windowed_size(false, (1024, 768));
    assert_eq!(w.last_windowed_size, (1024, 768));
    w.restore_windowed_size_after_fullscreen = Some((1, 1));
    w.note_windowed_size(false, (640, 480));
    assert_eq!(w.last_windowed_size, (1024, 768));
}
