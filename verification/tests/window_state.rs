use venus_whisper::window_state::{position_visible, Rect, WindowState};

#[test]
fn visibility_check_against_monitors() {
    let main = Rect { x: 0, y: 0, w: 2560, h: 1440 };
    let ext = Rect { x: 2560, y: -200, w: 1920, h: 1080 };
    let s = |x, y| WindowState { x, y, width: 1000, height: 700, maximized: false };
    assert!(position_visible(&s(100, 100), &[main, ext]));
    assert!(position_visible(&s(3000, 0), &[main, ext]));
    assert!(!position_visible(&s(3000, 0), &[main]), "外接屏拔掉后不可见");
    assert!(!position_visible(&s(-500, 100), &[main]));
    assert!(!position_visible(&s(2540, 100), &[main]), "左上角贴边但 (x+32) 已出屏");
}

#[test]
fn no_monitor_means_not_visible() {
    let s = WindowState { x: 0, y: 0, width: 10, height: 10, maximized: true };
    assert!(!position_visible(&s, &[]));
}
