use rush::sys::{console_size, terminal_size, wait_result, ConsoleScreenBufferInfo, SmallRect, Winsize, FALLBACK_SIZE};

#[test]
fn terminal_sizes() {
    let ws = Winsize { ws_row: 50, ws_col: 132, ..Default::default() };
    assert_eq!(terminal_size(true, ws), (50, 132));
    assert_eq!(terminal_size(false, ws), (24, 80));
    assert_eq!(terminal_size(true, Winsize { ws_row: 0, ws_col: 80, ..Default::default() }), FALLBACK_SIZE);
}

#[test]
fn console_sizes() {
    let info = ConsoleScreenBufferInfo {
        sr_window: SmallRect { left: 0, top: 10, right: 119, bottom: 39 },
        ..Default::default()
    };
    assert_eq!(console_size(true, info), (30, 120));
    assert_eq!(console_size(false, info), (24, 80));
    let flat = ConsoleScreenBufferInfo { sr_window: SmallRect { left: 5, top: 5, right: 0, bottom: 5 }, ..Default::default() };
    assert_eq!(console_size(true, flat), (24, 80));
}

#[test]
fn waits() {
    assert_eq!(wait_result(42, 42, 256), Some(256));
    assert_eq!(wait_result(0, 42, 256), None);
    assert_eq!(wait_result(-1, 42, 0), None);
}
