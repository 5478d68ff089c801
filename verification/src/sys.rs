//! The plain data that the operating system hands over: window sizes, console
//! rectangles, terminal modes, poll entries, a spawned pty; and what the
//! client and server make of them.
use vstd::prelude::*;

verus! {

/// Rows and columns assumed when the terminal does not tell its size.
pub const FALLBACK_SIZE: (u16, u16) = (24, 80);

/// A terminal window size, as `TIOCGWINSZ` gives it.
#[derive(Default, Clone, Copy, Debug, PartialEq, Eq, Structural)]
pub struct Winsize {
    pub ws_row: u16,
    pub ws_col: u16,
    pub ws_xpixel: u16,
    pub ws_ypixel: u16,
}

/// Terminal modes, as `tcgetattr` gives them.
#[derive(Clone, Copy, Debug)]
pub struct Termios {
    pub c_iflag: u32,
    pub c_oflag: u32,
    pub c_cflag: u32,
    pub c_lflag: u32,
    pub c_line: u8,
    pub c_cc: [u8; 32],
    pub c_ispeed: u32,
    pub c_ospeed: u32,
}

/// One entry of a `poll` call.
#[derive(Clone, Copy, Debug, PartialEq, Eq, Structural)]
pub struct PollFd {
    pub fd: i32,
    pub events: i16,
    pub revents: i16,
}

/// A console cell position.
#[derive(Default, Clone, Copy, Debug, PartialEq, Eq, Structural)]
pub struct Coord {
    pub x: i16,
    pub y: i16,
}

/// A console rectangle, edges included.
#[derive(Default, Clone, Copy, Debug, PartialEq, Eq, Structural)]
pub struct SmallRect {
    pub left: i16,
    pub top: i16,
    pub right: i16,
    pub bottom: i16,
}

/// What a Windows console reports of its screen buffer.
#[derive(Default, Clone, Copy, Debug, PartialEq, Eq, Structural)]
pub struct ConsoleScreenBufferInfo {
    pub dw_size: Coord,
    pub dw_cursor_position: Coord,
    pub w_attributes: u16,
    pub sr_window: SmallRect,
    pub dw_maximum_window_size: Coord,
}

/// A login process on a pty: the master side, and the child's process id.
#[derive(Clone, Copy, Debug, PartialEq, Eq, Structural)]
pub struct Pty {
    pub master: i32,
    pub pid: i32,
}

/// The size of the terminal from the result of `TIOCGWINSZ`: what it reports
/// when the call succeeded with a nonzero size, else 24 by 80.
pub fn terminal_size(ioctl_ok: bool, ws: Winsize) -> (r: (u16, u16))
    ensures
        r == (if ioctl_ok && ws.ws_col > 0 && ws.ws_row > 0 {
            (ws.ws_row, ws.ws_col)
        } else {
            (24u16, 80u16)
        }),
{
    if ioctl_ok && ws.ws_col > 0 && ws.ws_row > 0 {
        (ws.ws_row, ws.ws_col)
    } else {
        (24, 80)
    }
}

/// The size of a Windows console from its visible window: the rectangle's
/// height and width (edges included) when the call succeeded and both are
/// positive, else 24 by 80.
pub fn console_size(call_ok: bool, info: ConsoleScreenBufferInfo) -> (r: (u16, u16))
    requires
        call_ok ==> i16::MIN <= info.sr_window.bottom - info.sr_window.top <= i16::MAX - 1,
        call_ok ==> i16::MIN <= info.sr_window.right - info.sr_window.left <= i16::MAX - 1,
    ensures
        ({
            let rows = info.sr_window.bottom - info.sr_window.top + 1;
            let cols = info.sr_window.right - info.sr_window.left + 1;
            r == (if call_ok && rows > 0 && cols > 0 {
                (rows as u16, cols as u16)
            } else {
                (24u16, 80u16)
            })
        }),
{
    if call_ok {
        let rows = info.sr_window.bottom - info.sr_window.top + 1;
        let cols = info.sr_window.right - info.sr_window.left + 1;
        if rows > 0 && cols > 0 {
            (rows as u16, cols as u16)
        } else {
            (24, 80)
        }
    } else {
        (24, 80)
    }
}

/// What `waitpid` tells: the status when it returned the child's id, else
/// nothing.
pub fn wait_result(returned: i32, pid: i32, status: i32) -> (r: Option<i32>)
    ensures
        r == (if returned == pid {
            Some(status)
        } else {
            None
        }),
{
    if returned == pid {
        Some(status)
    } else {
        None
    }
}

} // verus!
