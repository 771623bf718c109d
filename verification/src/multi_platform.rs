//! Choosing the input backend and reading pixels out of a captured screen.
use vstd::prelude::*;

verus! {

/// The input and screen backends the bot can drive.
#[derive(Debug, Copy, Clone, PartialEq, Eq, Structural)]
pub enum Backend {
    Windows,
    X11,
    Wayland,
}

/// The operating systems the bot runs on.
#[derive(Debug, Copy, Clone, PartialEq, Eq, Structural)]
pub enum HostOs {
    Windows,
    Linux,
    MacOs,
}

/// The backend for a host: Windows on Windows; on Linux, Wayland when a Wayland display is set
/// or the session type is `wayland`, X11 otherwise; X11 on macOS.
pub open spec fn backend_for(os: HostOs, wayland_display_set: bool, session_type: Option<Seq<char>>) -> Backend {
    match os {
        HostOs::Windows => Backend::Windows,
        HostOs::Linux => if wayland_display_set || session_type == Some("wayland"@) {
            Backend::Wayland
        } else {
            Backend::X11
        },
        HostOs::MacOs => Backend::X11,
    }
}

/// Picks the backend from what the environment says.
pub fn detect_backend(os: HostOs, wayland_display_set: bool, session_type: Option<&str>) -> (r: Backend)
    ensures
        r == backend_for(os, wayland_display_set, match session_type { Some(s) => Some(s@), None => None }),
{
    match os {
        HostOs::Windows => Backend::Windows,
        HostOs::Linux => {
            let wayland_session = match session_type {
                Some(s) => crate::app::text::str_eq(s, "wayland"),
                None => false,
            };
            if wayland_display_set || wayland_session { Backend::Wayland } else { Backend::X11 }
        },
        HostOs::MacOs => Backend::X11,
    }
}

/// The byte offset of pixel (x, y) in a row-major RGBA buffer of width `w`.
pub open spec fn pixel_offset(w: int, x: int, y: int) -> int {
    (y * w + x) * 4
}

/// Reads the RGB color of the pixel at (x, y) out of a captured RGBA screen of `w` × `h` pixels,
/// or `None` where the point lies outside the screen.
pub fn get_pixel(buf: &Vec<u8>, w: usize, h: usize, x: i32, y: i32) -> (r: Option<(u8, u8, u8)>)
    requires
        buf@.len() >= w * h * 4,
    ensures
        (x < 0 || y < 0 || x >= w || y >= h) ==> r is None,
        !(x < 0 || y < 0 || x >= w || y >= h) ==> r == Some((
            buf@[pixel_offset(w as int, x as int, y as int)],
            buf@[pixel_offset(w as int, x as int, y as int) + 1],
            buf@[pixel_offset(w as int, x as int, y as int) + 2],
        )),
{
    if x < 0 || y < 0 || x as usize >= w || y as usize >= h {
        return None;
    }
    let xu = x as usize;
    let yu = y as usize;
    proof {
        assert(buf@.len() == buf.len());
        assert((yu * w + xu) * 4 + 3 < w * h * 4 && yu * w <= (yu * w + xu) * 4) by (nonlinear_arith)
            requires
                xu < w,
                yu < h,
        ;
    }
    let row = yu * w;
    let idx = (row + xu) * 4;
    Some((buf[idx], buf[idx + 1], buf[idx + 2]))
}

} // verus!
