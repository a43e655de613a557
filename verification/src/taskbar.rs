//! What the taskbar shows of the program.
use crate::icon::config_badge_text;
use crate::store::{app_directory, join};
use crate::text::{concat, concat3};
use vstd::prelude::*;

verus! {

/// The width and height of the badge on the taskbar.
pub const OVERLAY_SIZE: usize = 64;

/// A color weighed by its opacity.
pub open spec fn premultiplied(channel: u8, opacity: u8) -> u8 {
    (channel as int * opacity as int / 255) as u8
}

fn premultiply(channel: u8, opacity: u8) -> (r: u8)
    ensures
        r == premultiplied(channel, opacity),
{
    proof {
        assert(0 <= channel * opacity <= 255 * 255) by (nonlinear_arith)
            requires
                0 <= channel <= 255,
                0 <= opacity <= 255,
        ;
    }
    (channel as u16 * opacity as u16 / 255) as u8
}

/// A picture as the screen wants it: blue first, the colors weighed by their
/// opacity.
pub open spec fn screen_bytes(rgba: Seq<u8>, pixels: nat) -> Seq<u8>
    decreases pixels,
{
    if pixels == 0 {
        Seq::empty()
    } else {
        let at = (pixels - 1) * 4;
        let a = rgba[at + 3];
        screen_bytes(rgba, (pixels - 1) as nat) + seq![
            premultiplied(rgba[at + 2], a),
            premultiplied(rgba[at + 1], a),
            premultiplied(rgba[at], a),
            a,
        ]
    }
}

/// A picture as the screen wants it.
pub fn to_screen_bytes(rgba: &Vec<u8>) -> (r: Vec<u8>)
    ensures
        r@ == screen_bytes(rgba@, rgba@.len() / 4),
{
    let pixels: usize = rgba.len() / 4;
    let mut out: Vec<u8> = Vec::new();
    let mut i: usize = 0;
    while i < pixels
        invariant
            i <= pixels,
            pixels == rgba@.len() / 4,
            out@ == screen_bytes(rgba@, i as nat),
        decreases pixels - i,
    {
        assert(rgba.len() <= usize::MAX);
        let at: usize = i * 4;
        let a: u8 = rgba[at + 3];
        let ghost before = out@;
        out.push(premultiply(rgba[at + 2], a));
        out.push(premultiply(rgba[at + 1], a));
        out.push(premultiply(rgba[at], a));
        out.push(a);
        i = i + 1;
        assert(out@ =~= screen_bytes(rgba@, i as nat));
    }
    out
}

/// No weighed color is above its opacity, as the screen requires.
pub proof fn lemma_premultiplied_bound(channel: u8, opacity: u8)
    ensures
        premultiplied(channel, opacity) <= opacity,
        opacity == 255 ==> premultiplied(channel, opacity) == channel,
        opacity == 0 ==> premultiplied(channel, opacity) == 0,
{
    assert(channel as int * opacity as int / 255 <= opacity) by (nonlinear_arith)
        requires
            0 <= channel <= 255,
            0 <= opacity <= 255,
    ;
    assert(0 <= channel as int * opacity as int / 255) by (nonlinear_arith)
        requires
            0 <= channel <= 255,
            0 <= opacity <= 255,
    ;
}

/// The description of the badge.
pub fn overlay_description(config_name: &str) -> (r: String)
    ensures
        r@ == "AutoKeyRust "@ + crate::icon::badge_text(config_name@),
{
    concat("AutoKeyRust ", &config_badge_text(config_name))
}

/// The file of the icon with which a pinned program is shown.
pub open spec fn relaunch_icon_path_of(
    app_data: Seq<char>,
    running: bool,
    config_name: Seq<char>,
) -> Seq<char> {
    crate::store::joined(
        crate::store::joined(app_data, crate::store::APP_DIRECTORY_NAME@),
        "taskbar-"@ + (if running {
            "running"@
        } else {
            "stopped"@
        }) + "-"@ + crate::icon::badge_text(config_name) + ".ico"@,
    )
}

/// The file of the icon with which a pinned program is shown.
pub fn relaunch_icon_path(app_data: &str, running: bool, config_name: &str) -> (r: String)
    ensures
        r@ == relaunch_icon_path_of(app_data@, running, config_name@),
{
    let state: &str = if running {
        "running"
    } else {
        "stopped"
    };
    let head = concat3("taskbar-", state, "-");
    let file = concat3(&head, &config_badge_text(config_name), ".ico");
    join(&app_directory(app_data), &file)
}

/// The first icon of a file, as the shell names it.
pub fn icon_resource(path: &str) -> (r: String)
    ensures
        r@ == path@ + ",0"@,
{
    concat(path, ",0")
}

/// Puts an icon in place of another one, which is to be destroyed.
pub fn replace_icon(slot: &mut Option<isize>, icon: isize) -> (r: Option<isize>)
    ensures
        *final(slot) == Some(icon),
        r == *old(slot),
{
    let before = *slot;
    *slot = Some(icon);
    before
}

/// Whether an update of the taskbar is done: where it is not wanted, and where
/// the window was found and all three parts succeeded.
pub fn update_done(enabled: bool, window_found: bool, base: bool, overlay: bool, relaunch: bool) -> (
r: bool)
    ensures
        r == (!enabled || (window_found && base && overlay && relaunch)),
{
    !enabled || (window_found && base && overlay && relaunch)
}

/// A weighed color is the share of the color that its opacity is of 255, rounded
/// down; a stronger color or opacity never makes it weaker.
pub proof fn lemma_premultiplied(channel: u8, opacity: u8, stronger: u8)
    ensures
        255 * premultiplied(channel, opacity) <= channel * opacity < 255 * (premultiplied(
            channel,
            opacity,
        ) + 1),
        channel <= stronger ==> premultiplied(channel, opacity) <= premultiplied(stronger, opacity),
        opacity <= stronger ==> premultiplied(channel, opacity) <= premultiplied(channel, stronger),
{
    let n = channel as int * opacity as int;
    assert(0 <= n <= 255 * 255) by (nonlinear_arith)
        requires
            n == channel as int * opacity as int,
            0 <= channel <= 255,
            0 <= opacity <= 255,
    ;
    let (p, q) = (stronger as int * opacity as int, channel as int * stronger as int);
    assert(0 <= p <= 255 * 255 && 0 <= q <= 255 * 255) by (nonlinear_arith)
        requires
            p == stronger as int * opacity as int,
            q == channel as int * stronger as int,
            0 <= channel <= 255,
            0 <= opacity <= 255,
            0 <= stronger <= 255,
    ;
    assert(channel <= stronger ==> n <= p) by (nonlinear_arith)
        requires
            n == channel as int * opacity as int,
            p == stronger as int * opacity as int,
            0 <= opacity,
    ;
    assert(opacity <= stronger ==> n <= q) by (nonlinear_arith)
        requires
            n == channel as int * opacity as int,
            q == channel as int * stronger as int,
            0 <= channel,
    ;
}

/// Every pixel stays in its place: blue, green and red of it, weighed, and its
/// opacity as it is.
pub proof fn lemma_screen_pixel(rgba: Seq<u8>, pixels: nat, i: int)
    requires
        0 <= i < pixels,
    ensures
        screen_bytes(rgba, pixels).len() == 4 * pixels,
        screen_bytes(rgba, pixels)[4 * i] == premultiplied(rgba[4 * i + 2], rgba[4 * i + 3]),
        screen_bytes(rgba, pixels)[4 * i + 1] == premultiplied(rgba[4 * i + 1], rgba[4 * i + 3]),
        screen_bytes(rgba, pixels)[4 * i + 2] == premultiplied(rgba[4 * i], rgba[4 * i + 3]),
        screen_bytes(rgba, pixels)[4 * i + 3] == rgba[4 * i + 3],
    decreases pixels,
{
    if pixels == 1 {
        reveal_with_fuel(screen_bytes, 2);
    } else {
        lemma_screen_pixel(
            rgba,
            (pixels - 1) as nat,
            if i < pixels - 1 {
                i
            } else {
                0
            },
        );
    }
}

/// The icon file of a state and a badge is its own: another state, or another
/// badge, has another file.
pub proof fn lemma_relaunch_icons(
    app_data: Seq<char>,
    a: bool,
    x: Seq<char>,
    b: bool,
    y: Seq<char>,
)
    ensures
        relaunch_icon_path_of(app_data, a, x) == relaunch_icon_path_of(app_data, b, y) <==> a == b
            && crate::icon::badge_text(x) == crate::icon::badge_text(y),
{
    reveal_strlit("running");
    reveal_strlit("stopped");
    reveal_strlit("taskbar-");
    reveal_strlit("-");
    reveal_strlit(".ico");
    let (s, t) = (crate::icon::badge_text(x), crate::icon::badge_text(y));
    let state = |running: bool|
        if running {
            "running"@
        } else {
            "stopped"@
        };
    let f = "taskbar-"@ + state(a) + "-"@ + s + ".ico"@;
    let g = "taskbar-"@ + state(b) + "-"@ + t + ".ico"@;
    let directory = crate::store::joined(app_data, crate::store::APP_DIRECTORY_NAME@);
    crate::store::lemma_joined_tells_component(directory, f, g);
    assert(f.len() == 20 + s.len() && g.len() == 20 + t.len());
    assert(f[8] == state(a)[0] && g[8] == state(b)[0]);
    assert(f.subrange(16, f.len() - 4) =~= s);
    assert(g.subrange(16, g.len() - 4) =~= t);
}

} // verus!
