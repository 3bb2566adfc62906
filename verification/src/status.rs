//! The status of the connection, as the window and the tray show it.

use crate::text;
use vstd::prelude::*;
use vstd::string::*;

verus! {

/// A colour.
#[derive(Clone, Copy, PartialEq, Eq, Structural, Debug)]
pub struct Rgb {
    pub r: u8,
    pub g: u8,
    pub b: u8,
}

/// The name of a status.
pub open spec fn name_of(s: Seq<char>) -> Seq<char> {
    if s == "in-match"@ {
        "对局中"@
    } else if s == "idle"@ {
        "空闲"@
    } else if s == "connecting"@ {
        "连接中"@
    } else if s == "resolving"@ {
        "查询账号"@
    } else if s == "token-invalid"@ {
        "Token 已失效"@
    } else if s == "error"@ {
        "错误"@
    } else {
        "未启动"@
    }
}

/// Names a status.
pub fn status_text(s: &str) -> (r: &'static str)
    ensures
        r@ == name_of(s@),
{
    if text::same(s, "in-match") {
        "对局中"
    } else if text::same(s, "idle") {
        "空闲"
    } else if text::same(s, "connecting") {
        "连接中"
    } else if text::same(s, "resolving") {
        "查询账号"
    } else if text::same(s, "token-invalid") {
        "Token 已失效"
    } else if text::same(s, "error") {
        "错误"
    } else {
        "未启动"
    }
}

/// The colour of a status: blue in a match, green without one, gold on the way, red for a failure.
pub open spec fn color_of(s: Seq<char>) -> Rgb {
    if s == "in-match"@ {
        Rgb { r: 90, g: 200, b: 250 }
    } else if s == "idle"@ {
        Rgb { r: 118, g: 217, b: 138 }
    } else if s == "connecting"@ || s == "resolving"@ {
        Rgb { r: 255, g: 213, b: 107 }
    } else if s == "token-invalid"@ || s == "error"@ {
        Rgb { r: 255, g: 128, b: 110 }
    } else {
        Rgb { r: 130, g: 140, b: 160 }
    }
}

/// Colours a status.
pub fn status_color(s: &str) -> (r: Rgb)
    ensures
        r == color_of(s@),
{
    if text::same(s, "in-match") {
        Rgb { r: 90, g: 200, b: 250 }
    } else if text::same(s, "idle") {
        Rgb { r: 118, g: 217, b: 138 }
    } else if text::same(s, "connecting") || text::same(s, "resolving") {
        Rgb { r: 255, g: 213, b: 107 }
    } else if text::same(s, "token-invalid") || text::same(s, "error") {
        Rgb { r: 255, g: 128, b: 110 }
    } else {
        Rgb { r: 130, g: 140, b: 160 }
    }
}

/// The title of the window, and the hint at the icon: the status first.
pub fn window_title(s: &str) -> (r: String)
    ensures
        r@ == name_of(s@) + " - 完美段位监控"@,
{
    let mut out = status_text(s).to_owned();
    out.append(" - 完美段位监控");
    out
}

/// The side of the icon, in pixels.
pub const ICON_SIDE: usize = 32;

/// The colours of the icon: ground, border and letter.
#[derive(Clone, Copy, PartialEq, Eq, Structural, Debug)]
pub struct IconColors {
    pub ground: Rgb,
    pub border: Rgb,
    pub letter: Rgb,
}

/// The colours of the icon: the ground tells the status; before there is one, it is dark with a
/// border of gold.
pub open spec fn icon_colors(status: Option<Seq<char>>) -> IconColors {
    match status {
        Some(s) => IconColors {
            ground: color_of(s),
            border: Rgb { r: 240, g: 244, b: 248 },
            letter: Rgb { r: 17, g: 22, b: 32 },
        },
        None => IconColors {
            ground: Rgb { r: 22, g: 32, b: 46 },
            border: Rgb { r: 255, g: 213, b: 107 },
            letter: Rgb { r: 240, g: 244, b: 248 },
        },
    }
}

/// Twice the distance of the middle of a pixel from the middle of the icon, along one side.
pub open spec fn off_center(x: int) -> int {
    if 2 * x + 1 >= 32 {
        2 * x + 1 - 32
    } else {
        32 - (2 * x + 1)
    }
}

/// How far, doubled, a pixel lies beyond the straight part of a side whose rounded corner starts
/// at `from`.
pub open spec fn beyond(x: int, from: int) -> int {
    if off_center(x) > from {
        off_center(x) - from
    } else {
        0
    }
}

/// The pixel lies outside the circle of the rounded corner: `from` is where, doubled, the corner
/// starts, `reach` its doubled radius.
pub open spec fn outside_corner(x: int, y: int, from: int, reach: int) -> bool {
    beyond(x, from) * beyond(x, from) + beyond(y, from) * beyond(y, from) > reach * reach
}

/// The rows of the letter, five dots each, the leftmost in the highest bit.
pub open spec fn letter_row(row: int) -> int {
    if row == 0 || row == 3 || row == 6 {
        0b01110
    } else if row == 1 || row == 5 {
        0b10001
    } else if row == 2 {
        0b10000
    } else {
        0b00001
    }
}

/// The dot of the letter at a column and a row.
pub open spec fn letter_dot(col: int, row: int) -> bool {
    let bits = letter_row(row);
    if col == 0 {
        bits / 16 == 1
    } else if col == 1 || col == 2 || col == 3 {
        bits == 0b01110
    } else {
        bits % 2 == 1
    }
}

/// The pixel belongs to the letter: five by seven dots of two pixels each, in the middle.
pub open spec fn in_letter(x: int, y: int) -> bool {
    11 <= x < 21 && 9 <= y < 23 && letter_dot((x - 11) / 2, (y - 9) / 2)
}

/// A pixel: a colour, or nothing outside the rounded corners. The border lies between two rounded
/// squares whose corners have the same middle.
pub open spec fn pixel_at(x: int, y: int, c: IconColors) -> Option<Rgb> {
    if in_letter(x, y) {
        Some(c.letter)
    } else if outside_corner(x, y, 18, 15) {
        None
    } else if outside_corner(x, y, 18, 9) {
        Some(c.border)
    } else {
        Some(c.ground)
    }
}

/// The four bytes of a pixel: red, green, blue, and how opaque it is.
pub open spec fn rgba(p: Option<Rgb>) -> Seq<u8> {
    match p {
        Some(c) => seq![c.r, c.g, c.b, 255u8],
        None => seq![0u8, 0u8, 0u8, 0u8],
    }
}

/// The first `n` pixels of the icon, row by row.
pub open spec fn icon_bytes(c: IconColors, n: nat) -> Seq<u8>
    decreases n,
{
    if n == 0 {
        Seq::empty()
    } else {
        icon_bytes(c, (n - 1) as nat) + rgba(pixel_at((n - 1) % 32, (n - 1) / 32, c))
    }
}

fn off_center_of(x: u32) -> (r: u32)
    requires
        x < 32,
    ensures
        r == off_center(x as int),
        r <= 31,
{
    if 2 * x + 1 >= 32 {
        2 * x + 1 - 32
    } else {
        32 - (2 * x + 1)
    }
}

fn is_outside_corner(x: u32, y: u32, from: u32, reach: u32) -> (r: bool)
    requires
        x < 32,
        y < 32,
        reach <= 100,
    ensures
        r == outside_corner(x as int, y as int, from as int, reach as int),
{
    let ox: u32 = off_center_of(x);
    let oy: u32 = off_center_of(y);
    let a: u32 = if ox > from {
        ox - from
    } else {
        0
    };
    let b: u32 = if oy > from {
        oy - from
    } else {
        0
    };
    assert(a * a <= 961) by (nonlinear_arith)
        requires
            0 <= a <= 31,
    ;
    assert(b * b <= 961) by (nonlinear_arith)
        requires
            0 <= b <= 31,
    ;
    assert(reach * reach <= 10000) by (nonlinear_arith)
        requires
            0 <= reach <= 100,
    ;
    a * a + b * b > reach * reach
}

fn is_in_letter(x: u32, y: u32) -> (r: bool)
    ensures
        r == in_letter(x as int, y as int),
{
    if x < 11 || x >= 21 || y < 9 || y >= 23 {
        return false;
    }
    let col: u32 = (x - 11) / 2;
    let row: u32 = (y - 9) / 2;
    if row == 0 || row == 3 || row == 6 {
        col == 1 || col == 2 || col == 3
    } else if row == 1 || row == 5 {
        col == 0 || col == 4
    } else if row == 2 {
        col == 0
    } else {
        col == 4
    }
}

fn pixel(x: u32, y: u32, c: IconColors) -> (r: Option<Rgb>)
    requires
        x < 32,
        y < 32,
    ensures
        r == pixel_at(x as int, y as int, c),
{
    if is_in_letter(x, y) {
        Some(c.letter)
    } else if is_outside_corner(x, y, 18, 15) {
        None
    } else if is_outside_corner(x, y, 18, 9) {
        Some(c.border)
    } else {
        Some(c.ground)
    }
}

/// The colours of the icon for a status as the program hands it over.
pub open spec fn colors_for(status: Option<&str>) -> IconColors {
    icon_colors(
        match status {
            Some(s) => Some(s@),
            None => None,
        },
    )
}

/// Draws the icon for a status.
pub fn make_tray_icon(status: Option<&str>) -> (r: Vec<u8>)
    ensures
        r@ == icon_bytes(colors_for(status), 1024),
        r@.len() == 4096,
        forall|x: int, y: int|
            0 <= x < 32 && 0 <= y < 32 ==> r@.subrange(
                4 * (32 * y + x),
                4 * (32 * y + x) + 4,
            ) == rgba(#[trigger] pixel_at(x, y, colors_for(status))),
{
    let c = match status {
        Some(s) => IconColors {
            ground: status_color(s),
            border: Rgb { r: 240, g: 244, b: 248 },
            letter: Rgb { r: 17, g: 22, b: 32 },
        },
        None => IconColors {
            ground: Rgb { r: 22, g: 32, b: 46 },
            border: Rgb { r: 255, g: 213, b: 107 },
            letter: Rgb { r: 240, g: 244, b: 248 },
        },
    };
    let mut out: Vec<u8> = Vec::new();
    let mut i: u32 = 0;
    while i < 1024
        invariant
            i <= 1024,
            out@ == icon_bytes(c, i as nat),
            out@.len() == 4 * i,
        decreases 1024 - i,
    {
        let ghost before = out@;
        let p = pixel(i % 32, i / 32, c);
        match p {
            Some(x) => {
                out.push(x.r);
                out.push(x.g);
                out.push(x.b);
                out.push(255);
            },
            None => {
                out.push(0);
                out.push(0);
                out.push(0);
                out.push(0);
            },
        }
        assert(out@ =~= before + rgba(p));
        i += 1;
    }
    proof {
        assert forall|x: int, y: int| 0 <= x < 32 && 0 <= y < 32 implies out@.subrange(
            4 * (32 * y + x),
            4 * (32 * y + x) + 4,
        ) == rgba(#[trigger] pixel_at(x, y, c)) by {
            law_icon_holds_its_pixels(c, 1024, x, y);
        }
    }
    out
}

/// The four bytes of a pixel stand where its row and column say.
pub proof fn law_icon_holds_its_pixels(c: IconColors, n: nat, x: int, y: int)
    requires
        0 <= x < 32,
        0 <= y,
        32 * y + x < n,
    ensures
        icon_bytes(c, n).len() == 4 * n,
        icon_bytes(c, n).subrange(4 * (32 * y + x), 4 * (32 * y + x) + 4) == rgba(pixel_at(x, y, c)),
    decreases n,
{
    let m = (n - 1) as nat;
    lemma_icon_len(c, m);
    let at = 32 * y + x;
    let last = rgba(pixel_at((n - 1) % 32, (n - 1) / 32, c));
    assert(last.len() == 4);
    if at < m {
        law_icon_holds_its_pixels(c, m, x, y);
        assert(icon_bytes(c, n).subrange(4 * at, 4 * at + 4) =~= icon_bytes(c, m).subrange(
            4 * at,
            4 * at + 4,
        ));
    } else {
        assert((n - 1) % 32 == x && (n - 1) / 32 == y);
        assert(icon_bytes(c, n).subrange(4 * at, 4 * at + 4) =~= last);
    }
}

proof fn lemma_icon_len(c: IconColors, n: nat)
    ensures
        icon_bytes(c, n).len() == 4 * n,
    decreases n,
{
    if n > 0 {
        lemma_icon_len(c, (n - 1) as nat);
    }
}

/// A border of two pixels goes round the icon: along the straight part of every side its colour is
/// that of the border, and within it that of the ground.
pub proof fn law_border_goes_round(c: IconColors, d: int, t: int)
    requires
        0 <= d < 2,
        7 <= t < 25,
    ensures
        pixel_at(d, t, c) == Some(c.border),
        pixel_at(31 - d, t, c) == Some(c.border),
        pixel_at(t, d, c) == Some(c.border),
        pixel_at(t, 31 - d, c) == Some(c.border),
        pixel_at(2, t, c) == Some(c.ground),
        pixel_at(t, 2, c) == Some(c.ground),
        pixel_at(29, t, c) == Some(c.ground),
        pixel_at(t, 29, c) == Some(c.ground),
{
    assert(beyond(t, 18) == 0);
    assert(beyond(d, 18) == 13 - 2 * d && beyond(31 - d, 18) == 13 - 2 * d);
    assert(beyond(2, 18) == 9 && beyond(29, 18) == 9);
    assert(13int * 13int == 169 && 11int * 11int == 121 && 15int * 15int == 225 && 9int * 9int == 81
        && 0int * 0int == 0);
    if d == 0 {
        assert(beyond(d, 18) == 13);
    } else {
        assert(beyond(d, 18) == 11);
    }
}

/// The four corners of the icon are empty.
pub proof fn law_corners_are_empty(c: IconColors)
    ensures
        pixel_at(0, 0, c) is None,
        pixel_at(31, 0, c) is None,
        pixel_at(0, 31, c) is None,
        pixel_at(31, 31, c) is None,
{
    assert(beyond(0, 18) == 13 && beyond(31, 18) == 13);
    assert(13int * 13int == 169 && 15int * 15int == 225);
}

/// The letter lies on the ground of the icon, clear of the border.
pub proof fn law_letter_is_on_the_ground(x: int, y: int)
    requires
        in_letter(x, y),
    ensures
        !outside_corner(x, y, 18, 15),
        !outside_corner(x, y, 18, 9),
{
    assert(beyond(x, 18) == 0 && beyond(y, 18) == 0);
    assert(15int * 15int == 225 && 9int * 9int == 81);
}

/// The icon looks the same from both sides, but for the letter.
pub proof fn law_frame_is_symmetric(x: int, y: int, from: int, reach: int)
    ensures
        outside_corner(31 - x, y, from, reach) == outside_corner(x, y, from, reach),
        outside_corner(x, 31 - y, from, reach) == outside_corner(x, y, from, reach),
{
}

proof fn lemma_statuses_differ()
    ensures
        "in-match"@ != "idle"@,
        "in-match"@ != "connecting"@,
        "in-match"@ != "resolving"@,
        "in-match"@ != "token-invalid"@,
        "in-match"@ != "error"@,
        "idle"@ != "connecting"@,
        "idle"@ != "resolving"@,
        "idle"@ != "token-invalid"@,
        "idle"@ != "error"@,
        "connecting"@ != "resolving"@,
        "connecting"@ != "token-invalid"@,
        "connecting"@ != "error"@,
        "resolving"@ != "token-invalid"@,
        "resolving"@ != "error"@,
        "token-invalid"@ != "error"@,
{
    reveal_strlit("in-match");
    reveal_strlit("idle");
    reveal_strlit("connecting");
    reveal_strlit("resolving");
    reveal_strlit("token-invalid");
    reveal_strlit("error");
    assert("in-match"@.len() == 8 && "idle"@.len() == 4 && "connecting"@.len() == 10
        && "resolving"@.len() == 9 && "token-invalid"@.len() == 13 && "error"@.len() == 5);
}

/// A match is blue, no match green, the way to a connection gold and a failure red; any other
/// status is grey, and the ground of the icon has the colour of the status.
pub proof fn law_status_has_its_colour(s: Seq<char>)
    ensures
        color_of("in-match"@).b > color_of("in-match"@).g > color_of("in-match"@).r,
        color_of("idle"@).g > color_of("idle"@).r,
        color_of("idle"@).g > color_of("idle"@).b,
        color_of("connecting"@).r > color_of("connecting"@).g > color_of("connecting"@).b,
        color_of("connecting"@).g > 200,
        color_of("resolving"@) == color_of("connecting"@),
        color_of("error"@).r > 200,
        color_of("error"@).r > color_of("error"@).g + 100,
        color_of("error"@).r > color_of("error"@).b + 100,
        color_of("token-invalid"@) == color_of("error"@),
        s != "in-match"@ && s != "idle"@ && s != "connecting"@ && s != "resolving"@ && s
            != "token-invalid"@ && s != "error"@ ==> color_of(s) == (Rgb { r: 130, g: 140, b: 160 }),
        icon_colors(Some(s)).ground == color_of(s),
        icon_colors(Some(s)).border == (Rgb { r: 240, g: 244, b: 248 }),
        icon_colors(Some(s)).letter == (Rgb { r: 17, g: 22, b: 32 }),
        icon_colors(None).border == color_of("connecting"@),
        icon_colors(None).ground != icon_colors(None).border,
        icon_colors(None).letter != icon_colors(None).ground,
{
    lemma_statuses_differ();
}

/// The six statuses have names of their own; any other counts as not started.
pub proof fn law_status_has_its_name(s: Seq<char>)
    ensures
        name_of("in-match"@) == "对局中"@,
        name_of("idle"@) == "空闲"@,
        name_of("connecting"@) == "连接中"@,
        name_of("resolving"@) == "查询账号"@,
        name_of("token-invalid"@) == "Token 已失效"@,
        name_of("error"@) == "错误"@,
        s != "in-match"@ && s != "idle"@ && s != "connecting"@ && s != "resolving"@ && s
            != "token-invalid"@ && s != "error"@ ==> name_of(s) == "未启动"@,
{
    lemma_statuses_differ();
}

/// A pixel outside the rounded corners is see-through, every other has the full colour of its
/// part.
pub proof fn law_pixels_are_opaque_or_empty(c: Rgb)
    ensures
        rgba(Some(c)) == seq![c.r, c.g, c.b, 255u8],
        rgba(None) == seq![0u8, 0u8, 0u8, 0u8],
{
}

} // verus!
