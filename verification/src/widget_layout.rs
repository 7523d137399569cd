//! Widget windows whose layout is remembered per monitor: which widgets are
//! tracked, how a monitor is named, and the
//! signature of the monitor set whose change triggers a restore.

use vstd::prelude::*;
use vstd::utf8::encode_utf8;

use crate::common::join2;
use crate::sort::{is_stable_order, le_of, permuted, stable_sort_by, Preorder};
use crate::text::{
    bytes_lt, chars_equal, chars_of, decimal_string, decimal_text, join_strings, join_with,
    lemma_lex_order, lex_lt, texts, trimmed_non_empty, trim_ws,
};

verus! {

/// The widgets whose layout is remembered.
pub open spec fn tracked_widget_ids() -> Seq<Seq<char>> {
    seq![
        "widget-gpu-default"@,
        "widget-deadlines-default"@,
        "widget-arxiv-default"@,
        "widget-quota-default"@,
    ]
}

/// The widgets whose layout is remembered (see `tracked_widget_ids`).
pub fn tracked_widget_id_list() -> (r: Vec<&'static str>)
    ensures
        r@.len() == 4,
        forall|k: int| 0 <= k < 4 ==> (#[trigger] r@[k])@ == tracked_widget_ids()[k],
{
    vec!["widget-gpu-default", "widget-deadlines-default", "widget-arxiv-default", "widget-quota-default"]
}

/// Whether a window label is one of the tracked widgets.
pub fn is_tracked_widget(label: &str) -> (r: bool)
    ensures
        r == tracked_widget_ids().contains(label@),
{
    let ids = tracked_widget_id_list();
    let l = chars_of(label);
    let mut i: usize = 0;
    while i < 4
        invariant
            i <= 4,
            l@ == label@,
            ids@.len() == 4,
            forall|k: int| 0 <= k < 4 ==> (#[trigger] ids@[k])@ == tracked_widget_ids()[k],
            forall|k: int| 0 <= k < i ==> tracked_widget_ids()[k] != label@,
        decreases 4 - i,
    {
        if chars_equal(&l, &chars_of(ids[i])) {
            assert(tracked_widget_ids()[i as int] == label@);
            return true;
        }
        i += 1;
    }
    false
}

/// The part of a monitor that windows may use, in physical pixels; its
/// width and height are at least 1.
#[derive(Debug, Clone, Copy)]
pub struct MonitorWorkArea {
    pub x: i32,
    pub y: i32,
    pub width: u32,
    pub height: u32,
}

/// The work area reported for a monitor, with a zero width or height taken as 1.
pub fn monitor_work_area(x: i32, y: i32, width: u32, height: u32) -> (r: MonitorWorkArea)
    ensures
        r.x == x,
        r.y == y,
        r.width == if width == 0 { 1 } else { width },
        r.height == if height == 0 { 1 } else { height },
{
    MonitorWorkArea {
        x,
        y,
        width: if width == 0 { 1 } else { width },
        height: if height == 0 { 1 } else { height },
    }
}

/// The decimal text of a signed number (`i64::to_string`).
pub open spec fn signed_decimal_text(n: int) -> Seq<char> {
    if n < 0 {
        "-"@ + decimal_text((-n) as nat)
    } else {
        decimal_text(n as nat)
    }
}

/// The decimal text of a signed number (see `signed_decimal_text`).
pub fn signed_decimal_string(n: i32) -> (r: String)
    ensures
        r@ == signed_decimal_text(n as int),
{
    if n < 0 {
        let magnitude = (0i64 - n as i64) as u64;
        join2("-", decimal_string(magnitude).as_str())
    } else {
        decimal_string(n as u64)
    }
}

/// The text `x,y:wxh` of a work area.
pub open spec fn area_text(a: MonitorWorkArea) -> Seq<char> {
    signed_decimal_text(a.x as int) + ","@ + signed_decimal_text(a.y as int) + ":"@ + decimal_text(
        a.width as nat,
    ) + "x"@ + decimal_text(a.height as nat)
}

/// The text of a work area (see `area_text`).
fn area_string(a: &MonitorWorkArea) -> (r: String)
    ensures
        r@ == area_text(*a),
{
    let mut parts: Vec<String> = Vec::new();
    parts.push(signed_decimal_string(a.x));
    parts.push(signed_decimal_string(a.y));
    let xy = join_strings(&parts, ",");
    proof {
        reveal_with_fuel(join_with, 3);
    }
    let wh = join2(decimal_string(a.width as u64).as_str(), "x");
    let wh = join2(wh.as_str(), decimal_string(a.height as u64).as_str());
    let r = join2(join2(xy.as_str(), ":").as_str(), wh.as_str());
    assert(r@ =~= area_text(*a));
    r
}

/// The key a monitor's layouts are kept under: its name, trimmed, where it
/// has one that is not blank; else `display@` and its work area.
pub open spec fn monitor_key_spec(name: Option<Seq<char>>, area: MonitorWorkArea) -> Seq<char> {
    match name {
        Some(n) if trim_ws(n).len() > 0 => trim_ws(n),
        _ => "display@"@ + area_text(area),
    }
}

/// The key of a monitor (see `monitor_key_spec`).
pub fn monitor_key(name: Option<&str>, area: &MonitorWorkArea) -> (r: String)
    ensures
        r@ == monitor_key_spec(match name { Some(n) => Some(n@), None => None }, *area),
{
    match name {
        Some(n) => match trimmed_non_empty(n) {
            Some(t) => return t,
            None => {},
        },
        None => {},
    }
    join2("display@", area_string(area).as_str())
}

/// A monitor as the layout store sees it: its key and work area.
#[derive(Debug)]
pub struct MonitorInfo {
    pub key: String,
    pub area: MonitorWorkArea,
}

/// Monitors are ordered by key, in byte order.
pub open spec fn monitor_le(a: MonitorInfo, b: MonitorInfo) -> bool {
    !lex_lt(encode_utf8(b.key@), encode_utf8(a.key@))
}

/// The order of monitors by key (see `monitor_le`).
pub struct MonitorOrder;

impl Preorder<MonitorInfo> for MonitorOrder {
    open spec fn le_spec(&self, a: MonitorInfo, b: MonitorInfo) -> bool {
        monitor_le(a, b)
    }

    fn le(&self, a: &MonitorInfo, b: &MonitorInfo) -> (r: bool) {
        !bytes_lt(b.key.as_str().as_bytes(), a.key.as_str().as_bytes())
    }

    proof fn lemma_total(&self, a: MonitorInfo, b: MonitorInfo) {
        lemma_lex_order(encode_utf8(a.key@), encode_utf8(b.key@), encode_utf8(a.key@));
    }

    proof fn lemma_transitive(&self, a: MonitorInfo, b: MonitorInfo, c: MonitorInfo) {
        lemma_lex_order(encode_utf8(c.key@), encode_utf8(b.key@), encode_utf8(a.key@));
        lemma_lex_order(encode_utf8(b.key@), encode_utf8(a.key@), encode_utf8(c.key@));
        lemma_lex_order(encode_utf8(c.key@), encode_utf8(a.key@), encode_utf8(b.key@));
    }
}

/// The entry of a monitor in the signature: `key@x,y:wxh`.
pub open spec fn monitor_entry(m: MonitorInfo) -> Seq<char> {
    m.key@ + "@"@ + area_text(m.area)
}

/// The entries of a list of monitors.
pub open spec fn monitor_entries(ms: Seq<MonitorInfo>) -> Seq<Seq<char>> {
    ms.map_values(|m: MonitorInfo| monitor_entry(m))
}

/// The signature of a set of monitors: their entries, sorted by key (a
/// stable sort), joined with `|`.
pub fn monitor_signature(monitors: Vec<MonitorInfo>) -> (r: String)
    ensures
        exists|p: Seq<int>|
            is_stable_order(|a: MonitorInfo, b: MonitorInfo| monitor_le(a, b), monitors@, p) && r@
                == join_with(monitor_entries(permuted(monitors@, p)), "|"@),
{
    let order = MonitorOrder;
    let sorted = stable_sort_by(monitors, &order);
    assert(le_of(order) =~= |a: MonitorInfo, b: MonitorInfo| monitor_le(a, b));
    let mut entries: Vec<String> = Vec::new();
    let mut i: usize = 0;
    while i < sorted.len()
        invariant
            i <= sorted@.len(),
            texts(entries@) == monitor_entries(sorted@.subrange(0, i as int)),
        decreases sorted@.len() - i,
    {
        let ghost before = texts(entries@);
        let entry = join2(join2(sorted[i].key.as_str(), "@").as_str(), area_string(&sorted[i].area).as_str());
        assert(entry@ =~= monitor_entry(sorted@[i as int]));
        entries.push(entry);
        assert(texts(entries@) =~= before.push(monitor_entry(sorted@[i as int])));
        assert(sorted@.subrange(0, i + 1) =~= sorted@.subrange(0, i as int).push(sorted@[i as int]));
        assert(texts(entries@) =~= monitor_entries(sorted@.subrange(0, i + 1)));
        i += 1;
    }
    assert(sorted@.subrange(0, sorted@.len() as int) =~= sorted@);
    join_strings(&entries, "|")
}


/// The index of the first monitor whose key is `key`, if any.
pub fn find_monitor_by_key(monitors: &Vec<MonitorInfo>, key: &str) -> (r: Option<usize>)
    ensures
        match r {
            Some(i) => i < monitors@.len() && monitors@[i as int].key@ == key@ && forall|k: int|
                0 <= k < i ==> (#[trigger] monitors@[k]).key@ != key@,
            None => forall|k: int| 0 <= k < monitors@.len() ==> (#[trigger] monitors@[k]).key@ != key@,
        },
{
    let wanted = chars_of(key);
    let mut i: usize = 0;
    while i < monitors.len()
        invariant
            i <= monitors@.len(),
            wanted@ == key@,
            forall|k: int| 0 <= k < i ==> (#[trigger] monitors@[k]).key@ != key@,
        decreases monitors@.len() - i,
    {
        if chars_equal(&chars_of(monitors[i].key.as_str()), &wanted) {
            return Some(i);
        }
        i += 1;
    }
    None
}

/// A rectangle in physical pixels: its origin and its size.
#[derive(Debug, Clone, Copy)]
pub struct PixelRect {
    pub x: i32,
    pub y: i32,
    pub width: u32,
    pub height: u32,
}

/// A size read as a signed 32-bit number (`size as i32`, two's complement).
pub open spec fn size_as_i32(w: u32) -> int {
    if w <= 0x7fff_ffff {
        w as int
    } else {
        w as int - 0x1_0000_0000
    }
}

/// Half of a number, rounded toward zero (`v / 2` on a signed integer).
pub open spec fn half_toward_zero(v: int) -> int {
    if v >= 0 {
        v / 2
    } else {
        -((-v) / 2)
    }
}

/// The horizontal centre of a window: its left edge plus half its width.
pub open spec fn centre_x(w: PixelRect) -> int {
    w.x + half_toward_zero(size_as_i32(w.width))
}

/// The vertical centre of a window: its top edge plus half its height.
pub open spec fn centre_y(w: PixelRect) -> int {
    w.y + half_toward_zero(size_as_i32(w.height))
}

/// Whether a point lies in a monitor: on or right of its left edge and left
/// of its right edge, on or below its top edge and above its bottom edge.
pub open spec fn rect_contains(m: PixelRect, px: int, py: int) -> bool {
    &&& m.x <= px
    &&& px < m.x + size_as_i32(m.width)
    &&& m.y <= py
    &&& py < m.y + size_as_i32(m.height)
}

/// Whether a number fits in an `i32`.
pub open spec fn fits_i32(v: int) -> bool {
    i32::MIN <= v <= i32::MAX
}

/// Whether a monitor's right and bottom edges can be computed in `i32`.
pub open spec fn edges_fit(m: PixelRect) -> bool {
    fits_i32(m.x + size_as_i32(m.width)) && fits_i32(m.y + size_as_i32(m.height))
}

/// `size as i32`, widened to `i64` (see `size_as_i32`).
fn size_as_i64(w: u32) -> (r: i64)
    ensures
        r == size_as_i32(w),
{
    if w <= 0x7fff_ffff {
        w as i64
    } else {
        w as i64 - 0x1_0000_0000i64
    }
}

/// Half of `v`, rounded toward zero (see `half_toward_zero`).
fn half_i64(v: i64) -> (r: i64)
    requires
        -0x1_0000_0000 < v < 0x1_0000_0000,
    ensures
        r == half_toward_zero(v as int),
{
    if v >= 0 {
        v / 2
    } else {
        0 - (0 - v) / 2
    }
}

/// The monitor that holds a window whose own monitor is unknown: the index
/// of the first monitor that contains the window's centre, if any.
pub fn monitor_containing_window(window: &PixelRect, monitors: &Vec<PixelRect>) -> (r: Option<usize>)
    requires
        fits_i32(centre_x(*window)),
        fits_i32(centre_y(*window)),
        forall|k: int| 0 <= k < monitors@.len() ==> edges_fit(#[trigger] monitors@[k]),
    ensures
        match r {
            Some(i) => i < monitors@.len() && rect_contains(
                monitors@[i as int],
                centre_x(*window),
                centre_y(*window),
            ) && forall|k: int|
                0 <= k < i ==> !rect_contains(
                    #[trigger] monitors@[k],
                    centre_x(*window),
                    centre_y(*window),
                ),
            None => forall|k: int|
                0 <= k < monitors@.len() ==> !rect_contains(
                    #[trigger] monitors@[k],
                    centre_x(*window),
                    centre_y(*window),
                ),
        },
{
    let cx: i64 = window.x as i64 + half_i64(size_as_i64(window.width));
    let cy: i64 = window.y as i64 + half_i64(size_as_i64(window.height));
    let mut i: usize = 0;
    while i < monitors.len()
        invariant
            i <= monitors@.len(),
            cx == centre_x(*window),
            cy == centre_y(*window),
            forall|k: int| 0 <= k < monitors@.len() ==> edges_fit(#[trigger] monitors@[k]),
            forall|k: int| 0 <= k < i ==> !rect_contains(#[trigger] monitors@[k], cx as int, cy as int),
        decreases monitors@.len() - i,
    {
        let m = monitors[i];
        assert(edges_fit(monitors@[i as int]));
        if cx >= m.x as i64 && cx < m.x as i64 + size_as_i64(m.width) && cy >= m.y as i64 && cy
            < m.y as i64 + size_as_i64(m.height) {
            return Some(i);
        }
        i += 1;
    }
    None
}


/// The least width a widget is given on screen, in physical pixels.
pub const MIN_WIDGET_WIDTH: u32 = 220;

/// The least height a widget is given on screen, in physical pixels.
pub const MIN_WIDGET_HEIGHT: u32 = 180;

/// A scaled size raised to the widget minimum, then held to the area's
/// extent (taken as at least 1).
pub open spec fn fitted_size(scaled: u32, minimum: u32, extent: u32) -> u32 {
    let cap: u32 = if extent == 0 { 1 } else { extent };
    let raised: u32 = if scaled < minimum { minimum } else { scaled };
    if raised > cap { cap } else { raised }
}

/// A coordinate held between `lo` and `hi`, or at `lo` where `hi` is below it.
pub open spec fn clamped_origin(desired: int, lo: int, hi: int) -> int {
    let top = if hi < lo { lo } else { hi };
    if desired < lo {
        lo
    } else if desired > top {
        top
    } else {
        desired
    }
}

/// The farthest origin that keeps a span of `size` inside an extent that
/// starts at `start`: `start + extent - size`, each size read as an `i32`.
pub open spec fn last_origin(start: i32, extent: u32, size: u32) -> int {
    start + size_as_i32(extent) - size_as_i32(size)
}

/// Whether placing a widget on an area computes nothing beyond `i32`: the
/// desired origin, the area's far edge and the farthest origin.
pub open spec fn placement_fits(
    area: MonitorWorkArea,
    offset_x: i32,
    offset_y: i32,
    scaled_width: u32,
    scaled_height: u32,
) -> bool {
    &&& fits_i32(area.x + offset_x)
    &&& fits_i32(area.y + offset_y)
    &&& fits_i32(area.x + size_as_i32(area.width))
    &&& fits_i32(area.y + size_as_i32(area.height))
    &&& fits_i32(last_origin(area.x, area.width, fitted_size(scaled_width, MIN_WIDGET_WIDTH, area.width)))
    &&& fits_i32(last_origin(area.y, area.height, fitted_size(scaled_height, MIN_WIDGET_HEIGHT, area.height)))
}

/// Where a widget goes on a monitor's work area, given its offset from the
/// area's origin and its size as scaled to the area: the size is raised to
/// the widget minimum and held to the area, and the origin is moved, where
/// it must be, so that the widget stays on the area.
pub fn place_widget(
    area: &MonitorWorkArea,
    offset_x: i32,
    offset_y: i32,
    scaled_width: u32,
    scaled_height: u32,
) -> (r: PixelRect)
    requires
        placement_fits(*area, offset_x, offset_y, scaled_width, scaled_height),
    ensures
        r.width == fitted_size(scaled_width, MIN_WIDGET_WIDTH, area.width),
        r.height == fitted_size(scaled_height, MIN_WIDGET_HEIGHT, area.height),
        r.x == clamped_origin(area.x + offset_x, area.x as int, last_origin(area.x, area.width, r.width)),
        r.y == clamped_origin(area.y + offset_y, area.y as int, last_origin(area.y, area.height, r.height)),
        1 <= area.width <= i32::MAX ==> area.x <= r.x && r.x + r.width <= area.x + area.width,
        1 <= area.height <= i32::MAX ==> area.y <= r.y && r.y + r.height <= area.y + area.height,
{
    let cap_w: u32 = if area.width == 0 { 1 } else { area.width };
    let cap_h: u32 = if area.height == 0 { 1 } else { area.height };
    let raised_w: u32 = if scaled_width < MIN_WIDGET_WIDTH { MIN_WIDGET_WIDTH } else { scaled_width };
    let raised_h: u32 = if scaled_height < MIN_WIDGET_HEIGHT { MIN_WIDGET_HEIGHT } else { scaled_height };
    let width: u32 = if raised_w > cap_w { cap_w } else { raised_w };
    let height: u32 = if raised_h > cap_h { cap_h } else { raised_h };
    let x = clamp_origin(area.x as i64 + offset_x as i64, area.x, area.x as i64 + size_as_i64(area.width) - size_as_i64(width));
    let y = clamp_origin(area.y as i64 + offset_y as i64, area.y, area.y as i64 + size_as_i64(area.height) - size_as_i64(height));
    PixelRect { x, y, width, height }
}

/// A coordinate held between `lo` and `hi` (see `clamped_origin`).
fn clamp_origin(desired: i64, lo: i32, hi: i64) -> (r: i32)
    requires
        fits_i32(desired as int),
        fits_i32(hi as int),
    ensures
        r == clamped_origin(desired as int, lo as int, hi as int),
{
    let top: i64 = if hi < lo as i64 { lo as i64 } else { hi };
    if desired < lo as i64 {
        lo
    } else if desired > top {
        top as i32
    } else {
        desired as i32
    }
}

} // verus!
