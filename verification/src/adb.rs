//! What the device bridge computes: where to tap, and what its replies say.

use vstd::prelude::*;
use vstd::string::{StrSliceExecFns, StringExecFns};
use crate::rect::{Point, Rect};
use crate::text::{
    ends_with, find_char, index_of, is_whitespace, lemma_index_of_bounds, skip_whitespace,
    str_ends_with, whitespace,
};

verus! {

/// An area to tap is at least this many pixels wide and high.
pub const MIN_TAP_SIDE: u32 = 3;

/// An area narrower or lower than this many pixels is tapped at its center.
pub const MIN_SPREAD_SIDE: u32 = 5;

/// A tap keeps clear of each edge by one part in this many of the side.
pub const MARGIN_RATE: u32 = 6;

/// Where a tap on an area may land.
#[derive(Clone, Copy, Debug, PartialEq, Eq, Structural)]
pub enum TapTarget {
    /// On this pixel.
    Center(Point),
    /// On any pixel of this rectangle.
    Within(Rect),
}

/// An area that can be tapped lies on the screen, right and below of its
/// origin, and is at least `MIN_TAP_SIDE` pixels wide and high.
pub open spec fn can_tap(area: Rect) -> bool {
    &&& area.left >= 0
    &&& area.top >= 0
    &&& area.width >= MIN_TAP_SIDE
    &&& area.height >= MIN_TAP_SIDE
    &&& area.spec_right() <= i32::MAX
    &&& area.spec_bottom() <= i32::MAX
}

/// `area` without a margin of a sixth of its width at its left and right
/// and of a sixth of its height at its top and bottom, each rounded down.
pub open spec fn spec_inner(area: Rect) -> Rect {
    Rect {
        left: (area.left + area.width / MARGIN_RATE) as i32,
        top: (area.top + area.height / MARGIN_RATE) as i32,
        width: (area.width - area.width / MARGIN_RATE * 2) as u32,
        height: (area.height - area.height / MARGIN_RATE * 2) as u32,
    }
}

/// Where a tap on `area` may land: on its center where it is narrower or
/// lower than `MIN_SPREAD_SIDE`, within its inner part otherwise.
pub open spec fn spec_tap_target(area: Rect) -> TapTarget {
    if area.width < MIN_SPREAD_SIDE || area.height < MIN_SPREAD_SIDE {
        TapTarget::Center(
            Point { x: area.spec_center().0 as i32, y: area.spec_center().1 as i32 },
        )
    } else {
        TapTarget::Within(spec_inner(area))
    }
}

/// Every pixel that a tap on `area` may land on is a pixel of `area`.
pub proof fn tap_target_is_within(area: Rect, p: Point)
    requires
        can_tap(area),
        match spec_tap_target(area) {
            TapTarget::Center(c) => p == c,
            TapTarget::Within(inner) => inner.spec_contains(p),
        },
    ensures
        area.spec_contains(p),
{
}

/// Where a tap on `area` may land.
pub fn tap_target(area: &Rect) -> (target: TapTarget)
    requires
        can_tap(*area),
    ensures
        target == spec_tap_target(*area),
        target matches TapTarget::Within(inner) ==> inner.width >= 4 && inner.height >= 4
            && inner.left >= 0 && inner.top >= 0 && inner.spec_right() <= area.spec_right()
            && inner.spec_bottom() <= area.spec_bottom(),
{
    if area.width < MIN_SPREAD_SIDE || area.height < MIN_SPREAD_SIDE {
        return TapTarget::Center(area.center());
    }
    let margin_x = area.width / MARGIN_RATE;
    let margin_y = area.height / MARGIN_RATE;
    let left: i64 = area.left as i64 + margin_x as i64;
    let top: i64 = area.top as i64 + margin_y as i64;
    TapTarget::Within(
        Rect {
            left: left as i32,
            top: top as i32,
            width: area.width - margin_x * 2,
            height: area.height - margin_y * 2,
        },
    )
}

/// The pixel of `area` that lies `dx` columns and `dy` rows from its top
/// left.
pub fn point_within(area: &Rect, dx: u32, dy: u32) -> (p: Point)
    requires
        dx < area.width,
        dy < area.height,
        area.spec_right() <= i32::MAX,
        area.spec_bottom() <= i32::MAX,
    ensures
        p.x == area.left + dx,
        p.y == area.top + dy,
        area.spec_contains(p),
{
    let x: i64 = area.left as i64 + dx as i64;
    let y: i64 = area.top as i64 + dy as i64;
    Point { x: x as i32, y: y as i32 }
}

/// Blank, tab, line feed, form feed or carriage return.
pub open spec fn is_ascii_space(c: char) -> bool {
    c == ' ' || c == '\t' || c == '\n' || c == '\x0c' || c == '\r'
}

/// The index after the last character before `i` that is no space, or 0.
pub open spec fn token_end(s: Seq<char>, i: int) -> int
    decreases i,
{
    if i <= 0 || i > s.len() {
        0
    } else if !is_ascii_space(s[i - 1]) {
        i
    } else {
        token_end(s, i - 1)
    }
}

/// The index of the first character of the run without spaces that ends
/// before `i`.
pub open spec fn token_start(s: Seq<char>, i: int) -> int
    decreases i,
{
    if i <= 0 || i > s.len() {
        0
    } else if is_ascii_space(s[i - 1]) {
        i
    } else {
        token_start(s, i - 1)
    }
}

/// The last run of characters without a space in `s`; empty where `s` holds
/// spaces only.
pub open spec fn last_token(s: Seq<char>) -> Seq<char> {
    let end = token_end(s, s.len() as int);
    s.subrange(token_start(s, end), end)
}

/// One of the digits `0` to `9`.
pub open spec fn is_digit(c: char) -> bool {
    '0' <= c <= '9'
}

pub open spec fn all_digits(d: Seq<char>) -> bool {
    forall|i: int| 0 <= i < d.len() ==> is_digit(#[trigger] d[i])
}

/// The number that the digits `d` write in decimal.
pub open spec fn digits_value(d: Seq<char>) -> nat
    decreases d.len(),
{
    if d.len() == 0 {
        0
    } else {
        (digits_value(d.drop_last()) * 10 + (d.last() as int - 48)) as nat
    }
}

/// The number that `t` writes: digits, at least one, after at most one plus
/// sign, with a value of no more than `u32::MAX`.
pub open spec fn spec_parse_u32(t: Seq<char>) -> Option<u32> {
    let d = if t.len() > 0 && t[0] == '+' {
        t.subrange(1, t.len() as int)
    } else {
        t
    };
    if d.len() > 0 && all_digits(d) && digits_value(d) <= u32::MAX {
        Some(digits_value(d) as u32)
    } else {
        None
    }
}

/// The size of the screen that a reply names. The size is read from the
/// last run of characters without a space: the width before the first `x`,
/// the height from there to the next `x` or to the end. Both are numbers
/// above zero.
pub open spec fn spec_parse_screen_size(out: Seq<char>) -> Option<(u32, u32)> {
    let token = last_token(out);
    let first_x = index_of(token, 'x', 0);
    if first_x >= token.len() {
        None
    } else {
        let second_x = index_of(token, 'x', first_x + 1);
        match (
            spec_parse_u32(token.subrange(0, first_x)),
            spec_parse_u32(token.subrange(first_x + 1, second_x)),
        ) {
            (Some(width), Some(height)) => if width > 0 && height > 0 {
                Some((width, height))
            } else {
                None
            },
            _ => None,
        }
    }
}

/// A device that the bridge lists.
#[derive(Debug, PartialEq, Eq)]
pub enum Device {
    /// A device that has not allowed this computer to debug it.
    Unauthorized(String),
    /// A device that is ready.
    Device(String),
}

pub enum DeviceView {
    Unauthorized(Seq<char>),
    Device(Seq<char>),
}

impl View for Device {
    type V = DeviceView;

    open spec fn view(&self) -> DeviceView {
        match self {
            Device::Unauthorized(name) => DeviceView::Unauthorized(name@),
            Device::Device(name) => DeviceView::Device(name@),
        }
    }
}

/// The devices of a list, each by its view.
pub open spec fn devices_view(devices: Seq<Device>) -> Seq<DeviceView> {
    devices.map_values(|d: Device| d@)
}

/// The index of the first white space at or after `i`, or the length of `s`.
pub open spec fn word_end(s: Seq<char>, i: int) -> int
    decreases s.len() - i,
{
    if i < 0 || i >= s.len() {
        s.len() as int
    } else if is_whitespace(s[i]) {
        i
    } else {
        word_end(s, i + 1)
    }
}

/// The first run of characters without white space in `line`; empty where
/// there is none.
pub open spec fn first_word(line: Seq<char>) -> Seq<char> {
    let start = skip_whitespace(line, 0);
    line.subrange(start, word_end(line, start))
}

/// The device that a line of the list names, if it names one: the line
/// begins with the name of the device, and ends with `device` for one that is
/// ready or with `unauthorized`.
pub open spec fn device_of_line(line: Seq<char>) -> Option<DeviceView> {
    let name = first_word(line);
    if name.len() == 0 {
        None
    } else if ends_with(line, "device"@) {
        Some(DeviceView::Device(name))
    } else if ends_with(line, "unauthorized"@) {
        Some(DeviceView::Unauthorized(name))
    } else {
        None
    }
}

/// Where the line that begins at `start` and runs up to the index `nl` ends:
/// a carriage return before a line feed belongs to the line's ending.
pub open spec fn line_end(s: Seq<char>, start: int, nl: int) -> int {
    if start < nl < s.len() && s[nl - 1] == '\r' {
        nl - 1
    } else {
        nl
    }
}

/// The devices that the lines of `s` from index `i` on name, in their
/// order. A line ends with a line feed or with the text.
pub open spec fn devices_from(s: Seq<char>, i: int) -> Seq<DeviceView>
    decreases s.len() - i,
{
    if i < 0 || i >= s.len() {
        Seq::empty()
    } else {
        let nl = index_of(s, '\n', i);
        proof {
            lemma_index_of_bounds(s, '\n', i);
        }
        let rest = if nl < s.len() {
            devices_from(s, nl + 1)
        } else {
            Seq::empty()
        };
        match device_of_line(s.subrange(i, line_end(s, i, nl))) {
            Some(device) => seq![device] + rest,
            None => rest,
        }
    }
}

/// The devices that a list names. Its first line is a heading.
pub open spec fn spec_parse_devices(stdout: Seq<char>) -> Seq<DeviceView> {
    devices_from(stdout, index_of(stdout, '\n', 0) + 1)
}

/// The value of a prefix of digits is no more than the value of them all.
proof fn lemma_prefix_value(d: Seq<char>, k: int)
    requires
        all_digits(d),
        0 <= k <= d.len(),
    ensures
        digits_value(d.take(k)) <= digits_value(d),
    decreases d.len() - k,
{
    if k < d.len() {
        let next = d.take(k + 1);
        assert(next.drop_last() == d.take(k));
        assert(next.last() == d[k]);
        assert(is_digit(d[k]));
        lemma_prefix_value(d, k + 1);
    } else {
        assert(d.take(k) == d);
    }
}

fn ascii_space(c: char) -> (b: bool)
    ensures
        b == is_ascii_space(c),
{
    c == ' ' || c == '\t' || c == '\n' || c == '\x0c' || c == '\r'
}

/// Reads a number as `u32::from_str` does.
pub fn parse_u32(t: &str) -> (res: Option<u32>)
    ensures
        res == spec_parse_u32(t@),
{
    let n = t.unicode_len();
    let start: usize = if n > 0 && t.get_char(0) == '+' {
        1
    } else {
        0
    };
    let ghost d = t@.subrange(start as int, n as int);
    proof {
        if start == 0 {
            assert(d =~= t@);
        }
    }
    if start == n {
        return None;
    }
    let mut value: u64 = 0;
    let mut i: usize = start;
    assert(d.take(0) =~= Seq::<char>::empty());
    while i < n
        invariant
            start <= i <= n,
            n == t@.len(),
            d == t@.subrange(start as int, n as int),
            d == if t@.len() > 0 && t@[0] == '+' {
                t@.subrange(1, t@.len() as int)
            } else {
                t@
            },
            all_digits(d.take(i - start)),
            value == digits_value(d.take(i - start)),
            value <= u32::MAX,
        decreases n - i,
    {
        let c = t.get_char(i);
        proof {
            let next = d.take(i - start + 1);
            assert(next.drop_last() == d.take(i - start));
            assert(next.last() == c);
            assert(d[i - start] == c);
        }
        if !('0' <= c && c <= '9') {
            assert(!is_digit(d[i - start]));
            return None;
        }
        value = value * 10 + (c as u32 - 48) as u64;
        proof {
            let next = d.take(i - start + 1);
            assert(value == digits_value(next));
            assert forall|k: int| 0 <= k < next.len() implies is_digit(#[trigger] next[k]) by {
                if k < i - start {
                    assert(next[k] == d.take(i - start)[k]);
                }
            }
        }
        if value > u32::MAX as u64 {
            proof {
                if all_digits(d) {
                    lemma_prefix_value(d, i - start + 1);
                }
            }
            return None;
        }
        i += 1;
    }
    proof {
        assert(d.take(n - start) == d);
    }
    Some(value as u32)
}

/// Reads the size of the screen, width and height, out of the reply to the
/// question for it, such as `Physical size: 1080x2400`.
pub fn parse_screen_size(out: &str) -> (res: Option<(u32, u32)>)
    ensures
        res == spec_parse_screen_size(out@),
{
    let n = out.unicode_len();
    let mut end: usize = n;
    while end > 0 && ascii_space(out.get_char(end - 1))
        invariant
            end <= n,
            n == out@.len(),
            token_end(out@, end as int) == token_end(out@, n as int),
        decreases end,
    {
        end -= 1;
    }
    let mut start: usize = end;
    while start > 0 && !ascii_space(out.get_char(start - 1))
        invariant
            start <= end <= n,
            n == out@.len(),
            token_start(out@, start as int) == token_start(out@, end as int),
        decreases start,
    {
        start -= 1;
    }
    let token = out.substring_char(start, end);
    assert(token@ == last_token(out@));
    let len = end - start;
    let first_x = find_char(token, 'x', 0);
    if first_x >= len {
        return None;
    }
    let second_x = find_char(token, 'x', first_x + 1);
    let width = parse_u32(token.substring_char(0, first_x));
    let height = parse_u32(token.substring_char(first_x + 1, second_x));
    match (width, height) {
        (Some(w), Some(h)) => if w > 0 && h > 0 {
            Some((w, h))
        } else {
            None
        },
        _ => None,
    }
}

/// The device that a line of the list names, if it names one.
fn parse_device_line(line: &str) -> (res: Option<Device>)
    ensures
        match res {
            Some(device) => device_of_line(line@) == Some(device@),
            None => device_of_line(line@) == None::<DeviceView>,
        },
{
    let n = line.unicode_len();
    let mut start: usize = 0;
    while start < n && whitespace(line.get_char(start))
        invariant
            start <= n,
            n == line@.len(),
            skip_whitespace(line@, start as int) == skip_whitespace(line@, 0),
        decreases n - start,
    {
        start += 1;
    }
    let mut end: usize = start;
    while end < n && !whitespace(line.get_char(end))
        invariant
            start <= end <= n,
            n == line@.len(),
            word_end(line@, end as int) == word_end(line@, start as int),
        decreases n - end,
    {
        end += 1;
    }
    let name = line.substring_char(start, end);
    assert(name@ == first_word(line@));
    if end == start {
        None
    } else if str_ends_with(line, "device") {
        Some(Device::Device(String::from_str(name)))
    } else if str_ends_with(line, "unauthorized") {
        Some(Device::Unauthorized(String::from_str(name)))
    } else {
        None
    }
}

/// Reads the devices out of the list that the bridge prints: a heading, and
/// then a line for each device.
pub fn parse_devices(stdout: &str) -> (devices: Vec<Device>)
    ensures
        devices_view(devices@) == spec_parse_devices(stdout@),
{
    let n = stdout.unicode_len();
    let mut devices: Vec<Device> = Vec::new();
    let heading_end = find_char(stdout, '\n', 0);
    if heading_end >= n {
        assert(devices_view(devices@) =~= Seq::<DeviceView>::empty());
        return devices;
    }
    let mut i: usize = heading_end + 1;
    assert(devices_view(devices@) =~= Seq::<DeviceView>::empty());
    while i < n
        invariant
            i <= n,
            n == stdout@.len(),
            devices_view(devices@) + devices_from(stdout@, i as int) == spec_parse_devices(
                stdout@,
            ),
        decreases n - i,
    {
        let nl = find_char(stdout, '\n', i);
        let end = if i < nl && nl < n && stdout.get_char(nl - 1) == '\r' {
            nl - 1
        } else {
            nl
        };
        let line = stdout.substring_char(i, end);
        let ghost before = devices_view(devices@);
        let ghost rest = devices_from(stdout@, nl + 1);
        proof {
            lemma_index_of_bounds(stdout@, '\n', i as int);
        }
        match parse_device_line(line) {
            Some(device) => {
                let ghost view = device@;
                devices.push(device);
                proof {
                    assert(devices_view(devices@) =~= before.push(view));
                    assert(before.push(view) + rest =~= before + (seq![view] + rest));
                }
            },
            None => {},
        }
        if nl >= n {
            i = n;
        } else {
            i = nl + 1;
        }
    }
    proof {
        assert(devices_view(devices@) + Seq::<DeviceView>::empty() =~= devices_view(devices@));
    }
    devices
}

} // verus!
