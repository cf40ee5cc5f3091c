use quiz_layout::adb::{
    parse_devices, parse_screen_size, parse_u32, point_within, tap_target, Device, TapTarget,
};
use quiz_layout::rect::{Point, Rect};
use rand::rngs::StdRng;
use rand::SeedableRng;
use rand_distr::Distribution;

#[test]
fn test_random_point() {
    let mut rng = StdRng::from_rng(&mut rand::rng());
    let normal = rand_distr::Normal::new(0.5, 0.25).unwrap();
    let area = Rect::new(0, 0, 200, 100);
    let inner = match tap_target(&area) {
        TapTarget::Within(inner) => inner,
        TapTarget::Center(p) => panic!("a large area is tapped at {:?} only", p),
    };
    for i in 0..10000 {
        let (x, y): (f64, f64) = loop {
            let x = normal.sample(&mut rng);
            let y = normal.sample(&mut rng);
            if 0.0 <= x && x < 1.0 && 0.0 <= y && y < 1.0 {
                break (x, y);
            }
        };
        let dx = (inner.width() as f64 * x) as u32;
        let dy = (inner.height() as f64 * y) as u32;
        let point = point_within(&inner, dx, dy);
        assert!(point.x >= 33);
        assert!(point.x <= 166);
        assert!(point.y >= 16);
        assert!(point.y <= 83);
        if i < 10 {
            println!("Point: {:3}, {:3}", point.x, point.y);
        }
    }
}

#[test]
fn tap_keeps_a_sixth_clear_of_each_edge() {
    assert_eq!(
        tap_target(&Rect::new(0, 0, 200, 100)),
        TapTarget::Within(Rect::new(33, 16, 134, 68))
    );
    assert_eq!(
        tap_target(&Rect::new(140, 1200, 800, 120)),
        TapTarget::Within(Rect::new(273, 1220, 534, 80))
    );
    assert_eq!(tap_target(&Rect::new(10, 20, 5, 5)), TapTarget::Within(Rect::new(10, 20, 5, 5)));
    assert_eq!(tap_target(&Rect::new(10, 20, 6, 11)), TapTarget::Within(Rect::new(11, 21, 4, 9)));
}

#[test]
fn small_area_is_tapped_at_its_center() {
    assert_eq!(tap_target(&Rect::new(10, 20, 3, 3)), TapTarget::Center(Point::new(11, 21)));
    assert_eq!(tap_target(&Rect::new(10, 20, 4, 100)), TapTarget::Center(Point::new(12, 70)));
    assert_eq!(tap_target(&Rect::new(10, 20, 100, 4)), TapTarget::Center(Point::new(60, 22)));
}

#[test]
fn point_within_counts_from_the_top_left() {
    let area = Rect::new(33, 16, 134, 68);
    assert_eq!(point_within(&area, 0, 0), Point::new(33, 16));
    assert_eq!(point_within(&area, 133, 67), Point::new(166, 83));
    assert!(area.contains(point_within(&area, 133, 67)));
}

#[test]
fn number_is_read_as_digits_after_an_optional_plus() {
    assert_eq!(parse_u32("0"), Some(0));
    assert_eq!(parse_u32("1080"), Some(1080));
    assert_eq!(parse_u32("+2400"), Some(2400));
    assert_eq!(parse_u32("0007"), Some(7));
    assert_eq!(parse_u32("4294967295"), Some(4294967295));
    assert_eq!(parse_u32("4294967296"), None);
    assert_eq!(parse_u32("99999999999999999999999999"), None);
    assert_eq!(parse_u32("00000000000000000000000001"), Some(1));
    assert_eq!(parse_u32(""), None);
    assert_eq!(parse_u32("+"), None);
    assert_eq!(parse_u32("-1"), None);
    assert_eq!(parse_u32("++1"), None);
    assert_eq!(parse_u32("1+"), None);
    assert_eq!(parse_u32("12a"), None);
    assert_eq!(parse_u32(" 12"), None);
    assert_eq!(parse_u32("\u{661}\u{662}"), None);
    for text in ["0", "+2400", "4294967296", "", "+", "-1", "12a", "0007"] {
        assert_eq!(parse_u32(text), text.parse::<u32>().ok());
    }
}

#[test]
fn screen_size_is_the_last_word_of_the_reply() {
    assert_eq!(parse_screen_size("Physical size: 1080x2400\n"), Some((1080, 2400)));
    assert_eq!(parse_screen_size("Physical size: 1080x2400"), Some((1080, 2400)));
    assert_eq!(
        parse_screen_size("Physical size: 1080x2400\nOverride size: 720x1600\r\n"),
        Some((720, 1600))
    );
    assert_eq!(parse_screen_size("1x2"), Some((1, 2)));
    assert_eq!(parse_screen_size("1x2x3"), Some((1, 2)));
    assert_eq!(parse_screen_size("\t+1x+2 \x0c"), Some((1, 2)));
}

#[test]
fn screen_size_needs_two_numbers_above_zero() {
    assert_eq!(parse_screen_size(""), None);
    assert_eq!(parse_screen_size(" \n"), None);
    assert_eq!(parse_screen_size("1080"), None);
    assert_eq!(parse_screen_size("1080x"), None);
    assert_eq!(parse_screen_size("x2400"), None);
    assert_eq!(parse_screen_size("x"), None);
    assert_eq!(parse_screen_size("1080X2400"), None);
    assert_eq!(parse_screen_size("0x2400"), None);
    assert_eq!(parse_screen_size("1080x0"), None);
    assert_eq!(parse_screen_size("1080x2400 px"), None);
    assert_eq!(parse_screen_size("1080 x 2400"), None);
    assert_eq!(parse_screen_size("4294967296x1"), None);
    // a vertical tab is no space here
    assert_eq!(parse_screen_size("size:\x0b1x2"), None);
}

#[test]
fn devices_are_listed_after_the_heading() {
    let out = "List of devices attached\n257bf64\tdevice\nemulator-5554\tunauthorized\n\n";
    assert_eq!(
        parse_devices(out),
        vec![
            Device::Device("257bf64".to_string()),
            Device::Unauthorized("emulator-5554".to_string()),
        ]
    );
}

#[test]
fn devices_of_other_states_are_left_out() {
    let out = "List of devices attached\r\n\
               a1\toffline\r\n\
               b2  device\r\n\
               \u{3000}c3 unauthorized\r\n\
               d4\tdevice \r\n\
               device\r\n\
               unauthorized\n\
               \t\n\
               e5 no permissions; see [http://developer.android.com/tools/device]\n\
               f6 device";
    assert_eq!(
        parse_devices(out),
        vec![
            Device::Device("b2".to_string()),
            Device::Unauthorized("c3".to_string()),
            Device::Device("device".to_string()),
            Device::Unauthorized("unauthorized".to_string()),
            Device::Device("f6".to_string()),
        ]
    );
}

#[test]
fn heading_alone_lists_no_device() {
    assert_eq!(parse_devices(""), vec![]);
    assert_eq!(parse_devices("List of devices attached"), vec![]);
    assert_eq!(parse_devices("List of devices attached\n"), vec![]);
    assert_eq!(parse_devices("List of devices attached\n\n"), vec![]);
    assert_eq!(parse_devices("257bf64\tdevice"), vec![]);
    assert_eq!(parse_devices("257bf64\tdevice\n"), vec![]);
}

#[test]
fn carriage_return_ends_a_line_only_before_a_line_feed() {
    assert_eq!(parse_devices("heading\na device\r\n"), vec![Device::Device("a".to_string())]);
    assert_eq!(parse_devices("heading\na device\r"), vec![]);
    assert_eq!(parse_devices("heading\na device\r\r\n"), vec![]);
    assert_eq!(
        parse_devices("heading\na device\rb device\n"),
        vec![Device::Device("a".to_string())]
    );
}

#[test]
fn parsers_agree_with_the_line_reading_of_std() {
    let outs = [
        "List of devices attached\n257bf64\tdevice\nemulator-5554\tunauthorized\n\n",
        "h\r\nx device\r\n\r\ny unauthorized\r\nz offline",
        "h\n\rdevice\n device \n\u{a0}q\u{2003}device",
        "",
        "\n",
        "\n\n device",
    ];
    for out in outs {
        let mut expected = Vec::new();
        for line in out.lines().skip(1) {
            let device = line.split_whitespace().next().unwrap_or_default();
            if device.is_empty() {
                continue;
            }
            if line.ends_with("device") {
                expected.push(Device::Device(device.to_string()));
            } else if line.ends_with("unauthorized") {
                expected.push(Device::Unauthorized(device.to_string()));
            }
        }
        assert_eq!(parse_devices(out), expected);
    }
}

#[test]
fn test_devices() {
    // the list of a bridge with one device attached
    let devices = parse_devices("List of devices attached\n257bf64\tdevice\n\n");
    assert!(!devices.is_empty(), "No devices found");
    for device in devices {
        if let Device::Device(device) = device {
            println!("Device: {}", device);
        }
    }
}

#[test]
fn test_screen_size() {
    let (width, height) = parse_screen_size("Physical size: 1080x2400\n").unwrap();
    println!("Screen size: {}x{}", width, height);
    assert!(width > 0);
    assert!(height > 0);
}
