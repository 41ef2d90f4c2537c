use boot_console::graphical::{Framebuffer, PixelFormat};
use boot_console::logger::{init, log, Color};
use boot_console::time::{normalize, now, RawTime};

fn raw(second: u8, minute: u8, hour: u8, day: u8, month: u8, year: u8, century: u8) -> RawTime {
    RawTime { second, minute, hour, day, month, year, century }
}

#[test]
fn escape_sequences() {
    assert_eq!(Color::White.escape_sequence(), "\x1b[m\x1b[97m");
    assert_eq!(Color::Red.escape_sequence(), "\x1b[m\x1b[91m");
    assert_eq!(Color::Green.escape_sequence(), "\x1b[m\x1b[92m");
    assert_eq!(Color::Blue.escape_sequence(), "\x1b[m\x1b[94m");
    assert_eq!(Color::Yellow.escape_sequence(), "\x1b[m\x1b[93m");
}

#[test]
fn color_channels() {
    assert_eq!((Color::Red.r(), Color::Red.g(), Color::Red.b()), (0xff, 0, 0));
    assert_eq!((Color::Green.r(), Color::Green.g(), Color::Green.b()), (0, 0xff, 0));
    assert_eq!((Color::Blue.r(), Color::Blue.g(), Color::Blue.b()), (0, 0, 0xff));
    assert_eq!((Color::Yellow.r(), Color::Yellow.g(), Color::Yellow.b()), (0xff, 0xff, 0));
    assert_eq!((Color::White.r(), Color::White.g(), Color::White.b()), (0xc0, 0xc0, 0xc0));
    for c in [Color::White, Color::Red, Color::Green, Color::Blue, Color::Yellow] {
        assert_eq!(c.greyscale(), 0xc0);
    }
}

#[test]
fn headless_log_writes_serial_only() {
    let mut lg = init(None);
    log(&mut lg, "X", Color::Red);
    assert_eq!(lg.console.framebuffer.buffer.len(), 0);
    assert_eq!(lg.serial, "\x1b[m\x1b[91mX\r\n");
}

#[test]
fn log_appends_to_serial_stream() {
    let mut lg = init(None);
    log(&mut lg, "boot", Color::White);
    log(&mut lg, "ok", Color::Green);
    assert_eq!(lg.serial, "\x1b[m\x1b[97mboot\r\n\x1b[m\x1b[92mok\r\n");
}

#[test]
fn log_writes_both_sinks_independently() {
    let fb = Framebuffer {
        width: 100,
        height: 60,
        stride: 100,
        bytes_per_pixel: 4,
        format: PixelFormat::Rgb,
        buffer: vec![0u8; 100 * 60 * 4],
    };
    let mut lg = init(Some(fb));
    let snapshot = lg.console.framebuffer.buffer.clone();
    log(&mut lg, "B", Color::Blue);
    assert_ne!(lg.console.framebuffer.buffer, snapshot);
    assert_eq!(lg.serial, "\x1b[m\x1b[94mB\r\n");
}

#[test]
fn bcd_hour_in_24_hour_mode() {
    // Status register B: 24-hour flag set, BCD flag clear.
    let t = normalize(raw(0, 0, 0x23, 1, 1, 0, 0), 0x02, 0x32);
    assert_eq!(t.hour, 23);
}

#[test]
fn pm_bcd_noon_in_12_hour_mode_wraps_to_zero() {
    // Status register B zero: BCD encoding and 12-hour mode. The raw
    // hour 0x92 is BCD 12 with the PM bit set.
    let t = normalize(raw(0, 0, 0x92, 1, 1, 0, 0), 0x00, 0x32);
    assert_eq!(t.hour, 0);
}

#[test]
fn century_register_gives_full_year() {
    let t = normalize(raw(0, 0, 0, 1, 1, 0x24, 0x20), 0x00, 0x32);
    assert_eq!(t.year, 2024);
}

#[test]
fn no_century_register_defaults_to_base_2000() {
    let t = normalize(raw(0, 0, 0, 1, 1, 0x24, 0), 0x00, 0x00);
    assert_eq!(t.year, 2024);
}

#[test]
fn binary_mode_fields_pass_through() {
    let t = normalize(raw(59, 30, 23, 28, 12, 99, 20), 0x06, 0x32);
    assert_eq!((t.second, t.minute, t.hour), (59, 30, 23));
    assert_eq!((t.day, t.month, t.year), (28, 12, 99 + 20 * 100));
}

#[test]
fn read_requires_two_consecutive_identical_polls() {
    // A source that changes on every poll and stabilizes after four
    // polls takes five reads.
    let polls = vec![
        raw(1, 0, 0, 1, 1, 0, 0),
        raw(2, 0, 0, 1, 1, 0, 0),
        raw(3, 0, 0, 1, 1, 0, 0),
        raw(4, 0, 0, 1, 1, 0, 0),
        raw(4, 0, 0, 1, 1, 0, 0),
    ];
    let rd = now(&polls, 0x06, 0x32).unwrap();
    assert_eq!(rd.polls_used, 5);
    assert_eq!(rd.time.second, 4);
}

#[test]
fn read_never_returns_on_a_single_poll() {
    let polls = vec![raw(1, 2, 3, 4, 5, 6, 7)];
    assert!(now(&polls, 0x06, 0x32).is_none());
}

#[test]
fn read_returns_at_first_stable_pair() {
    let polls = vec![
        raw(7, 0, 0, 1, 1, 0, 0),
        raw(7, 0, 0, 1, 1, 0, 0),
        raw(8, 0, 0, 1, 1, 0, 0),
    ];
    let rd = now(&polls, 0x06, 0x32).unwrap();
    assert_eq!(rd.polls_used, 2);
    assert_eq!(rd.time.second, 7);
}

#[test]
fn unstable_source_never_completes() {
    let mut polls = Vec::new();
    for s in 0..60 {
        polls.push(raw(s, 0, 0, 1, 1, 0, 0));
    }
    assert!(now(&polls, 0x06, 0x32).is_none());
}

#[test]
fn any_differing_field_blocks_the_read() {
    // The two polls agree on six fields but not the seventh.
    let polls = vec![raw(1, 2, 3, 4, 5, 6, 7), raw(1, 2, 3, 4, 5, 6, 8)];
    assert!(now(&polls, 0x06, 0x32).is_none());
}

#[test]
fn stable_read_normalizes_the_agreed_poll() {
    let polls = vec![
        raw(0x17, 0x05, 0x92, 0x01, 0x09, 0x24, 0x20),
        raw(0x17, 0x05, 0x92, 0x01, 0x09, 0x24, 0x20),
    ];
    let rd = now(&polls, 0x00, 0x32).unwrap();
    assert_eq!(rd.time.second, 17);
    assert_eq!(rd.time.minute, 5);
    assert_eq!(rd.time.hour, 0);
    assert_eq!(rd.time.day, 1);
    assert_eq!(rd.time.month, 9);
    assert_eq!(rd.time.year, 2024);
    assert_eq!(rd.time.century, 20);
}
