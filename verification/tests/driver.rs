use oled_driver::color::Rgb565;
use oled_driver::geom::Point;
use oled_driver::geom::Rect;
use oled_driver::link::BusOp;
use oled_driver::link::CMD_SET_COLUMN;
use oled_driver::link::CMD_SET_ROW;
use oled_driver::link::CMD_WRITE_RAM;
use oled_driver::render::u32_digits;
use oled_driver::render::Renderer;
use oled_driver::session::Baseline;
use oled_driver::session::Session;
use oled_driver::session::StrokeAlign;
use oled_driver::session::Style;
use oled_driver::session::CMD_DISPLAY_OFF;
use oled_driver::session::CMD_DISPLAY_ON;
use oled_driver::session::RESET_HOLD_MIN_US;
use oled_driver::session::RESET_SETTLE_MIN_US;
use oled_driver::text_buf::FmtBuf;

fn ready_session() -> Session {
    let mut s = Session::new();
    s.initialize();
    s
}

#[test]
fn buffer_write_fits() {
    let mut b = FmtBuf::new();
    b.write_str("hello");
    assert_eq!(b.as_bytes(), &b"hello"[..]);
    assert_eq!(b.as_str(), "hello");
}

#[test]
fn buffer_write_appends() {
    let mut b = FmtBuf::new();
    b.write_str("counter: ");
    b.write_str("42");
    assert_eq!(b.as_str(), "counter: 42");
}

#[test]
fn buffer_write_truncates_to_capacity() {
    let mut b = FmtBuf::new();
    let long = "a".repeat(100);
    b.write_str(&long);
    assert_eq!(b.as_bytes().len(), 64);
    assert_eq!(b.as_str(), "a".repeat(64));
}

#[test]
fn buffer_truncation_respects_multibyte_boundary() {
    let mut b = FmtBuf::new();
    let mut s = "a".repeat(63);
    s.push('\u{e9}');
    b.write_str(&s);
    assert_eq!(b.as_bytes().len(), 63);
    assert_eq!(b.as_str(), "a".repeat(63));
}

#[test]
fn buffer_keeps_multibyte_text_intact() {
    let mut b = FmtBuf::new();
    b.write_str("h\u{e9}llo");
    assert_eq!(b.as_str(), "h\u{e9}llo");
}

#[test]
fn buffer_reset_restores_empty() {
    let mut b = FmtBuf::new();
    b.write_str("something");
    b.reset();
    assert_eq!(b.as_bytes().len(), 0);
    assert_eq!(b.as_str(), "");
    b.write_str("next");
    assert_eq!(b.as_str(), "next");
}

#[test]
fn digits_render_exactly() {
    assert_eq!(u32_digits(0), b"0");
    assert_eq!(u32_digits(41), b"41");
    assert_eq!(u32_digits(100), b"100");
    assert_eq!(u32_digits(4294967295), b"4294967295");
}

#[test]
fn color_packing_is_565() {
    assert_eq!(Rgb565::blue().to_bytes(), (0x00, 0x1F));
    assert_eq!(Rgb565::red().to_bytes(), (0xF8, 0x00));
    assert_eq!(Rgb565::white().to_bytes(), (0xFF, 0xFF));
    assert_eq!(Rgb565::new(255, 255, 255), Rgb565::white());
    assert_eq!(Rgb565::new(0, 0, 255), Rgb565::blue());
}

#[test]
fn reset_pulse_meets_datasheet_minimums() {
    let s = ready_session();
    match (&s.ops[0], &s.ops[1], &s.ops[2], &s.ops[3]) {
        (BusOp::ResetLow, BusOp::DelayUs(hold), BusOp::ResetHigh, BusOp::DelayUs(settle)) => {
            assert!(*hold >= RESET_HOLD_MIN_US);
            assert!(*settle >= RESET_SETTLE_MIN_US);
        }
        other => panic!("unexpected reset prefix: {:?}", other),
    }
}

#[test]
fn init_sequence_starts_off_ends_on() {
    let s = ready_session();
    assert!(matches!(s.ops[4], BusOp::Command(CMD_DISPLAY_OFF, _)));
    assert!(matches!(s.ops.last().unwrap(), BusOp::Command(CMD_DISPLAY_ON, _)));
}

#[test]
fn reinit_repeats_identical_sequence() {
    let mut s = Session::new();
    s.initialize();
    let first: Vec<BusOp> = s.ops.clone();
    s.initialize();
    assert_eq!(s.ops.len(), 2 * first.len());
    assert_eq!(&s.ops[first.len()..], &first[..]);
}

#[test]
fn clear_programs_full_panel_once() {
    let mut s = ready_session();
    let start = s.ops.len();
    s.clear(Rgb565::blue());
    let run = &s.ops[start..];
    assert_eq!(run.len(), 4);
    assert_eq!(run[0], BusOp::Command(CMD_SET_COLUMN, vec![0, 127]));
    assert_eq!(run[1], BusOp::Command(CMD_SET_ROW, vec![0, 127]));
    assert_eq!(run[2], BusOp::Command(CMD_WRITE_RAM, vec![]));
    match &run[3] {
        BusOp::Data(bytes) => {
            assert_eq!(bytes.len(), 128 * 128 * 2);
            assert!(bytes.chunks(2).all(|p| p == [0x00, 0x1F]));
        }
        other => panic!("expected pixel data, got {:?}", other),
    }
    let windows = run
        .iter()
        .filter(|op| matches!(op, BusOp::Command(CMD_SET_COLUMN, _)))
        .count();
    assert_eq!(windows, 1);
}

#[test]
fn fill_only_rectangle_issues_no_stroke() {
    let mut s = ready_session();
    let start = s.ops.len();
    s.draw_rectangle(
        Rect { x: 10, y: 10, w: 4, h: 4 },
        Style::fill_only(Rgb565::blue()),
    );
    let run = &s.ops[start..];
    assert_eq!(run.len(), 4);
    match &run[3] {
        BusOp::Data(bytes) => assert_eq!(bytes.len(), 4 * 4 * 2),
        other => panic!("expected pixel data, got {:?}", other),
    }
}

#[test]
fn stroke_only_rectangle_issues_no_fill() {
    let mut s = ready_session();
    let start = s.ops.len();
    s.draw_rectangle(
        Rect { x: 10, y: 10, w: 6, h: 6 },
        Style::stroke_only(Rgb565::white(), 1, StrokeAlign::Inside),
    );
    let run = &s.ops[start..];
    for op in run {
        if let BusOp::Data(bytes) = op {
            assert!(bytes.chunks(2).all(|p| p == [0xFF, 0xFF]));
        }
    }
    match &run[3] {
        BusOp::Data(bytes) => assert_eq!(bytes.len(), 6 * 2),
        other => panic!("expected top strip data, got {:?}", other),
    }
}

#[test]
fn fill_data_precedes_stroke_data() {
    let mut s = ready_session();
    let start = s.ops.len();
    let style = Style {
        fill: Some(Rgb565::blue()),
        stroke: Some(Rgb565::white()),
        stroke_width: 1,
        align: StrokeAlign::Inside,
    };
    s.draw_rectangle(Rect { x: 20, y: 20, w: 8, h: 8 }, style);
    let run = &s.ops[start..];
    let data: Vec<&Vec<u8>> = run
        .iter()
        .filter_map(|op| match op {
            BusOp::Data(b) => Some(b),
            _ => None,
        })
        .collect();
    assert!(data.len() >= 2);
    assert_eq!(data[0][0..2], [0x00, 0x1F]);
    for later in &data[1..] {
        assert!(later.chunks(2).all(|p| p == [0xFF, 0xFF]));
    }
}

#[test]
fn border_equals_full_panel_stroke() {
    let mut a = ready_session();
    let mut b = ready_session();
    let style = Style {
        fill: Some(Rgb565::blue()),
        stroke: Some(Rgb565::white()),
        stroke_width: 3,
        align: StrokeAlign::Inside,
    };
    let start = a.ops.len();
    a.draw_border(style);
    b.draw_rectangle(
        Rect { x: 0, y: 0, w: 128, h: 128 },
        Style::stroke_only(Rgb565::white(), 3, StrokeAlign::Inside),
    );
    assert_eq!(&a.ops[start..], &b.ops[start..]);
}

#[test]
fn glyph_draw_streams_full_cell() {
    let mut s = ready_session();
    let start = s.ops.len();
    s.draw_text(b"H", Point { x: 10, y: 0 }, Rgb565::red(), Baseline::Top);
    let run = &s.ops[start..];
    assert_eq!(run.len(), 4);
    assert_eq!(run[0], BusOp::Command(CMD_SET_COLUMN, vec![10, 17]));
    assert_eq!(run[1], BusOp::Command(CMD_SET_ROW, vec![0, 7]));
    assert_eq!(run[2], BusOp::Command(CMD_WRITE_RAM, vec![]));
    match &run[3] {
        BusOp::Data(bytes) => assert_eq!(bytes.len(), 8 * 8 * 2),
        other => panic!("expected glyph data, got {:?}", other),
    }
}

#[test]
fn counter_wraps_to_zero_without_error() {
    let mut r = Renderer::new();
    r.setup();
    r.count = u32::MAX;
    r.render_tick();
    assert_eq!(r.count, 0);
    assert_eq!(r.buf.as_str(), "4294967295");
    r.render_tick();
    assert_eq!(r.count, 1);
    assert_eq!(r.buf.as_str(), "0");
}
