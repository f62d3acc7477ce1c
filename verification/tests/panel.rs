use oled_driver::font::{glyph, glyph_bit};
use oled_driver::frame::Frame;
use oled_driver::link::BusOp;
use oled_driver::link::CMD_SET_COLUMN;
use oled_driver::link::CMD_SET_ROW;
use oled_driver::render::Renderer;

const BLUE: u16 = 0x001F;
const RED: u16 = 0xF800;
const WHITE: u16 = 0xFFFF;

fn frame_of(ops: &[BusOp]) -> Frame {
    let mut f = Frame::new();
    for op in ops {
        f.apply(op);
    }
    f
}

/// The color a glyph cell shows at the given offset within the cell.
fn glyph_pixel(c: u8, row: u8, col: u8, fg: u16, bg: u16) -> u16 {
    if glyph_bit(glyph(c), row, col) {
        fg
    } else {
        bg
    }
}

/// What setup leaves on the panel: blue everywhere, a three-pixel white
/// border inset at the edge, and the two red labels (drawn after the
/// border, so their cells overwrite it).
fn expected_after_setup(x: u8, y: u8) -> u16 {
    let world = b"Hello world!";
    let rust = b"Hello Rust!";
    if y < 8 && x >= 10 && x < 10 + 8 * world.len() as u8 {
        let i = ((x - 10) / 8) as usize;
        return glyph_pixel(world[i], y, (x - 10) % 8, RED, BLUE);
    }
    if (20..28).contains(&y) && x >= 10 && x < 10 + 8 * rust.len() as u8 {
        let i = ((x - 10) / 8) as usize;
        return glyph_pixel(rust[i], y - 20, (x - 10) % 8, RED, BLUE);
    }
    if x < 3 || x >= 125 || y < 3 || y >= 125 {
        return WHITE;
    }
    BLUE
}

#[test]
fn setup_paints_background_border_and_labels() {
    let mut r = Renderer::new();
    r.setup();
    let f = frame_of(&r.session.ops);
    for y in 0..128u8 {
        for x in 0..128u8 {
            assert_eq!(
                f.pixel(x, y),
                expected_after_setup(x, y),
                "pixel ({}, {})",
                x,
                y
            );
        }
    }
}

#[test]
fn tick_rewrites_only_the_counter_region() {
    let mut r = Renderer::new();
    r.setup();
    r.count = 41;
    r.render_tick();
    assert_eq!(r.count, 42);
    let after_first = r.session.ops.len();
    let before = frame_of(&r.session.ops);
    r.render_tick();
    let second_tick = &r.session.ops[after_first..];

    for op in second_tick {
        match op {
            BusOp::Command(code, p) if *code == CMD_SET_COLUMN => {
                assert!(90 <= p[0] && p[0] <= p[1] && p[1] < 120, "columns {:?}", p);
            }
            BusOp::Command(code, p) if *code == CMD_SET_ROW => {
                assert!(40 <= p[0] && p[0] <= p[1] && p[1] < 58, "rows {:?}", p);
            }
            BusOp::Command(..) | BusOp::Data(_) => {}
            other => panic!("a tick issued {:?}", other),
        }
    }

    let mut after = frame_of(&r.session.ops[..after_first]);
    for op in second_tick {
        after.apply(op);
    }
    for y in 0..128u8 {
        for x in 0..128u8 {
            let inside = (90..120).contains(&x) && (40..58).contains(&y);
            if !inside {
                assert_eq!(
                    after.pixel(x, y),
                    before.pixel(x, y),
                    "pixel ({}, {}) changed outside the counter region",
                    x,
                    y
                );
            }
        }
    }
    for y in 40..58u8 {
        for x in 90..120u8 {
            let expected = if y < 48 && x < 90 + 16 {
                let digits = b"42";
                let i = ((x - 90) / 8) as usize;
                glyph_pixel(digits[i], y - 40, (x - 90) % 8, RED, BLUE)
            } else {
                BLUE
            };
            assert_eq!(after.pixel(x, y), expected, "pixel ({}, {})", x, y);
        }
    }
}

#[test]
fn two_digit_counter_renders_its_digits() {
    let mut r = Renderer::new();
    r.setup();
    r.count = 41;
    r.render_tick();
    let f = frame_of(&r.session.ops);
    for y in 40..48u8 {
        for x in 90..106u8 {
            let digits = b"41";
            let i = ((x - 90) / 8) as usize;
            let expected = glyph_pixel(digits[i], y - 40, (x - 90) % 8, RED, BLUE);
            assert_eq!(f.pixel(x, y), expected, "pixel ({}, {})", x, y);
        }
    }
}
