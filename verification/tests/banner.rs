use chevron::banner::bars::{draw_bar_3d, draw_stacked_bar_3d, stacked_slots, Fill, Slot};
use chevron::banner::canvas::{Canvas, Color, Font, COLS, ROWS};
use chevron::banner::layout::{
    dash_row, draw_block3d_bottom, draw_block3d_top, draw_bytes, draw_classic, draw_gradient_bar, draw_text_px,
    Facts, LoadBars,
};
use chevron::banner::letters::{big_letter, pixel_set};
use chevron::banner::lines::{
    format_uptime, host_line, make_box_bot, make_box_mid, make_box_top, make_divider_bytes, make_double_divider,
    make_ornament_line, status_line, tagline, DIAMOND,
};
use chevron::banner::marks::{paint, Mark};
use chevron::banner::output::{base64_encode, sink, to_png, wanted, write_kitty_graphics, Sink};
use chevron::banner::palette::{palette_by_name, rgb};
use chevron::banner::title::{draw_big_title, TitleInk};

const RED: Color = Color { r: 255, g: 0, b: 0 };
const BLUE: Color = Color { r: 0, g: 0, b: 255 };
const BLACK: Color = Color { r: 0, g: 0, b: 0 };

fn full_font() -> Font {
    Font { rows: vec![0xFF; 4096] }
}

fn facts() -> Facts {
    Facts {
        os: "linux".to_string(),
        arch: "x86_64".to_string(),
        hostname: "straße".to_string(),
        date: "today".to_string(),
        load: "0.1".to_string(),
        memory: "1".to_string(),
        uptime_secs: 90_061,
        proc_count: 7,
        ip_addr: String::new(),
    }
}

// --- lines ---

#[test]
fn dividers_have_a_diamond_in_the_middle() {
    let d = make_divider_bytes(80);
    assert_eq!(d.len(), 80);
    assert_eq!(d[39], DIAMOND);
    assert!(make_double_divider(0).is_empty());
    assert_eq!(make_double_divider(1), [DIAMOND]);
    let o = make_ornament_line(80);
    assert_eq!(o[37..42], [0xB5, b' ', DIAMOND, b' ', 0xC6]);
    assert_eq!(make_ornament_line(3), [0xB5, b' ', DIAMOND]);
}

#[test]
fn boxes_are_rectangular() {
    let (top, mid, bot) = (make_box_top("A", 20), make_box_mid("slogan", 20), make_box_bot("NODE", 20));
    assert_eq!((top.len(), mid.len(), bot.len()), (20, 20, 20));
    assert_eq!(top[..7], [b' ', b' ', 0xC9, 0xCD, 0xCD, b' ', b'A']);
    assert_eq!(mid[19], 0xBA);
    assert_eq!(make_box_mid("a long line", 3).len(), 19);
}

#[test]
fn uptime_is_told_in_two_units() {
    assert_eq!(format_uptime(90_061), "1d 1h");
    assert_eq!(format_uptime(3_661), "1h 1m");
    assert_eq!(format_uptime(0), "0h 0m");
}

#[test]
fn texts_of_the_dashboard() {
    assert_eq!(status_line(3_661, 7, ""), "UPT 1h 1m  PRC 7  IP N/A");
    assert_eq!(status_line(0, 1, "10.0.0.1"), "UPT 0h 0m  PRC 1  IP 10.0.0.1");
    assert_eq!(tagline(8), tagline(0));
    assert_eq!(tagline(7), "the underground never sleeps");
    let line = host_line("straße", "linux", "arm");
    assert_eq!(line.len(), 80);
    let text = "\u{4} STRASSE / LINUX / ARM".as_bytes();
    assert_eq!(&line[4..4 + text.len()], text);
}

// --- colours and letters ---

#[test]
fn palettes_go_by_name() {
    assert_eq!(palette_by_name("fire").bg, rgb(20, 5, 0));
    assert_eq!(palette_by_name("nope"), palette_by_name("cyber"));
    assert_ne!(palette_by_name("matrix"), palette_by_name("steel"));
}

#[test]
fn letters_are_seven_rows_high() {
    let i = big_letter(b'i').unwrap();
    assert_eq!((i.width, i.rows), (3, [0xE0, 0x40, 0x40, 0x40, 0x40, 0x40, 0xE0]));
    assert!(big_letter(b'1').is_none());
    assert!(pixel_set(&i.rows, 0, 0) && !pixel_set(&i.rows, 0, 1) && pixel_set(&i.rows, 1, 1));
    assert!(!pixel_set(&i.rows, 8, 0) && !pixel_set(&i.rows, 0, 7));
}

// --- drawing ---

#[test]
fn glyphs_are_scaled_and_clipped() {
    let mut rows = vec![0; 4096];
    rows[65 * 16] = 0x80;
    let font = Font { rows };
    let mut img = Canvas::from_pixel(20, 20, BLACK);
    paint(
        &mut img,
        &font,
        &vec![Mark::Glyph { x: 2, y: 3, ch: 65, fg: RED, bg: Some(BLUE), scale: 2 }],
    );
    assert_eq!(img.get_pixel(2, 3), RED);
    assert_eq!(img.get_pixel(3, 4), RED);
    assert_eq!(img.get_pixel(4, 3), BLUE);
    assert_eq!(img.get_pixel(2, 5), BLUE);
    assert_eq!(img.get_pixel(1, 3), BLACK);
    assert_eq!(img.get_pixel(18, 3), BLACK);
    paint(&mut img, &font, &vec![Mark::Rect { x: 19, y: 0, w: 9, h: 1, color: RED }]);
    assert_eq!(img.get_pixel(19, 0), RED);
}

#[test]
fn text_beyond_the_edge_is_left_out() {
    let mut out = Vec::new();
    draw_bytes(&mut out, 78, 0, &b"abcd".to_vec(), RED, BLUE, 1);
    assert_eq!(out.len(), 2);
    draw_bytes(&mut out, 90, 0, &b"abcd".to_vec(), RED, BLUE, 1);
    assert_eq!(out.len(), 2);
    draw_text_px(&mut out, 5, 6, "x", RED, None, 3);
    assert_eq!(out[2], Mark::Glyph { x: 5, y: 6, ch: b'x', fg: RED, bg: None, scale: 3 });
}

#[test]
fn the_gradient_takes_four_shades_and_colours() {
    let pal = palette_by_name("cyber");
    let mut out = Vec::new();
    draw_gradient_bar(&mut out, 1, &pal, false, 2);
    assert_eq!(out.len(), 80);
    assert_eq!(
        out[21],
        Mark::Glyph { x: 336, y: 32, ch: 0xB1, fg: pal.gradient(1), bg: Some(BLACK), scale: 2 }
    );
    draw_gradient_bar(&mut out, 1, &pal, true, 2);
    assert_eq!(
        out[80],
        Mark::Glyph { x: 0, y: 32, ch: 0xDB, fg: pal.gradient(0), bg: Some(BLACK), scale: 2 }
    );
}

#[test]
fn bars_are_framed_and_filled() {
    let mut out = Vec::new();
    let fill = Fill { shades: vec![RED, BLUE], hi: RED, lo: BLUE };
    draw_bar_3d(&mut out, 10, 20, 8, 6, BLACK, RED, &fill);
    assert_eq!(out.len(), 5 + 2 + 2);
    assert_eq!(out[5], Mark::Rect { x: 11, y: 21, w: 1, h: 4, color: RED });
    assert_eq!(out[8], Mark::Rect { x: 11, y: 23, w: 2, h: 2, color: BLUE });
}

#[test]
fn stacked_parts_stand_side_by_side() {
    let slots = stacked_slots(&vec![3, 0, 4, 9, 2], 10);
    assert_eq!(
        slots,
        [
            Slot { part: 0, start: 0, width: 3 },
            Slot { part: 2, start: 3, width: 4 },
            Slot { part: 3, start: 7, width: 3 },
        ]
    );
    let fills: Vec<Fill> = slots
        .iter()
        .map(|s| Fill { shades: vec![RED; s.width as usize], hi: RED, lo: RED })
        .collect();
    let mut out = Vec::new();
    draw_stacked_bar_3d(&mut out, 0, 0, 12, 6, BLACK, BLUE, &slots, &fills);
    assert_eq!(out.len(), 5 + (3 + 2) + (4 + 2) + (3 + 2));
    assert_eq!(out[10], Mark::Rect { x: 4, y: 1, w: 1, h: 4, color: RED });
}

#[test]
fn the_title_is_centred_and_its_faces_come_last() {
    let ink = TitleInk { layers: vec![RED; 4], face: vec![BLUE; 16], dark: BLACK, bright: RED };
    let mut out = Vec::new();
    draw_big_title(&mut out, 3, &b"I".to_vec(), &ink, 1);
    // Eleven cells are set: four layers of them, and the faces over those.
    let cells = 11;
    assert_eq!(out[0], Mark::Rect { x: 296 + 12, y: 48 + 12, w: 16, h: 16, color: RED });
    assert_eq!(out[4 * cells], Mark::Rect { x: 296, y: 48, w: 16, h: 1, color: BLUE });
    let mut none = Vec::new();
    draw_big_title(&mut none, 3, &b"123".to_vec(), &ink, 1);
    assert!(none.is_empty());
}

#[test]
fn only_the_letters_of_a_title_count() {
    let ink = TitleInk { layers: vec![RED; 4], face: vec![BLUE; 16], dark: BLACK, bright: RED };
    let drawn = |text: &[u8]| {
        let mut out = Vec::new();
        draw_big_title(&mut out, 3, &text.to_vec(), &ink, 1);
        out
    };
    assert_eq!(drawn(b"a b-1C"), drawn(b"ABC"));
    assert_ne!(drawn(b"ABC"), drawn(b"ACB"));
    assert!(drawn(b"1 -2").is_empty());
}

#[test]
fn both_banners_fit_their_rows() {
    let pal = palette_by_name("fire");
    let ink = TitleInk { layers: vec![RED; 4], face: vec![BLUE; 16], dark: BLACK, bright: RED };
    let load = LoadBars {
        inset: BLACK,
        border: BLUE,
        fills: vec![vec![RED; 3], vec![], vec![RED; 10]],
        numbers: "0.10  0.20  0.30".to_string(),
    };
    let mut img = Canvas::from_pixel(COLS * 8, ROWS * 16, pal.bg);
    paint(&mut img, &full_font(), &draw_classic(&facts(), 3, &pal, 1));
    assert_eq!(img.get_pixel(0, 16), pal.gradient(0));
    assert_eq!(img.get_pixel(0, 0), pal.bg);
    for titled in [true, false] {
        let title = if titled { Some("Hi") } else { None };
        let top = draw_block3d_top(title, &ink, &pal, 1);
        let (bottom, rows) = draw_block3d_bottom(titled, &facts(), &load, 3, &pal, 1);
        assert_eq!(rows, dash_row(titled) + 13);
        assert!(rows <= ROWS);
        paint(&mut img, &full_font(), &top);
        paint(&mut img, &full_font(), &bottom);
    }
}

// --- output ---

#[test]
fn base64_has_its_padding() {
    assert_eq!(base64_encode(&b"".to_vec()), "");
    assert_eq!(base64_encode(&b"f".to_vec()), "Zg==");
    assert_eq!(base64_encode(&b"fo".to_vec()), "Zm8=");
    assert_eq!(base64_encode(&b"foo".to_vec()), "Zm9v");
    assert_eq!(base64_encode(&b"foobar".to_vec()), "Zm9vYmFy");
    assert_eq!(base64_encode(&vec![0xFF, 0xFB, 0xEF]), "//vv");
}

#[test]
fn pictures_go_out_in_pieces() {
    assert_eq!(write_kitty_graphics(&b"foo".to_vec()), "\x1b_Gf=100,a=T,q=2,m=0;Zm9v\x1b\\\n");
    let long = write_kitty_graphics(&vec![0; 3_075]);
    assert!(long.starts_with("\x1b_Gf=100,a=T,q=2,m=1;AAAA"));
    assert!(long.ends_with("\x1b_Gm=0;AAAA\x1b\\\n"));
    assert_eq!(long.matches('A').count(), 4_100);
    assert_eq!(write_kitty_graphics(&vec![]), "\n");
}

#[test]
fn a_picture_becomes_a_file() {
    let img = Canvas::from_pixel(3, 2, RED);
    let png = to_png(&img, 2).unwrap();
    assert_eq!(png[..8], [0x89, b'P', b'N', b'G', 0x0D, 0x0A, 0x1A, 0x0A]);
    assert_eq!(png[16..24], [0, 0, 0, 3, 0, 0, 0, 2]);
    assert_eq!(to_png(&img, 1).unwrap()[20..24], [0, 0, 0, 1]);
    assert!(to_png(&Canvas::from_pixel(0, 2, RED), 2).is_none());
}

#[test]
fn the_kind_decides_picture_and_sink() {
    assert!(!wanted(None).classic && !wanted(None).raw);
    assert!(wanted(Some("classic")).classic && !wanted(Some("classic")).raw);
    assert!(wanted(Some("classic-png")).classic && wanted(Some("classic-png")).raw);
    assert!(!wanted(Some("png")).classic && wanted(Some("png")).raw);
    assert_eq!(sink(true, Some("x")), Sink::File);
    assert_eq!(sink(false, Some("x")), Sink::Chafa);
    assert_eq!(sink(false, Some("")), Sink::Kitty);
    assert_eq!(sink(false, None), Sink::Kitty);
}
