use sunrise::format::{
    header_font_size, Color, TextFormat, HEADER_STEP, MAX_HEADER_SIZE, MIN_HEADER_SIZE, TEXT_SIZE,
};
use sunrise::recognize::SpanKind;

#[test]
fn header_sizes_shrink_to_a_floor() {
    assert_eq!(header_font_size(0), 26);
    assert_eq!(header_font_size(1), 26);
    assert_eq!(header_font_size(2), 22);
    assert_eq!(header_font_size(3), 18);
    assert_eq!(header_font_size(4), 16);
    assert_eq!(header_font_size(5), 16);
    assert_eq!(header_font_size(1000), 16);
    assert_eq!(header_font_size(usize::MAX), 16);
    assert_eq!(header_font_size(1), MAX_HEADER_SIZE);
    assert!(header_font_size(3) < header_font_size(1));
    assert_eq!(header_font_size(4), MIN_HEADER_SIZE);
    assert_eq!(header_font_size(1) - header_font_size(2), HEADER_STEP);
}

#[test]
fn header_sizes_never_grow_with_more_hashes() {
    for n in 1..50usize {
        assert!(header_font_size(n + 1) <= header_font_size(n));
        assert!(header_font_size(n) >= MIN_HEADER_SIZE);
        assert!(header_font_size(n) <= MAX_HEADER_SIZE);
    }
}

#[test]
fn each_kind_has_its_look() {
    let gray = Color { r: 220, g: 220, b: 220 };
    let plain = TextFormat { font_size: 14, monospace: false, color: gray, background: None };
    assert_eq!(TEXT_SIZE, 14);
    assert_eq!(SpanKind::Plain.format(), plain);
    assert_eq!(SpanKind::OpenTask.format(), plain);
    assert_eq!(
        SpanKind::Header { hashes: 2 }.format(),
        TextFormat { font_size: 22, monospace: false, color: gray, background: None }
    );
    assert_eq!(
        SpanKind::CancelledTask.format(),
        TextFormat {
            font_size: 14,
            monospace: false,
            color: Color { r: 139, g: 0, b: 0 },
            background: None
        }
    );
    assert_eq!(
        SpanKind::CompletedTask.format(),
        TextFormat {
            font_size: 14,
            monospace: false,
            color: Color { r: 0, g: 100, b: 0 },
            background: None
        }
    );
    assert_eq!(
        SpanKind::Code.format(),
        TextFormat {
            font_size: 14,
            monospace: true,
            color: gray,
            background: Some(Color { r: 96, g: 96, b: 96 })
        }
    );
    assert_eq!(
        SpanKind::Link.format(),
        TextFormat {
            font_size: 14,
            monospace: true,
            color: Color { r: 100, g: 168, b: 248 },
            background: None
        }
    );
}
