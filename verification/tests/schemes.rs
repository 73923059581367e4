//! Color-scheme registry behavior, error values, and the plain data types.

use fontrun::ColorScheme;
use fontrun::Error;
use fontrun::Rect;
use fontrun::SchemeList;

fn three_schemes() -> SchemeList {
    let mut l = SchemeList::new();
    l.add(ColorScheme::new("border".to_string(), 0x11, 0x12));
    l.add(ColorScheme::new("primary".to_string(), 0x21, 0x22));
    l.add(ColorScheme::new("secondary".to_string(), 0x31, 0x32));
    l
}

#[test]
fn set_active_swaps_to_front() {
    let mut l = three_schemes();
    assert_eq!(l.set_active(&"secondary".to_string()), Ok(()));
    assert_eq!(l.get(0).name(), "secondary");
    assert_eq!(l.get(0).fg(), 0x31);
    assert_eq!(l.get(0).bg(), 0x32);
    // A swap, not a rotation: the old front took the selected one's place.
    assert_eq!(l.get(1).name(), "primary");
    assert_eq!(l.get(2).name(), "border");
    assert_eq!(l.len(), 3);
}

#[test]
fn set_active_is_a_no_op_for_the_front_scheme() {
    let mut l = three_schemes();
    assert_eq!(l.set_active(&"border".to_string()), Ok(()));
    assert_eq!(l.get(0).name(), "border");
    assert_eq!(l.get(1).name(), "primary");
    assert_eq!(l.get(2).name(), "secondary");
}

#[test]
fn unknown_scheme_is_reported_and_nothing_moves() {
    let mut l = three_schemes();
    assert_eq!(
        l.set_active(&"missing".to_string()),
        Err(Error::UnknownColorscheme("missing".to_string()))
    );
    assert_eq!(l.get(0).name(), "border");
    assert_eq!(l.len(), 3);
}

#[test]
fn pixel_selects_by_inversion() {
    let s = ColorScheme::new("s".to_string(), 0xf0, 0x0f);
    assert_eq!(s.pixel(false), 0xf0);
    assert_eq!(s.pixel(true), 0x0f);
}

#[test]
fn error_messages_name_the_failure() {
    assert_eq!(
        Error::NoFallbackFontForChar('x').message(),
        "unable to find a fallback font for a character"
    );
    assert_eq!(
        Error::UnableToOpenFont("f".to_string()).message(),
        "unable to open the named font"
    );
    assert_eq!(
        Error::UnableToOpenFontPattern.message(),
        "unable to open a font from a fallback descriptor"
    );
    assert_eq!(
        Error::UnableToParseFontPattern("f".to_string()).message(),
        "unable to parse the font name as a style pattern"
    );
    assert_eq!(
        Error::UnknownColorscheme("s".to_string()).message(),
        "not a registered colorscheme"
    );
}

#[test]
fn rect_is_plain_data() {
    let r = Rect { x: -3, y: 4, w: 10, h: 20 };
    let s = r;
    assert_eq!(s, r);
    assert_eq!(s.x, -3);
    assert_eq!(s.y, 4);
    assert_eq!(s.w, 10);
    assert_eq!(s.h, 20);
}
