use evk::window_layout::{WindowButton, WindowButtonLayout};

fn layout(
    left: [Option<WindowButton>; 3],
    right: [Option<WindowButton>; 3],
) -> WindowButtonLayout {
    WindowButtonLayout { left, right }
}

use WindowButton::{Close, Maximize, Minimize};

#[test]
fn button_ids() {
    assert_eq!(Minimize.id(), "minimize");
    assert_eq!(Maximize.id(), "maximize");
    assert_eq!(Close.id(), "close");
}

#[test]
fn linux_default_layout() {
    let l = WindowButtonLayout::linux_default();
    assert_eq!(l, layout([None, None, None], [Some(Minimize), Some(Maximize), Some(Close)]));
    assert_eq!(l.format(), ":minimize,maximize,close");
}

#[test]
fn parse_both_sides() {
    let l = WindowButtonLayout::parse("close,minimize:maximize").unwrap();
    assert_eq!(l, layout([Some(Close), Some(Minimize), None], [Some(Maximize), None, None]));
}

#[test]
fn parse_without_colon_is_right_side() {
    let l = WindowButtonLayout::parse("minimize,close").unwrap();
    assert_eq!(l, layout([None, None, None], [Some(Minimize), Some(Close), None]));
}

#[test]
fn parse_trims_and_skips_empty_names() {
    let l = WindowButtonLayout::parse(" close , ,minimize :\tmaximize ,").unwrap();
    assert_eq!(l, layout([Some(Close), Some(Minimize), None], [Some(Maximize), None, None]));
}

#[test]
fn parse_ignores_repeated_buttons() {
    let l = WindowButtonLayout::parse("close,close:close,minimize").unwrap();
    assert_eq!(l, layout([Some(Close), None, None], [Some(Minimize), None, None]));
}

#[test]
fn parse_keeps_valid_buttons_among_unknown_names() {
    let l = WindowButtonLayout::parse("appmenu:minimize,spacer,close").unwrap();
    assert_eq!(l, layout([None, None, None], [Some(Minimize), Some(Close), None]));
}

#[test]
fn parse_refuses_only_unknown_names() {
    let e = WindowButtonLayout::parse("appmenu:spacer,icon").unwrap_err();
    assert_eq!(e.layout, "appmenu:spacer,icon");
    assert_eq!(e.unrecognized, vec!["appmenu".to_string(), "spacer".to_string(), "icon".to_string()]);
}

#[test]
fn parse_accepts_empty_layout() {
    let l = WindowButtonLayout::parse("").unwrap();
    assert_eq!(l, layout([None, None, None], [None, None, None]));
    let l = WindowButtonLayout::parse(":").unwrap();
    assert_eq!(l, layout([None, None, None], [None, None, None]));
}

#[test]
fn parse_splits_at_first_colon() {
    let l = WindowButtonLayout::parse("close:minimize:maximize").unwrap();
    // the right side is "minimize:maximize", which is no button name
    assert_eq!(l, layout([Some(Close), None, None], [None, None, None]));
}

#[test]
fn format_layouts() {
    assert_eq!(
        layout([Some(Close), Some(Minimize), None], [Some(Maximize), None, None]).format(),
        "close,minimize:maximize"
    );
    assert_eq!(layout([None, None, None], [None, None, None]).format(), ":");
    assert_eq!(layout([None, Some(Close), None], [None, None, Some(Minimize)]).format(), "close:minimize");
}

#[test]
fn parse_gives_back_formatted_layout() {
    for l in [
        layout([Some(Close), Some(Minimize), None], [Some(Maximize), None, None]),
        layout([None, None, None], [Some(Minimize), Some(Maximize), Some(Close)]),
        layout([Some(Maximize), None, None], [None, None, None]),
    ] {
        assert_eq!(WindowButtonLayout::parse(&l.format()).unwrap(), l);
    }
}
