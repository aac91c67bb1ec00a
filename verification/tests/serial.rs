use console_ui::border::style::BorderStyle;
use console_ui::color::{BasicColor, Color, StyleFlags};
use console_ui::layout::anchor::AnchorLayout;
use console_ui::serial::{
    AlignDef, BasicColorName, BorderDef, ColorDef, ConstraintDef, EdgeDef, LayoutDef, ScreenDef, StyleDef,
    TerminalTarget, ValidationErrors, WidgetDef, WidgetPlacement, WrapDef,
};
use console_ui::term::caps::ColorLevel;
use console_ui::widget::Widget;

fn sample_def() -> ScreenDef {
    ScreenDef {
        name: "test_screen".into(),
        target: TerminalTarget::Ansi256,
        width: 80,
        height: 24,
        layout: LayoutDef::Anchor {
            widgets: vec![
                WidgetPlacement {
                    id: "header".into(),
                    widget: WidgetDef::Panel {
                        title: Some("Hello World".into()),
                        title_align: AlignDef::Center,
                        border: BorderDef::Double,
                        border_fg: ColorDef::Basic { color: BasicColorName::Cyan, bright: true },
                        title_fg: ColorDef::Default,
                        child: None,
                    },
                    size_hint: Some((78, 3)),
                    constraints: vec![
                        ConstraintDef { src_edge: EdgeDef::Top, dst: "CONTAINER".into(), dst_edge: EdgeDef::Top, offset: 0 },
                        ConstraintDef { src_edge: EdgeDef::Left, dst: "CONTAINER".into(), dst_edge: EdgeDef::Left, offset: 1 },
                    ],
                },
                WidgetPlacement {
                    id: "body".into(),
                    widget: WidgetDef::Text {
                        content: "This is a sample text block.".into(),
                        fg: ColorDef::Default,
                        wrap: WrapDef::Word,
                        style: StyleDef::default(),
                    },
                    size_hint: None,
                    constraints: vec![
                        ConstraintDef { src_edge: EdgeDef::Top, dst: "header".into(), dst_edge: EdgeDef::Bottom, offset: 1 },
                        ConstraintDef { src_edge: EdgeDef::Left, dst: "CONTAINER".into(), dst_edge: EdgeDef::Left, offset: 1 },
                        ConstraintDef { src_edge: EdgeDef::Right, dst: "CONTAINER".into(), dst_edge: EdgeDef::Right, offset: -1 },
                    ],
                },
            ],
        },
    }
}

#[test]
fn build_from_def() {
    let def = sample_def();
    let mut layout = def.into_anchor_layout();
    // Verify resolution doesn't panic and produces non-zero rects.
    layout.resolve();
}

#[test]
fn validation_vt100_rejects_unicode_border() {
    let mut def = sample_def();
    def.target = TerminalTarget::Vt100;
    // sample_def uses BorderDef::Double which is Unicode — should fail VT-100.
    let result = def.validate();
    assert!(result.is_err(), "VT-100 target should reject non-ASCII border");
    let errs = result.unwrap_err();
    assert!(!errs.is_empty());
}

#[test]
fn validation_vt100_ascii_border_passes() {
    let def = ScreenDef {
        name: "simple".into(),
        target: TerminalTarget::Vt100,
        width: 80,
        height: 24,
        layout: LayoutDef::Single {
            widget: WidgetDef::Panel {
                title: Some("VT-100 Screen".into()),
                title_align: AlignDef::Left,
                border: BorderDef::Ascii,
                border_fg: ColorDef::Default,
                title_fg: ColorDef::Default,
                child: None,
            },
        },
    };
    assert!(def.validate().is_ok(), "ASCII border on VT-100 target should be valid");
}

#[test]
fn validation_truecolor_rejected_on_ansi256() {
    let def = ScreenDef {
        name: "tc".into(),
        target: TerminalTarget::Ansi256,
        width: 80,
        height: 24,
        layout: LayoutDef::Single {
            widget: WidgetDef::Panel {
                title: None,
                title_align: AlignDef::Left,
                border: BorderDef::Single,
                border_fg: ColorDef::TrueColor { r: 255, g: 100, b: 0 },
                title_fg: ColorDef::Default,
                child: None,
            },
        },
    };
    let result = def.validate();
    assert!(result.is_err(), "TrueColor on Ansi256 target should fail");
}

#[test]
fn validation_messages_are_tagged_with_widget_ids() {
    let mut def = sample_def();
    def.target = TerminalTarget::Vt100;
    let errs = def.validate().unwrap_err();
    assert_eq!(
        errs.errors().to_vec(),
        vec!["[header] border style 'Double' requires Unicode — use Ascii for VT-100 target".to_string()]
    );
    assert_eq!(
        errs.to_string(),
        "  • [header] border style 'Double' requires Unicode — use Ascii for VT-100 target\n"
    );
}

#[test]
fn validate_color_messages() {
    let tc = ColorDef::TrueColor { r: 1, g: 2, b: 3 };
    let pal = ColorDef::Ansi256 { index: 9 };
    assert_eq!(
        TerminalTarget::Ansi256.validate_color(&tc, "fg"),
        Some("fg: TrueColor not supported on Ansi256 target".to_string())
    );
    assert_eq!(
        TerminalTarget::Vt100.validate_color(&pal, "bg"),
        Some("bg: Ansi256 color not supported on VT-100  — 8 ANSI colors, ASCII borders only target".to_string())
    );
    assert_eq!(
        TerminalTarget::Vt220.validate_color(&tc, "x"),
        Some("x: TrueColor not supported on VT-220  — 8 ANSI colors + Unicode box-drawing target".to_string())
    );
    assert_eq!(TerminalTarget::TrueColor.validate_color(&tc, "fg"), None);
    assert_eq!(TerminalTarget::Vt100.validate_color(&ColorDef::Default, "fg"), None);
    assert_eq!(TerminalTarget::Ansi256.validate_color(&pal, "fg"), None);
}

#[test]
fn validate_border_rules() {
    for t in TerminalTarget::all() {
        for b in [BorderDef::Ascii, BorderDef::Single, BorderDef::Double, BorderDef::Rounded, BorderDef::Heavy] {
            let r = t.validate_border(&b);
            assert_eq!(r.is_some(), t == TerminalTarget::Vt100 && b != BorderDef::Ascii);
        }
    }
    assert_eq!(
        TerminalTarget::Vt100.validate_border(&BorderDef::Heavy),
        Some("border style 'Heavy' requires Unicode — use Ascii for VT-100 target".to_string())
    );
}

#[test]
fn valid_screen_stays_valid_on_higher_targets() {
    let mut def = sample_def();
    def.target = TerminalTarget::Ansi256;
    assert!(def.validate().is_ok());
    def.target = TerminalTarget::TrueColor;
    assert!(def.validate().is_ok());
    def.target = TerminalTarget::Vt220;
    assert!(def.validate().is_ok());
}

#[test]
fn compatibility_rules() {
    assert!(TerminalTarget::Vt100.is_compatible_with(ColorLevel::NoColor));
    assert!(TerminalTarget::Vt220.is_compatible_with(ColorLevel::NoColor));
    assert!(!TerminalTarget::Ansi256.is_compatible_with(ColorLevel::Vt100Basic));
    assert!(TerminalTarget::Ansi256.is_compatible_with(ColorLevel::TrueColor));
    assert!(!TerminalTarget::TrueColor.is_compatible_with(ColorLevel::Ansi256));
    for t in TerminalTarget::all() {
        assert!(t.is_compatible_with(t.required_color_level()));
    }
    assert!(!TerminalTarget::Vt100.unicode_allowed());
    assert!(TerminalTarget::Vt220.unicode_allowed());
    assert_eq!(TerminalTarget::default(), TerminalTarget::Vt220);
}

#[test]
fn color_round_trips() {
    let colors = [
        Color::Default,
        Color::Basic(BasicColor::Magenta, true),
        Color::Ansi256(200),
        Color::TrueColor(1, 2, 3),
    ];
    for c in colors {
        assert_eq!(ColorDef::from(c).to_color(), c);
    }
    assert_eq!(ColorDef::Basic { color: BasicColorName::Red, bright: false }.to_color(), Color::Basic(BasicColor::Red, false));
    assert_eq!(BasicColorName::from(BasicColor::White).to_basic(), BasicColor::White);
    for s in BorderStyle::all() {
        assert_eq!(BorderDef::from(s).to_border_style(), s);
    }
}

#[test]
fn style_round_trips() {
    let f = StyleFlags::bold().union(StyleFlags::underline()).union(StyleFlags::strikethrough());
    let d = StyleDef::from(f);
    assert!(d.bold && d.underline && d.strikethrough);
    assert!(!d.dim && !d.italic && !d.blink && !d.reverse);
    assert_eq!(d.to_flags(), f);
    assert_eq!(StyleDef::default().to_flags(), StyleFlags::empty());
    for bits in 0u8..128 {
        let f = StyleFlags::from_bits_truncate(bits);
        assert_eq!(StyleDef::from(f).to_flags().bits(), bits);
    }
}

#[test]
fn populate_wires_constraints_and_skips_unknown_targets() {
    let def = ScreenDef {
        name: "wires".into(),
        target: TerminalTarget::Vt220,
        width: 40,
        height: 20,
        layout: LayoutDef::Anchor {
            widgets: vec![
                WidgetPlacement {
                    id: "a".into(),
                    widget: WidgetDef::Empty,
                    size_hint: Some((10, 4)),
                    constraints: vec![
                        ConstraintDef { src_edge: EdgeDef::Top, dst: "b".into(), dst_edge: EdgeDef::Bottom, offset: 1 },
                        ConstraintDef { src_edge: EdgeDef::Left, dst: "nowhere".into(), dst_edge: EdgeDef::Left, offset: 5 },
                        ConstraintDef { src_edge: EdgeDef::Left, dst: "CONTAINER".into(), dst_edge: EdgeDef::Left, offset: 2 },
                    ],
                },
                WidgetPlacement {
                    id: "b".into(),
                    widget: WidgetDef::Menu {
                        items: vec!["x".into()],
                        cursor_fg: ColorDef::Default,
                        cursor_bg: ColorDef::Default,
                    },
                    size_hint: Some((8, 3)),
                    constraints: vec![
                        ConstraintDef { src_edge: EdgeDef::Top, dst: "CONTAINER".into(), dst_edge: EdgeDef::Top, offset: 1 },
                        ConstraintDef { src_edge: EdgeDef::Left, dst: "CONTAINER".into(), dst_edge: EdgeDef::Left, offset: 3 },
                    ],
                },
            ],
        },
    };
    let mut layout = def.into_anchor_layout();
    layout.resolve();
    let mut probe = AnchorLayout::new(40, 20);
    let a = probe.add(Box::new(console_ui::widget::Panel::new()), Some((10, 4)));
    let b = probe.add(Box::new(console_ui::widget::Panel::new()), Some((8, 3)));
    let ra = layout.rect_of(a);
    let rb = layout.rect_of(b);
    assert_eq!((rb.x, rb.y, rb.width, rb.height), (3, 1, 8, 3));
    // `a` sits one row below `b`; the unknown target was skipped, so the
    // container's left edge wins.
    assert_eq!((ra.x, ra.y, ra.width, ra.height), (2, 5, 10, 4));
}

#[test]
fn single_widget_fills_the_screen() {
    let def = ScreenDef {
        name: "one".into(),
        target: TerminalTarget::Vt220,
        width: 30,
        height: 10,
        layout: LayoutDef::Single {
            widget: WidgetDef::Table {
                headers: Some(vec!["h".into()]),
                rows: vec![vec!["r".into()]],
                col_align: vec![AlignDef::Right],
                border: BorderDef::Single,
                border_fg: ColorDef::Default,
                header_fg: ColorDef::Default,
                alt_row_bg: None,
            },
        },
    };
    let mut layout = def.into_anchor_layout();
    layout.resolve();
    let mut probe = AnchorLayout::new(30, 10);
    let id = probe.add(Box::new(console_ui::widget::Panel::new()), None);
    let rect = layout.rect_of(id);
    assert_eq!((rect.x, rect.y, rect.width, rect.height), (0, 0, 30, 10));
}

#[test]
fn validation_errors_accessors() {
    let e = ValidationErrors(vec!["one".into(), "two".into()]);
    assert!(!e.is_empty());
    assert_eq!(e.errors().len(), 2);
    assert_eq!(e.to_string(), "  • one\n  • two\n");
    assert!(ValidationErrors(vec![]).is_empty());
}

#[test]
fn build_wires_the_child_into_the_panel() {
    let def = WidgetDef::Panel {
        title: None,
        title_align: AlignDef::Left,
        border: BorderDef::Single,
        border_fg: ColorDef::Default,
        title_fg: ColorDef::Default,
        child: Some(Box::new(WidgetDef::Text {
            content: "hello world".into(),
            fg: ColorDef::Default,
            wrap: WrapDef::Word,
            style: StyleDef {
                bold: false,
                dim: false,
                italic: false,
                underline: false,
                blink: false,
                reverse: false,
                strikethrough: false,
            },
        })),
    };
    let w = def.build();
    assert_eq!(w.preferred_size(), (13, 3));
    assert_eq!(w.min_size(), (12, 3));
}

#[test]
fn build_empty_gives_a_plain_panel() {
    let w = WidgetDef::Empty.build();
    assert_eq!(w.preferred_size(), (22, 12));
    assert_eq!(w.min_size(), (2, 2));
}
