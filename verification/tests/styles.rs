use dpn_reader::style::{named_fg, style_from_newsboat_if_available, Style};

fn codes(style: &Style) -> Vec<&'static str> {
    vec![
        style.title,
        style.accent,
        style.unread,
        style.headline,
        style.label,
        style.body,
        style.reset,
    ]
}

#[test]
fn default_style_is_cyan_magenta_and_gold() {
    assert_eq!(
        codes(&Style::default()),
        vec![
            "\x1b[38;2;0;245;255m",
            "\x1b[38;2;255;45;149m",
            "\x1b[38;2;255;184;0m",
            "\x1b[38;2;0;245;255m",
            "\x1b[38;2;255;45;149m",
            "\x1b[38;2;255;184;0m",
            "\x1b[0m",
        ]
    );
    assert_eq!(codes(&Style::default().clone()), codes(&Style::default()));
}

#[test]
fn colour_names() {
    let names = [
        ("black", "\x1b[30m"),
        ("red", "\x1b[31m"),
        ("green", "\x1b[32m"),
        ("yellow", "\x1b[33m"),
        ("blue", "\x1b[34m"),
        ("magenta", "\x1b[35m"),
        ("cyan", "\x1b[36m"),
        ("white", "\x1b[37m"),
        ("brightred", "\x1b[91m"),
        ("brightgreen", "\x1b[92m"),
        ("brightyellow", "\x1b[93m"),
        ("brightblue", "\x1b[94m"),
        ("brightmagenta", "\x1b[95m"),
        ("brightcyan", "\x1b[96m"),
        ("brightwhite", "\x1b[97m"),
    ];
    for (i, (name, code)) in names.iter().enumerate() {
        assert_eq!(named_fg(name), Some(*code), "{}", name);
        assert!(names[..i].iter().all(|(_, other)| other != code));
    }
    assert_eq!(named_fg("BrightCyan"), Some("\x1b[96m"));
    assert_eq!(named_fg("brightblack"), None);
    assert_eq!(named_fg("color5"), None);
    assert_eq!(named_fg(""), None);
}

#[test]
fn configuration_sets_foregrounds() {
    let config = "# comment\n  color listfocus RED blue bold\ncolor info brightgreen default\n\
                  color listnormal_unread cyan\ncolor article white black\ncolor info\n";
    let style = style_from_newsboat_if_available(Some(config));
    assert_eq!(style.accent, "\x1b[31m");
    assert_eq!(style.title, "\x1b[92m");
    assert_eq!(style.unread, "\x1b[36m");
    let base = Style::default();
    assert_eq!(style.headline, base.headline);
    assert_eq!(style.label, base.label);
    assert_eq!(style.body, base.body);
    assert_eq!(style.reset, base.reset);
}

#[test]
fn later_lines_win_and_unknown_colours_change_nothing() {
    let style = style_from_newsboat_if_available(Some(
        "color info red x\ncolor info green x\ncolor info nocolour x\ncolour info blue x",
    ));
    assert_eq!(style.title, "\x1b[32m");
    assert_eq!(codes(&style_from_newsboat_if_available(None)), codes(&Style::default()));
    assert_eq!(codes(&style_from_newsboat_if_available(Some(""))), codes(&Style::default()));
}

#[test]
fn no_background_is_ever_set() {
    let roles = ["listfocus", "info", "listnormal_unread"];
    let colours = ["red", "black", "brightwhite", "default", "color5"];
    for role in roles {
        for colour in colours {
            let config = format!("color {} {} red", role, colour);
            let style = style_from_newsboat_if_available(Some(&config));
            for code in codes(&style) {
                let body = code.trim_start_matches("\x1b[").trim_end_matches('m');
                assert!(
                    body == "0"
                        || body.starts_with("38;2;")
                        || (body.len() == 2 && (body.starts_with('3') || body.starts_with('9'))),
                    "{:?}",
                    code
                );
            }
        }
    }
}
