use pastel::ansi::Mode;
use pastel::cli::app::App;
use pastel::cli::color_mode::{color_mode, ColorModeSetting};
use pastel::cli::colorpicker_tools::{gdbus_parse_color, ColorPickerTool, PostProcess};
use pastel::cli::commands::io::{color_arg_action, ColorArgAction, PrintSpectrum};
use pastel::cli::commands::sort::{dedup_order, sorted_order, ListCommand, SortCommand};
use pastel::cli::error::PastelError;

#[test]
fn error_messages() {
    assert_eq!(
        "Could not parse color 'foo'",
        PastelError::ColorParseError("foo".into()).message()
    );
    assert_eq!(
        "Color input contains invalid UTF8",
        PastelError::ColorInvalidUTF8.message()
    );
    assert_eq!(
        "could not read color from standard input",
        PastelError::CouldNotReadFromStdin.message()
    );
    assert!(PastelError::ColorArgRequired
        .message()
        .starts_with("A color argument needs to be provided"));
    assert_eq!(
        "Could not parse number '1.2.3'",
        PastelError::CouldNotParseNumber("1.2.3".into()).message()
    );
}

#[test]
fn app_defaults() {
    let app = App::new();
    assert_eq!(2, app.padding());
    assert_eq!(40, app.colorpicker_width());
}

#[test]
fn spectrum_is_printed_once() {
    let mut state = PrintSpectrum::Yes;
    assert_eq!(ColorArgAction::Parse, color_arg_action("red", &mut state));
    assert_eq!(PrintSpectrum::Yes, state);
    assert_eq!(ColorArgAction::ReadStdin, color_arg_action("-", &mut state));
    assert_eq!(
        ColorArgAction::Pick { print_spectrum: true },
        color_arg_action("pick", &mut state)
    );
    assert_eq!(PrintSpectrum::No, state);
    assert_eq!(
        ColorArgAction::Pick { print_spectrum: false },
        color_arg_action("pick", &mut state)
    );
}

const GPICK: ColorPickerTool = ColorPickerTool {
    command: "gpick",
    args: &["--pick", "--single", "--output"],
    version_args: &["--version"],
    version_output_starts_with: b"Gpick",
    post_process: None,
};

#[test]
fn color_picker_selection() {
    assert!(GPICK.matches(None));
    assert!(GPICK.matches(Some("GPick")));
    assert!(!GPICK.matches(Some("xcolor")));
    assert!(!GPICK.matches(Some("gpic")));

    assert!(GPICK.is_available(b"Gpick version 0.2.6", b""));
    assert!(GPICK.is_available(b"", b"Gpick"));
    assert!(!GPICK.is_available(b"gpick", b"Gpic"));
    let _ = PostProcess::GdbusColor;
}

#[test]
fn gdbus_output() {
    let fields = gdbus_parse_color("(true, {'color': <(0.1, 0.5, 1.0)>})").unwrap();
    assert_eq!(vec!["0.1", "0.5", "1.0"], fields);

    assert_eq!(
        Err("Unexpected gdbus output format"),
        gdbus_parse_color("(0.1, 0.5, 1.0)")
    );
    assert_eq!(
        Err("Unexpected gdbus output format"),
        gdbus_parse_color("(a, ((0.1, 0.5))")
    );
}

#[test]
fn color_modes() {
    let s = |mode, warn| Ok(ColorModeSetting { mode, warn_no_truecolor: warn });
    assert_eq!(s(Some(Mode::TrueColor), false), color_mode("24bit", false, None, None, None));
    assert_eq!(s(Some(Mode::Ansi8Bit), false), color_mode("8bit", false, None, None, None));
    assert_eq!(s(None, false), color_mode("off", true, None, None, None));
    assert_eq!(s(None, false), color_mode("auto", false, None, None, None));
    assert_eq!(
        s(Some(Mode::Ansi8Bit), false),
        color_mode("auto", true, Some("8bit".into()), Some("truecolor".into()), None)
    );
    assert_eq!(
        Err("256".to_string()),
        color_mode("auto", true, Some("256".into()), None, None)
    );
    assert_eq!(
        s(Some(Mode::TrueColor), false),
        color_mode("auto", true, None, Some("24bit".into()), None)
    );
    assert_eq!(
        s(Some(Mode::Ansi8Bit), true),
        color_mode("auto", true, None, None, Some("color".into()))
    );
    assert_eq!(
        s(Some(Mode::Ansi8Bit), false),
        color_mode("auto", true, None, None, Some("paint".into()))
    );
}

#[test]
fn stable_sorting() {
    let keys = vec![3i64, 1, 3, 2, 1];
    assert_eq!(vec![1, 4, 3, 0, 2], sorted_order(&keys));
    assert_eq!(Vec::<usize>::new(), sorted_order(&vec![]));

    let order = sorted_order(&keys);
    assert_eq!(vec![1, 3, 0], dedup_order(&order, &keys));
}

#[test]
fn sort_command_order() {
    let keys = vec![3, 1, 3, 2, 1];
    let rgb = vec![10, 20, 10, 30, 5];
    // all colors, stably by key
    assert_eq!(SortCommand::order(&keys, &rgb, false, false), vec![1, 4, 3, 0, 2]);
    // reversed
    assert_eq!(SortCommand::order(&keys, &rgb, false, true), vec![2, 0, 3, 4, 1]);
    // one color per RGB value (the first), equal keys in RGB order
    assert_eq!(SortCommand::order(&keys, &rgb, true, false), vec![4, 1, 3, 0]);
    assert_eq!(SortCommand::order(&keys, &rgb, true, true), vec![0, 3, 1, 4]);
    assert_eq!(SortCommand::order(&vec![], &vec![], true, true), Vec::<usize>::new());
}

#[test]
fn list_command_order() {
    let keys = vec![2, 1, 1, 0];
    let rgb = vec![7, 5, 5, 7];
    // sorted 3, 1, 2, 0; the second 5 follows a 5 and is left out
    assert_eq!(ListCommand::order(&keys, &rgb), vec![3, 1, 0]);
}
