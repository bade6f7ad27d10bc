//! Which colors the tool sends to the terminal.
use vstd::prelude::*;

use crate::ansi::Mode;

verus! {

/// The colors to use, and whether to warn that 24-bit colors seem to be
/// unsupported.
#[derive(Debug, Clone, Copy, PartialEq, Eq, Structural)]
pub struct ColorModeSetting {
    pub mode: Option<Mode>,
    pub warn_no_truecolor: bool,
}

/// Whether an optional string holds exactly the given text.
pub open spec fn is_text(s: Option<String>, text: Seq<char>) -> bool {
    s is Some && s->0@ == text
}

/// The setting for the `--color-mode` argument `arg` (`24bit`, `8bit`, `off`
/// or `auto`). In `auto` mode, colors are off unless the output is
/// interactive; then `PASTEL_COLOR_MODE` decides (`8bit`, `24bit` or `off`;
/// any other value is an error, returned as `Err`); without it, `COLORTERM`
/// set to `truecolor` or `24bit` selects 24-bit colors, and otherwise 8-bit
/// colors are used with a warning, except for the `paint` and `colorcheck`
/// subcommands.
pub open spec fn color_mode_spec(
    arg: Seq<char>,
    interactive: bool,
    pastel_color_mode: Option<String>,
    colorterm: Option<String>,
    subcommand: Option<String>,
) -> Result<ColorModeSetting, Seq<char>> {
    if arg == "24bit"@ {
        Ok(ColorModeSetting { mode: Some(Mode::TrueColor), warn_no_truecolor: false })
    } else if arg == "8bit"@ {
        Ok(ColorModeSetting { mode: Some(Mode::Ansi8Bit), warn_no_truecolor: false })
    } else if arg == "off"@ || !interactive {
        Ok(ColorModeSetting { mode: None, warn_no_truecolor: false })
    } else if is_text(pastel_color_mode, "8bit"@) {
        Ok(ColorModeSetting { mode: Some(Mode::Ansi8Bit), warn_no_truecolor: false })
    } else if is_text(pastel_color_mode, "24bit"@) {
        Ok(ColorModeSetting { mode: Some(Mode::TrueColor), warn_no_truecolor: false })
    } else if is_text(pastel_color_mode, "off"@) {
        Ok(ColorModeSetting { mode: None, warn_no_truecolor: false })
    } else if pastel_color_mode is Some {
        Err(pastel_color_mode->0@)
    } else if is_text(colorterm, "truecolor"@) || is_text(colorterm, "24bit"@) {
        Ok(ColorModeSetting { mode: Some(Mode::TrueColor), warn_no_truecolor: false })
    } else {
        Ok(
            ColorModeSetting {
                mode: Some(Mode::Ansi8Bit),
                warn_no_truecolor: !is_text(subcommand, "paint"@) && !is_text(
                    subcommand,
                    "colorcheck"@,
                ),
            },
        )
    }
}

fn holds_text(s: &Option<String>, text: &str) -> (b: bool)
    ensures
        b == is_text(*s, text@),
{
    match s {
        Some(v) => *v == String::from_str(text),
        None => false,
    }
}

/// Decide the color mode; `arg` must be one of the four accepted values.
pub fn color_mode(
    arg: &str,
    interactive: bool,
    pastel_color_mode: Option<String>,
    colorterm: Option<String>,
    subcommand: Option<String>,
) -> (r: Result<ColorModeSetting, String>)
    requires
        arg@ == "24bit"@ || arg@ == "8bit"@ || arg@ == "off"@ || arg@ == "auto"@,
    ensures
        match r {
            Ok(setting) => color_mode_spec(
                arg@,
                interactive,
                pastel_color_mode,
                colorterm,
                subcommand,
            ) == Ok::<ColorModeSetting, Seq<char>>(setting),
            Err(value) => color_mode_spec(
                arg@,
                interactive,
                pastel_color_mode,
                colorterm,
                subcommand,
            ) == Err::<ColorModeSetting, Seq<char>>(value@),
        },
{
    let arg = String::from_str(arg);
    if arg == String::from_str("24bit") {
        return Ok(ColorModeSetting { mode: Some(Mode::TrueColor), warn_no_truecolor: false });
    }
    if arg == String::from_str("8bit") {
        return Ok(ColorModeSetting { mode: Some(Mode::Ansi8Bit), warn_no_truecolor: false });
    }
    if arg == String::from_str("off") || !interactive {
        return Ok(ColorModeSetting { mode: None, warn_no_truecolor: false });
    }
    if holds_text(&pastel_color_mode, "8bit") {
        return Ok(ColorModeSetting { mode: Some(Mode::Ansi8Bit), warn_no_truecolor: false });
    }
    if holds_text(&pastel_color_mode, "24bit") {
        return Ok(ColorModeSetting { mode: Some(Mode::TrueColor), warn_no_truecolor: false });
    }
    if holds_text(&pastel_color_mode, "off") {
        return Ok(ColorModeSetting { mode: None, warn_no_truecolor: false });
    }
    match pastel_color_mode {
        Some(value) => {
            return Err(value);
        },
        None => {},
    }
    if holds_text(&colorterm, "truecolor") || holds_text(&colorterm, "24bit") {
        return Ok(ColorModeSetting { mode: Some(Mode::TrueColor), warn_no_truecolor: false });
    }
    let warn = !holds_text(&subcommand, "paint") && !holds_text(&subcommand, "colorcheck");
    Ok(ColorModeSetting { mode: Some(Mode::Ansi8Bit), warn_no_truecolor: warn })
}

} // verus!

verus! {

/// How the color mode is decided, case by case: `24bit`, `8bit` and `off`
/// are taken as they are; `auto` gives no colors on an output that is not
/// interactive; otherwise `PASTEL_COLOR_MODE` (`8bit`, `24bit` or `off`)
/// decides and any other value of it is refused; without it, `COLORTERM`
/// set to `truecolor` or `24bit` gives 24-bit colors without a warning, and
/// anything else gives 8-bit colors with a warning unless the subcommand is
/// `paint` or `colorcheck`.
pub proof fn law_color_mode_decisions(
    arg: Seq<char>,
    interactive: bool,
    pastel_color_mode: Option<String>,
    colorterm: Option<String>,
    subcommand: Option<String>,
)
    requires
        arg == "24bit"@ || arg == "8bit"@ || arg == "off"@ || arg == "auto"@,
    ensures
        ({
            let r = color_mode_spec(arg, interactive, pastel_color_mode, colorterm, subcommand);
            let truecolor = Ok::<ColorModeSetting, Seq<char>>(
                ColorModeSetting { mode: Some(Mode::TrueColor), warn_no_truecolor: false },
            );
            let ansi8 = Ok::<ColorModeSetting, Seq<char>>(
                ColorModeSetting { mode: Some(Mode::Ansi8Bit), warn_no_truecolor: false },
            );
            let none = Ok::<ColorModeSetting, Seq<char>>(
                ColorModeSetting { mode: None, warn_no_truecolor: false },
            );
            let auto = arg == "auto"@ && interactive;
            let env = pastel_color_mode;
            &&& arg == "24bit"@ ==> r == truecolor
            &&& arg == "8bit"@ ==> r == ansi8
            &&& arg == "off"@ ==> r == none
            &&& arg == "auto"@ && !interactive ==> r == none
            &&& auto && env is Some && env->0@ == "8bit"@ ==> r == ansi8
            &&& auto && env is Some && env->0@ == "24bit"@ ==> r == truecolor
            &&& auto && env is Some && env->0@ == "off"@ ==> r == none
            &&& auto && env is Some && env->0@ != "8bit"@ && env->0@ != "24bit"@ && env->0@
                != "off"@ ==> r == Err::<ColorModeSetting, Seq<char>>(env->0@)
            &&& auto && env is None && colorterm is Some && (colorterm->0@ == "truecolor"@
                || colorterm->0@ == "24bit"@) ==> r == truecolor
            &&& auto && env is None && !(colorterm is Some && (colorterm->0@ == "truecolor"@
                || colorterm->0@ == "24bit"@)) ==> r == Ok::<ColorModeSetting, Seq<char>>(
                ColorModeSetting {
                    mode: Some(Mode::Ansi8Bit),
                    warn_no_truecolor: !(subcommand is Some && (subcommand->0@ == "paint"@
                        || subcommand->0@ == "colorcheck"@)),
                },
            )
        }),
{
    reveal_strlit("24bit");
    reveal_strlit("8bit");
    reveal_strlit("off");
    reveal_strlit("auto");
    assert("auto"@[0] != "8bit"@[0]);
    assert("auto"@ != "8bit"@);
    assert("auto"@.len() != "24bit"@.len());
    assert("auto"@.len() != "off"@.len());
    assert("8bit"@.len() != "24bit"@.len());
    assert("8bit"@.len() != "off"@.len());
    assert("24bit"@.len() != "off"@.len());
    let r = color_mode_spec(arg, interactive, pastel_color_mode, colorterm, subcommand);
    if arg == "auto"@ && interactive && pastel_color_mode is None && !(colorterm is Some && (
    colorterm->0@ == "truecolor"@ || colorterm->0@ == "24bit"@)) {
        assert(!is_text(colorterm, "truecolor"@) && !is_text(colorterm, "24bit"@));
        assert(is_text(subcommand, "paint"@) == (subcommand is Some && subcommand->0@ == "paint"@));
        assert(r == Ok::<ColorModeSetting, Seq<char>>(
            ColorModeSetting {
                mode: Some(Mode::Ansi8Bit),
                warn_no_truecolor: !is_text(subcommand, "paint"@) && !is_text(subcommand, "colorcheck"@),
            },
        ));
    }
}

} // verus!
