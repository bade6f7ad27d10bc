//! Where a color argument comes from.
use vstd::prelude::*;

verus! {

/// Whether the color spectrum still has to be shown before the next run of
/// an external color picker.
#[derive(Debug, Clone, Copy, PartialEq, Eq, Structural)]
pub enum PrintSpectrum {
    Yes,
    No,
}

/// What to do for one color argument.
#[derive(Debug, Clone, Copy, PartialEq, Eq, Structural)]
pub enum ColorArgAction {
    /// `-`: read one color from standard input.
    ReadStdin,
    /// `pick`: run an external color picker, first printing the spectrum if
    /// this is the first pick.
    Pick { print_spectrum: bool },
    /// Anything else: parse the argument as a color.
    Parse,
}

/// The action for a color argument; the spectrum is shown at most once.
pub fn color_arg_action(arg: &str, print_spectrum: &mut PrintSpectrum) -> (a: ColorArgAction)
    ensures
        arg@ == "-"@ ==> a == ColorArgAction::ReadStdin && *final(print_spectrum) == *old(
            print_spectrum,
        ),
        arg@ == "pick"@ ==> a == (ColorArgAction::Pick {
            print_spectrum: *old(print_spectrum) == PrintSpectrum::Yes,
        }) && *final(print_spectrum) == PrintSpectrum::No,
        arg@ != "-"@ && arg@ != "pick"@ ==> a == ColorArgAction::Parse && *final(print_spectrum)
            == *old(print_spectrum),
{
    proof {
        reveal_strlit("-");
        reveal_strlit("pick");
        assert("-"@.len() != "pick"@.len());
    }
    let dash = String::from_str("-");
    let pick = String::from_str("pick");
    let given = String::from_str(arg);
    if given == dash {
        ColorArgAction::ReadStdin
    } else if given == pick {
        let first = match *print_spectrum {
            PrintSpectrum::Yes => true,
            PrintSpectrum::No => false,
        };
        *print_spectrum = PrintSpectrum::No;
        ColorArgAction::Pick { print_spectrum: first }
    } else {
        ColorArgAction::Parse
    }
}

} // verus!
