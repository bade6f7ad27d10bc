//! External color picker tools and the interpretation of their output.
use vstd::prelude::*;

use crate::text::{
    bytes_start_with, chars_of, eq_ignore_ascii_case, lemma_split_nonempty, split, split_chars,
    str_eq_ignore_ascii_case, string_of, trim, trim_chars,
};

verus! {

/// A transformation of a tool's output into color syntax.
#[derive(Debug, Clone, Copy, PartialEq, Eq, Structural)]
pub enum PostProcess {
    /// The output of GNOME Shell's `PickColor` D-Bus method (see
    /// `gdbus_parse_color`).
    GdbusColor,
}

/// How to run an external color picker and recognize that it is installed.
pub struct ColorPickerTool {
    pub command: &'static str,
    pub args: &'static [&'static str],
    pub version_args: &'static [&'static str],
    pub version_output_starts_with: &'static [u8],
    /// Post-Process the output of the color picker tool
    pub post_process: Option<PostProcess>,
}

impl ColorPickerTool {
    /// Whether this tool may be used when the user asked for `picker` (any
    /// tool if none was asked for; otherwise the tool with that name, in any
    /// ASCII case).
    pub fn matches(&self, picker: Option<&str>) -> (r: bool)
        ensures
            r == match picker {
                None => true,
                Some(p) => eq_ignore_ascii_case(self.command@, p@),
            },
    {
        match picker {
            None => true,
            Some(p) => str_eq_ignore_ascii_case(self.command, p),
        }
    }

    /// Whether the output of the tool's version command shows that the tool
    /// is installed: standard output or standard error starts with the
    /// expected text.
    pub fn is_available(&self, stdout: &[u8], stderr: &[u8]) -> (r: bool)
        ensures
            r == (starts_with(stdout@, self.version_output_starts_with@) || starts_with(
                stderr@,
                self.version_output_starts_with@,
            )),
    {
        bytes_start_with(stdout, self.version_output_starts_with) || bytes_start_with(
            stderr,
            self.version_output_starts_with,
        )
    }
}

pub open spec fn starts_with(s: Seq<u8>, prefix: Seq<u8>) -> bool {
    prefix.len() <= s.len() && s.subrange(0, prefix.len() as int) == prefix
}

/// The three channel fields of a `PickColor` reply such as
/// `(true, {'color': <(0.1, 0.5, 1.0)>})`: the text after the second `(` up
/// to the next `)`, split at commas, each field trimmed; nothing unless there
/// are exactly three fields.
pub open spec fn gdbus_fields(raw: Seq<char>) -> Option<Seq<Seq<char>>> {
    let parts = split(raw, '(');
    if parts.len() < 3 {
        None
    } else {
        let fields = split(split(parts[2], ')')[0], ',');
        if fields.len() != 3 {
            None
        } else {
            Some(fields.map_values(|f: Seq<char>| trim(f)))
        }
    }
}

/// Extract the red, green and blue fields (numbers from 0 to 1) of the
/// output of GNOME Shell's color picker. Each field still has to be read as
/// a number; the tool's reply becomes `rgb(R%,G%,B%)` with the numbers
/// scaled by 100.
pub fn gdbus_parse_color(raw: &str) -> (r: Result<Vec<String>, &'static str>)
    ensures
        match r {
            Ok(fields) => gdbus_fields(raw@) matches Some(f) && fields@.len() == f.len() && (
            forall|k: int| 0 <= k < f.len() ==> #[trigger] fields@[k]@ == f[k]),
            Err(e) => gdbus_fields(raw@) is None && e@ == "Unexpected gdbus output format"@,
        },
{
    let chars = chars_of(raw);
    let parts = split_chars(&chars, '(');
    if parts.len() < 3 {
        return Err("Unexpected gdbus output format");
    }
    let inner = split_chars(&parts[2], ')');
    proof {
        lemma_split_nonempty(parts@[2]@, ')');
    }
    let fields = split_chars(&inner[0], ',');
    if fields.len() != 3 {
        return Err("Unexpected gdbus output format");
    }
    let mut out: Vec<String> = Vec::new();
    let mut k: usize = 0;
    while k < 3
        invariant
            fields@.len() == 3,
            forall|m: int| 0 <= m < 3 ==> #[trigger] fields@[m]@ == split(
                split(split(raw@, '(')[2], ')')[0],
                ',',
            )[m],
            k <= 3,
            out@.len() == k,
            forall|m: int| 0 <= m < k ==> #[trigger] out@[m]@ == trim(fields@[m]@),
        decreases 3 - k,
    {
        let t = trim_chars(&fields[k]);
        out.push(string_of(&t));
        k = k + 1;
    }
    Ok(out)
}

} // verus!
