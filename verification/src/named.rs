//! The color names of CSS (and X11), in alphabetical order.
use vstd::prelude::*;

use crate::text::{ascii_fold, eq_ignore_ascii_case, str_eq, str_eq_ignore_ascii_case};
use crate::Rgb;

verus! {

/// A color name and the color it stands for.
#[derive(Debug, Clone, Copy, PartialEq, Eq)]
pub struct NamedColor {
    pub name: &'static str,
    pub color: Rgb,
}

/// The named colors, each name in lower case.
pub open spec fn named_color_list() -> Seq<NamedColor> {
    seq![
        NamedColor { name: "aliceblue", color: Rgb { r: 240, g: 248, b: 255 } },
        NamedColor { name: "antiquewhite", color: Rgb { r: 250, g: 235, b: 215 } },
        NamedColor { name: "aqua", color: Rgb { r: 0, g: 255, b: 255 } },
        NamedColor { name: "aquamarine", color: Rgb { r: 127, g: 255, b: 212 } },
        NamedColor { name: "azure", color: Rgb { r: 240, g: 255, b: 255 } },
        NamedColor { name: "beige", color: Rgb { r: 245, g: 245, b: 220 } },
        NamedColor { name: "bisque", color: Rgb { r: 255, g: 228, b: 196 } },
        NamedColor { name: "black", color: Rgb { r: 0, g: 0, b: 0 } },
        NamedColor { name: "blanchedalmond", color: Rgb { r: 255, g: 235, b: 205 } },
        NamedColor { name: "blue", color: Rgb { r: 0, g: 0, b: 255 } },
        NamedColor { name: "blueviolet", color: Rgb { r: 138, g: 43, b: 226 } },
        NamedColor { name: "brown", color: Rgb { r: 165, g: 42, b: 42 } },
        NamedColor { name: "burlywood", color: Rgb { r: 222, g: 184, b: 135 } },
        NamedColor { name: "cadetblue", color: Rgb { r: 95, g: 158, b: 160 } },
        NamedColor { name: "chartreuse", color: Rgb { r: 127, g: 255, b: 0 } },
        NamedColor { name: "chocolate", color: Rgb { r: 210, g: 105, b: 30 } },
        NamedColor { name: "coral", color: Rgb { r: 255, g: 127, b: 80 } },
        NamedColor { name: "cornflowerblue", color: Rgb { r: 100, g: 149, b: 237 } },
        NamedColor { name: "cornsilk", color: Rgb { r: 255, g: 248, b: 220 } },
        NamedColor { name: "crimson", color: Rgb { r: 220, g: 20, b: 60 } },
        NamedColor { name: "cyan", color: Rgb { r: 0, g: 255, b: 255 } },
        NamedColor { name: "darkblue", color: Rgb { r: 0, g: 0, b: 139 } },
        NamedColor { name: "darkcyan", color: Rgb { r: 0, g: 139, b: 139 } },
        NamedColor { name: "darkgoldenrod", color: Rgb { r: 184, g: 134, b: 11 } },
        NamedColor { name: "darkgray", color: Rgb { r: 169, g: 169, b: 169 } },
        NamedColor { name: "darkgreen", color: Rgb { r: 0, g: 100, b: 0 } },
        NamedColor { name: "darkgrey", color: Rgb { r: 169, g: 169, b: 169 } },
        NamedColor { name: "darkkhaki", color: Rgb { r: 189, g: 183, b: 107 } },
        NamedColor { name: "darkmagenta", color: Rgb { r: 139, g: 0, b: 139 } },
        NamedColor { name: "darkolivegreen", color: Rgb { r: 85, g: 107, b: 47 } },
        NamedColor { name: "darkorange", color: Rgb { r: 255, g: 140, b: 0 } },
        NamedColor { name: "darkorchid", color: Rgb { r: 153, g: 50, b: 204 } },
        NamedColor { name: "darkred", color: Rgb { r: 139, g: 0, b: 0 } },
        NamedColor { name: "darksalmon", color: Rgb { r: 233, g: 150, b: 122 } },
        NamedColor { name: "darkseagreen", color: Rgb { r: 143, g: 188, b: 143 } },
        NamedColor { name: "darkslateblue", color: Rgb { r: 72, g: 61, b: 139 } },
        NamedColor { name: "darkslategray", color: Rgb { r: 47, g: 79, b: 79 } },
        NamedColor { name: "darkslategrey", color: Rgb { r: 47, g: 79, b: 79 } },
        NamedColor { name: "darkturquoise", color: Rgb { r: 0, g: 206, b: 209 } },
        NamedColor { name: "darkviolet", color: Rgb { r: 148, g: 0, b: 211 } },
        NamedColor { name: "deeppink", color: Rgb { r: 255, g: 20, b: 147 } },
        NamedColor { name: "deepskyblue", color: Rgb { r: 0, g: 191, b: 255 } },
        NamedColor { name: "dimgray", color: Rgb { r: 105, g: 105, b: 105 } },
        NamedColor { name: "dimgrey", color: Rgb { r: 105, g: 105, b: 105 } },
        NamedColor { name: "dodgerblue", color: Rgb { r: 30, g: 144, b: 255 } },
        NamedColor { name: "firebrick", color: Rgb { r: 178, g: 34, b: 34 } },
        NamedColor { name: "floralwhite", color: Rgb { r: 255, g: 250, b: 240 } },
        NamedColor { name: "forestgreen", color: Rgb { r: 34, g: 139, b: 34 } },
        NamedColor { name: "fuchsia", color: Rgb { r: 255, g: 0, b: 255 } },
        NamedColor { name: "gainsboro", color: Rgb { r: 220, g: 220, b: 220 } },
        NamedColor { name: "ghostwhite", color: Rgb { r: 248, g: 248, b: 255 } },
        NamedColor { name: "gold", color: Rgb { r: 255, g: 215, b: 0 } },
        NamedColor { name: "goldenrod", color: Rgb { r: 218, g: 165, b: 32 } },
        NamedColor { name: "gray", color: Rgb { r: 128, g: 128, b: 128 } },
        NamedColor { name: "green", color: Rgb { r: 0, g: 128, b: 0 } },
        NamedColor { name: "greenyellow", color: Rgb { r: 173, g: 255, b: 47 } },
        NamedColor { name: "grey", color: Rgb { r: 128, g: 128, b: 128 } },
        NamedColor { name: "honeydew", color: Rgb { r: 240, g: 255, b: 240 } },
        NamedColor { name: "hotpink", color: Rgb { r: 255, g: 105, b: 180 } },
        NamedColor { name: "indianred", color: Rgb { r: 205, g: 92, b: 92 } },
        NamedColor { name: "indigo", color: Rgb { r: 75, g: 0, b: 130 } },
        NamedColor { name: "ivory", color: Rgb { r: 255, g: 255, b: 240 } },
        NamedColor { name: "khaki", color: Rgb { r: 240, g: 230, b: 140 } },
        NamedColor { name: "lavender", color: Rgb { r: 230, g: 230, b: 250 } },
        NamedColor { name: "lavenderblush", color: Rgb { r: 255, g: 240, b: 245 } },
        NamedColor { name: "lawngreen", color: Rgb { r: 124, g: 252, b: 0 } },
        NamedColor { name: "lemonchiffon", color: Rgb { r: 255, g: 250, b: 205 } },
        NamedColor { name: "lightblue", color: Rgb { r: 173, g: 216, b: 230 } },
        NamedColor { name: "lightcoral", color: Rgb { r: 240, g: 128, b: 128 } },
        NamedColor { name: "lightcyan", color: Rgb { r: 224, g: 255, b: 255 } },
        NamedColor { name: "lightgoldenrodyellow", color: Rgb { r: 250, g: 250, b: 210 } },
        NamedColor { name: "lightgray", color: Rgb { r: 211, g: 211, b: 211 } },
        NamedColor { name: "lightgreen", color: Rgb { r: 144, g: 238, b: 144 } },
        NamedColor { name: "lightgrey", color: Rgb { r: 211, g: 211, b: 211 } },
        NamedColor { name: "lightpink", color: Rgb { r: 255, g: 182, b: 193 } },
        NamedColor { name: "lightsalmon", color: Rgb { r: 255, g: 160, b: 122 } },
        NamedColor { name: "lightseagreen", color: Rgb { r: 32, g: 178, b: 170 } },
        NamedColor { name: "lightskyblue", color: Rgb { r: 135, g: 206, b: 250 } },
        NamedColor { name: "lightslategray", color: Rgb { r: 119, g: 136, b: 153 } },
        NamedColor { name: "lightslategrey", color: Rgb { r: 119, g: 136, b: 153 } },
        NamedColor { name: "lightsteelblue", color: Rgb { r: 176, g: 196, b: 222 } },
        NamedColor { name: "lightyellow", color: Rgb { r: 255, g: 255, b: 224 } },
        NamedColor { name: "lime", color: Rgb { r: 0, g: 255, b: 0 } },
        NamedColor { name: "limegreen", color: Rgb { r: 50, g: 205, b: 50 } },
        NamedColor { name: "linen", color: Rgb { r: 250, g: 240, b: 230 } },
        NamedColor { name: "magenta", color: Rgb { r: 255, g: 0, b: 255 } },
        NamedColor { name: "maroon", color: Rgb { r: 128, g: 0, b: 0 } },
        NamedColor { name: "mediumaquamarine", color: Rgb { r: 102, g: 205, b: 170 } },
        NamedColor { name: "mediumblue", color: Rgb { r: 0, g: 0, b: 205 } },
        NamedColor { name: "mediumorchid", color: Rgb { r: 186, g: 85, b: 211 } },
        NamedColor { name: "mediumpurple", color: Rgb { r: 147, g: 112, b: 219 } },
        NamedColor { name: "mediumseagreen", color: Rgb { r: 60, g: 179, b: 113 } },
        NamedColor { name: "mediumslateblue", color: Rgb { r: 123, g: 104, b: 238 } },
        NamedColor { name: "mediumspringgreen", color: Rgb { r: 0, g: 250, b: 154 } },
        NamedColor { name: "mediumturquoise", color: Rgb { r: 72, g: 209, b: 204 } },
        NamedColor { name: "mediumvioletred", color: Rgb { r: 199, g: 21, b: 133 } },
        NamedColor { name: "midnightblue", color: Rgb { r: 25, g: 25, b: 112 } },
        NamedColor { name: "mintcream", color: Rgb { r: 245, g: 255, b: 250 } },
        NamedColor { name: "mistyrose", color: Rgb { r: 255, g: 228, b: 225 } },
        NamedColor { name: "moccasin", color: Rgb { r: 255, g: 228, b: 181 } },
        NamedColor { name: "navajowhite", color: Rgb { r: 255, g: 222, b: 173 } },
        NamedColor { name: "navy", color: Rgb { r: 0, g: 0, b: 128 } },
        NamedColor { name: "oldlace", color: Rgb { r: 253, g: 245, b: 230 } },
        NamedColor { name: "olive", color: Rgb { r: 128, g: 128, b: 0 } },
        NamedColor { name: "olivedrab", color: Rgb { r: 107, g: 142, b: 35 } },
        NamedColor { name: "orange", color: Rgb { r: 255, g: 165, b: 0 } },
        NamedColor { name: "orangered", color: Rgb { r: 255, g: 69, b: 0 } },
        NamedColor { name: "orchid", color: Rgb { r: 218, g: 112, b: 214 } },
        NamedColor { name: "palegoldenrod", color: Rgb { r: 238, g: 232, b: 170 } },
        NamedColor { name: "palegreen", color: Rgb { r: 152, g: 251, b: 152 } },
        NamedColor { name: "paleturquoise", color: Rgb { r: 175, g: 238, b: 238 } },
        NamedColor { name: "palevioletred", color: Rgb { r: 219, g: 112, b: 147 } },
        NamedColor { name: "papayawhip", color: Rgb { r: 255, g: 239, b: 213 } },
        NamedColor { name: "peachpuff", color: Rgb { r: 255, g: 218, b: 185 } },
        NamedColor { name: "peru", color: Rgb { r: 205, g: 133, b: 63 } },
        NamedColor { name: "pink", color: Rgb { r: 255, g: 192, b: 203 } },
        NamedColor { name: "plum", color: Rgb { r: 221, g: 160, b: 221 } },
        NamedColor { name: "powderblue", color: Rgb { r: 176, g: 224, b: 230 } },
        NamedColor { name: "purple", color: Rgb { r: 128, g: 0, b: 128 } },
        NamedColor { name: "rebeccapurple", color: Rgb { r: 102, g: 51, b: 153 } },
        NamedColor { name: "red", color: Rgb { r: 255, g: 0, b: 0 } },
        NamedColor { name: "rosybrown", color: Rgb { r: 188, g: 143, b: 143 } },
        NamedColor { name: "royalblue", color: Rgb { r: 65, g: 105, b: 225 } },
        NamedColor { name: "saddlebrown", color: Rgb { r: 139, g: 69, b: 19 } },
        NamedColor { name: "salmon", color: Rgb { r: 250, g: 128, b: 114 } },
        NamedColor { name: "sandybrown", color: Rgb { r: 244, g: 164, b: 96 } },
        NamedColor { name: "seagreen", color: Rgb { r: 46, g: 139, b: 87 } },
        NamedColor { name: "seashell", color: Rgb { r: 255, g: 245, b: 238 } },
        NamedColor { name: "sienna", color: Rgb { r: 160, g: 82, b: 45 } },
        NamedColor { name: "silver", color: Rgb { r: 192, g: 192, b: 192 } },
        NamedColor { name: "skyblue", color: Rgb { r: 135, g: 206, b: 235 } },
        NamedColor { name: "slateblue", color: Rgb { r: 106, g: 90, b: 205 } },
        NamedColor { name: "slategray", color: Rgb { r: 112, g: 128, b: 144 } },
        NamedColor { name: "slategrey", color: Rgb { r: 112, g: 128, b: 144 } },
        NamedColor { name: "snow", color: Rgb { r: 255, g: 250, b: 250 } },
        NamedColor { name: "springgreen", color: Rgb { r: 0, g: 255, b: 127 } },
        NamedColor { name: "steelblue", color: Rgb { r: 70, g: 130, b: 180 } },
        NamedColor { name: "tan", color: Rgb { r: 210, g: 180, b: 140 } },
        NamedColor { name: "teal", color: Rgb { r: 0, g: 128, b: 128 } },
        NamedColor { name: "thistle", color: Rgb { r: 216, g: 191, b: 216 } },
        NamedColor { name: "tomato", color: Rgb { r: 255, g: 99, b: 71 } },
        NamedColor { name: "turquoise", color: Rgb { r: 64, g: 224, b: 208 } },
        NamedColor { name: "violet", color: Rgb { r: 238, g: 130, b: 238 } },
        NamedColor { name: "wheat", color: Rgb { r: 245, g: 222, b: 179 } },
        NamedColor { name: "white", color: Rgb { r: 255, g: 255, b: 255 } },
        NamedColor { name: "whitesmoke", color: Rgb { r: 245, g: 245, b: 245 } },
        NamedColor { name: "yellow", color: Rgb { r: 255, g: 255, b: 0 } },
        NamedColor { name: "yellowgreen", color: Rgb { r: 154, g: 205, b: 50 } },
    ]
}

/// The named colors.
pub fn named_colors() -> (v: Vec<NamedColor>)
    ensures
        v@ == named_color_list(),
{
    vec![
        NamedColor { name: "aliceblue", color: Rgb { r: 240, g: 248, b: 255 } },
        NamedColor { name: "antiquewhite", color: Rgb { r: 250, g: 235, b: 215 } },
        NamedColor { name: "aqua", color: Rgb { r: 0, g: 255, b: 255 } },
        NamedColor { name: "aquamarine", color: Rgb { r: 127, g: 255, b: 212 } },
        NamedColor { name: "azure", color: Rgb { r: 240, g: 255, b: 255 } },
        NamedColor { name: "beige", color: Rgb { r: 245, g: 245, b: 220 } },
        NamedColor { name: "bisque", color: Rgb { r: 255, g: 228, b: 196 } },
        NamedColor { name: "black", color: Rgb { r: 0, g: 0, b: 0 } },
        NamedColor { name: "blanchedalmond", color: Rgb { r: 255, g: 235, b: 205 } },
        NamedColor { name: "blue", color: Rgb { r: 0, g: 0, b: 255 } },
        NamedColor { name: "blueviolet", color: Rgb { r: 138, g: 43, b: 226 } },
        NamedColor { name: "brown", color: Rgb { r: 165, g: 42, b: 42 } },
        NamedColor { name: "burlywood", color: Rgb { r: 222, g: 184, b: 135 } },
        NamedColor { name: "cadetblue", color: Rgb { r: 95, g: 158, b: 160 } },
        NamedColor { name: "chartreuse", color: Rgb { r: 127, g: 255, b: 0 } },
        NamedColor { name: "chocolate", color: Rgb { r: 210, g: 105, b: 30 } },
        NamedColor { name: "coral", color: Rgb { r: 255, g: 127, b: 80 } },
        NamedColor { name: "cornflowerblue", color: Rgb { r: 100, g: 149, b: 237 } },
        NamedColor { name: "cornsilk", color: Rgb { r: 255, g: 248, b: 220 } },
        NamedColor { name: "crimson", color: Rgb { r: 220, g: 20, b: 60 } },
        NamedColor { name: "cyan", color: Rgb { r: 0, g: 255, b: 255 } },
        NamedColor { name: "darkblue", color: Rgb { r: 0, g: 0, b: 139 } },
        NamedColor { name: "darkcyan", color: Rgb { r: 0, g: 139, b: 139 } },
        NamedColor { name: "darkgoldenrod", color: Rgb { r: 184, g: 134, b: 11 } },
        NamedColor { name: "darkgray", color: Rgb { r: 169, g: 169, b: 169 } },
        NamedColor { name: "darkgreen", color: Rgb { r: 0, g: 100, b: 0 } },
        NamedColor { name: "darkgrey", color: Rgb { r: 169, g: 169, b: 169 } },
        NamedColor { name: "darkkhaki", color: Rgb { r: 189, g: 183, b: 107 } },
        NamedColor { name: "darkmagenta", color: Rgb { r: 139, g: 0, b: 139 } },
        NamedColor { name: "darkolivegreen", color: Rgb { r: 85, g: 107, b: 47 } },
        NamedColor { name: "darkorange", color: Rgb { r: 255, g: 140, b: 0 } },
        NamedColor { name: "darkorchid", color: Rgb { r: 153, g: 50, b: 204 } },
        NamedColor { name: "darkred", color: Rgb { r: 139, g: 0, b: 0 } },
        NamedColor { name: "darksalmon", color: Rgb { r: 233, g: 150, b: 122 } },
        NamedColor { name: "darkseagreen", color: Rgb { r: 143, g: 188, b: 143 } },
        NamedColor { name: "darkslateblue", color: Rgb { r: 72, g: 61, b: 139 } },
        NamedColor { name: "darkslategray", color: Rgb { r: 47, g: 79, b: 79 } },
        NamedColor { name: "darkslategrey", color: Rgb { r: 47, g: 79, b: 79 } },
        NamedColor { name: "darkturquoise", color: Rgb { r: 0, g: 206, b: 209 } },
        NamedColor { name: "darkviolet", color: Rgb { r: 148, g: 0, b: 211 } },
        NamedColor { name: "deeppink", color: Rgb { r: 255, g: 20, b: 147 } },
        NamedColor { name: "deepskyblue", color: Rgb { r: 0, g: 191, b: 255 } },
        NamedColor { name: "dimgray", color: Rgb { r: 105, g: 105, b: 105 } },
        NamedColor { name: "dimgrey", color: Rgb { r: 105, g: 105, b: 105 } },
        NamedColor { name: "dodgerblue", color: Rgb { r: 30, g: 144, b: 255 } },
        NamedColor { name: "firebrick", color: Rgb { r: 178, g: 34, b: 34 } },
        NamedColor { name: "floralwhite", color: Rgb { r: 255, g: 250, b: 240 } },
        NamedColor { name: "forestgreen", color: Rgb { r: 34, g: 139, b: 34 } },
        NamedColor { name: "fuchsia", color: Rgb { r: 255, g: 0, b: 255 } },
        NamedColor { name: "gainsboro", color: Rgb { r: 220, g: 220, b: 220 } },
        NamedColor { name: "ghostwhite", color: Rgb { r: 248, g: 248, b: 255 } },
        NamedColor { name: "gold", color: Rgb { r: 255, g: 215, b: 0 } },
        NamedColor { name: "goldenrod", color: Rgb { r: 218, g: 165, b: 32 } },
        NamedColor { name: "gray", color: Rgb { r: 128, g: 128, b: 128 } },
        NamedColor { name: "green", color: Rgb { r: 0, g: 128, b: 0 } },
        NamedColor { name: "greenyellow", color: Rgb { r: 173, g: 255, b: 47 } },
        NamedColor { name: "grey", color: Rgb { r: 128, g: 128, b: 128 } },
        NamedColor { name: "honeydew", color: Rgb { r: 240, g: 255, b: 240 } },
        NamedColor { name: "hotpink", color: Rgb { r: 255, g: 105, b: 180 } },
        NamedColor { name: "indianred", color: Rgb { r: 205, g: 92, b: 92 } },
        NamedColor { name: "indigo", color: Rgb { r: 75, g: 0, b: 130 } },
        NamedColor { name: "ivory", color: Rgb { r: 255, g: 255, b: 240 } },
        NamedColor { name: "khaki", color: Rgb { r: 240, g: 230, b: 140 } },
        NamedColor { name: "lavender", color: Rgb { r: 230, g: 230, b: 250 } },
        NamedColor { name: "lavenderblush", color: Rgb { r: 255, g: 240, b: 245 } },
        NamedColor { name: "lawngreen", color: Rgb { r: 124, g: 252, b: 0 } },
        NamedColor { name: "lemonchiffon", color: Rgb { r: 255, g: 250, b: 205 } },
        NamedColor { name: "lightblue", color: Rgb { r: 173, g: 216, b: 230 } },
        NamedColor { name: "lightcoral", color: Rgb { r: 240, g: 128, b: 128 } },
        NamedColor { name: "lightcyan", color: Rgb { r: 224, g: 255, b: 255 } },
        NamedColor { name: "lightgoldenrodyellow", color: Rgb { r: 250, g: 250, b: 210 } },
        NamedColor { name: "lightgray", color: Rgb { r: 211, g: 211, b: 211 } },
        NamedColor { name: "lightgreen", color: Rgb { r: 144, g: 238, b: 144 } },
        NamedColor { name: "lightgrey", color: Rgb { r: 211, g: 211, b: 211 } },
        NamedColor { name: "lightpink", color: Rgb { r: 255, g: 182, b: 193 } },
        NamedColor { name: "lightsalmon", color: Rgb { r: 255, g: 160, b: 122 } },
        NamedColor { name: "lightseagreen", color: Rgb { r: 32, g: 178, b: 170 } },
        NamedColor { name: "lightskyblue", color: Rgb { r: 135, g: 206, b: 250 } },
        NamedColor { name: "lightslategray", color: Rgb { r: 119, g: 136, b: 153 } },
        NamedColor { name: "lightslategrey", color: Rgb { r: 119, g: 136, b: 153 } },
        NamedColor { name: "lightsteelblue", color: Rgb { r: 176, g: 196, b: 222 } },
        NamedColor { name: "lightyellow", color: Rgb { r: 255, g: 255, b: 224 } },
        NamedColor { name: "lime", color: Rgb { r: 0, g: 255, b: 0 } },
        NamedColor { name: "limegreen", color: Rgb { r: 50, g: 205, b: 50 } },
        NamedColor { name: "linen", color: Rgb { r: 250, g: 240, b: 230 } },
        NamedColor { name: "magenta", color: Rgb { r: 255, g: 0, b: 255 } },
        NamedColor { name: "maroon", color: Rgb { r: 128, g: 0, b: 0 } },
        NamedColor { name: "mediumaquamarine", color: Rgb { r: 102, g: 205, b: 170 } },
        NamedColor { name: "mediumblue", color: Rgb { r: 0, g: 0, b: 205 } },
        NamedColor { name: "mediumorchid", color: Rgb { r: 186, g: 85, b: 211 } },
        NamedColor { name: "mediumpurple", color: Rgb { r: 147, g: 112, b: 219 } },
        NamedColor { name: "mediumseagreen", color: Rgb { r: 60, g: 179, b: 113 } },
        NamedColor { name: "mediumslateblue", color: Rgb { r: 123, g: 104, b: 238 } },
        NamedColor { name: "mediumspringgreen", color: Rgb { r: 0, g: 250, b: 154 } },
        NamedColor { name: "mediumturquoise", color: Rgb { r: 72, g: 209, b: 204 } },
        NamedColor { name: "mediumvioletred", color: Rgb { r: 199, g: 21, b: 133 } },
        NamedColor { name: "midnightblue", color: Rgb { r: 25, g: 25, b: 112 } },
        NamedColor { name: "mintcream", color: Rgb { r: 245, g: 255, b: 250 } },
        NamedColor { name: "mistyrose", color: Rgb { r: 255, g: 228, b: 225 } },
        NamedColor { name: "moccasin", color: Rgb { r: 255, g: 228, b: 181 } },
        NamedColor { name: "navajowhite", color: Rgb { r: 255, g: 222, b: 173 } },
        NamedColor { name: "navy", color: Rgb { r: 0, g: 0, b: 128 } },
        NamedColor { name: "oldlace", color: Rgb { r: 253, g: 245, b: 230 } },
        NamedColor { name: "olive", color: Rgb { r: 128, g: 128, b: 0 } },
        NamedColor { name: "olivedrab", color: Rgb { r: 107, g: 142, b: 35 } },
        NamedColor { name: "orange", color: Rgb { r: 255, g: 165, b: 0 } },
        NamedColor { name: "orangered", color: Rgb { r: 255, g: 69, b: 0 } },
        NamedColor { name: "orchid", color: Rgb { r: 218, g: 112, b: 214 } },
        NamedColor { name: "palegoldenrod", color: Rgb { r: 238, g: 232, b: 170 } },
        NamedColor { name: "palegreen", color: Rgb { r: 152, g: 251, b: 152 } },
        NamedColor { name: "paleturquoise", color: Rgb { r: 175, g: 238, b: 238 } },
        NamedColor { name: "palevioletred", color: Rgb { r: 219, g: 112, b: 147 } },
        NamedColor { name: "papayawhip", color: Rgb { r: 255, g: 239, b: 213 } },
        NamedColor { name: "peachpuff", color: Rgb { r: 255, g: 218, b: 185 } },
        NamedColor { name: "peru", color: Rgb { r: 205, g: 133, b: 63 } },
        NamedColor { name: "pink", color: Rgb { r: 255, g: 192, b: 203 } },
        NamedColor { name: "plum", color: Rgb { r: 221, g: 160, b: 221 } },
        NamedColor { name: "powderblue", color: Rgb { r: 176, g: 224, b: 230 } },
        NamedColor { name: "purple", color: Rgb { r: 128, g: 0, b: 128 } },
        NamedColor { name: "rebeccapurple", color: Rgb { r: 102, g: 51, b: 153 } },
        NamedColor { name: "red", color: Rgb { r: 255, g: 0, b: 0 } },
        NamedColor { name: "rosybrown", color: Rgb { r: 188, g: 143, b: 143 } },
        NamedColor { name: "royalblue", color: Rgb { r: 65, g: 105, b: 225 } },
        NamedColor { name: "saddlebrown", color: Rgb { r: 139, g: 69, b: 19 } },
        NamedColor { name: "salmon", color: Rgb { r: 250, g: 128, b: 114 } },
        NamedColor { name: "sandybrown", color: Rgb { r: 244, g: 164, b: 96 } },
        NamedColor { name: "seagreen", color: Rgb { r: 46, g: 139, b: 87 } },
        NamedColor { name: "seashell", color: Rgb { r: 255, g: 245, b: 238 } },
        NamedColor { name: "sienna", color: Rgb { r: 160, g: 82, b: 45 } },
        NamedColor { name: "silver", color: Rgb { r: 192, g: 192, b: 192 } },
        NamedColor { name: "skyblue", color: Rgb { r: 135, g: 206, b: 235 } },
        NamedColor { name: "slateblue", color: Rgb { r: 106, g: 90, b: 205 } },
        NamedColor { name: "slategray", color: Rgb { r: 112, g: 128, b: 144 } },
        NamedColor { name: "slategrey", color: Rgb { r: 112, g: 128, b: 144 } },
        NamedColor { name: "snow", color: Rgb { r: 255, g: 250, b: 250 } },
        NamedColor { name: "springgreen", color: Rgb { r: 0, g: 255, b: 127 } },
        NamedColor { name: "steelblue", color: Rgb { r: 70, g: 130, b: 180 } },
        NamedColor { name: "tan", color: Rgb { r: 210, g: 180, b: 140 } },
        NamedColor { name: "teal", color: Rgb { r: 0, g: 128, b: 128 } },
        NamedColor { name: "thistle", color: Rgb { r: 216, g: 191, b: 216 } },
        NamedColor { name: "tomato", color: Rgb { r: 255, g: 99, b: 71 } },
        NamedColor { name: "turquoise", color: Rgb { r: 64, g: 224, b: 208 } },
        NamedColor { name: "violet", color: Rgb { r: 238, g: 130, b: 238 } },
        NamedColor { name: "wheat", color: Rgb { r: 245, g: 222, b: 179 } },
        NamedColor { name: "white", color: Rgb { r: 255, g: 255, b: 255 } },
        NamedColor { name: "whitesmoke", color: Rgb { r: 245, g: 245, b: 245 } },
        NamedColor { name: "yellow", color: Rgb { r: 255, g: 255, b: 0 } },
        NamedColor { name: "yellowgreen", color: Rgb { r: 154, g: 205, b: 50 } },
    ]
}

/// The color of the first entry of `list` whose name is `name` up to ASCII
/// case.
pub open spec fn lookup_named(list: Seq<NamedColor>, name: Seq<char>) -> Option<Rgb>
    decreases list.len(),
{
    if list.len() == 0 {
        None
    } else if eq_ignore_ascii_case(name, list[0].name@) {
        Some(list[0].color)
    } else {
        lookup_named(list.drop_first(), name)
    }
}

/// The color with the given name, in any ASCII case.
pub fn find_named_color(name: &str) -> (r: Option<Rgb>)
    ensures
        r == lookup_named(named_color_list(), name@),
{
    let list = named_colors();
    let mut i: usize = 0;
    assert(list@.skip(0) =~= list@);
    while i < list.len()
        invariant
            i <= list@.len(),
            list@ == named_color_list(),
            lookup_named(named_color_list(), name@) == lookup_named(list@.skip(i as int), name@),
        decreases list.len() - i,
    {
        assert(list@.skip(i as int)[0] == list@[i as int]);
        if str_eq_ignore_ascii_case(name, list[i].name) {
            return Some(list[i].color);
        }
        assert(list@.skip(i as int).drop_first() =~= list@.skip(i + 1));
        i = i + 1;
    }
    None
}

/// The color of the first entry of `list` whose name is exactly `name`.
pub open spec fn lookup_exact(list: Seq<NamedColor>, name: Seq<char>) -> Option<Rgb>
    decreases list.len(),
{
    if list.len() == 0 {
        None
    } else if name == list[0].name@ {
        Some(list[0].color)
    } else {
        lookup_exact(list.drop_first(), name)
    }
}

/// The color whose name is exactly `name` (names are in lower case).
pub fn named_color_exact(name: &str) -> (r: Option<Rgb>)
    ensures
        r == lookup_exact(named_color_list(), name@),
{
    let list = named_colors();
    let mut i: usize = 0;
    assert(list@.skip(0) =~= list@);
    while i < list.len()
        invariant
            i <= list@.len(),
            list@ == named_color_list(),
            lookup_exact(named_color_list(), name@) == lookup_exact(list@.skip(i as int), name@),
        decreases list.len() - i,
    {
        assert(list@.skip(i as int)[0] == list@[i as int]);
        if str_eq(name, list[i].name) {
            return Some(list[i].color);
        }
        assert(list@.skip(i as int).drop_first() =~= list@.skip(i + 1));
        i = i + 1;
    }
    None
}

proof fn lemma_lookup_same_case(list: Seq<NamedColor>, a: Seq<char>, b: Seq<char>)
    requires
        eq_ignore_ascii_case(a, b),
    ensures
        lookup_named(list, a) == lookup_named(list, b),
    decreases list.len(),
{
    if list.len() > 0 {
        let n = list[0].name@;
        assert(eq_ignore_ascii_case(a, n) == eq_ignore_ascii_case(b, n)) by {
            if eq_ignore_ascii_case(a, n) {
                assert forall|i: int| 0 <= i < b.len() implies ascii_fold(b[i]) == ascii_fold(
                    n[i],
                ) by {
                    assert(ascii_fold(a[i]) == ascii_fold(b[i]));
                    assert(ascii_fold(a[i]) == ascii_fold(n[i]));
                }
            }
            if eq_ignore_ascii_case(b, n) {
                assert forall|i: int| 0 <= i < a.len() implies ascii_fold(a[i]) == ascii_fold(
                    n[i],
                ) by {
                    assert(ascii_fold(a[i]) == ascii_fold(b[i]));
                    assert(ascii_fold(b[i]) == ascii_fold(n[i]));
                }
            }
        }
        lemma_lookup_same_case(list.drop_first(), a, b);
    }
}

/// Two names that differ only in ASCII case name the same color, or both
/// none.
pub proof fn law_names_ignore_case(a: Seq<char>, b: Seq<char>)
    requires
        eq_ignore_ascii_case(a, b),
    ensures
        lookup_named(named_color_list(), a) == lookup_named(named_color_list(), b),
{
    lemma_lookup_same_case(named_color_list(), a, b);
}

} // verus!

verus! {

/// The CSS color keywords (CSS Color Module Level 4) with their values
/// written as `0xRRGGBB`, in alphabetical order.
pub open spec fn css_color_keywords() -> Seq<(Seq<char>, int)> {
    seq![
        ("aliceblue"@, 0xf0f8ff),
        ("antiquewhite"@, 0xfaebd7),
        ("aqua"@, 0x00ffff),
        ("aquamarine"@, 0x7fffd4),
        ("azure"@, 0xf0ffff),
        ("beige"@, 0xf5f5dc),
        ("bisque"@, 0xffe4c4),
        ("black"@, 0x000000),
        ("blanchedalmond"@, 0xffebcd),
        ("blue"@, 0x0000ff),
        ("blueviolet"@, 0x8a2be2),
        ("brown"@, 0xa52a2a),
        ("burlywood"@, 0xdeb887),
        ("cadetblue"@, 0x5f9ea0),
        ("chartreuse"@, 0x7fff00),
        ("chocolate"@, 0xd2691e),
        ("coral"@, 0xff7f50),
        ("cornflowerblue"@, 0x6495ed),
        ("cornsilk"@, 0xfff8dc),
        ("crimson"@, 0xdc143c),
        ("cyan"@, 0x00ffff),
        ("darkblue"@, 0x00008b),
        ("darkcyan"@, 0x008b8b),
        ("darkgoldenrod"@, 0xb8860b),
        ("darkgray"@, 0xa9a9a9),
        ("darkgreen"@, 0x006400),
        ("darkgrey"@, 0xa9a9a9),
        ("darkkhaki"@, 0xbdb76b),
        ("darkmagenta"@, 0x8b008b),
        ("darkolivegreen"@, 0x556b2f),
        ("darkorange"@, 0xff8c00),
        ("darkorchid"@, 0x9932cc),
        ("darkred"@, 0x8b0000),
        ("darksalmon"@, 0xe9967a),
        ("darkseagreen"@, 0x8fbc8f),
        ("darkslateblue"@, 0x483d8b),
        ("darkslategray"@, 0x2f4f4f),
        ("darkslategrey"@, 0x2f4f4f),
        ("darkturquoise"@, 0x00ced1),
        ("darkviolet"@, 0x9400d3),
        ("deeppink"@, 0xff1493),
        ("deepskyblue"@, 0x00bfff),
        ("dimgray"@, 0x696969),
        ("dimgrey"@, 0x696969),
        ("dodgerblue"@, 0x1e90ff),
        ("firebrick"@, 0xb22222),
        ("floralwhite"@, 0xfffaf0),
        ("forestgreen"@, 0x228b22),
        ("fuchsia"@, 0xff00ff),
        ("gainsboro"@, 0xdcdcdc),
        ("ghostwhite"@, 0xf8f8ff),
        ("gold"@, 0xffd700),
        ("goldenrod"@, 0xdaa520),
        ("gray"@, 0x808080),
        ("green"@, 0x008000),
        ("greenyellow"@, 0xadff2f),
        ("grey"@, 0x808080),
        ("honeydew"@, 0xf0fff0),
        ("hotpink"@, 0xff69b4),
        ("indianred"@, 0xcd5c5c),
        ("indigo"@, 0x4b0082),
        ("ivory"@, 0xfffff0),
        ("khaki"@, 0xf0e68c),
        ("lavender"@, 0xe6e6fa),
        ("lavenderblush"@, 0xfff0f5),
        ("lawngreen"@, 0x7cfc00),
        ("lemonchiffon"@, 0xfffacd),
        ("lightblue"@, 0xadd8e6),
        ("lightcoral"@, 0xf08080),
        ("lightcyan"@, 0xe0ffff),
        ("lightgoldenrodyellow"@, 0xfafad2),
        ("lightgray"@, 0xd3d3d3),
        ("lightgreen"@, 0x90ee90),
        ("lightgrey"@, 0xd3d3d3),
        ("lightpink"@, 0xffb6c1),
        ("lightsalmon"@, 0xffa07a),
        ("lightseagreen"@, 0x20b2aa),
        ("lightskyblue"@, 0x87cefa),
        ("lightslategray"@, 0x778899),
        ("lightslategrey"@, 0x778899),
        ("lightsteelblue"@, 0xb0c4de),
        ("lightyellow"@, 0xffffe0),
        ("lime"@, 0x00ff00),
        ("limegreen"@, 0x32cd32),
        ("linen"@, 0xfaf0e6),
        ("magenta"@, 0xff00ff),
        ("maroon"@, 0x800000),
        ("mediumaquamarine"@, 0x66cdaa),
        ("mediumblue"@, 0x0000cd),
        ("mediumorchid"@, 0xba55d3),
        ("mediumpurple"@, 0x9370db),
        ("mediumseagreen"@, 0x3cb371),
        ("mediumslateblue"@, 0x7b68ee),
        ("mediumspringgreen"@, 0x00fa9a),
        ("mediumturquoise"@, 0x48d1cc),
        ("mediumvioletred"@, 0xc71585),
        ("midnightblue"@, 0x191970),
        ("mintcream"@, 0xf5fffa),
        ("mistyrose"@, 0xffe4e1),
        ("moccasin"@, 0xffe4b5),
        ("navajowhite"@, 0xffdead),
        ("navy"@, 0x000080),
        ("oldlace"@, 0xfdf5e6),
        ("olive"@, 0x808000),
        ("olivedrab"@, 0x6b8e23),
        ("orange"@, 0xffa500),
        ("orangered"@, 0xff4500),
        ("orchid"@, 0xda70d6),
        ("palegoldenrod"@, 0xeee8aa),
        ("palegreen"@, 0x98fb98),
        ("paleturquoise"@, 0xafeeee),
        ("palevioletred"@, 0xdb7093),
        ("papayawhip"@, 0xffefd5),
        ("peachpuff"@, 0xffdab9),
        ("peru"@, 0xcd853f),
        ("pink"@, 0xffc0cb),
        ("plum"@, 0xdda0dd),
        ("powderblue"@, 0xb0e0e6),
        ("purple"@, 0x800080),
        ("rebeccapurple"@, 0x663399),
        ("red"@, 0xff0000),
        ("rosybrown"@, 0xbc8f8f),
        ("royalblue"@, 0x4169e1),
        ("saddlebrown"@, 0x8b4513),
        ("salmon"@, 0xfa8072),
        ("sandybrown"@, 0xf4a460),
        ("seagreen"@, 0x2e8b57),
        ("seashell"@, 0xfff5ee),
        ("sienna"@, 0xa0522d),
        ("silver"@, 0xc0c0c0),
        ("skyblue"@, 0x87ceeb),
        ("slateblue"@, 0x6a5acd),
        ("slategray"@, 0x708090),
        ("slategrey"@, 0x708090),
        ("snow"@, 0xfffafa),
        ("springgreen"@, 0x00ff7f),
        ("steelblue"@, 0x4682b4),
        ("tan"@, 0xd2b48c),
        ("teal"@, 0x008080),
        ("thistle"@, 0xd8bfd8),
        ("tomato"@, 0xff6347),
        ("turquoise"@, 0x40e0d0),
        ("violet"@, 0xee82ee),
        ("wheat"@, 0xf5deb3),
        ("white"@, 0xffffff),
        ("whitesmoke"@, 0xf5f5f5),
        ("yellow"@, 0xffff00),
        ("yellowgreen"@, 0x9acd32),
    ]
}

/// Every entry of the list of named colors is a CSS color keyword with its
/// CSS value, in the order of the keywords.
#[verifier::rlimit(100)]
pub proof fn law_named_colors_are_css_colors()
    ensures
        named_color_list().len() == css_color_keywords().len(),
        forall|k: int|
            0 <= k < named_color_list().len() ==> (#[trigger] named_color_list()[k]).name@
                == css_color_keywords()[k].0 && crate::rgb_u32(named_color_list()[k].color)
                == css_color_keywords()[k].1,
{
    let l = named_color_list();
    let t = css_color_keywords();
    let m = l.map_values(|nc: NamedColor| (nc.name@, crate::rgb_u32(nc.color)));
    assert(m =~= t);
    assert forall|k: int| 0 <= k < l.len() implies (#[trigger] l[k]).name@ == t[k].0
        && crate::rgb_u32(l[k].color) == t[k].1 by {
        assert(m[k] == t[k]);
    }
}

} // verus!
