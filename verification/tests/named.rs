use pastel::named::{find_named_color, named_colors};
use pastel::Rgb;

#[test]
fn named_colors_are_sorted_lower_case_names() {
    let list = named_colors();
    assert_eq!(148, list.len());
    for pair in list.windows(2) {
        assert!(pair[0].name < pair[1].name);
    }
    for nc in &list {
        assert!(nc.name.chars().all(|c| c.is_ascii_lowercase()));
    }
}

#[test]
fn lookup_ignores_ascii_case() {
    assert_eq!(Some(Rgb { r: 0, g: 128, b: 128 }), find_named_color("teal"));
    assert_eq!(Some(Rgb { r: 255, g: 105, b: 180 }), find_named_color("HotPink"));
    assert_eq!(Some(Rgb { r: 128, g: 128, b: 128 }), find_named_color("GRAY"));
    assert_eq!(Some(Rgb { r: 102, g: 51, b: 153 }), find_named_color("rebeccapurple"));
    assert_eq!(None, find_named_color("whatever"));
    assert_eq!(None, find_named_color(""));
    assert_eq!(None, find_named_color("red "));
}
