use pastel::canvas::{Canvas, Pixel};
use pastel::distinct::rearrange_order;
use pastel::Rgb;

#[test]
fn canvas_render() {
    let mut canvas = Canvas::new(2, 3);
    canvas.draw_text(0, 1, "abc");
    canvas.draw_rect(1, 0, 1, 2, Rgb { r: 1, g: 2, b: 3 });
    let out = canvas.render();
    assert_eq!(
        "  abc \n\x1b[48;2;1;2;3m  \x1b[0m\x1b[48;2;1;2;3m  \x1b[0m  \n",
        out
    );
    let _ = Pixel::Empty;
}

#[test]
fn canvas_checkerboard() {
    let mut canvas = Canvas::new(2, 2);
    let dark = Rgb { r: 0, g: 0, b: 0 };
    let light = Rgb { r: 9, g: 9, b: 9 };
    canvas.draw_checkerboard(0, 0, 2, 2, dark, light);
    let d = "\x1b[48;2;0;0;0m  \x1b[0m";
    let l = "\x1b[48;2;9;9;9m  \x1b[0m";
    assert_eq!(format!("{d}{l}\n{l}{d}\n"), canvas.render());
}

#[test]
fn farthest_first_order() {
    // points on a line at 0, 1, 2, 3, 10
    let pos = [0i32, 1, 2, 3, 10];
    let dist: Vec<Vec<i32>> = pos
        .iter()
        .map(|a| pos.iter().map(|b| (a - b).abs()).collect())
        .collect();
    assert_eq!(vec![0, 4, 3, 2, 1], rearrange_order(&dist));
    assert_eq!(Vec::<usize>::new(), rearrange_order(&vec![]));
}
