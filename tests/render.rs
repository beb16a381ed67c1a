use textyle::canvas::{SizeMismatch, TextCanvas};
use textyle::layout::alignment::{Edge, HorizontalAlignment};
use textyle::layout::geometry::{Rect, Size};
use textyle::layout::sizing::{ItemSizing, Sizing};
use textyle::layout::Layout;
use textyle::rendering::DrawCommand;
use textyle::text::measure_text;

fn rows(c: &TextCanvas) -> Vec<String> {
    c.to_text().split('\n').map(|s| s.to_string()).collect()
}

fn cell(c: &TextCanvas, x: usize, y: usize) -> String {
    c.get_at(x, y).unwrap().to_string()
}

#[test]
fn framed_centered_text_in_ten_by_five() {
    let layout = Layout::text("Hi").center().padding(2).background('.').border(1, '#', Edge::all());
    let mut canvas = TextCanvas::create(10, 5);
    assert_eq!(canvas.render_layout(&layout, &()), Ok(()));
    let r = rows(&canvas);
    assert_eq!(r[0], "##########");
    for y in 0..5 {
        assert_eq!(cell(&canvas, 0, y), "#");
        assert_eq!(cell(&canvas, 9, y), "#");
    }
    for y in 1..5 {
        for x in 1..9 {
            let c = cell(&canvas, x, y);
            assert!(c == "." || c == "H" || c == "i");
        }
    }
    assert_eq!(r[3], "#...Hi...#");
}

#[test]
fn vertical_stack_gives_greedy_child_the_rest() {
    let stack = Layout::VerticalStack(
        HorizontalAlignment::Left,
        1,
        vec![
            Layout::text("x").height(2),
            Layout::text("").center_vertically().background('*'),
            Layout::text("y").height(2),
        ],
    );
    let bounds = Rect::sized(10, 10);
    let sized = stack.resolve_size(&bounds, &());
    assert_eq!(sized.sizing, ItemSizing::new(Sizing::Static(1), Sizing::Greedy(6)));
    let root = sized.sizing.fit_into(&bounds);
    assert_eq!(root, Rect::new(0, 0, 1, 10));
    let commands = sized.resolve_draw_commands(&root, &());
    assert_eq!(commands.len(), 4);
    match &commands[1] {
        DrawCommand::FillRect(r, g) => {
            assert_eq!(g, "*");
            assert_eq!((r.y, r.height), (3, 4));
        },
        _ => panic!("the middle child draws its background first"),
    }
    match &commands[3] {
        DrawCommand::Text(r, t) => {
            assert_eq!(t, "y");
            assert_eq!((r.y, r.height), (8, 1));
        },
        _ => panic!("the last child draws its text"),
    }
}

#[test]
fn paste_of_wrong_size_is_rejected() {
    let mut target = TextCanvas::create(2, 2);
    let other = TextCanvas::create(3, 1);
    let r = target.paste_canvas(&other, &Rect::new(0, 0, 2, 2));
    assert_eq!(
        r,
        Err(SizeMismatch { expected: Size::new(2, 2), found: Size::new(3, 1) })
    );
    assert_eq!(target.to_text(), "  \n  ");
}

#[test]
fn paste_copies_into_place_and_clips() {
    let mut target = TextCanvas::create(3, 3);
    target.clear_with(".");
    let mut other = TextCanvas::create(2, 2);
    other.write("a", 0, 0);
    other.write("b", 1, 0);
    other.write("c", 0, 1);
    other.write("d", 1, 1);
    assert_eq!(target.paste_canvas(&other, &Rect::new(2, -1, 2, 2)), Ok(()));
    assert_eq!(rows(&target), vec!["..c", "...", "..."]);
}

#[test]
fn blank_text_leaves_background() {
    let mut canvas = TextCanvas::create(3, 1);
    canvas.clear_with(".");
    canvas.draw_text(&Rect::new(0, 0, 3, 1), "a b");
    assert_eq!(canvas.to_text(), "a.b");
}

#[test]
fn text_wraps_and_breaks_lines() {
    let mut canvas = TextCanvas::create(3, 3);
    canvas.draw_text(&Rect::new(0, 0, 2, 3), "abc\nd");
    assert_eq!(rows(&canvas), vec!["ab ", "c  ", "d  "]);
    let mut exact = TextCanvas::create(2, 2);
    exact.draw_text(&Rect::new(0, 0, 2, 2), "ab\ncd");
    assert_eq!(rows(&exact), vec!["ab", "cd"]);
}

#[test]
fn resolving_twice_gives_the_same_picture() {
    let layout = Layout::horizontal_stack(vec![
        Layout::text("left").padding(1).border(1, '|', Edge::horizontal()),
        Layout::text("right").align_right(),
    ])
    .background('~');
    let mut a = TextCanvas::create(20, 4);
    let mut b = TextCanvas::create(20, 4);
    assert_eq!(a.render_layout(&layout, &()), Ok(()));
    assert_eq!(b.render_layout(&layout, &()), Ok(()));
    assert_eq!(a.to_text(), b.to_text());
    let bounds = Rect::sized(20, 4);
    assert_eq!(
        layout.resolve_size(&bounds, &()).sizing,
        layout.resolve_size(&bounds, &()).sizing
    );
}

#[test]
fn padding_fits_or_shrinks_its_child() {
    let wide = Layout::text("abcd").padding_left(3);
    let fits = wide.resolve_size(&Rect::sized(10, 5), &());
    assert_eq!(fits.sizing, ItemSizing::new(Sizing::Static(7), Sizing::Static(1)));
    let shrunk = wide.resolve_size(&Rect::sized(5, 5), &());
    assert_eq!(shrunk.sizing, ItemSizing::new(Sizing::Static(5), Sizing::Static(2)));
    let mut canvas = TextCanvas::create(5, 2);
    assert_eq!(canvas.render_layout(&wide, &()), Ok(()));
    assert_eq!(rows(&canvas), vec!["   ab", "   cd"]);
}

#[test]
fn text_is_measured_in_graphemes() {
    assert_eq!(measure_text("e\u{301}x", 10), (2, 1));
    assert_eq!(measure_text("hello\nworld!", 4), (4, 4));
    assert_eq!(measure_text("ab\n", 10), (2, 1));
    assert_eq!(measure_text("\n", 10), (0, 1));
    assert_eq!(measure_text("", 10), (0, 0));
    assert_eq!(measure_text("ab", 0), (0, usize::MAX));
}

#[test]
fn canvas_basics() {
    let mut c = TextCanvas::create(3, 2);
    assert_eq!(c.size(), Size::new(3, 2));
    assert_eq!(c.get_at(3, 0), None);
    c.write("x", 2, 1);
    c.write("y", 5, 5);
    assert_eq!(c.to_text(), "   \n  x");
    c.draw_rect(&Rect::new(-1, -1, 2, 2), "#");
    assert_eq!(c.to_text(), "#  \n  x");
    c.clear_with("o");
    assert_eq!(c.to_text(), "ooo\nooo");
    let empty = TextCanvas::new();
    assert_eq!(empty.size(), Size::zero());
    assert_eq!(empty.to_text(), "");
    let sized = TextCanvas::create_in_bounds(&Size::new(2, 1));
    assert_eq!(sized.to_text(), "  ");
}

#[test]
fn stroke_draws_a_frame() {
    let mut c = TextCanvas::create(4, 3);
    c.stroke_rect(&Rect::new(0, 0, 4, 3), 1, "*");
    assert_eq!(rows(&c), vec!["****", "*  *", "****"]);
}

#[test]
fn execute_stops_at_a_mismatched_paste() {
    let mut c = TextCanvas::create(2, 1);
    let commands = vec![
        DrawCommand::FillRect(Rect::new(0, 0, 1, 1), "a".to_string()),
        DrawCommand::Paste(Rect::new(0, 0, 2, 1), TextCanvas::create(1, 1)),
        DrawCommand::FillRect(Rect::new(1, 0, 1, 1), "b".to_string()),
    ];
    let r = c.execute_draw_commands(&commands);
    assert_eq!(r, Err(SizeMismatch { expected: Size::new(2, 1), found: Size::new(1, 1) }));
    assert_eq!(c.to_text(), "a ");
}

#[test]
fn border_draws_after_content() {
    let layout = Layout::text("abc").border(1, '+', Edge::vertical());
    let sized = layout.resolve_size(&Rect::sized(5, 5), &());
    assert_eq!(sized.sizing, ItemSizing::new(Sizing::Static(3), Sizing::Static(3)));
    let root = sized.sizing.fit_into(&Rect::sized(5, 5));
    let commands = sized.resolve_draw_commands(&root, &());
    assert_eq!(commands.len(), 3);
    match &commands[0] {
        DrawCommand::Text(r, t) => {
            assert_eq!(t, "abc");
            assert_eq!(*r, Rect::new(0, 1, 3, 1));
        },
        _ => panic!("content comes first"),
    }
    match (&commands[1], &commands[2]) {
        (DrawCommand::FillRect(top, _), DrawCommand::FillRect(bottom, _)) => {
            assert_eq!(*top, Rect::new(0, 0, 3, 1));
            assert_eq!(*bottom, Rect::new(0, 2, 3, 1));
        },
        _ => panic!("then the strips"),
    }
}

#[test]
fn context_nodes_of_the_unit_context_paint_blank() {
    let layout = Layout::DrawCanvas(0).width(2).height(1).align_left().background('-');
    let mut canvas = TextCanvas::create(3, 1);
    assert_eq!(canvas.render_layout(&layout, &()), Ok(()));
    assert_eq!(canvas.to_text(), "  -");
    let nested = Layout::WithContext(7).width(1).height(1);
    let sized = nested.resolve_size(&Rect::sized(3, 1), &());
    assert_eq!(sized.sizing, ItemSizing::new(Sizing::Static(1), Sizing::Static(1)));
}

#[test]
fn stack_centers_children_across() {
    let stack = Layout::vertical_stack(vec![Layout::text("a"), Layout::text("bbb")]);
    let mut canvas = TextCanvas::create(3, 2);
    assert_eq!(canvas.render_layout(&stack, &()), Ok(()));
    assert_eq!(rows(&canvas), vec![" a ", "bbb"]);
}

#[test]
fn alignment_wrappers_place_their_child() {
    let right = Layout::text("ab").align_right();
    let mut canvas = TextCanvas::create(5, 1);
    assert_eq!(canvas.render_layout(&right, &()), Ok(()));
    assert_eq!(canvas.to_text(), "   ab");
    let bottom = Layout::text("z").align_bottom();
    let mut tall = TextCanvas::create(1, 3);
    assert_eq!(tall.render_layout(&bottom, &()), Ok(()));
    assert_eq!(tall.to_text(), " \n \nz");
}

#[test]
fn carriage_return_line_feed_breaks_a_line() {
    assert_eq!(measure_text("a\r\nbc", 10), (2, 2));
    let mut canvas = TextCanvas::create(2, 2);
    canvas.draw_text(&Rect::new(0, 0, 2, 2), "a\r\nbc");
    assert_eq!(rows(&canvas), vec!["a ", "bc"]);
}

#[test]
fn horizontal_stack_spaces_its_children() {
    let stack = Layout::HorizontalStack(
        textyle::layout::alignment::VerticalAlignment::Top,
        2,
        vec![Layout::text("a"), Layout::text("bb\nc")],
    );
    let mut canvas = TextCanvas::create(5, 2);
    assert_eq!(canvas.render_layout(&stack, &()), Ok(()));
    assert_eq!(rows(&canvas), vec!["a  bb", "   c "]);
}
