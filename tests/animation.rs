use textyle::animation::{
    frame_action,
    quit_requested,
    AnimationBuffer,
    AnimationCommand,
    AnimationRunConfig,
    FrameAction,
    InputEvent,
};
use textyle::layout::geometry::Matrix;
use textyle::layout::Layout;

#[test]
fn frame_actions() {
    assert_eq!(frame_action(InputEvent::Escape), FrameAction::Stop);
    assert_eq!(frame_action(InputEvent::Interrupt), FrameAction::Stop);
    assert_eq!(frame_action(InputEvent::Resize(80, 24)), FrameAction::Resize(80, 24));
    assert_eq!(frame_action(InputEvent::Key), FrameAction::Forward);
    assert_eq!(frame_action(InputEvent::Other), FrameAction::Ignore);
}

#[test]
fn quit_is_found_among_commands() {
    assert!(!quit_requested(&[]));
    assert!(quit_requested(&[AnimationCommand::Quit]));
}

#[test]
fn run_config_defaults_to_main_buffer() {
    assert_eq!(AnimationBuffer::default(), AnimationBuffer::Main);
    assert_eq!(AnimationRunConfig::default().buffer_type, AnimationBuffer::Main);
}

#[test]
fn grid_has_one_row_per_matrix_row() {
    let m = Matrix::with_rows(&[1, 2, 3, 4, 5, 6], 3);
    let grid = Layout::grid(&m, 1, |n: &i32| Layout::text(&n.to_string()));
    match grid {
        Layout::VerticalStack(_, spacing, rows) => {
            assert_eq!(spacing, 1);
            assert_eq!(rows.len(), 3);
            match &rows[2] {
                Layout::HorizontalStack(_, _, cells) => assert_eq!(cells.len(), 2),
                _ => panic!("rows are horizontal stacks"),
            }
        },
        _ => panic!("a grid is a vertical stack"),
    }
}
