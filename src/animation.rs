use vstd::prelude::*;

verus! {

/// State an animated application keeps between frames.
pub trait AnimationState: Clone {

}

impl<T: Clone> AnimationState for T {

}

/// A request an application makes of the frame loop.
#[derive(Clone, Copy, Debug, PartialEq, Eq)]
pub enum AnimationCommand {
    /// Stop the loop after this frame.
    Quit,
}

/// The screen buffer the frame loop draws on.
#[derive(Clone, Copy, Debug, PartialEq, Eq)]
pub enum AnimationBuffer {
    Main,
    Alternate,
}

impl Default for AnimationBuffer {
    fn default() -> (r: Self)
        ensures
            r == AnimationBuffer::Main,
    {
        AnimationBuffer::Main
    }
}

/// How the frame loop runs.
#[derive(Clone, Copy, Debug, PartialEq, Eq)]
pub struct AnimationRunConfig {
    pub buffer_type: AnimationBuffer,
}

impl Default for AnimationRunConfig {
    fn default() -> (r: Self)
        ensures
            r.buffer_type == AnimationBuffer::Main,
    {
        AnimationRunConfig { buffer_type: AnimationBuffer::Main }
    }
}

/// An input the frame loop read from the terminal, as the loop tells it apart.
#[derive(Clone, Copy, Debug, PartialEq, Eq)]
pub enum InputEvent {
    /// The escape key.
    Escape,
    /// Control and `c`.
    Interrupt,
    /// The terminal now has this many columns and rows.
    Resize(usize, usize),
    /// Any other key.
    Key,
    /// Anything else.
    Other,
}

/// What the frame loop does about an input.
#[derive(Clone, Copy, Debug, PartialEq, Eq)]
pub enum FrameAction {
    /// Leave the loop.
    Stop,
    /// Draw on a canvas of this many columns and rows from now on, and tell
    /// the application.
    Resize(usize, usize),
    /// Hand the input to the application.
    Forward,
    /// Drop the input.
    Ignore,
}

/// The frame loop's answer to an input: escape and interrupt stop it, a
/// resize changes its canvas, keys go to the application.
pub fn frame_action(event: InputEvent) -> (r: FrameAction)
    ensures
        r == match event {
            InputEvent::Escape => FrameAction::Stop,
            InputEvent::Interrupt => FrameAction::Stop,
            InputEvent::Resize(w, h) => FrameAction::Resize(w, h),
            InputEvent::Key => FrameAction::Forward,
            InputEvent::Other => FrameAction::Ignore,
        },
{
    match event {
        InputEvent::Escape => FrameAction::Stop,
        InputEvent::Interrupt => FrameAction::Stop,
        InputEvent::Resize(w, h) => FrameAction::Resize(w, h),
        InputEvent::Key => FrameAction::Forward,
        InputEvent::Other => FrameAction::Ignore,
    }
}

/// Whether the application asked the loop to stop.
pub fn quit_requested(commands: &[AnimationCommand]) -> (r: bool)
    ensures
        r == exists|i: int| 0 <= i < commands@.len() && commands@[i] == AnimationCommand::Quit,
{
    let mut i: usize = 0;
    while i < commands.len()
        invariant
            i <= commands@.len(),
            forall|j: int| 0 <= j < i ==> commands@[j] != AnimationCommand::Quit,
        decreases commands@.len() - i,
    {
        match commands[i] {
            AnimationCommand::Quit => {
                proof {
                    assert(commands@[i as int] == AnimationCommand::Quit);
                }
                return true;
            },
        }
    }
    false
}

} // verus!
