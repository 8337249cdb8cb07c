//! Keyboard and mouse input, and what the render loop does with it.
use vstd::prelude::*;

verus! {

/// A key, as the render loop distinguishes keys.
#[derive(Clone, Copy, Debug, PartialEq, Eq)]
pub enum Key {
    /// A character key.
    Char(char),
    /// Arrow up.
    Up,
    /// Arrow down.
    Down,
    /// Arrow left.
    Left,
    /// Arrow right.
    Right,
    /// Escape.
    Esc,
    /// Any other key.
    Other,
}

/// Input events that the render loop cares about.
#[derive(Clone, Copy, Debug, PartialEq, Eq)]
pub enum InputEvent {
    /// A key press.
    Key(Key),
    /// Mouse wheel up.
    ScrollUp,
    /// Mouse wheel down.
    ScrollDown,
    /// An interrupt request (Ctrl-C).
    Quit,
}

/// What the render loop does in response to an event.
#[derive(Clone, Copy, Debug, PartialEq, Eq)]
pub enum Command {
    /// Leave the render loop.
    Quit,
    /// Raise the viewing altitude.
    RotateUp,
    /// Lower the viewing altitude.
    RotateDown,
    /// Increase the azimuth.
    RotateLeft,
    /// Decrease the azimuth.
    RotateRight,
    /// Zoom in, up to the maximum zoom.
    ZoomIn,
    /// Zoom out, down to the minimum zoom.
    ZoomOut,
    /// Switch color output on or off.
    ToggleColor,
    /// Nothing.
    Ignore,
}

/// The control scheme: arrows or `hjkl` rotate, `+`/`=`/wheel-up zoom in,
/// `-`/wheel-down zoom out, `c` toggles color, and `q`, Esc or Ctrl-C quit.
pub open spec fn command_spec(event: InputEvent) -> Command {
    match event {
        InputEvent::Quit => Command::Quit,
        InputEvent::ScrollUp => Command::ZoomIn,
        InputEvent::ScrollDown => Command::ZoomOut,
        InputEvent::Key(k) => match k {
            Key::Esc => Command::Quit,
            Key::Up => Command::RotateUp,
            Key::Down => Command::RotateDown,
            Key::Left => Command::RotateLeft,
            Key::Right => Command::RotateRight,
            Key::Char(c) => if c == 'q' {
                Command::Quit
            } else if c == 'k' {
                Command::RotateUp
            } else if c == 'j' {
                Command::RotateDown
            } else if c == 'h' {
                Command::RotateLeft
            } else if c == 'l' {
                Command::RotateRight
            } else if c == '+' || c == '=' {
                Command::ZoomIn
            } else if c == '-' {
                Command::ZoomOut
            } else if c == 'c' {
                Command::ToggleColor
            } else {
                Command::Ignore
            },
            Key::Other => Command::Ignore,
        },
    }
}

/// The render loop's response to one input event.
pub fn command_for(event: InputEvent) -> (r: Command)
    ensures
        r == command_spec(event),
{
    match event {
        InputEvent::Quit => Command::Quit,
        InputEvent::ScrollUp => Command::ZoomIn,
        InputEvent::ScrollDown => Command::ZoomOut,
        InputEvent::Key(k) => match k {
            Key::Esc => Command::Quit,
            Key::Up => Command::RotateUp,
            Key::Down => Command::RotateDown,
            Key::Left => Command::RotateLeft,
            Key::Right => Command::RotateRight,
            Key::Char(c) => {
                if c == 'q' {
                    Command::Quit
                } else if c == 'k' {
                    Command::RotateUp
                } else if c == 'j' {
                    Command::RotateDown
                } else if c == 'h' {
                    Command::RotateLeft
                } else if c == 'l' {
                    Command::RotateRight
                } else if c == '+' || c == '=' {
                    Command::ZoomIn
                } else if c == '-' {
                    Command::ZoomOut
                } else if c == 'c' {
                    Command::ToggleColor
                } else {
                    Command::Ignore
                }
            },
            Key::Other => Command::Ignore,
        },
    }
}

/// The commands for a batch of drained events, in order, and whether any of
/// them quits. The loop still applies every command of the batch; it stops
/// before rendering when the batch quits.
pub fn commands_for(events: &[InputEvent]) -> (r: (Vec<Command>, bool))
    ensures
        r.0@ == events@.map_values(|e: InputEvent| command_spec(e)),
        r.1 == (exists|i: int| 0 <= i < events@.len() && command_spec(#[trigger] events@[i]) == Command::Quit),
{
    let mut out: Vec<Command> = Vec::new();
    let mut quit = false;
    let n = events.len();
    let mut i: usize = 0;
    while i < n
        invariant
            i <= n,
            n == events@.len(),
            out@ == events@.take(i as int).map_values(|e: InputEvent| command_spec(e)),
            quit == (exists|j: int| 0 <= j < i && command_spec(#[trigger] events@[j]) == Command::Quit),
        decreases n - i,
    {
        let c = command_for(events[i]);
        if let Command::Quit = c {
            quit = true;
        }
        out.push(c);
        i = i + 1;
        assert(out@ =~= events@.take(i as int).map_values(|e: InputEvent| command_spec(e)));
    }
    assert(events@.take(n as int) =~= events@);
    (out, quit)
}

} // verus!
