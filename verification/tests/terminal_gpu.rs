use a3d::gpu::{gpu_frame_dimensions, pipeline_extent};
use a3d::terminal::input::commands_for;
use a3d::terminal::{command_for, Command, InputEvent, Key};

#[test]
fn control_scheme() {
    assert_eq!(command_for(InputEvent::Key(Key::Char('q'))), Command::Quit);
    assert_eq!(command_for(InputEvent::Key(Key::Esc)), Command::Quit);
    assert_eq!(command_for(InputEvent::Quit), Command::Quit);
    assert_eq!(command_for(InputEvent::Key(Key::Up)), Command::RotateUp);
    assert_eq!(command_for(InputEvent::Key(Key::Char('k'))), Command::RotateUp);
    assert_eq!(command_for(InputEvent::Key(Key::Down)), Command::RotateDown);
    assert_eq!(command_for(InputEvent::Key(Key::Char('j'))), Command::RotateDown);
    assert_eq!(command_for(InputEvent::Key(Key::Left)), Command::RotateLeft);
    assert_eq!(command_for(InputEvent::Key(Key::Char('h'))), Command::RotateLeft);
    assert_eq!(command_for(InputEvent::Key(Key::Right)), Command::RotateRight);
    assert_eq!(command_for(InputEvent::Key(Key::Char('l'))), Command::RotateRight);
    assert_eq!(command_for(InputEvent::Key(Key::Char('+'))), Command::ZoomIn);
    assert_eq!(command_for(InputEvent::Key(Key::Char('='))), Command::ZoomIn);
    assert_eq!(command_for(InputEvent::ScrollUp), Command::ZoomIn);
    assert_eq!(command_for(InputEvent::Key(Key::Char('-'))), Command::ZoomOut);
    assert_eq!(command_for(InputEvent::ScrollDown), Command::ZoomOut);
    assert_eq!(command_for(InputEvent::Key(Key::Char('c'))), Command::ToggleColor);
    assert_eq!(command_for(InputEvent::Key(Key::Char('x'))), Command::Ignore);
    assert_eq!(command_for(InputEvent::Key(Key::Other)), Command::Ignore);
}

#[test]
fn a_batch_with_quit_still_applies_every_command() {
    let events = [
        InputEvent::Key(Key::Char('c')),
        InputEvent::Key(Key::Char('q')),
        InputEvent::ScrollUp,
    ];
    let (commands, quit) = commands_for(&events);
    assert!(quit);
    assert_eq!(commands, vec![Command::ToggleColor, Command::Quit, Command::ZoomIn]);
    let (commands, quit) = commands_for(&[InputEvent::ScrollDown]);
    assert!(!quit);
    assert_eq!(commands, vec![Command::ZoomOut]);
}

#[test]
fn gpu_buffers_are_never_empty() {
    assert_eq!(pipeline_extent(0, 0), (1, 1));
    assert_eq!(pipeline_extent(80, 24), (80, 24));
}

#[test]
fn gpu_frame_checks() {
    assert_eq!(gpu_frame_dimensions(80, 24, (80, 24)), Ok(Some((80, 24))));
    assert_eq!(gpu_frame_dimensions(0, 24, (80, 24)), Ok(None));
    assert_eq!(
        gpu_frame_dimensions(40, 12, (80, 24)).unwrap_err(),
        "GPU pipeline is 80x24 but framebuffer is 40x12; call RasterPipeline::resize first"
    );
    if usize::BITS > 32 {
        assert_eq!(
            gpu_frame_dimensions(u32::MAX as usize + 1, 1, (1, 1)).unwrap_err(),
            "framebuffer width exceeds the GPU u32 limit"
        );
        assert_eq!(
            gpu_frame_dimensions(1, u32::MAX as usize + 1, (1, 1)).unwrap_err(),
            "framebuffer height exceeds the GPU u32 limit"
        );
    }
}
