use unemups4::gpu::display::{
    drain_commands_no_backend, on_key, on_redraw, pace_flip, DisplayLoop, FpsCounter, GpuCommand,
    KeyCode, LoopAction, Redraw, SnapshotRequest, FRAME_DURATION_NS, TITLE_INTERVAL_NS,
};
use unemups4::gpu::gamepad::{apply_dirs, button_mask, AxisSide, Button, Gamepad, PadEvent};
use unemups4::gpu::manager::GpuManager;
use unemups4::gpu::pad::{
    PadState, PAD_BUTTON_CROSS, PAD_BUTTON_DOWN, PAD_BUTTON_LEFT, PAD_BUTTON_RIGHT, PAD_BUTTON_UP,
};
use unemups4::gpu::vk::{RES_H, RES_W};

#[test]
fn drain_commands_no_backend_answers_blocking_signals() {
    let flip = 1u64;
    let cmd = 2u64;
    let queue = vec![
        GpuCommand::SubmitFlip { handle: 0, index: 0, signal: flip },
        GpuCommand::RunCommandList { cmds: Vec::new(), signal: cmd },
        GpuCommand::RegisterBuffer {
            ptr: 0x1000,
            width: RES_W,
            height: RES_H,
            pixel_format: 0,
            handle: 0,
            index: 0,
        },
    ];
    let answered = drain_commands_no_backend(queue);
    assert!(answered.contains(&flip), "SubmitFlip reply not signalled");
    assert!(answered.contains(&cmd), "RunCommandList reply not signalled");
    assert_eq!(answered.len(), 2);
}

#[test]
fn stick_recenter_keeps_held_dpad_direction() {
    let mut input = PadState::new();
    let dpad_dirs = PAD_BUTTON_RIGHT;
    let stick_dirs = 0;
    apply_dirs(&mut input, dpad_dirs, stick_dirs);
    assert_eq!(input.buttons & PAD_BUTTON_RIGHT, PAD_BUTTON_RIGHT);
}

#[test]
fn dpad_and_stick_or_together() {
    let mut input = PadState::new();
    apply_dirs(&mut input, PAD_BUTTON_LEFT, PAD_BUTTON_LEFT);
    assert_eq!(input.buttons & PAD_BUTTON_LEFT, PAD_BUTTON_LEFT);
    apply_dirs(&mut input, PAD_BUTTON_LEFT, 0);
    assert_eq!(input.buttons & PAD_BUTTON_LEFT, PAD_BUTTON_LEFT);
    apply_dirs(&mut input, 0, 0);
    assert_eq!(input.buttons & PAD_BUTTON_LEFT, 0);
}

#[test]
fn register_both_buffers_maps_each_index() {
    let mut gpu = GpuManager::new();
    gpu.register_buffer(0x981670000, 1920, 1080, 0x8000_0000, 0, 0);
    gpu.register_buffer(0x982c48000, 1920, 1080, 0x8000_0000, 0, 1);

    let src = gpu.display_buffer_source();
    assert_eq!(src.lookup(0x981670000).expect("index 0").base, 0x981670000);
    assert_eq!(src.lookup(0x982c48000).expect("index 1").base, 0x982c48000);

    let map = &gpu.display_buffers.buffers;
    assert_eq!(map.get(&(0, 0)).unwrap().base, 0x981670000);
    assert_eq!(map.get(&(0, 1)).unwrap().base, 0x982c48000);
    assert_eq!(map.get(&(0, 1)).unwrap().width, 1920);
}

#[test]
fn registering_is_also_a_command() {
    let mut gpu = GpuManager::new();
    match gpu.register_buffer(0x1000, 64, 32, 7, 2, 3) {
        GpuCommand::RegisterBuffer { ptr, width, height, pixel_format, handle, index } => {
            assert_eq!((ptr, width, height, pixel_format, handle, index), (0x1000, 64, 32, 7, 2, 3));
        }
        _ => panic!("a registration is forwarded as one"),
    }
    assert!(gpu.display_buffer_source().lookup(0x2000).is_none());
}

#[test]
fn flips_are_paced_to_the_frame() {
    let early = pace_flip(1_000_000_000, 1_000_000_000 + 6_666_000);
    assert_eq!(early.sleep_ns, FRAME_DURATION_NS - 6_666_000);
    let late = pace_flip(1_000_000_000, 1_000_000_000 + 10 * FRAME_DURATION_NS);
    assert_eq!(late.sleep_ns, 0);
}

#[test]
fn a_window_without_area_is_only_signalled() {
    assert!(matches!(on_redraw(0, 10), Redraw::SignalOnly));
    assert!(matches!(on_redraw(10, 0), Redraw::SignalOnly));
    assert!(matches!(on_redraw(1, 1), Redraw::Present));
}

#[test]
fn frames_are_counted_by_the_second() {
    let mut fps = FpsCounter { frames: 0, since_ns: 0 };
    for k in 1..60u64 {
        assert_eq!(fps.frame_shown(k * 1_000_000), None);
    }
    assert_eq!(fps.frame_shown(TITLE_INTERVAL_NS), Some(60));
    assert_eq!(fps.frame_shown(TITLE_INTERVAL_NS + 1), None);
}

#[test]
fn keys_are_buttons() {
    let mut input = PadState::new();
    assert!(on_key(&mut input, KeyCode::ArrowUp, true, false).is_none());
    assert_eq!(input.buttons & PAD_BUTTON_UP, PAD_BUTTON_UP);
    assert!(on_key(&mut input, KeyCode::ArrowUp, false, false).is_none());
    assert_eq!(input.buttons, 0);
    assert!(matches!(
        on_key(&mut input, KeyCode::F10, true, false),
        Some(SnapshotRequest::One)
    ));
    assert!(matches!(
        on_key(&mut input, KeyCode::F9, true, false),
        Some(SnapshotRequest::Burst)
    ));
    assert!(on_key(&mut input, KeyCode::F9, true, true).is_none());
}

#[test]
fn a_flip_asks_for_a_redraw() {
    let mut state = DisplayLoop { last_flip_ns: 0, needs_redraw: false };
    let flip = GpuCommand::SubmitFlip { handle: 0, index: 0, signal: 5 };
    match state.on_command(&flip, 100) {
        LoopAction::Flip { sleep_ns } => assert_eq!(sleep_ns, FRAME_DURATION_NS - 100),
        _ => panic!("a flip is paced"),
    }
    assert!(state.take_redraw());
    assert!(!state.take_redraw());
}

#[test]
fn a_pad_event_sets_and_releases() {
    let mut pad = Gamepad::new();
    let mut input = PadState::new();
    pad.handle(&mut input, PadEvent::Pressed(Button::South));
    assert_eq!(input.buttons, PAD_BUTTON_CROSS);
    pad.handle(&mut input, PadEvent::Pressed(Button::DPadRight));
    pad.handle(&mut input, PadEvent::LeftStickX(AxisSide::High));
    pad.handle(&mut input, PadEvent::LeftStickX(AxisSide::Center));
    assert_eq!(input.buttons, PAD_BUTTON_CROSS | PAD_BUTTON_RIGHT);
    pad.handle(&mut input, PadEvent::LeftStickY(AxisSide::Low));
    assert_eq!(input.buttons & PAD_BUTTON_DOWN, PAD_BUTTON_DOWN);
    pad.handle(&mut input, PadEvent::Disconnected);
    assert_eq!(input.buttons, 0);
    assert_eq!(button_mask(Button::Other), None);
}
