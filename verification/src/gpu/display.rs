//! The display loop's decisions: queued commands, flip pacing, redraws and keys.

use vstd::prelude::*;

use crate::gpu::commands::BackendCmd;
use crate::gpu::pad::{
    with_bits, PadState, PAD_BUTTON_CIRCLE, PAD_BUTTON_CROSS, PAD_BUTTON_DOWN, PAD_BUTTON_L1,
    PAD_BUTTON_L2, PAD_BUTTON_LEFT, PAD_BUTTON_OPTIONS, PAD_BUTTON_R1, PAD_BUTTON_RIGHT,
    PAD_BUTTON_SQUARE, PAD_BUTTON_TRIANGLE, PAD_BUTTON_UP,
};

verus! {

/// One frame at sixty flips a second, in nanoseconds.
pub const FRAME_DURATION_NS: u64 = 16_666_000;

/// How often the window title is brought up to date.
pub const TITLE_INTERVAL_NS: u64 = 1_000_000_000;

/// A command queued for the display thread.  The number of a flip or a list names the
/// guest call that waits for it.
#[derive(Debug)]
pub enum GpuCommand {
    RegisterBuffer {
        ptr: u64,
        width: u32,
        height: u32,
        pixel_format: u32,
        handle: i32,
        index: u32,
    },
    SubmitFlip { handle: i32, index: u32, signal: u64 },
    RunCommandList { cmds: Vec<BackendCmd>, signal: u64 },
}

/// The guest call that waits for a command, if one does.
pub open spec fn waiter(cmd: GpuCommand) -> Option<u64> {
    match cmd {
        GpuCommand::RegisterBuffer { .. } => None,
        GpuCommand::SubmitFlip { signal, .. } => Some(signal),
        GpuCommand::RunCommandList { signal, .. } => Some(signal),
    }
}

/// The guest calls that wait for a queue of commands, in order.
pub open spec fn waiters(cmds: Seq<GpuCommand>) -> Seq<u64>
    decreases cmds.len(),
{
    if cmds.len() == 0 {
        Seq::empty()
    } else {
        match waiter(cmds.last()) {
            Some(signal) => waiters(cmds.drop_last()).push(signal),
            None => waiters(cmds.drop_last()),
        }
    }
}

/// Without a device nothing can be shown, but no guest call may wait forever: the calls
/// to answer for a drained queue.  Buffer work is dropped.
pub fn drain_commands_no_backend(queue: Vec<GpuCommand>) -> (signals: Vec<u64>)
    ensures
        signals@ == waiters(queue@),
{
    let mut signals: Vec<u64> = Vec::new();
    let mut i: usize = 0;
    assert(queue@.take(0) == Seq::<GpuCommand>::empty());
    while i < queue.len()
        invariant
            i <= queue@.len(),
            signals@ == waiters(queue@.take(i as int)),
        decreases queue@.len() - i,
    {
        assert(queue@.take(i + 1).drop_last() == queue@.take(i as int));
        match &queue[i] {
            GpuCommand::RegisterBuffer { .. } => {},
            GpuCommand::SubmitFlip { signal, .. } => {
                signals.push(*signal);
            },
            GpuCommand::RunCommandList { signal, .. } => {
                signals.push(*signal);
            },
        }
        i = i + 1;
    }
    assert(queue@.take(i as int) == queue@);
    signals
}

/// Every guest call that waits for a queued command is answered, once per command.
pub proof fn law_every_waiter_is_answered(cmds: Seq<GpuCommand>, i: int)
    requires
        0 <= i < cmds.len(),
        waiter(cmds[i]) is Some,
    ensures
        waiters(cmds).contains(waiter(cmds[i])->0),
    decreases cmds.len(),
{
    if i == cmds.len() - 1 {
        let all = waiters(cmds);
        assert(all[all.len() - 1] == waiter(cmds[i])->0);
    } else {
        law_every_waiter_is_answered(cmds.drop_last(), i);
        let before = waiters(cmds.drop_last());
        let signal = waiter(cmds[i])->0;
        let k = choose|k: int| 0 <= k < before.len() && before[k] == signal;
        assert(waiters(cmds)[k] == signal);
    }
}

/// How long a flip is held back, and from when the next one is counted.
#[derive(Clone, Copy, Debug, PartialEq, Eq, Structural)]
pub struct Pace {
    pub sleep_ns: u64,
    pub anchor_ns: u64,
}

/// A flip at `now` when the last one was counted at `last`.  One that comes early waits
/// for its time, and the next is counted from that time, not from when the wait really
/// ended; one that comes late does not wait, and earns no credit.
pub open spec fn pace_of(last: u64, now: u64) -> Pace {
    let target = last + FRAME_DURATION_NS;
    if now < target {
        Pace { sleep_ns: (target - now) as u64, anchor_ns: target as u64 }
    } else {
        Pace { sleep_ns: 0, anchor_ns: now }
    }
}

pub fn pace_flip(last: u64, now: u64) -> (pace: Pace)
    requires
        last + FRAME_DURATION_NS <= u64::MAX,
    ensures
        pace == pace_of(last, now),
{
    let target: u64 = last + FRAME_DURATION_NS;
    if now < target {
        Pace { sleep_ns: target - now, anchor_ns: target }
    } else {
        Pace { sleep_ns: 0, anchor_ns: now }
    }
}

/// Flips are never closer than a frame: each is let go a frame after the one before at
/// the earliest, and one that is a frame late or later goes at once.
pub proof fn law_flips_keep_their_distance(last: u64, now: u64)
    requires
        last <= now,
        now + FRAME_DURATION_NS <= u64::MAX,
    ensures
        pace_of(last, now).anchor_ns >= last + FRAME_DURATION_NS,
        now + pace_of(last, now).sleep_ns == pace_of(last, now).anchor_ns,
        now >= last + FRAME_DURATION_NS ==> pace_of(last, now).sleep_ns == 0,
        pace_of(last, now).sleep_ns <= FRAME_DURATION_NS,
{
}

/// What a redraw does.
#[derive(Clone, Copy, Debug, PartialEq, Eq, Structural)]
pub enum Redraw {
    /// The window has no area: answer the waiting guest, and show nothing.
    SignalOnly,
    Present,
}

pub fn on_redraw(width: u32, height: u32) -> (r: Redraw)
    ensures
        r == (if width == 0 || height == 0 {
            Redraw::SignalOnly
        } else {
            Redraw::Present
        }),
{
    if width == 0 || height == 0 {
        Redraw::SignalOnly
    } else {
        Redraw::Present
    }
}

/// The frame counter behind the window title.
#[derive(Clone, Copy, Debug, PartialEq, Eq, Structural)]
pub struct FpsCounter {
    pub frames: u32,
    pub since_ns: u64,
}

impl FpsCounter {
    /// Count a frame shown at `now`.  Once a second has gone by, the count is handed out
    /// and starts anew.
    pub fn frame_shown(&mut self, now: u64) -> (fps: Option<u32>)
        requires
            old(self).frames < u32::MAX,
            old(self).since_ns <= now,
        ensures
            now - old(self).since_ns >= TITLE_INTERVAL_NS ==> fps == Some(
                (old(self).frames + 1) as u32,
            ) && final(self).frames == 0 && final(self).since_ns == now,
            now - old(self).since_ns < TITLE_INTERVAL_NS ==> fps is None && final(self).frames
                == old(self).frames + 1 && final(self).since_ns == old(self).since_ns,
            fps is Some <==> now - old(self).since_ns >= 1_000_000_000,
    {
        self.frames = self.frames + 1;
        if now - self.since_ns >= TITLE_INTERVAL_NS {
            let fps: u32 = self.frames;
            self.frames = 0;
            self.since_ns = now;
            Some(fps)
        } else {
            None
        }
    }
}

/// The keys the window reacts to.
#[derive(Clone, Copy, Debug, PartialEq, Eq, Structural)]
pub enum KeyCode {
    ControlLeft,
    ControlRight,
    Enter,
    Escape,
    Space,
    ShiftLeft,
    ShiftRight,
    KeyQ,
    KeyE,
    Tab,
    ArrowUp,
    ArrowDown,
    ArrowLeft,
    ArrowRight,
    F9,
    F10,
    Other,
}

/// A capture of the graphics state asked for by a key.
#[derive(Clone, Copy, Debug, PartialEq, Eq, Structural)]
pub enum SnapshotRequest {
    /// The next complete frame.
    One,
    /// As many frames as a burst is configured to take.
    Burst,
}

/// The pad buttons a key stands for.
pub open spec fn key_buttons(key: KeyCode) -> u32 {
    match key {
        KeyCode::ControlLeft | KeyCode::ControlRight => PAD_BUTTON_CROSS,
        // Enter both fires and confirms.
        KeyCode::Enter => PAD_BUTTON_CROSS | PAD_BUTTON_TRIANGLE,
        KeyCode::Escape => PAD_BUTTON_OPTIONS,
        KeyCode::Space => PAD_BUTTON_CIRCLE,
        KeyCode::ShiftLeft | KeyCode::ShiftRight => PAD_BUTTON_SQUARE,
        KeyCode::KeyQ => PAD_BUTTON_L1,
        KeyCode::KeyE => PAD_BUTTON_R1,
        KeyCode::Tab => PAD_BUTTON_L2,
        KeyCode::ArrowUp => PAD_BUTTON_UP,
        KeyCode::ArrowDown => PAD_BUTTON_DOWN,
        KeyCode::ArrowLeft => PAD_BUTTON_LEFT,
        KeyCode::ArrowRight => PAD_BUTTON_RIGHT,
        KeyCode::F9 | KeyCode::F10 | KeyCode::Other => 0,
    }
}

/// A key goes down or up.  The two capture keys ask once per press, not once per repeat.
pub fn on_key(input: &mut PadState, key: KeyCode, pressed: bool, repeat: bool) -> (snapshot: Option<
    SnapshotRequest,
>)
    ensures
        final(input).buttons == with_bits(old(input).buttons, key_buttons(key), pressed),
        snapshot == (if pressed && !repeat && key == KeyCode::F10 {
            Some(SnapshotRequest::One)
        } else if pressed && !repeat && key == KeyCode::F9 {
            Some(SnapshotRequest::Burst)
        } else {
            None
        }),
{
    let mask: u32 = match key {
        KeyCode::ControlLeft | KeyCode::ControlRight => PAD_BUTTON_CROSS,
        KeyCode::Enter => PAD_BUTTON_CROSS | PAD_BUTTON_TRIANGLE,
        KeyCode::Escape => PAD_BUTTON_OPTIONS,
        KeyCode::Space => PAD_BUTTON_CIRCLE,
        KeyCode::ShiftLeft | KeyCode::ShiftRight => PAD_BUTTON_SQUARE,
        KeyCode::KeyQ => PAD_BUTTON_L1,
        KeyCode::KeyE => PAD_BUTTON_R1,
        KeyCode::Tab => PAD_BUTTON_L2,
        KeyCode::ArrowUp => PAD_BUTTON_UP,
        KeyCode::ArrowDown => PAD_BUTTON_DOWN,
        KeyCode::ArrowLeft => PAD_BUTTON_LEFT,
        KeyCode::ArrowRight => PAD_BUTTON_RIGHT,
        KeyCode::F9 | KeyCode::F10 | KeyCode::Other => 0,
    };
    input.set_button(mask, pressed);
    if pressed && !repeat {
        match key {
            KeyCode::F10 => Some(SnapshotRequest::One),
            KeyCode::F9 => Some(SnapshotRequest::Burst),
            _ => None,
        }
    } else {
        None
    }
}

/// What the loop does with a queued command.
#[derive(Clone, Copy, Debug, PartialEq, Eq, Structural)]
pub enum LoopAction {
    Register,
    /// Sleep, hand the flip to the backend, and ask for a redraw.
    Flip { sleep_ns: u64 },
    /// Replay the list, then answer the guest call.
    RunList { signal: u64 },
}

/// What the display loop keeps between commands.
#[derive(Clone, Copy, Debug, PartialEq, Eq, Structural)]
pub struct DisplayLoop {
    pub last_flip_ns: u64,
    pub needs_redraw: bool,
}

/// What the loop keeps after a command that is met at `now`.
pub open spec fn loop_after(state: DisplayLoop, cmd: GpuCommand, now: u64) -> DisplayLoop {
    match cmd {
        GpuCommand::SubmitFlip { .. } => DisplayLoop {
            last_flip_ns: pace_of(state.last_flip_ns, now).anchor_ns,
            needs_redraw: true,
        },
        _ => state,
    }
}

/// What the loop keeps after a queue of commands, each met at its time.
pub open spec fn loop_after_all(
    state: DisplayLoop,
    cmds: Seq<GpuCommand>,
    times: Seq<u64>,
) -> DisplayLoop
    decreases cmds.len(),
{
    if cmds.len() == 0 {
        state
    } else {
        loop_after(
            loop_after_all(state, cmds.drop_last(), times.drop_last()),
            cmds.last(),
            times.last(),
        )
    }
}

impl DisplayLoop {
    /// Decide about one queued command that is met at `now`.
    pub fn on_command(&mut self, cmd: &GpuCommand, now: u64) -> (action: LoopAction)
        requires
            old(self).last_flip_ns + FRAME_DURATION_NS <= u64::MAX,
        ensures
            *final(self) == loop_after(*old(self), *cmd, now),
            action == (match *cmd {
                GpuCommand::RegisterBuffer { .. } => LoopAction::Register,
                GpuCommand::SubmitFlip { .. } => LoopAction::Flip {
                    sleep_ns: pace_of(old(self).last_flip_ns, now).sleep_ns,
                },
                GpuCommand::RunCommandList { signal, .. } => LoopAction::RunList { signal },
            }),
    {
        match cmd {
            GpuCommand::RegisterBuffer { .. } => LoopAction::Register,
            GpuCommand::SubmitFlip { .. } => {
                let pace = pace_flip(self.last_flip_ns, now);
                self.last_flip_ns = pace.anchor_ns;
                self.needs_redraw = true;
                LoopAction::Flip { sleep_ns: pace.sleep_ns }
            },
            GpuCommand::RunCommandList { signal, .. } => LoopAction::RunList { signal: *signal },
        }
    }

    /// Whether a redraw is due once the queue is empty.
    pub fn take_redraw(&mut self) -> (due: bool)
        ensures
            due == old(self).needs_redraw,
            *final(self) == (DisplayLoop { needs_redraw: false, ..*old(self) }),
    {
        let due: bool = self.needs_redraw;
        self.needs_redraw = false;
        due
    }
}

/// A queue asks for a redraw exactly where it holds a flip, or one was asked for before.
pub proof fn law_a_flip_is_shown(state: DisplayLoop, cmds: Seq<GpuCommand>, times: Seq<u64>)
    requires
        cmds.len() == times.len(),
    ensures
        loop_after_all(state, cmds, times).needs_redraw <==> state.needs_redraw || exists|i: int|
            0 <= i < cmds.len() && #[trigger] cmds[i] is SubmitFlip,
    decreases cmds.len(),
{
    if cmds.len() > 0 {
        let front = cmds.drop_last();
        law_a_flip_is_shown(state, front, times.drop_last());
        if exists|i: int| 0 <= i < front.len() && #[trigger] front[i] is SubmitFlip {
            let i = choose|i: int| 0 <= i < front.len() && #[trigger] front[i] is SubmitFlip;
            assert(cmds[i] is SubmitFlip);
        }
        if cmds.last() is SubmitFlip {
            assert(cmds[cmds.len() - 1] is SubmitFlip);
        }
        if exists|i: int| 0 <= i < cmds.len() && #[trigger] cmds[i] is SubmitFlip {
            let i = choose|i: int| 0 <= i < cmds.len() && #[trigger] cmds[i] is SubmitFlip;
            if i < front.len() {
                assert(front[i] is SubmitFlip);
            }
        }
    }
}

/// Each key stands for its own buttons of the pad.
pub proof fn law_keys_are_buttons(key: KeyCode)
    ensures
        key is ControlLeft || key is ControlRight ==> key_buttons(key) == 0x4000,
        key is Enter ==> key_buttons(key) == 0x5000,
        key is Escape ==> key_buttons(key) == 0x8,
        key is Space ==> key_buttons(key) == 0x2000,
        key is ShiftLeft || key is ShiftRight ==> key_buttons(key) == 0x8000,
        key is KeyQ ==> key_buttons(key) == 0x400,
        key is KeyE ==> key_buttons(key) == 0x800,
        key is Tab ==> key_buttons(key) == 0x100,
        key is ArrowUp ==> key_buttons(key) == 0x10,
        key is ArrowDown ==> key_buttons(key) == 0x40,
        key is ArrowLeft ==> key_buttons(key) == 0x80,
        key is ArrowRight ==> key_buttons(key) == 0x20,
        key is F9 || key is F10 || key is Other ==> key_buttons(key) == 0,
{
    assert(0x4000u32 | 0x1000u32 == 0x5000u32) by (bit_vector);
}

/// A key that goes down and up again gives back the word in which its buttons were up, and
/// touches no other; while it is down its buttons are.
pub proof fn law_keys_are_down_while_pressed(word: u32, key: KeyCode)
    ensures
        ({
            let keys = key_buttons(key);
            let down = with_bits(word, keys, true);
            &&& down & keys == keys
            &&& down & !keys == word & !keys
            &&& with_bits(down, keys, false) & keys == 0
            &&& word & keys == 0 ==> with_bits(down, keys, false) == word
        }),
{
    let keys = key_buttons(key);
    crate::gpu::pad::law_set_and_clear(word, keys);
    let down = with_bits(word, keys, true);
    crate::gpu::pad::law_set_and_clear(down, keys);
    assert(word & keys == 0 ==> (word | keys) & !keys == word) by (bit_vector);
}

/// Flips are 16.666 milliseconds apart: one that comes sooner after the last waits for the rest,
/// and the next is counted from when it was due; one that comes later goes at once, and the next
/// is counted from it.
pub proof fn law_flips_are_a_frame_apart(last: u64, now: u64)
    requires
        last + 16_666_000 <= u64::MAX,
    ensures
        ({
            let pace = pace_of(last, now);
            &&& now < last + 16_666_000 ==> pace.anchor_ns == last + 16_666_000 && now
                + pace.sleep_ns == last + 16_666_000
            &&& now >= last + 16_666_000 ==> pace.anchor_ns == now && pace.sleep_ns == 0
        }),
{
}

/// Only a flip moves the loop on: it asks for a redraw, and the next flip is counted from where
/// this one was let go.
pub proof fn law_only_flips_move_the_loop(state: DisplayLoop, cmd: GpuCommand, now: u64)
    requires
        state.last_flip_ns + 16_666_000 <= u64::MAX,
    ensures
        ({
            let after = loop_after(state, cmd, now);
            &&& cmd !is SubmitFlip ==> after == state
            &&& cmd is SubmitFlip ==> after.needs_redraw && after.last_flip_ns >= now
                && after.last_flip_ns >= state.last_flip_ns + 16_666_000 && (after.last_flip_ns
                == now || after.last_flip_ns == state.last_flip_ns + 16_666_000)
        }),
{
}

/// The calls that wait for a queue are those of its flips and lists, in the order of the queue:
/// a registration has none, and one more command adds its own behind all others.
pub proof fn law_waiters_are_in_order(cmds: Seq<GpuCommand>, cmd: GpuCommand)
    ensures
        cmd is RegisterBuffer ==> waiters(cmds.push(cmd)) == waiters(cmds),
        cmd matches GpuCommand::SubmitFlip { signal, .. } ==> waiters(cmds.push(cmd)) == waiters(
            cmds,
        ).push(signal),
        cmd matches GpuCommand::RunCommandList { signal, .. } ==> waiters(cmds.push(cmd)) == waiters(
            cmds,
        ).push(signal),
        waiters(Seq::<GpuCommand>::empty()).len() == 0,
{
    assert(cmds.push(cmd).drop_last() =~= cmds);
}

} // verus!
