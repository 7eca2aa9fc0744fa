//! Input events from the viewer: repeat suppression and the bounded queue
//! that carries the resulting commands to the media pipeline.

use std::collections::HashSet;
use std::collections::VecDeque;
use vstd::prelude::*;

verus! {

broadcast use vstd::std_specs::hash::group_hash_axioms;

/// An input event as the viewer sends it. Wheel deltas travel as the bit
/// patterns of their 64-bit floating-point values; nothing here reads them.
#[allow(inconsistent_fields)]
#[derive(Debug, PartialEq, Eq, Structural, Clone, Copy)]
pub enum InputMessage {
    MouseMove { x: i32, y: i32 },
    MouseMoveAbs { x: i32, y: i32 },
    Wheel { x: u64, y: u64 },
    MouseDown { key: i32 },
    MouseUp { key: i32 },
    KeyDown { key: i32 },
    KeyUp { key: i32 },
}

/// A control command for the media pipeline.
#[allow(inconsistent_fields)]
#[derive(Debug, PartialEq, Eq, Structural, Clone, Copy)]
pub enum InputCommand {
    MouseMoveRelative { pointer_x: i32, pointer_y: i32 },
    MouseMoveAbsolute { pointer_x: i32, pointer_y: i32 },
    MouseAxis { x: u64, y: u64 },
    KeyboardKey { key: u32, pressed: bool },
    MouseButton { button: u32, pressed: bool },
}

/// One event applied to the pressed keys and buttons: the new sets and the
/// command forwarded, if any. A press of something already pressed is
/// dropped; a release is always forwarded and clears the pressed state.
pub open spec fn input_step(keys: Set<i32>, buttons: Set<i32>, m: InputMessage) -> (
    Set<i32>,
    Set<i32>,
    Option<InputCommand>,
) {
    match m {
        InputMessage::MouseMove { x, y } => (
            keys,
            buttons,
            Some(InputCommand::MouseMoveRelative { pointer_x: x, pointer_y: y }),
        ),
        InputMessage::MouseMoveAbs { x, y } => (
            keys,
            buttons,
            Some(InputCommand::MouseMoveAbsolute { pointer_x: x, pointer_y: y }),
        ),
        InputMessage::Wheel { x, y } => (keys, buttons, Some(InputCommand::MouseAxis { x, y })),
        InputMessage::KeyDown { key } => {
            if keys.contains(key) {
                (keys, buttons, None)
            } else {
                (
                    keys.insert(key),
                    buttons,
                    Some(InputCommand::KeyboardKey { key: key as u32, pressed: true }),
                )
            }
        },
        InputMessage::KeyUp { key } => (
            keys.remove(key),
            buttons,
            Some(InputCommand::KeyboardKey { key: key as u32, pressed: false }),
        ),
        InputMessage::MouseDown { key } => {
            if buttons.contains(key) {
                (keys, buttons, None)
            } else {
                (
                    keys,
                    buttons.insert(key),
                    Some(InputCommand::MouseButton { button: key as u32, pressed: true }),
                )
            }
        },
        InputMessage::MouseUp { key } => (
            keys,
            buttons.remove(key),
            Some(InputCommand::MouseButton { button: key as u32, pressed: false }),
        ),
    }
}

/// Turns an input event into a pipeline command, suppressing repeated
/// presses of a key or button that is already held.
pub fn handle_input_message(
    input_msg: InputMessage,
    pressed_keys: &mut HashSet<i32>,
    pressed_buttons: &mut HashSet<i32>,
) -> (r: Option<InputCommand>)
    ensures
        (final(pressed_keys)@, final(pressed_buttons)@, r) == input_step(
            old(pressed_keys)@,
            old(pressed_buttons)@,
            input_msg,
        ),
{
    match input_msg {
        InputMessage::MouseMove { x, y } => Some(
            InputCommand::MouseMoveRelative { pointer_x: x, pointer_y: y },
        ),
        InputMessage::MouseMoveAbs { x, y } => Some(
            InputCommand::MouseMoveAbsolute { pointer_x: x, pointer_y: y },
        ),
        InputMessage::Wheel { x, y } => Some(InputCommand::MouseAxis { x, y }),
        InputMessage::KeyDown { key } => {
            if pressed_keys.contains(&key) {
                return None;
            }
            pressed_keys.insert(key);
            Some(InputCommand::KeyboardKey { key: key as u32, pressed: true })
        },
        InputMessage::KeyUp { key } => {
            pressed_keys.remove(&key);
            Some(InputCommand::KeyboardKey { key: key as u32, pressed: false })
        },
        InputMessage::MouseDown { key } => {
            if pressed_buttons.contains(&key) {
                return None;
            }
            pressed_buttons.insert(key);
            Some(InputCommand::MouseButton { button: key as u32, pressed: true })
        },
        InputMessage::MouseUp { key } => {
            pressed_buttons.remove(&key);
            Some(InputCommand::MouseButton { button: key as u32, pressed: false })
        },
    }
}

/// The events applied in order: the final sets and the forwarded commands.
pub open spec fn run_input(keys: Set<i32>, buttons: Set<i32>, msgs: Seq<InputMessage>) -> (
    Set<i32>,
    Set<i32>,
    Seq<Option<InputCommand>>,
)
    decreases msgs.len(),
{
    if msgs.len() == 0 {
        (keys, buttons, Seq::empty())
    } else {
        let prev = run_input(keys, buttons, msgs.drop_last());
        let step = input_step(prev.0, prev.1, msgs.last());
        (step.0, step.1, prev.2.push(step.2))
    }
}

/// Whether key `k` is held after `msgs`, given whether it was held before:
/// the latest press or release of `k` decides.
pub open spec fn key_held_after(k: i32, msgs: Seq<InputMessage>, held: bool) -> bool
    decreases msgs.len(),
{
    if msgs.len() == 0 {
        held
    } else if msgs.last() == (InputMessage::KeyDown { key: k }) {
        true
    } else if msgs.last() == (InputMessage::KeyUp { key: k }) {
        false
    } else {
        key_held_after(k, msgs.drop_last(), held)
    }
}

/// Whether button `b` is held after `msgs`, given whether it was held before.
pub open spec fn button_held_after(b: i32, msgs: Seq<InputMessage>, held: bool) -> bool
    decreases msgs.len(),
{
    if msgs.len() == 0 {
        held
    } else if msgs.last() == (InputMessage::MouseDown { key: b }) {
        true
    } else if msgs.last() == (InputMessage::MouseUp { key: b }) {
        false
    } else {
        button_held_after(b, msgs.drop_last(), held)
    }
}

proof fn lemma_held_sets(keys: Set<i32>, buttons: Set<i32>, msgs: Seq<InputMessage>, k: i32)
    ensures
        run_input(keys, buttons, msgs).0.contains(k) == key_held_after(k, msgs, keys.contains(k)),
        run_input(keys, buttons, msgs).1.contains(k) == button_held_after(
            k,
            msgs,
            buttons.contains(k),
        ),
    decreases msgs.len(),
{
    if msgs.len() > 0 {
        lemma_held_sets(keys, buttons, msgs.drop_last(), k);
    }
}

/// A key press is forwarded exactly when the key is not held: that is, when
/// the latest earlier event on that key was a release, or there was none and
/// the key was not held at the start. Repeats before a release yield nothing.
pub proof fn lemma_key_press_forwarded_once(
    keys: Set<i32>,
    buttons: Set<i32>,
    msgs: Seq<InputMessage>,
    k: i32,
)
    ensures
        run_input(keys, buttons, msgs.push(InputMessage::KeyDown { key: k })).2.last() is Some
            <==> !key_held_after(k, msgs, keys.contains(k)),
        run_input(keys, buttons, msgs.push(InputMessage::KeyDown { key: k })).1 == run_input(
            keys,
            buttons,
            msgs,
        ).1,
{
    lemma_held_sets(keys, buttons, msgs, k);
    assert(msgs.push(InputMessage::KeyDown { key: k }).drop_last() =~= msgs);
}

/// The same law for mouse buttons, whose pressed set is independent of the
/// keys' one.
pub proof fn lemma_button_press_forwarded_once(
    keys: Set<i32>,
    buttons: Set<i32>,
    msgs: Seq<InputMessage>,
    b: i32,
)
    ensures
        run_input(keys, buttons, msgs.push(InputMessage::MouseDown { key: b })).2.last() is Some
            <==> !button_held_after(b, msgs, buttons.contains(b)),
        run_input(keys, buttons, msgs.push(InputMessage::MouseDown { key: b })).0 == run_input(
            keys,
            buttons,
            msgs,
        ).0,
{
    lemma_held_sets(keys, buttons, msgs, b);
    assert(msgs.push(InputMessage::MouseDown { key: b }).drop_last() =~= msgs);
}

/// The newest `cap` items of `s`, in order.
pub open spec fn keep_newest<T>(s: Seq<T>, cap: nat) -> Seq<T> {
    if s.len() <= cap {
        s
    } else {
        s.subrange(s.len() - cap, s.len() as int)
    }
}

/// A bounded queue of pipeline commands that evicts the oldest command to
/// make room for a new one.
pub struct InputQueue {
    items: VecDeque<InputCommand>,
    capacity: usize,
}

impl InputQueue {
    pub closed spec fn wf(&self) -> bool {
        self.items@.len() <= self.capacity
    }

    /// The queued commands, oldest first.
    pub closed spec fn contents(&self) -> Seq<InputCommand> {
        self.items@
    }

    pub closed spec fn spec_capacity(&self) -> nat {
        self.capacity as nat
    }

    pub fn new(capacity: usize) -> (r: Self)
        ensures
            r.wf(),
            r.contents() == Seq::<InputCommand>::empty(),
            r.spec_capacity() == capacity,
    {
        InputQueue { items: VecDeque::new(), capacity }
    }

    pub fn capacity(&self) -> (r: usize)
        ensures
            r == self.spec_capacity(),
    {
        self.capacity
    }

    pub fn len(&self) -> (r: usize)
        ensures
            r == self.contents().len(),
    {
        self.items.len()
    }

    /// Appends a command; where the queue is full the oldest command is
    /// evicted first and returned. With no capacity at all the new command
    /// itself is returned.
    pub fn push(&mut self, command: InputCommand) -> (evicted: Option<InputCommand>)
        requires
            old(self).wf(),
        ensures
            final(self).wf(),
            final(self).spec_capacity() == old(self).spec_capacity(),
            final(self).contents() == keep_newest(
                old(self).contents().push(command),
                old(self).spec_capacity(),
            ),
            evicted == (if old(self).contents().len() < old(self).spec_capacity() {
                None
            } else if old(self).spec_capacity() == 0 {
                Some(command)
            } else {
                Some(old(self).contents()[0])
            }),
    {
        let ghost s = self.items@.push(command);
        if self.capacity == 0 {
            assert(keep_newest(s, 0) =~= Seq::<InputCommand>::empty());
            assert(self.items@ =~= Seq::<InputCommand>::empty());
            return Some(command);
        }
        let mut evicted = None;
        if self.items.len() >= self.capacity {
            evicted = self.items.pop_front();
        }
        self.items.push_back(command);
        assert(self.items@ =~= keep_newest(s, self.capacity as nat));
        evicted
    }

    /// Takes the oldest command, if any.
    pub fn pop(&mut self) -> (r: Option<InputCommand>)
        requires
            old(self).wf(),
        ensures
            final(self).wf(),
            final(self).spec_capacity() == old(self).spec_capacity(),
            old(self).contents().len() == 0 ==> r is None && final(self).contents() == old(
                self,
            ).contents(),
            old(self).contents().len() > 0 ==> r == Some(old(self).contents()[0])
                && final(self).contents() == old(self).contents().drop_first(),
    {
        self.items.pop_front()
    }
}

/// The commands pushed in order onto a queue that held `q`.
pub open spec fn push_all(q: Seq<InputCommand>, cap: nat, cmds: Seq<InputCommand>) -> Seq<
    InputCommand,
>
    decreases cmds.len(),
{
    if cmds.len() == 0 {
        q
    } else {
        keep_newest(push_all(q, cap, cmds.drop_last()).push(cmds.last()), cap)
    }
}

/// However many commands are pushed, the queue holds the newest of
/// everything it has held and been given, as many as fit, in order; so
/// pushing N+1 commands into an empty queue of capacity N evicts only the
/// first.
pub proof fn lemma_queue_keeps_newest(q: Seq<InputCommand>, cap: nat, cmds: Seq<InputCommand>)
    requires
        q.len() <= cap,
    ensures
        push_all(q, cap, cmds) == keep_newest(q + cmds, cap),
    decreases cmds.len(),
{
    if cmds.len() > 0 {
        lemma_queue_keeps_newest(q, cap, cmds.drop_last());
        let prev = keep_newest(q + cmds.drop_last(), cap);
        assert(q + cmds =~= (q + cmds.drop_last()).push(cmds.last()));
        assert(keep_newest(prev.push(cmds.last()), cap) =~= keep_newest(q + cmds, cap));
    } else {
        assert(q + cmds =~= q);
    }
}

} // verus!
