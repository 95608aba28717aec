use vstd::prelude::*;
use std::collections::VecDeque;

verus! {

/// Non-character keys.
#[derive(Clone, Copy, Debug, PartialEq, Eq, Structural)]
pub enum SpecialKey {
    Enter,
    Backspace,
    Up,
    Down,
    Left,
    Right,
    Tab,
    Escape,
    F(u8),
}

/// An input event waiting to be handled.
#[derive(Clone, Copy, Debug, PartialEq, Eq, Structural)]
pub enum IoEvent {
    KeyPress(char),
    KeySpecial(SpecialKey),
    DeviceReady(u32),
}

/// The input event queue (first in, first out) and the pending output lines.
pub struct IoSubsystem {
    pub event_queue: VecDeque<IoEvent>,
    pub output_buffer: Vec<String>,
}

impl IoSubsystem {
    /// No pending events and no pending output.
    pub fn new() -> (io: Self)
        ensures
            io.event_queue@ == Seq::<IoEvent>::empty(),
            io.output_buffer@ == Seq::<String>::empty(),
    {
        IoSubsystem { event_queue: VecDeque::new(), output_buffer: Vec::new() }
    }

    /// Queues an event at the back.
    pub fn push_event(&mut self, event: IoEvent)
        ensures
            final(self).event_queue@ == old(self).event_queue@.push(event),
            final(self).output_buffer@ == old(self).output_buffer@,
    {
        self.event_queue.push_back(event);
    }

    /// Takes the oldest queued event, if any.
    pub fn pop_event(&mut self) -> (e: Option<IoEvent>)
        ensures
            old(self).event_queue@.len() == 0 ==> e is None && final(self).event_queue@ == old(self).event_queue@,
            old(self).event_queue@.len() > 0 ==> e == Some(old(self).event_queue@[0])
                && final(self).event_queue@ == old(self).event_queue@.drop_first(),
            final(self).output_buffer@ == old(self).output_buffer@,
    {
        let e = self.event_queue.pop_front();
        proof {
            if old(self).event_queue@.len() > 0 {
                assert(self.event_queue@ =~= old(self).event_queue@.drop_first());
            }
        }
        e
    }

    /// Appends a line of output.
    pub fn write_output(&mut self, s: &str)
        ensures
            final(self).output_buffer@.len() == old(self).output_buffer@.len() + 1,
            forall|i: int| 0 <= i < old(self).output_buffer@.len() ==> final(self).output_buffer@[i] == old(self).output_buffer@[i],
            final(self).output_buffer@.last()@ == s@,
            final(self).event_queue@ == old(self).event_queue@,
    {
        self.output_buffer.push(s.to_owned());
    }

    /// Hands out all pending output, oldest first, and empties the buffer.
    pub fn drain_output(&mut self) -> (out: Vec<String>)
        ensures
            out@ == old(self).output_buffer@,
            final(self).output_buffer@ == Seq::<String>::empty(),
            final(self).event_queue@ == old(self).event_queue@,
    {
        let mut out: Vec<String> = Vec::new();
        std::mem::swap(&mut out, &mut self.output_buffer);
        out
    }
}

} // verus!
