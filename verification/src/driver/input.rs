//! The queue of input events.

use vstd::prelude::*;
use std::collections::VecDeque;

verus! {

/// Something that the user did.
#[derive(Clone, Copy, Debug, PartialEq, Eq, Structural)]
pub enum InputEvent {
    /// A scan code from the keyboard.
    Keyboard(u32),
}

/// Appends `ev` to the queue.
pub fn push_event(queue: &mut VecDeque<InputEvent>, ev: InputEvent)
    ensures
        final(queue)@ == old(queue)@.push(ev),
{
    queue.push_back(ev);
}

/// Takes all events off the queue, oldest first, and hands them out.
pub fn process_input_events(queue: &mut VecDeque<InputEvent>) -> (events: Vec<InputEvent>)
    ensures
        events@ == old(queue)@,
        final(queue)@.len() == 0,
{
    let mut events: Vec<InputEvent> = Vec::new();
    loop
        invariant
            events@ + queue@ == old(queue)@,
        ensures
            events@ == old(queue)@,
            queue@.len() == 0,
        decreases queue@.len(),
    {
        match queue.pop_front() {
            Some(v) => {
                let ghost before = events@;
                events.push(v);
                assert(events@ + queue@ =~= old(queue)@);
            },
            None => {
                assert(events@ =~= old(queue)@);
                break ;
            },
        }
    }
    events
}

} // verus!
