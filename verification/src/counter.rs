//! The counter window: a number and a button that increments it.

use vstd::prelude::*;

verus! {

/// A message to the counter window.
#[derive(Debug, Clone, Copy)]
pub enum Message {
    Increment,
}

/// Applies a message to the counter.
pub fn update(value: &mut u64, message: Message)
    requires
        *old(value) < u64::MAX,
    ensures
        match message {
            Message::Increment => *final(value) == *old(value) + 1,
        },
{
    match message {
        Message::Increment => *value += 1,
    }
}

} // verus!
