//! Oscilloscope: keeps the latest mono block.

use vstd::prelude::*;

verus! {

#[derive(Debug, Clone)]
pub enum Message<T> {
    Buffer(Vec<T>),
}

pub struct Scope<T> {
    buffer: Vec<T>,
}

impl<T> Scope<T> {
    /// The block on display.
    pub closed spec fn view(&self) -> Seq<T> {
        self.buffer@
    }

    pub fn new() -> (scope: Self)
        ensures
            scope@.len() == 0,
    {
        Scope { buffer: Vec::new() }
    }

    /// Replaces the displayed block wholesale.
    pub fn update(&mut self, message: Message<T>)
        ensures
            final(self)@ == message->Buffer_0@,
    {
        match message {
            Message::Buffer(mut buffer) => {
                self.buffer.clear();
                self.buffer.append(&mut buffer);
            },
        }
    }

    /// The block on display.
    pub fn buffer(&self) -> (buffer: &Vec<T>)
        ensures
            buffer@ == self@,
    {
        &self.buffer
    }
}

} // verus!
