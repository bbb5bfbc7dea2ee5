//! Stereo correlation scope: keeps the latest batch of points.

use vstd::prelude::*;

verus! {

#[derive(Debug, Clone)]
pub enum Message<T> {
    Points(Vec<(T, T)>),
}

pub struct Vectorscope<T> {
    points: Vec<(T, T)>,
}

impl<T> Vectorscope<T> {
    /// The points on display, in the order they were received.
    pub closed spec fn view(&self) -> Seq<(T, T)> {
        self.points@
    }

    pub fn new() -> (scope: Self)
        ensures
            scope@.len() == 0,
    {
        Vectorscope { points: Vec::new() }
    }

    /// Replaces the displayed points wholesale.
    pub fn update(&mut self, message: Message<T>)
        ensures
            final(self)@ == message->Points_0@,
    {
        match message {
            Message::Points(points) => {
                self.points = points;
            },
        }
    }

    /// The points on display.
    pub fn points(&self) -> (points: &Vec<(T, T)>)
        ensures
            points@ == self@,
    {
        &self.points
    }
}

} // verus!
