//! Level meter: one displayed level per channel, recomputed from each batch
//! of per-channel loudness values.

use vstd::prelude::*;

verus! {

#[derive(Debug, Clone)]
pub enum Message<T> {
    /// RMS per channel
    Rms(Vec<T>),
}

/// `scale` may answer `level` for the loudness `rms`.
pub open spec fn scaled_by<T, F: Fn(T) -> T>(scale: F, rms: T, level: T) -> bool {
    call_ensures(scale, (rms,), level)
}

/// `levels` holds one level for each of `rms`, each made by `scale`.
pub open spec fn levels_of<T, F: Fn(T) -> T>(scale: F, rms: Seq<T>, levels: Seq<T>) -> bool {
    &&& levels.len() == rms.len()
    &&& forall|i: int| 0 <= i < levels.len() ==> scaled_by(scale, rms[i], #[trigger] levels[i])
}

pub struct VuMeter<T> {
    levels_per_channel: Vec<T>,
}

impl<T: Copy> VuMeter<T> {
    /// The displayed level of each channel.
    pub closed spec fn view(&self) -> Seq<T> {
        self.levels_per_channel@
    }

    pub fn new() -> (meter: Self)
        ensures
            meter@.len() == 0,
    {
        VuMeter { levels_per_channel: Vec::with_capacity(2) }
    }

    /// Recomputes every level from the loudness of its channel. The number of
    /// channels follows the message; nothing of the previous levels is kept.
    pub fn update<F: Fn(T) -> T>(&mut self, message: Message<T>, scale: F)
        requires
            forall|rms: T| call_requires(scale, (rms,)),
        ensures
            levels_of(scale, message->Rms_0@, final(self)@),
    {
        match message {
            Message::Rms(rms_per_channel) => {
                self.levels_per_channel.clear();
                let mut index: usize = 0;
                while index < rms_per_channel.len()
                    invariant
                        index <= rms_per_channel.len(),
                        forall|rms: T| call_requires(scale, (rms,)),
                        levels_of(scale, rms_per_channel@.subrange(0, index as int), self.levels_per_channel@),
                    decreases rms_per_channel.len() - index,
                {
                    let level = scale(rms_per_channel[index]);
                    self.levels_per_channel.push(level);
                    index += 1;
                }
                assert(rms_per_channel@.subrange(0, index as int) =~= rms_per_channel@);
            },
        }
    }

    /// The displayed level of each channel.
    pub fn levels(&self) -> (levels: &Vec<T>)
        ensures
            levels@ == self@,
    {
        &self.levels_per_channel
    }
}

} // verus!
