//! Fixed-size framing in front of a windowed transform.
//!
//! The processor accumulates samples in a carry buffer and hands out one frame
//! of exactly `FFT_SIZE` samples each time the threshold is crossed. Frames are
//! consumed in order and never overlap.

use vstd::arithmetic::div_mod::lemma_fundamental_div_mod_converse;
use vstd::prelude::*;

verus! {

/// Outcome of one call on the abstract level: the frame handed out, if any,
/// and the carry buffer left behind.
pub struct Step<T> {
    pub frame: Option<Seq<T>>,
    pub carry: Seq<T>,
}

/// One call of `process` on a carry buffer: the input is appended, and if at
/// least `size` samples are then available the first `size` leave as a frame.
pub open spec fn step<T>(carry: Seq<T>, input: Seq<T>, size: nat) -> Step<T> {
    let total = carry + input;
    if total.len() >= size {
        Step { frame: Some(total.subrange(0, size as int)), carry: total.subrange(size as int, total.len() as int) }
    } else {
        Step { frame: None, carry: total }
    }
}

/// What a sequence of calls leaves behind: the frames handed out, in order,
/// and the final carry buffer.
pub struct Run<T> {
    pub frames: Seq<Seq<T>>,
    pub carry: Seq<T>,
}

/// The samples of all `inputs`, one call after the other.
pub open spec fn concat<T>(inputs: Seq<Seq<T>>) -> Seq<T>
    decreases inputs.len(),
{
    if inputs.len() == 0 {
        Seq::empty()
    } else {
        concat(inputs.drop_last()) + inputs.last()
    }
}

/// Calls `process` once for each of `inputs`, starting from `carry`.
pub open spec fn run<T>(carry: Seq<T>, inputs: Seq<Seq<T>>, size: nat) -> Run<T>
    decreases inputs.len(),
{
    if inputs.len() == 0 {
        Run { frames: Seq::empty(), carry }
    } else {
        let before = run(carry, inputs.drop_last(), size);
        let last = step(before.carry, inputs.last(), size);
        Run {
            frames: match last.frame {
                Some(frame) => before.frames.push(frame),
                None => before.frames,
            },
            carry: last.carry,
        }
    }
}

/// `frames` followed by `carry` is `all`: each frame is the next `size`
/// samples in order, and `carry` is what follows the last frame.
pub open spec fn cut_in_order<T>(all: Seq<T>, frames: Seq<Seq<T>>, carry: Seq<T>, size: nat) -> bool {
    &&& frames.len() * size + carry.len() == all.len()
    &&& forall|k: int| 0 <= k < frames.len() ==> #[trigger] frames[k] == all.subrange(k * size, (k + 1) * size)
    &&& carry == all.subrange((frames.len() * size) as int, all.len() as int)
}

/// `frames` followed by `carry` is `all`, cut every `size` samples, with less
/// than one frame left over.
pub open spec fn cut_exactly<T>(all: Seq<T>, frames: Seq<Seq<T>>, carry: Seq<T>, size: nat) -> bool {
    &&& carry.len() < size
    &&& cut_in_order(all, frames, carry, size)
}

/// After a reset, no frame is handed out as long as fewer than `size` samples
/// have been supplied in total: every call only extends the carry.
pub proof fn lemma_silent_below_size<T>(inputs: Seq<Seq<T>>, size: nat)
    requires
        concat(inputs).len() < size,
    ensures
        run(Seq::<T>::empty(), inputs, size).frames.len() == 0,
        run(Seq::<T>::empty(), inputs, size).carry == concat(inputs),
        forall|k: int| 0 <= k < inputs.len() ==> (#[trigger] step(
            run(Seq::<T>::empty(), inputs.take(k), size).carry,
            inputs[k],
            size,
        )).frame.is_none(),
    decreases inputs.len(),
{
    if inputs.len() > 0 {
        let front = inputs.drop_last();
        lemma_silent_below_size(front, size);
        assert(Seq::<T>::empty() + concat(inputs) =~= concat(inputs));
        assert forall|k: int| 0 <= k < inputs.len() implies (#[trigger] step(
            run(Seq::<T>::empty(), inputs.take(k), size).carry,
            inputs[k],
            size,
        )).frame.is_none() by {
            if k < front.len() {
                assert(front.take(k) =~= inputs.take(k));
                assert(front[k] == inputs[k]);
            } else {
                assert(inputs.take(k) =~= front);
            }
        }
    }
}

/// Consumption in order: whatever the calls bring, every frame handed out is
/// the next `size` samples of what was supplied, no sample is skipped or used
/// twice, and what was not handed out is still in the carry.
pub proof fn lemma_consumed_in_order<T>(carry: Seq<T>, inputs: Seq<Seq<T>>, size: nat)
    ensures
        cut_in_order(carry + concat(inputs), run(carry, inputs, size).frames, run(carry, inputs, size).carry, size),
    decreases inputs.len(),
{
    let all = carry + concat(inputs);
    let after = run(carry, inputs, size);
    if inputs.len() == 0 {
        assert(all =~= carry);
        assert(after.frames.len() * size == 0) by (nonlinear_arith)
            requires
                after.frames.len() == 0,
        ;
        assert(after.carry =~= all.subrange(0, all.len() as int));
        assert(cut_in_order(all, after.frames, after.carry, size));
    } else {
        let front = inputs.drop_last();
        let before = run(carry, front, size);
        let prior = carry + concat(front);
        let last = inputs.last();
        lemma_consumed_in_order(carry, front, size);
        assert(all =~= prior + last);
        let count = before.frames.len() as int;
        let total = before.carry + last;
        assert(count * size + before.carry.len() == prior.len());
        assert(count * size + size == (count + 1) * size) by (nonlinear_arith);
        assert(0 <= count * size) by (nonlinear_arith)
            requires
                0 <= count,
                size >= 0,
        ;
        assert forall|k: int| 0 <= k < count implies #[trigger] before.frames[k] == all.subrange(
            k * size,
            (k + 1) * size,
        ) by {
            assert(0 <= k * size <= (k + 1) * size <= count * size) by (nonlinear_arith)
                requires
                    0 <= k < count,
                    size >= 0,
            ;
            assert((k + 1) * size <= prior.len());
            assert(prior.subrange(k * size, (k + 1) * size) =~= all.subrange(k * size, (k + 1) * size));
        }
        if total.len() >= size {
            assert(total.subrange(0, size as int) =~= all.subrange(count * size, (count + 1) * size));
            assert(total.subrange(size as int, total.len() as int) =~= all.subrange(
                (count + 1) * size,
                all.len() as int,
            ));
        } else {
            assert(total =~= all.subrange(count * size, all.len() as int));
        }
        assert(cut_in_order(all, after.frames, after.carry, size));
    }
}

/// Exact consumption: when the calls leave less than one frame in the carry,
/// they have handed out one frame for every `size` samples supplied, each
/// frame being the next `size` samples in order, and kept the remainder.
pub proof fn lemma_exact_consumption<T>(carry: Seq<T>, inputs: Seq<Seq<T>>, size: nat)
    requires
        size > 0,
        run(carry, inputs, size).carry.len() < size,
    ensures
        cut_exactly(carry + concat(inputs), run(carry, inputs, size).frames, run(carry, inputs, size).carry, size),
        run(carry, inputs, size).frames.len() == (carry.len() + concat(inputs).len()) / size,
        run(carry, inputs, size).carry.len() == (carry.len() + concat(inputs).len()) % size,
{
    let after = run(carry, inputs, size);
    lemma_consumed_in_order(carry, inputs, size);
    lemma_fundamental_div_mod_converse(
        (carry + concat(inputs)).len() as int,
        size as int,
        after.frames.len() as int,
        after.carry.len() as int,
    );
}

/// The carry stays below one frame: when it starts below `size` and no single
/// call brings more than `size` samples, less than `size` samples are left
/// after every call.
pub proof fn lemma_carry_stays_short<T>(carry: Seq<T>, inputs: Seq<Seq<T>>, size: nat)
    requires
        carry.len() < size,
        forall|i: int| 0 <= i < inputs.len() ==> (#[trigger] inputs[i]).len() <= size,
    ensures
        run(carry, inputs, size).carry.len() < size,
    decreases inputs.len(),
{
    if inputs.len() > 0 {
        let front = inputs.drop_last();
        assert forall|i: int| 0 <= i < front.len() implies (#[trigger] front[i]).len() <= size by {
            assert(front[i] == inputs[i]);
        }
        lemma_carry_stays_short(carry, front, size);
    }
}

pub struct FftProcessor<T, const FFT_SIZE: usize> {
    temporary: Vec<T>,
}

impl<T: Copy, const FFT_SIZE: usize> FftProcessor<T, FFT_SIZE> {
    /// The samples accumulated and not yet handed out, oldest first.
    pub closed spec fn view(&self) -> Seq<T> {
        self.temporary@
    }

    pub fn new() -> (processor: Self)
        ensures
            processor@ == Seq::<T>::empty(),
    {
        FftProcessor { temporary: Vec::new() }
    }

    /// Forgets the accumulated samples, so that audio from before a
    /// discontinuity is never framed together with audio after it.
    pub fn reset(&mut self)
        ensures
            final(self)@ == Seq::<T>::empty(),
    {
        self.temporary.clear();
    }

    /// Appends `buffer` to the carry. Once `FFT_SIZE` samples are available the
    /// oldest `FFT_SIZE` are removed and returned as the frame to transform;
    /// otherwise there is no new frame this time.
    pub fn process(&mut self, buffer: &[T]) -> (frame: Option<Vec<T>>)
        ensures
            final(self)@ == step(old(self)@, buffer@, FFT_SIZE as nat).carry,
            match frame {
                Some(samples) => step(old(self)@, buffer@, FFT_SIZE as nat).frame == Some(samples@),
                None => step(old(self)@, buffer@, FFT_SIZE as nat).frame.is_none(),
            },
    {
        let mut index: usize = 0;
        while index < buffer.len()
            invariant
                index <= buffer.len(),
                self.temporary@ == old(self)@ + buffer@.subrange(0, index as int),
            decreases buffer.len() - index,
        {
            self.temporary.push(buffer[index]);
            index += 1;
            assert(self.temporary@ =~= old(self)@ + buffer@.subrange(0, index as int));
        }
        assert(buffer@.subrange(0, index as int) =~= buffer@);
        if self.temporary.len() >= FFT_SIZE {
            let mut samples = self.temporary.split_off(FFT_SIZE);
            std::mem::swap(&mut self.temporary, &mut samples);
            Some(samples)
        } else {
            None
        }
    }

    pub fn fft_size(&self) -> (size: usize)
        ensures
            size == FFT_SIZE,
    {
        FFT_SIZE
    }
}

} // verus!
