use vstd::prelude::*;

verus! {

/// The Fibonacci-like sequence that a fresh counter walks: 1, 2, 3, 5, 8, ...
pub open spec fn fib(n: nat) -> nat
    decreases n,
{
    if n == 0 {
        1
    } else if n == 1 {
        2
    } else {
        fib((n - 1) as nat) + fib((n - 2) as nat)
    }
}

/// A counter that hands out successive terms of `fib`.
pub struct Counter {
    v1: u64,
    v2: u64,
    steps: Ghost<nat>,
}

impl Counter {
    /// The number of terms handed out so far.
    pub closed spec fn steps(&self) -> nat {
        self.steps@
    }

    /// The term that the next call of `increment` returns.
    pub closed spec fn current(&self) -> nat {
        self.v1 as nat
    }

    /// The two held terms are those of `fib` at the current step.
    pub closed spec fn wf(&self) -> bool {
        self.v1 == fib(self.steps@) && self.v2 == fib(self.steps@ + 1)
    }

    /// The next term fits in a `u64`, so that `increment` can be called.
    pub closed spec fn can_increment(&self) -> bool {
        self.v1 + self.v2 <= u64::MAX
    }

    /// Returns the current term and advances to the next one.
    pub fn increment(&mut self) -> (r: u64)
        requires
            old(self).wf(),
            old(self).can_increment(),
        ensures
            r == fib(old(self).steps()),
            final(self).wf(),
            final(self).steps() == old(self).steps() + 1,
            final(self).current() == fib(old(self).steps() + 1),
    {
        let r = self.v1;
        self.v1 = self.v2;
        self.v2 = self.v1 + r;
        self.steps = Ghost((self.steps@ + 1) as nat);
        r
    }

    /// `increment` where the next term fits in a `u64`; otherwise `None`,
    /// with the counter left as it was.
    pub fn checked_increment(&mut self) -> (r: Option<u64>)
        requires
            old(self).wf(),
        ensures
            final(self).wf(),
            old(self).can_increment() ==> r == Option::Some(fib(old(self).steps()) as u64)
                && final(self).steps() == old(self).steps() + 1,
            !old(self).can_increment() ==> r is None && *final(self) == *old(self),
    {
        if self.v1 <= u64::MAX - self.v2 {
            Option::Some(self.increment())
        } else {
            Option::None
        }
    }
}

impl Default for Counter {
    fn default() -> (r: Self)
        ensures
            r.wf(),
            r.steps() == 0,
            r.current() == 1,
    {
        Counter { v1: 1, v2: 2, steps: Ghost(0) }
    }
}

} // verus!
