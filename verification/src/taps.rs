//! Double-buffered filter taps: new taps are written into the bank that is not
//! being read, and the banks then swap, so a reader never sees a half-written set.

use vstd::prelude::*;

verus! {

/// Two equally long tap banks and which of them is being read.
pub struct TapBank<T> {
    taps_a: Vec<T>,
    taps_b: Vec<T>,
    use_a: bool,
}

impl<T: Copy> TapBank<T> {
    /// The taps being read.
    pub closed spec fn active_taps(&self) -> Seq<T> {
        if self.use_a {
            self.taps_a@
        } else {
            self.taps_b@
        }
    }

    /// The taps held back for the next update.
    pub closed spec fn standby_taps(&self) -> Seq<T> {
        if self.use_a {
            self.taps_b@
        } else {
            self.taps_a@
        }
    }

}

impl<T> TapBank<T> {
    /// Both banks always have the same length.
    #[verifier::type_invariant]
    spec fn inv(&self) -> bool {
        self.taps_a@.len() == self.taps_b@.len()
    }
}

impl<T: Copy> TapBank<T> {
    /// Both banks of `len` taps set to `fill`.
    pub fn new(len: usize, fill: T) -> (b: Self)
        ensures
            b.active_taps() == Seq::new(len as nat, |_i: int| fill),
            b.standby_taps() == Seq::new(len as nat, |_i: int| fill),
    {
        let mut a: Vec<T> = Vec::new();
        let mut c: Vec<T> = Vec::new();
        let mut i: usize = 0;
        while i < len
            invariant
                i <= len,
                a@ == Seq::new(i as nat, |_i: int| fill),
                c@ == Seq::new(i as nat, |_i: int| fill),
            decreases len - i,
        {
            a.push(fill);
            c.push(fill);
            i = i + 1;
            proof {
                assert(a@ =~= Seq::new(i as nat, |_i: int| fill));
                assert(c@ =~= Seq::new(i as nat, |_i: int| fill));
            }
        }
        TapBank { taps_a: a, taps_b: c, use_a: true }
    }

    /// Number of taps in each bank.
    pub fn len(&self) -> (n: usize)
        ensures
            n == self.active_taps().len(),
            n == self.standby_taps().len(),
    {
        proof {
            use_type_invariant(self);
        }
        self.taps_a.len()
    }

    /// The taps being read.
    pub fn active(&self) -> (t: &[T])
        ensures
            t@ == self.active_taps(),
    {
        if self.use_a {
            self.taps_a.as_slice()
        } else {
            self.taps_b.as_slice()
        }
    }

    /// Copies `new_taps` into the standby bank, then makes it the one read; the
    /// previously read taps become the standby bank.
    pub fn update(&mut self, new_taps: &[T])
        requires
            new_taps@.len() == old(self).active_taps().len(),
        ensures
            final(self).active_taps() == new_taps@,
            final(self).standby_taps() == old(self).active_taps(),
    {
        proof {
            use_type_invariant(&*self);
        }
        if self.use_a {
            copy_into(&mut self.taps_b, new_taps);
        } else {
            copy_into(&mut self.taps_a, new_taps);
        }
        self.use_a = !self.use_a;
    }
}

/// Overwrites `dst` with `src`, element by element.
fn copy_into<T: Copy>(dst: &mut Vec<T>, src: &[T])
    requires
        old(dst)@.len() == src@.len(),
    ensures
        final(dst)@ == src@,
    no_unwind
{
    let n = dst.len();
    let mut i: usize = 0;
    while i < n
        invariant
            n == src@.len(),
            i <= n,
            dst@.len() == n,
            forall|k: int| 0 <= k < i ==> dst@[k] == src@[k],
        decreases n - i,
    {
        dst[i] = src[i];
        i = i + 1;
    }
    proof {
        assert(dst@ =~= src@);
    }
}

} // verus!
