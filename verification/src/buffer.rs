//! A growable, null-terminated UTF-16 text buffer.

use vstd::prelude::*;

verus! {

/// Largest number of code units a field may hold.
pub const LEN_MAX: usize = 0x0010_0000;

/// A growable UTF-16 buffer, always kept null-terminated.
///
/// The invariant mirrors the classic C layout: the backing vector holds the
/// content followed by exactly one terminating zero, so its length is always
/// content length + 1, and the content itself is free of zeros.
pub struct StringBuffer(pub Vec<u16>);

impl StringBuffer {
    /// The content, without the terminator.
    pub open spec fn view(&self) -> Seq<u16> {
        self.0@.take(self.0@.len() - 1)
    }

    /// The backing vector is the content plus one terminating zero.
    pub open spec fn wf(&self) -> bool {
        &&& self.0@.len() >= 1
        &&& self.0@[self.0@.len() - 1] == 0
        &&& forall|i: int| 0 <= i < self.0@.len() - 1 ==> self.0@[i] != 0
    }

    /// An empty, terminated buffer.
    pub fn new() -> (r: StringBuffer)
        ensures
            r.wf(),
            r@ =~= Seq::<u16>::empty(),
    {
        let mut v: Vec<u16> = Vec::new();
        v.push(0);
        StringBuffer(v)
    }

    /// Number of content code units.
    pub fn text_len(&self) -> (r: usize)
        requires
            self.wf(),
        ensures
            r == self@.len(),
    {
        self.0.len() - 1
    }

    /// Drops the whole content.
    pub fn empty(&mut self)
        requires
            old(self).wf(),
        ensures
            final(self).wf(),
            final(self)@ =~= Seq::<u16>::empty(),
    {
        self.0.truncate(0);
        self.0.push(0);
    }

    /// Splices `to_insert` into the content at `at`.
    pub fn insert_at(&mut self, at: usize, to_insert: &Vec<u16>)
        requires
            old(self).wf(),
            at <= old(self)@.len(),
            forall|i: int| 0 <= i < to_insert@.len() ==> to_insert@[i] != 0,
            old(self)@.len() + to_insert@.len() <= LEN_MAX,
        ensures
            final(self).wf(),
            final(self)@ =~= old(self)@.take(at as int) + to_insert@ + old(self)@.skip(at as int),
    {
        let mut i: usize = 0;
        while i < to_insert.len()
            invariant
                self.wf(),
                at <= old(self)@.len(),
                old(self)@.len() + to_insert@.len() <= LEN_MAX,
                i <= to_insert@.len(),
                self@.len() == old(self)@.len() + i,
                forall|k: int| 0 <= k < to_insert@.len() ==> to_insert@[k] != 0,
                self@ =~= old(self)@.take(at as int) + to_insert@.take(i as int)
                    + old(self)@.skip(at as int),
            decreases to_insert@.len() - i,
        {
            let ghost prev = self@;
            self.0.insert(at + i, to_insert[i]);
            proof {
                assert(self@ =~= prev.insert(at + i, to_insert@[i as int]));
                assert(self@ =~= old(self)@.take(at as int) + to_insert@.take(i + 1)
                    + old(self)@.skip(at as int));
            }
            i = i + 1;
        }
        proof {
            assert(to_insert@.take(to_insert@.len() as int) =~= to_insert@);
        }
    }

    /// Removes the content code unit at `at`.
    pub fn remove_at(&mut self, at: usize)
        requires
            old(self).wf(),
            at < old(self)@.len(),
        ensures
            final(self).wf(),
            final(self)@ =~= old(self)@.remove(at as int),
    {
        self.0.remove(at);
    }

    /// Removes the content range `from .. to`.
    pub fn remove_range(&mut self, from: usize, to: usize)
        requires
            old(self).wf(),
            from <= to <= old(self)@.len(),
        ensures
            final(self).wf(),
            final(self)@ =~= old(self)@.take(from as int) + old(self)@.skip(to as int),
    {
        let mut k: usize = 0;
        let ghost n = (to - from) as int;
        while k < to - from
            invariant
                self.wf(),
                from <= to <= old(self)@.len(),
                k <= n,
                n == to - from,
                self@ =~= old(self)@.take(from as int) + old(self)@.skip(from + k),
            decreases n - k,
        {
            let ghost prev = self@;
            self.remove_at(from);
            proof {
                assert(self@ =~= prev.remove(from as int));
                assert(self@ =~= old(self)@.take(from as int) + old(self)@.skip(from + k + 1));
            }
            k = k + 1;
        }
    }

    /// A copy of the content range `from .. to`.
    pub fn copy_range(&self, from: usize, to: usize) -> (r: Vec<u16>)
        requires
            self.wf(),
            from <= to <= self@.len(),
        ensures
            r@ =~= self@.subrange(from as int, to as int),
    {
        let mut out: Vec<u16> = Vec::new();
        let mut k: usize = from;
        while k < to
            invariant
                self.wf(),
                from <= k <= to <= self@.len(),
                out@ =~= self@.subrange(from as int, k as int),
            decreases to - k,
        {
            out.push(self.0[k]);
            proof {
                assert(out@ =~= self@.subrange(from as int, k + 1));
            }
            k = k + 1;
        }
        out
    }

    /// Whether the content is empty, read off the leading terminator.
    pub fn is_empty(&self) -> (r: bool)
        requires
            self.wf(),
        ensures
            r == (self@.len() == 0),
    {
        self.0[0] == 0
    }

    /// The content as a fresh vector, terminator left out.
    pub fn to_vec(&self) -> (r: Vec<u16>)
        requires
            self.wf(),
        ensures
            r@ =~= self@,
    {
        let mut out: Vec<u16> = Vec::new();
        let n = self.text_len();
        let mut i: usize = 0;
        while i < n
            invariant
                self.wf(),
                n == self@.len(),
                i <= n,
                out@ =~= self@.take(i as int),
            decreases n - i,
        {
            out.push(self.0[i]);
            proof {
                assert(out@ =~= self@.take(i + 1));
            }
            i = i + 1;
        }
        proof {
            assert(self@.take(n as int) =~= self@);
        }
        out
    }
}

/// A copy of the range `from .. to` of a vector.
pub fn vec_copy_range<T: Copy>(v: &Vec<T>, from: usize, to: usize) -> (r: Vec<T>)
    requires
        from <= to <= v@.len(),
    ensures
        r@ =~= v@.subrange(from as int, to as int),
{
    let mut out: Vec<T> = Vec::new();
    let mut k: usize = from;
    while k < to
        invariant
            from <= k <= to <= v@.len(),
            out@ =~= v@.subrange(from as int, k as int),
        decreases to - k,
    {
        out.push(v[k]);
        proof {
            assert(out@ =~= v@.subrange(from as int, k + 1));
        }
        k = k + 1;
    }
    out
}

/// Removes the range `from .. to` from a vector.
pub fn vec_remove_range<T>(v: &mut Vec<T>, from: usize, to: usize)
    requires
        from <= to <= old(v)@.len(),
    ensures
        final(v)@ =~= old(v)@.take(from as int) + old(v)@.skip(to as int),
{
    let mut k: usize = 0;
    let ghost n = (to - from) as int;
    while k < to - from
        invariant
            from <= to <= old(v)@.len(),
            k <= n,
            n == to - from,
            v@ =~= old(v)@.take(from as int) + old(v)@.skip(from + k),
        decreases n - k,
    {
        let ghost prev = v@;
        v.remove(from);
        proof {
            assert(v@ =~= prev.remove(from as int));
            assert(v@ =~= old(v)@.take(from as int) + old(v)@.skip(from + k + 1));
        }
        k = k + 1;
    }
}

/// Splices `src` into a vector at `at`.
pub fn vec_insert_all<T: Copy>(v: &mut Vec<T>, at: usize, src: &Vec<T>)
    requires
        at <= old(v)@.len(),
        old(v)@.len() + src@.len() <= LEN_MAX,
    ensures
        final(v)@ =~= old(v)@.take(at as int) + src@ + old(v)@.skip(at as int),
{
    let mut i: usize = 0;
    while i < src.len()
        invariant
            at <= old(v)@.len(),
            old(v)@.len() + src@.len() <= LEN_MAX,
            i <= src@.len(),
            v@.len() == old(v)@.len() + i,
            v@ =~= old(v)@.take(at as int) + src@.take(i as int) + old(v)@.skip(at as int),
        decreases src@.len() - i,
    {
        let ghost prev = v@;
        v.insert(at + i, src[i]);
        proof {
            assert(v@ =~= prev.insert(at + i, src@[i as int]));
            assert(v@ =~= old(v)@.take(at as int) + src@.take(i + 1) + old(v)@.skip(at as int));
        }
        i = i + 1;
    }
    proof {
        assert(src@.take(src@.len() as int) =~= src@);
    }
}

} // verus!
