//! Hierarchical application keys.
//!
//! A key is an ordered sequence of non-empty segments; its canonical byte
//! form joins the segments with `/`, which no segment may contain.

use vstd::prelude::*;

use crate::state::Error;

verus! {

/// A valid segment: non-empty and free of the separator.
pub open spec fn seg_ok(s: Seq<u8>) -> bool {
    s.len() > 0 && forall|i: int| 0 <= i < s.len() ==> s[i] != 47
}

/// The canonical byte form: segments joined by `/`.
pub open spec fn key_bytes(segs: Seq<Seq<u8>>) -> Seq<u8>
    decreases segs.len(),
{
    if segs.len() == 0 {
        Seq::empty()
    } else if segs.len() == 1 {
        segs[0]
    } else {
        key_bytes(segs.drop_last()) + seq![47u8] + segs.last()
    }
}

/// A hierarchical storage key.
#[derive(Debug, Clone, PartialEq, Eq)]
pub struct Key {
    segments: Vec<Vec<u8>>,
}

impl View for Key {
    type V = Seq<Seq<u8>>;

    closed spec fn view(&self) -> Seq<Seq<u8>> {
        Seq::new(self.segments@.len(), |i: int| self.segments@[i]@)
    }
}

impl Key {
    /// At least one segment, each valid.
    pub open spec fn wf(&self) -> bool {
        self@.len() >= 1 && forall|i: int| 0 <= i < self@.len() ==> seg_ok(#[trigger] self@[i])
    }

    /// A key of one segment; an invalid segment is rejected.
    pub fn from_segment(seg: &[u8]) -> (r: Result<Key, Error>)
        ensures
            match r {
                Ok(k) => seg_ok(seg@) && k.wf() && k@ == seq![seg@],
                Err(e) => !seg_ok(seg@) && e == Error::KeyError,
            },
    {
        if !segment_valid(seg) {
            return Err(Error::KeyError);
        }
        let mut segments: Vec<Vec<u8>> = Vec::new();
        segments.push(crate::order::copy_bytes(seg));
        let k = Key { segments };
        proof {
            assert(k@ =~= seq![seg@]);
        }
        Ok(k)
    }

    /// This key extended by one segment; an invalid segment is rejected.
    pub fn push(&self, seg: &[u8]) -> (r: Result<Key, Error>)
        requires
            self.wf(),
        ensures
            match r {
                Ok(k) => seg_ok(seg@) && k.wf() && k@ == self@.push(seg@),
                Err(e) => !seg_ok(seg@) && e == Error::KeyError,
            },
    {
        if !segment_valid(seg) {
            return Err(Error::KeyError);
        }
        let mut segments = self.clone_segments();
        segments.push(crate::order::copy_bytes(seg));
        let k = Key { segments };
        proof {
            assert(k@ =~= self@.push(seg@));
        }
        Ok(k)
    }

    /// This key used as a namespace for `other`: the segments of `other`
    /// appended to those of this key.
    pub fn join(&self, other: &Key) -> (r: Key)
        requires
            self.wf(),
            other.wf(),
        ensures
            r.wf(),
            r@ == self@ + other@,
    {
        let mut segments = self.clone_segments();
        let mut i: usize = 0;
        while i < other.segments.len()
            invariant
                i <= other.segments@.len(),
                other@.len() == other.segments@.len(),
                segments@.len() == self@.len() + i,
                forall|j: int| 0 <= j < self@.len() ==> #[trigger] segments@[j]@ == self@[j],
                forall|j: int|
                    0 <= j < i ==> #[trigger] segments@[self@.len() + j]@ == other@[j],
            decreases other.segments@.len() - i,
        {
            proof {
                assert(other@[i as int] == other.segments@[i as int]@);
            }
            segments.push(crate::order::copy_bytes(other.segments[i].as_slice()));
            i = i + 1;
        }
        let k = Key { segments };
        proof {
            assert forall|j: int| 0 <= j < k@.len() implies k@[j] == (self@ + other@)[j] by {
                if j < self@.len() {
                    assert(segments@[j]@ == self@[j]);
                } else {
                    assert(segments@[self@.len() + (j - self@.len())]@ == other@[j - self@.len()]);
                }
            }
            assert(k@ =~= self@ + other@);
        }
        k
    }

    /// The canonical byte form of this key.
    pub fn to_db_bytes(&self) -> (r: Vec<u8>)
        requires
            self.wf(),
        ensures
            r@ == key_bytes(self@),
    {
        let mut r = crate::order::copy_bytes(self.segments[0].as_slice());
        let mut i: usize = 1;
        proof {
            assert(self@.take(1).len() == 1 && self@.take(1)[0] == self@[0]);
            assert(r@ == key_bytes(self@.take(1)));
        }
        while i < self.segments.len()
            invariant
                1 <= i <= self.segments@.len(),
                self@.len() == self.segments@.len(),
                r@ == key_bytes(self@.take(i as int)),
            decreases self.segments@.len() - i,
        {
            r.push(47);
            crate::order::push_all(&mut r, self.segments[i].as_slice());
            proof {
                let t = self@.take(i + 1);
                assert(t.drop_last() =~= self@.take(i as int));
                assert(t.last() == self@[i as int]);
                assert(self@[i as int] == self.segments@[i as int]@);
                assert(r@ == key_bytes(self@.take(i as int)) + seq![47u8] + self@[i as int]);
            }
            i = i + 1;
        }
        proof {
            assert(self@.take(self@.len() as int) =~= self@);
        }
        r
    }

    /// The number of segments.
    pub fn len(&self) -> (r: usize)
        ensures
            r == self@.len(),
    {
        self.segments.len()
    }

    fn clone_segments(&self) -> (r: Vec<Vec<u8>>)
        ensures
            r@.len() == self@.len(),
            forall|j: int| 0 <= j < self@.len() ==> #[trigger] r@[j]@ == self@[j],
    {
        let mut r: Vec<Vec<u8>> = Vec::new();
        let mut i: usize = 0;
        while i < self.segments.len()
            invariant
                i <= self.segments@.len(),
                r@.len() == i,
                forall|j: int| 0 <= j < i ==> #[trigger] r@[j]@ == self.segments@[j]@,
            decreases self.segments@.len() - i,
        {
            r.push(crate::order::copy_bytes(self.segments[i].as_slice()));
            i = i + 1;
        }
        r
    }
}

/// A segment is valid when non-empty and free of the separator.
fn segment_valid(seg: &[u8]) -> (r: bool)
    ensures
        r == seg_ok(seg@),
{
    if seg.len() == 0 {
        return false;
    }
    let mut i: usize = 0;
    while i < seg.len()
        invariant
            i <= seg.len(),
            forall|j: int| 0 <= j < i ==> seg@[j] != 47,
        decreases seg.len() - i,
    {
        if seg[i] == 47 {
            return false;
        }
        i = i + 1;
    }
    true
}

} // verus!
