//! The readiness multiplexer's registry: which descriptor feeds which
//! accumulator.  The caller waits for readiness and performs the reads.

use vstd::prelude::*;

verus! {

/// The accumulator that a registered descriptor feeds.
#[derive(Clone, Copy, Debug, PartialEq, Eq, Structural)]
pub enum ReaderId {
    /// The error channel.
    ErrPipe,
    /// The in-memory capture of descriptor action `action` of process `proc`.
    Capture { proc: usize, action: usize },
}

/// The map that a list of (descriptor, reader) pairs with distinct
/// descriptors denotes.
pub open spec fn to_map(s: Seq<(i32, ReaderId)>) -> Map<i32, ReaderId>
    decreases s.len(),
{
    if s.len() == 0 {
        Map::empty()
    } else {
        to_map(s.drop_last()).insert(s.last().0, s.last().1)
    }
}

pub open spec fn distinct_fds(s: Seq<(i32, ReaderId)>) -> bool {
    forall|i: int, j: int| 0 <= i < j < s.len() ==> (#[trigger] s[i]).0 != (#[trigger] s[j]).0
}

proof fn lemma_to_map(s: Seq<(i32, ReaderId)>)
    requires
        distinct_fds(s),
    ensures
        forall|k: i32| #[trigger] to_map(s).contains_key(k) <==> exists|i: int| 0 <= i < s.len() && s[i].0 == k,
        forall|i: int| 0 <= i < s.len() ==> to_map(s)[(#[trigger] s[i]).0] == s[i].1,
    decreases s.len(),
{
    if s.len() > 0 {
        let t = s.drop_last();
        assert(distinct_fds(t)) by {
            assert forall|i: int, j: int| 0 <= i < j < t.len() implies (#[trigger] t[i]).0 != (#[trigger] t[j]).0 by {
                assert(t[i] == s[i] && t[j] == s[j]);
            }
        }
        lemma_to_map(t);
        assert forall|k: i32| #[trigger] to_map(s).contains_key(k) <==> exists|i: int| 0 <= i < s.len() && s[i].0 == k by {
            if to_map(s).contains_key(k) && k != s.last().0 {
                assert(to_map(t).contains_key(k));
                let i = choose|i: int| 0 <= i < t.len() && t[i].0 == k;
                assert(s[i].0 == k);
            }
            if exists|i: int| 0 <= i < s.len() && s[i].0 == k {
                let i = choose|i: int| 0 <= i < s.len() && s[i].0 == k;
                if i < s.len() - 1 {
                    assert(t[i].0 == k);
                }
            }
        }
        assert forall|i: int| 0 <= i < s.len() implies to_map(s)[(#[trigger] s[i]).0] == s[i].1 by {
            if i < s.len() - 1 {
                assert(t[i] == s[i]);
                assert(s[i].0 != s[s.len() - 1].0);
            }
        }
    }
}

/// The multiplexer's registry.
pub struct Select {
    readers: Vec<(i32, ReaderId)>,
}

impl Select {
    /// Registered descriptors and the readers they feed.
    pub closed spec fn view(&self) -> Map<i32, ReaderId> {
        to_map(self.readers@)
    }

    pub closed spec fn wf(&self) -> bool {
        distinct_fds(self.readers@)
    }

    pub fn new() -> (r: Select)
        ensures
            r.wf(),
            r@ == Map::<i32, ReaderId>::empty(),
    {
        Select { readers: Vec::new() }
    }

    /// Whether any descriptor is still registered.
    pub fn any(&self) -> (r: bool)
        requires
            self.wf(),
        ensures
            r == exists|fd: i32| self@.contains_key(fd),
    {
        proof {
            lemma_to_map(self.readers@);
            if self.readers@.len() > 0 {
                assert(self@.contains_key(self.readers@[0].0));
            }
        }
        self.readers.len() > 0
    }

    /// Registers descriptor `fd` to feed `reader`.
    pub fn insert_reader(&mut self, fd: i32, reader: ReaderId)
        requires
            old(self).wf(),
        ensures
            final(self).wf(),
            final(self)@ == old(self)@.insert(fd, reader),
    {
        proof {
            lemma_to_map(self.readers@);
        }
        let ghost old_map = self@;
        let n = self.readers.len();
        let mut i: usize = 0;
        while i < n
            invariant
                n == self.readers@.len(),
                self.readers@ == old(self).readers@,
                distinct_fds(self.readers@),
                old_map == to_map(self.readers@),
                i <= n,
                forall|j: int| 0 <= j < i ==> (#[trigger] self.readers@[j]).0 != fd,
            decreases n - i,
        {
            if self.readers[i].0 == fd {
                let ghost s = self.readers@;
                self.readers.set(i, (fd, reader));
                proof {
                    let t = self.readers@;
                    lemma_to_map(s);
                    assert forall|a: int, b: int| 0 <= a < b < t.len() implies (#[trigger] t[a]).0 != (#[trigger] t[b]).0 by {
                        assert(t[a].0 == s[a].0 && t[b].0 == s[b].0);
                    }
                    lemma_to_map(t);
                    assert forall|k: i32| #[trigger] to_map(t).contains_key(k) == old_map.insert(fd, reader).contains_key(k) by {
                        assert(t[i as int].0 == fd);
                        if old_map.insert(fd, reader).contains_key(k) && k != fd {
                            let j = choose|j: int| 0 <= j < s.len() && s[j].0 == k;
                            assert(t[j].0 == k);
                        }
                        if to_map(t).contains_key(k) {
                            let j = choose|j: int| 0 <= j < t.len() && t[j].0 == k;
                            assert(s[j].0 == k);
                        }
                    }
                    assert forall|k: i32| to_map(t).contains_key(k) implies to_map(t)[k] == old_map.insert(fd, reader)[k] by {
                        let j = choose|j: int| 0 <= j < t.len() && t[j].0 == k;
                        assert(t[j].0 == k);
                        if j != i {
                            assert(s[j] == t[j]);
                        }
                    }
                    assert(to_map(t) =~= old_map.insert(fd, reader));
                }
                return;
            }
            i = i + 1;
        }
        self.readers.push((fd, reader));
        proof {
            let t = self.readers@;
            assert(t.drop_last() =~= old(self).readers@);
            assert forall|a: int, b: int| 0 <= a < b < t.len() implies (#[trigger] t[a]).0 != (#[trigger] t[b]).0 by {
                if b == t.len() - 1 {
                    assert(t[a] == old(self).readers@[a]);
                } else {
                    assert(t[a] == old(self).readers@[a] && t[b] == old(self).readers@[b]);
                }
            }
        }
    }

    /// Unregisters descriptor `fd`, returning the reader it fed.
    pub fn remove_reader(&mut self, fd: i32) -> (r: Option<ReaderId>)
        requires
            old(self).wf(),
        ensures
            final(self).wf(),
            final(self)@ == old(self)@.remove(fd),
            r == (if old(self)@.contains_key(fd) {
                Some(old(self)@[fd])
            } else {
                None::<ReaderId>
            }),
    {
        proof {
            lemma_to_map(self.readers@);
        }
        let ghost s = self.readers@;
        let n = self.readers.len();
        let mut i: usize = 0;
        while i < n
            invariant
                n == self.readers@.len(),
                self.readers@ == s,
                s == old(self).readers@,
                distinct_fds(s),
                i <= n,
                forall|j: int| 0 <= j < i ==> (#[trigger] s[j]).0 != fd,
            decreases n - i,
        {
            if self.readers[i].0 == fd {
                let (_, reader) = self.readers.remove(i);
                proof {
                    lemma_to_map(s);
                    let t = self.readers@;
                    assert(t =~= s.remove(i as int));
                    assert forall|a: int, b: int| 0 <= a < b < t.len() implies (#[trigger] t[a]).0 != (#[trigger] t[b]).0 by {
                        let a2 = if a < i { a } else { a + 1 };
                        let b2 = if b < i { b } else { b + 1 };
                        assert(t[a] == s[a2] && t[b] == s[b2]);
                    }
                    lemma_to_map(t);
                    let m = to_map(s).remove(fd);
                    assert forall|k: i32| #[trigger] m.contains_key(k) == to_map(t).contains_key(k) by {
                        if m.contains_key(k) {
                            let j = choose|j: int| 0 <= j < s.len() && s[j].0 == k;
                            assert(j != i);
                            let j2 = if j < i { j } else { j - 1 };
                            assert(t[j2] == s[j]);
                        }
                        if to_map(t).contains_key(k) {
                            let j = choose|j: int| 0 <= j < t.len() && t[j].0 == k;
                            let j2 = if j < i { j } else { j + 1 };
                            assert(t[j] == s[j2]);
                            assert(s[j2].0 != s[i as int].0 || j2 == i);
                        }
                    }
                    assert forall|k: i32| m.contains_key(k) implies m[k] == to_map(t)[k] by {
                        let j = choose|j: int| 0 <= j < t.len() && t[j].0 == k;
                        let j2 = if j < i { j } else { j + 1 };
                        assert(t[j] == s[j2]);
                    }
                    assert(m =~= to_map(t));
                }
                return Some(reader);
            }
            i = i + 1;
        }
        proof {
            lemma_to_map(s);
            assert(!to_map(s).contains_key(fd));
            assert(to_map(s).remove(fd) =~= to_map(s));
        }
        None
    }

    /// The registered descriptors, for the readiness wait.
    pub fn read_fds(&self) -> (r: Vec<i32>)
        requires
            self.wf(),
        ensures
            r@.to_set() == self@.dom(),
    {
        proof {
            lemma_to_map(self.readers@);
        }
        let mut r: Vec<i32> = Vec::new();
        let mut i: usize = 0;
        while i < self.readers.len()
            invariant
                i <= self.readers@.len(),
                r@.len() == i,
                forall|j: int| 0 <= j < i ==> r@[j] == (#[trigger] self.readers@[j]).0,
            decreases self.readers@.len() - i,
        {
            r.push(self.readers[i].0);
            i = i + 1;
        }
        assert forall|k: i32| #[trigger] r@.to_set().contains(k) == self@.dom().contains(k) by {
            if self@.dom().contains(k) {
                let j = choose|j: int| 0 <= j < self.readers@.len() && self.readers@[j].0 == k;
                assert(r@[j] == k);
            }
            if r@.to_set().contains(k) {
                let j = choose|j: int| 0 <= j < r@.len() && r@[j] == k;
                assert(self.readers@[j].0 == k);
            }
        }
        assert(r@.to_set() =~= self@.dom());
        r
    }

    /// The registered readers whose descriptor is in `ready`, each once.
    pub fn ready_readers(&self, ready: &[i32]) -> (r: Vec<(i32, ReaderId)>)
        requires
            self.wf(),
        ensures
            distinct_fds(r@),
            to_map(r@) == self@.restrict(ready@.to_set()),
    {
        proof {
            lemma_to_map(self.readers@);
        }
        let ghost s = self.readers@;
        let mut r: Vec<(i32, ReaderId)> = Vec::new();
        let mut i: usize = 0;
        while i < self.readers.len()
            invariant
                s == self.readers@,
                distinct_fds(s),
                i <= s.len(),
                distinct_fds(r@),
                forall|j: int| 0 <= j < r@.len() ==> exists|a: int| 0 <= a < i && (#[trigger] r@[j]) == s[a],
                forall|a: int| 0 <= a < i && ready@.contains(s[a].0) ==> exists|j: int| 0 <= j < r@.len() && (#[trigger] r@[j]) == s[a],
                forall|j: int| 0 <= j < r@.len() ==> ready@.contains((#[trigger] r@[j]).0),
            decreases s.len() - i,
        {
            let (fd, reader) = self.readers[i];
            let mut k: usize = 0;
            let mut found = false;
            while k < ready.len()
                invariant
                    k <= ready@.len(),
                    found == exists|b: int| 0 <= b < k && ready@[b] == fd,
                decreases ready@.len() - k,
            {
                if ready[k] == fd {
                    found = true;
                }
                k = k + 1;
            }
            if found {
                let ghost old_r = r@;
                r.push((fd, reader));
                proof {
                    assert(r@[r@.len() - 1] == s[i as int]);
                    assert forall|a: int, b: int| 0 <= a < b < r@.len() implies (#[trigger] r@[a]).0 != (#[trigger] r@[b]).0 by {
                        if b == r@.len() - 1 {
                            assert(r@[a] == old_r[a]);
                            let a2 = choose|a2: int| 0 <= a2 < i && old_r[a] == s[a2];
                        } else {
                            assert(r@[a] == old_r[a] && r@[b] == old_r[b]);
                        }
                    }
                    assert forall|j: int| 0 <= j < r@.len() implies exists|a: int| 0 <= a < i + 1 && (#[trigger] r@[j]) == s[a] by {
                        if j < r@.len() - 1 {
                            assert(r@[j] == old_r[j]);
                        }
                    }
                    assert forall|a: int| 0 <= a < i + 1 && ready@.contains(s[a].0) implies exists|j: int| 0 <= j < r@.len() && (#[trigger] r@[j]) == s[a] by {
                        if a < i {
                            let j = choose|j: int| 0 <= j < old_r.len() && old_r[j] == s[a];
                            assert(r@[j] == old_r[j]);
                        } else {
                            assert(r@[r@.len() - 1] == s[a]);
                        }
                    }
                    assert forall|j: int| 0 <= j < r@.len() implies ready@.contains((#[trigger] r@[j]).0) by {
                        if j < r@.len() - 1 {
                            assert(r@[j] == old_r[j]);
                        } else {
                            assert(ready@[k - 1] == fd || exists|b: int| 0 <= b < ready@.len() && ready@[b] == fd);
                        }
                    }
                }
            } else {
                proof {
                    assert(!ready@.contains(fd));
                }
            }
            i = i + 1;
        }
        proof {
            lemma_to_map(r@);
            let m = to_map(s).restrict(ready@.to_set());
            assert forall|key: i32| #[trigger] m.contains_key(key) == to_map(r@).contains_key(key) by {
                if m.contains_key(key) {
                    let a = choose|a: int| 0 <= a < s.len() && s[a].0 == key;
                    let j = choose|j: int| 0 <= j < r@.len() && r@[j] == s[a];
                }
                if to_map(r@).contains_key(key) {
                    let j = choose|j: int| 0 <= j < r@.len() && r@[j].0 == key;
                    let a = choose|a: int| 0 <= a < s.len() && r@[j] == s[a];
                }
            }
            assert forall|key: i32| m.contains_key(key) implies m[key] == to_map(r@)[key] by {
                let j = choose|j: int| 0 <= j < r@.len() && r@[j].0 == key;
                let a = choose|a: int| 0 <= a < s.len() && r@[j] == s[a];
            }
            assert(m =~= to_map(r@));
        }
        r
    }
}

} // verus!
