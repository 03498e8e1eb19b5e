//! The connection registry: for each connected peer, the frames queued for
//! its writer, and whether its connection is closing.
use vstd::prelude::*;

use crate::codec::copy_range;

verus! {

/// A peer's network address: the IP address as a 128-bit number (an IPv4
/// address in its low 32 bits) and the port.
#[derive(PartialEq, Eq, Structural, Clone, Copy, Debug, Hash)]
pub struct PeerAddress {
    pub ip: u128,
    pub v6: bool,
    pub port: u16,
}

/// The payloads of a vector of frames.
pub open spec fn frames_view(v: Seq<Vec<u8>>) -> Seq<Seq<u8>> {
    v.map_values(|f: Vec<u8>| f@)
}

struct PeerSlot {
    addr: PeerAddress,
    frames: Vec<Vec<u8>>,
    closing: bool,
}

/// Every queue of `m` with `frame` added at its end.
pub open spec fn push_all(m: Map<PeerAddress, Seq<Seq<u8>>>, frame: Seq<u8>) -> Map<
    PeerAddress,
    Seq<Seq<u8>>,
> {
    m.map_values(|q: Seq<Seq<u8>>| q.push(frame))
}

/// Maps each connected peer to the frames that wait for its writer.
pub struct Registry {
    slots: Vec<PeerSlot>,
    queues: Ghost<Map<PeerAddress, Seq<Seq<u8>>>>,
    closing: Ghost<Set<PeerAddress>>,
}

impl Registry {
    /// The connected peers, each with the frames queued for it, oldest first.
    pub closed spec fn queues(&self) -> Map<PeerAddress, Seq<Seq<u8>>> {
        self.queues@
    }

    /// The peers whose writer is to close after its queue.
    pub closed spec fn closing(&self) -> Set<PeerAddress> {
        self.closing@
    }

    pub closed spec fn wf(&self) -> bool {
        &&& forall|i: int, j: int|
            0 <= i < j < self.slots@.len() ==> self.slots@[i].addr != self.slots@[j].addr
        &&& forall|i: int|
            0 <= i < self.slots@.len() ==> {
                let s = #[trigger] self.slots@[i];
                &&& self.queues@.contains_key(s.addr)
                &&& self.queues@[s.addr] == frames_view(s.frames@)
                &&& self.closing@.contains(s.addr) == s.closing
            }
        &&& forall|a: PeerAddress|
            #[trigger] self.queues@.contains_key(a) ==> exists|i: int|
                0 <= i < self.slots@.len() && self.slots@[i].addr == a
        &&& self.closing@.subset_of(self.queues@.dom())
    }

    /// An empty registry.
    pub fn new() -> (r: Registry)
        ensures
            r.wf(),
            r.queues() == Map::<PeerAddress, Seq<Seq<u8>>>::empty(),
            r.closing() == Set::<PeerAddress>::empty(),
    {
        Registry { slots: Vec::new(), queues: Ghost(Map::empty()), closing: Ghost(Set::empty()) }
    }

    /// The slot of `addr`, if it is registered.
    fn find(&self, addr: PeerAddress) -> (r: Option<usize>)
        requires
            self.wf(),
        ensures
            match r {
                Some(i) => i < self.slots@.len() && self.slots@[i as int].addr == addr,
                None => !self.queues().contains_key(addr),
            },
    {
        let mut i: usize = 0;
        while i < self.slots.len()
            invariant
                self.wf(),
                i <= self.slots@.len(),
                forall|j: int| 0 <= j < i ==> self.slots@[j].addr != addr,
            decreases self.slots@.len() - i,
        {
            if self.slots[i].addr == addr {
                return Some(i);
            }
            i = i + 1;
        }
        None
    }

    /// Whether `addr` is registered.
    pub fn contains(&self, addr: PeerAddress) -> (r: bool)
        requires
            self.wf(),
        ensures
            r == self.queues().contains_key(addr),
    {
        self.find(addr).is_some()
    }

    /// The number of registered peers.
    pub fn len(&self) -> (r: usize)
        requires
            self.wf(),
        ensures
            r == self.queues().len(),
    {
        proof {
            self.lemma_len();
        }
        self.slots.len()
    }

    /// Queues `frame` for the writer of `addr`. Returns false, and changes
    /// nothing, when `addr` is not registered.
    pub fn queue_frame(&mut self, addr: PeerAddress, frame: Vec<u8>) -> (r: bool)
        requires
            old(self).wf(),
        ensures
            final(self).wf(),
            r == old(self).queues().contains_key(addr),
            r ==> final(self).queues() == old(self).queues().insert(
                addr,
                old(self).queues()[addr].push(frame@),
            ),
            !r ==> final(self).queues() == old(self).queues(),
            final(self).closing() == old(self).closing(),
    {
        match self.find(addr) {
            None => false,
            Some(i) => {
                let ghost f = frame@;
                let ghost old_frames = self.slots@[i as int].frames@;
                self.slots[i].frames.push(frame);
                proof {
                    assert(frames_view(self.slots@[i as int].frames@) =~= frames_view(old_frames).push(f));
                    self.queues@ = self.queues@.insert(addr, frames_view(old_frames).push(f));
                    assert forall|a: PeerAddress| #[trigger] self.queues@.contains_key(a) implies exists|j: int|
                        0 <= j < self.slots@.len() && self.slots@[j].addr == a by {
                        if a != addr {
                            let j = choose|j: int| 0 <= j < old(self).slots@.len() && old(self).slots@[j].addr == a;
                            assert(self.slots@[j].addr == a);
                        } else {
                            assert(self.slots@[i as int].addr == a);
                        }
                    }
                }
                true
            },
        }
    }

    /// Registers `addr` with an empty queue; a stale entry under the same
    /// address is replaced.
    pub fn register(&mut self, addr: PeerAddress)
        requires
            old(self).wf(),
        ensures
            final(self).wf(),
            final(self).queues() == old(self).queues().insert(addr, Seq::<Seq<u8>>::empty()),
            final(self).closing() == old(self).closing().remove(addr),
    {
        let slot = PeerSlot { addr, frames: Vec::new(), closing: false };
        let ghost mut idx: int = 0;
        match self.find(addr) {
            Some(i) => {
                self.slots.set(i, slot);
                proof {
                    idx = i as int;
                }
            },
            None => {
                self.slots.push(slot);
                proof {
                    idx = self.slots@.len() - 1;
                }
            },
        }
        proof {
            assert(frames_view(slot.frames@) =~= Seq::<Seq<u8>>::empty());
            self.queues@ = old(self).queues@.insert(addr, Seq::<Seq<u8>>::empty());
            self.closing@ = old(self).closing@.remove(addr);
            assert forall|a: PeerAddress| #[trigger] self.queues@.contains_key(a) implies exists|j: int|
                0 <= j < self.slots@.len() && self.slots@[j].addr == a by {
                if a != addr {
                    let j = choose|j: int|
                        0 <= j < old(self).slots@.len() && old(self).slots@[j].addr == a;
                    assert(self.slots@[j].addr == a);
                } else {
                    assert(self.slots@[idx].addr == a);
                }
            }
        }
    }

    /// Removes `addr`; nothing happens when it is absent.
    pub fn unregister(&mut self, addr: PeerAddress)
        requires
            old(self).wf(),
        ensures
            final(self).wf(),
            final(self).queues() == old(self).queues().remove(addr),
            final(self).closing() == old(self).closing().remove(addr),
    {
        match self.find(addr) {
            Some(i) => {
                self.slots.remove(i);
            },
            None => {},
        }
        proof {
            self.queues@ = old(self).queues@.remove(addr);
            self.closing@ = old(self).closing@.remove(addr);
            assert forall|a: PeerAddress| #[trigger] self.queues@.contains_key(a) implies exists|j: int|
                0 <= j < self.slots@.len() && self.slots@[j].addr == a by {
                let j = choose|j: int|
                    0 <= j < old(self).slots@.len() && old(self).slots@[j].addr == a;
                if self.slots@.len() < old(self).slots@.len() {
                    let i = choose|i: int| 0 <= i < old(self).slots@.len() && old(self).slots@[i].addr == addr && self.slots@ == old(self).slots@.remove(i);
                    if j < i {
                        assert(self.slots@[j].addr == a);
                    } else {
                        assert(self.slots@[j - 1].addr == a);
                    }
                } else {
                    assert(self.slots@[j].addr == a);
                }
            }
        }
    }

    /// Queues `frame` for every registered peer.
    pub fn queue_all(&mut self, frame: &Vec<u8>)
        requires
            old(self).wf(),
        ensures
            final(self).wf(),
            final(self).queues() == push_all(old(self).queues(), frame@),
            final(self).closing() == old(self).closing(),
    {
        let n = self.slots.len();
        let mut k: usize = 0;
        while k < n
            invariant
                n == self.slots@.len() == old(self).slots@.len(),
                k <= n,
                forall|j: int|
                    0 <= j < n ==> (#[trigger] self.slots@[j]).addr == old(self).slots@[j].addr
                        && self.slots@[j].closing == old(self).slots@[j].closing,
                forall|j: int|
                    0 <= j < k ==> frames_view((#[trigger] self.slots@[j]).frames@) == frames_view(
                        old(self).slots@[j].frames@,
                    ).push(frame@),
                forall|j: int|
                    k <= j < n ==> (#[trigger] self.slots@[j]).frames@ == old(self).slots@[j].frames@,
                self.queues@ == old(self).queues@,
                self.closing@ == old(self).closing@,
            decreases n - k,
        {
            let copy = copy_range(frame.as_slice(), 0, frame.len());
            assert(copy@ =~= frame@);
            let ghost before = self.slots@[k as int].frames@;
            self.slots[k].frames.push(copy);
            assert(frames_view(self.slots@[k as int].frames@) =~= frames_view(before).push(frame@));
            k = k + 1;
        }
        proof {
            self.queues@ = push_all(old(self).queues@, frame@);
            assert(self.queues@.dom() =~= old(self).queues@.dom());
            assert forall|a: PeerAddress| #[trigger] self.queues@.contains_key(a) implies exists|j: int|
                0 <= j < self.slots@.len() && self.slots@[j].addr == a by {
                let j = choose|j: int|
                    0 <= j < old(self).slots@.len() && old(self).slots@[j].addr == a;
                assert(self.slots@[j].addr == a);
            }
        }
    }

    /// Queues `notice` for every registered peer, and marks each peer's
    /// connection as closing once its queue is written.
    pub fn close_all(&mut self, notice: &Vec<u8>)
        requires
            old(self).wf(),
        ensures
            final(self).wf(),
            final(self).queues() == push_all(old(self).queues(), notice@),
            final(self).closing() == old(self).queues().dom(),
    {
        self.queue_all(notice);
        let ghost mid = self.slots@;
        let ghost queues = self.queues@;
        let n = self.slots.len();
        let mut k: usize = 0;
        while k < n
            invariant
                n == self.slots@.len() == mid.len(),
                k <= n,
                forall|j: int|
                    0 <= j < n ==> (#[trigger] self.slots@[j]).addr == mid[j].addr
                        && self.slots@[j].frames == mid[j].frames,
                forall|j: int| 0 <= j < k ==> (#[trigger] self.slots@[j]).closing,
                forall|j: int| k <= j < n ==> (#[trigger] self.slots@[j]).closing == mid[j].closing,
                self.queues@ == queues,
                queues == push_all(old(self).queues(), notice@),
                forall|i: int| 0 <= i < mid.len() ==> {
                    let s = #[trigger] mid[i];
                    &&& queues.contains_key(s.addr)
                    &&& queues[s.addr] == frames_view(s.frames@)
                },
                forall|a: PeerAddress|
                    #[trigger] queues.contains_key(a) ==> exists|i: int|
                        0 <= i < mid.len() && mid[i].addr == a,
                forall|i: int, j: int| 0 <= i < j < mid.len() ==> mid[i].addr != mid[j].addr,
            decreases n - k,
        {
            self.slots[k].closing = true;
            k = k + 1;
        }
        proof {
            self.closing@ = self.queues@.dom();
            assert(self.queues@.dom() =~= old(self).queues@.dom());
            assert forall|a: PeerAddress| #[trigger] self.queues@.contains_key(a) implies exists|j: int|
                0 <= j < self.slots@.len() && self.slots@[j].addr == a by {
                let j = choose|j: int| 0 <= j < mid.len() && mid[j].addr == a;
                assert(self.slots@[j].addr == a);
            }
        }
    }

    /// Hands the writer of `addr` every frame queued for it, oldest first, and
    /// whether its connection is closing; the queue is left empty. `None` when
    /// `addr` is not registered.
    pub fn take(&mut self, addr: PeerAddress) -> (r: Option<(Vec<Vec<u8>>, bool)>)
        requires
            old(self).wf(),
        ensures
            final(self).wf(),
            final(self).closing() == old(self).closing(),
            old(self).queues().contains_key(addr) ==> (r matches Some((frames, closing))
                && frames_view(frames@) == old(self).queues()[addr]
                && closing == old(self).closing().contains(addr)
                && final(self).queues() == old(self).queues().insert(addr, Seq::<Seq<u8>>::empty())),
            !old(self).queues().contains_key(addr) ==> (r is None
                && final(self).queues() == old(self).queues()),
    {
        match self.find(addr) {
            None => None,
            Some(i) => {
                let mut frames: Vec<Vec<u8>> = Vec::new();
                std::mem::swap(&mut frames, &mut self.slots[i].frames);
                let closing = self.slots[i].closing;
                proof {
                    assert(frames_view(self.slots@[i as int].frames@) =~= Seq::<Seq<u8>>::empty());
                    self.queues@ = old(self).queues@.insert(addr, Seq::<Seq<u8>>::empty());
                    assert forall|a: PeerAddress| #[trigger] self.queues@.contains_key(a) implies exists|j: int|
                        0 <= j < self.slots@.len() && self.slots@[j].addr == a by {
                        if a != addr {
                            let j = choose|j: int|
                                0 <= j < old(self).slots@.len() && old(self).slots@[j].addr == a;
                            assert(self.slots@[j].addr == a);
                        } else {
                            assert(self.slots@[i as int].addr == a);
                        }
                    }
                }
                Some((frames, closing))
            },
        }
    }

    /// Removes every peer.
    pub fn clear(&mut self)
        ensures
            final(self).wf(),
            final(self).queues() == Map::<PeerAddress, Seq<Seq<u8>>>::empty(),
            final(self).closing() == Set::<PeerAddress>::empty(),
    {
        self.slots = Vec::new();
        self.queues = Ghost(Map::empty());
        self.closing = Ghost(Set::empty());
    }

    /// The registered addresses, each once.
    pub fn addresses(&self) -> (r: Vec<PeerAddress>)
        requires
            self.wf(),
        ensures
            r@.no_duplicates(),
            r@.to_set() == self.queues().dom(),
    {
        let mut r: Vec<PeerAddress> = Vec::new();
        let mut k: usize = 0;
        while k < self.slots.len()
            invariant
                self.wf(),
                k <= self.slots@.len(),
                r@.len() == k,
                forall|j: int| 0 <= j < k ==> r@[j] == (#[trigger] self.slots@[j]).addr,
            decreases self.slots@.len() - k,
        {
            r.push(self.slots[k].addr);
            k = k + 1;
        }
        proof {
            assert forall|a: PeerAddress| self.queues().dom().contains(a) implies r@.to_set().contains(a) by {
                let i = choose|i: int| 0 <= i < self.slots@.len() && self.slots@[i].addr == a;
                assert(r@[i] == a);
            }
            assert forall|a: PeerAddress| r@.to_set().contains(a) implies self.queues().dom().contains(a) by {
                let i = choose|i: int| 0 <= i < r@.len() && r@[i] == a;
                assert(self.slots@[i].addr == a);
            }
            assert(r@.to_set() =~= self.queues().dom());
            assert forall|i: int, j: int| 0 <= i < r@.len() && 0 <= j < r@.len() && i != j
                implies r@[i] != r@[j] by {
                if i < j {
                    assert(self.slots@[i].addr != self.slots@[j].addr);
                } else {
                    assert(self.slots@[j].addr != self.slots@[i].addr);
                }
            }
        }
        r
    }

    proof fn lemma_len(&self)
        requires
            self.wf(),
        ensures
            self.queues().len() == self.slots@.len(),
            self.queues().dom().finite(),
    {
        let addrs = self.slots@.map_values(|s: PeerSlot| s.addr);
        assert(addrs.no_duplicates()) by {
            assert forall|i: int, j: int| 0 <= i < addrs.len() && 0 <= j < addrs.len() && i != j
                implies addrs[i] != addrs[j] by {
                if i < j {
                } else {
                }
            }
        }
        assert(self.queues@.dom() =~= addrs.to_set()) by {
            assert forall|a: PeerAddress| self.queues@.dom().contains(a) implies addrs.to_set().contains(a) by {
                let i = choose|i: int| 0 <= i < self.slots@.len() && self.slots@[i].addr == a;
                assert(addrs[i] == a);
            }
            assert forall|a: PeerAddress| addrs.to_set().contains(a) implies self.queues@.dom().contains(a) by {
                let i = choose|i: int| 0 <= i < addrs.len() && addrs[i] == a;
                assert(self.slots@[i].addr == a);
            }
        }
        addrs.unique_seq_to_set();
    }
}

} // verus!
