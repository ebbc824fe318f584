//! Bounded, insertion-ordered store of previously submitted lines (oldest
//! first). Pushing at capacity evicts the oldest entry; duplicates and empty
//! lines are stored as submitted, with no deduplication.

use vstd::prelude::*;

use crate::tokenizer::views_of;
use vstd::string::StringExecFns;

verus! {

/// One push: evict the oldest entry when at capacity, then append.
pub open spec fn push_model(h: Seq<Seq<char>>, cap: nat, line: Seq<char>) -> Seq<Seq<char>> {
    if h.len() >= cap {
        h.skip(1).push(line)
    } else {
        h.push(line)
    }
}

/// The store contents after pushing `lines` in order onto `h`.
pub open spec fn push_all(h: Seq<Seq<char>>, cap: nat, lines: Seq<Seq<char>>) -> Seq<Seq<char>>
    decreases lines.len(),
{
    if lines.len() == 0 {
        h
    } else {
        push_all(push_model(h, cap, lines[0]), cap, lines.skip(1))
    }
}

/// Pushing a batch keeps the concatenation's newest entries: the store holds
/// the last `cap` of `h + lines` once they overflow the capacity.
pub proof fn lemma_push_all(h: Seq<Seq<char>>, cap: nat, lines: Seq<Seq<char>>)
    requires
        h.len() <= cap,
        1 <= cap,
    ensures
        push_all(h, cap, lines) =~~= if h.len() + lines.len() <= cap {
            h + lines
        } else {
            (h + lines).skip(h.len() + lines.len() - cap)
        },
    decreases lines.len(),
{
    if lines.len() == 0 {
        assert(h + lines =~= h);
    } else {
        let h1 = push_model(h, cap, lines[0]);
        assert(h1.len() <= cap);
        lemma_push_all(h1, cap, lines.skip(1));
        if h.len() < cap {
            assert(h1 + lines.skip(1) =~~= h + lines);
        } else {
            assert(h1 + lines.skip(1) =~~= (h + lines).skip(1));
            if h1.len() + lines.len() - 1 > cap {
                assert((h + lines).skip(1).skip(h1.len() + lines.len() - 1 - cap) =~~= (h
                    + lines).skip(h.len() + lines.len() - cap));
            }
        }
    }
}

/// After more pushes than the capacity `cap`, the store holds exactly the
/// last `cap` pushed lines, in order.
pub proof fn lemma_history_window(h: Seq<Seq<char>>, cap: nat, lines: Seq<Seq<char>>)
    requires
        h.len() <= cap,
        1 <= cap,
        cap <= lines.len(),
    ensures
        push_all(h, cap, lines).len() == cap,
        push_all(h, cap, lines) =~~= lines.skip(lines.len() - cap),
{
    lemma_push_all(h, cap, lines);
    assert((h + lines).skip(h.len() + lines.len() - cap) =~~= lines.skip(lines.len() - cap));
}

/// Bounded, insertion-ordered buffer of past submitted lines, oldest first.
pub struct HistoryStore {
    items: Vec<String>,
    capacity: usize,
}

impl View for HistoryStore {
    type V = Seq<Seq<char>>;

    closed spec fn view(&self) -> Seq<Seq<char>> {
        views_of(self.items@)
    }
}

impl HistoryStore {
    /// The fixed capacity the store was created with.
    pub closed spec fn cap(&self) -> nat {
        self.capacity as nat
    }

    /// The store never holds more lines than its capacity.
    pub open spec fn wf(&self) -> bool {
        1 <= self.cap() && self@.len() <= self.cap()
    }

    pub fn new(capacity: usize) -> (r: HistoryStore)
        requires
            capacity >= 1,
        ensures
            r.wf(),
            r.cap() == capacity,
            r@ =~= Seq::<Seq<char>>::empty(),
    {
        HistoryStore { items: Vec::new(), capacity }
    }

    pub fn len(&self) -> (r: usize)
        ensures
            r == self@.len(),
    {
        self.items.len()
    }

    pub fn get(&self, index: usize) -> (r: &String)
        requires
            index < self@.len(),
        ensures
            r@ == self@[index as int],
    {
        &self.items[index]
    }

    /// Append `line`, evicting the oldest entry when at capacity.
    pub fn push(&mut self, line: String)
        requires
            old(self).wf(),
        ensures
            final(self).wf(),
            final(self).cap() == old(self).cap(),
            final(self)@ =~~= push_model(old(self)@, old(self).cap(), line@),
    {
        if self.items.len() >= self.capacity {
            self.items.remove(0);
            proof {
                assert(views_of(self.items@) =~~= views_of(old(self).items@).skip(1));
            }
        }
        self.items.push(line);
        proof {
            assert(views_of(self.items@) =~~= views_of(self.items@.drop_last()).push(
                self.items@.last()@,
            ));
        }
    }

    /// All stored lines, oldest first.
    pub fn all(&self) -> (r: Vec<String>)
        ensures
            views_of(r@) =~= self@,
    {
        let mut r: Vec<String> = Vec::new();
        let mut i: usize = 0;
        while i < self.items.len()
            invariant
                0 <= i <= self.items@.len(),
                views_of(r@) =~= views_of(self.items@).take(i as int),
            decreases self.items@.len() - i,
        {
            r.push(self.items[i].clone());
            proof {
                assert(views_of(r@) =~~= views_of(r@.drop_last()).push(r@.last()@));
                assert(views_of(self.items@).take(i + 1) =~= views_of(self.items@).take(
                    i as int,
                ).push(self.items@[i as int]@));
            }
            i = i + 1;
        }
        assert(views_of(self.items@).take(self.items@.len() as int) =~= views_of(self.items@));
        r
    }

    pub fn clear(&mut self)
        ensures
            final(self).cap() == old(self).cap(),
            final(self)@ =~= Seq::<Seq<char>>::empty(),
            old(self).wf() ==> final(self).wf(),
    {
        self.items = Vec::new();
    }

    /// Bulk replace. When more lines are given than the capacity admits, the
    /// newest ones are kept, matching what pushing them one by one would keep.
    pub fn load(&mut self, lines: Vec<String>)
        ensures
            final(self).cap() == old(self).cap(),
            old(self).wf() ==> final(self).wf(),
            final(self)@ =~= if lines@.len() <= old(self).cap() {
                views_of(lines@)
            } else {
                views_of(lines@).skip(lines@.len() - old(self).cap())
            },
    {
        if lines.len() <= self.capacity {
            self.items = lines;
        } else {
            let start = lines.len() - self.capacity;
            let mut kept: Vec<String> = Vec::new();
            let mut i: usize = start;
            while i < lines.len()
                invariant
                    start <= i <= lines@.len(),
                    start == lines@.len() - self.capacity,
                    views_of(kept@) =~= views_of(lines@).subrange(start as int, i as int),
                decreases lines@.len() - i,
            {
                kept.push(lines[i].clone());
                proof {
                    assert(views_of(kept@) =~~= views_of(kept@.drop_last()).push(kept@.last()@));
                    assert(views_of(lines@).subrange(start as int, i + 1) =~= views_of(
                        lines@,
                    ).subrange(start as int, i as int).push(lines@[i as int]@));
                }
                i = i + 1;
            }
            self.items = kept;
            proof {
                assert(views_of(lines@).subrange(start as int, lines@.len() as int) =~= views_of(
                    lines@,
                ).skip(start as int));
            }
        }
    }
}

} // verus!
