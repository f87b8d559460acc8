//! An intrusive singly linked list whose nodes live in physical memory: the
//! first word of a node holds the address of the next node, and zero ends
//! the list.

use vstd::prelude::*;
use crate::mm::page_table_entry::PhysAddr;
use crate::mm::phys_mem::PhysMemory;

verus! {

/// The word that a chain of `nodes` holds at the place of node `i`: the next
/// node's address, zero behind the last one.
pub open spec fn link_after(nodes: Seq<u64>, i: int) -> u64 {
    if i + 1 < nodes.len() {
        nodes[i + 1]
    } else {
        0
    }
}

/// `nodes` is a chain in `mem`: its nodes are distinct non-null word
/// addresses of `mem`, and the word at each is the address of the next one,
/// zero at the last.
pub open spec fn is_chain(nodes: Seq<u64>, mem: &PhysMemory) -> bool {
    &&& nodes.no_duplicates()
    &&& forall|i: int| 0 <= i < nodes.len() ==> #[trigger] nodes[i] != 0 && mem.has_word(nodes[i])
    &&& forall|i: int|
        0 <= i < nodes.len() ==> mem.word(nodes[i]) == #[trigger] link_after(nodes, i)
}

/// The address that starts a chain of `nodes`: the first node, zero where
/// there is none.
pub open spec fn chain_start(nodes: Seq<u64>) -> u64 {
    if nodes.len() == 0 {
        0
    } else {
        nodes[0]
    }
}

/// A chain stays one where memory changes at no word of its nodes.
pub proof fn lemma_chain_survives(nodes: Seq<u64>, before: &PhysMemory, after: &PhysMemory)
    requires
        is_chain(nodes, before),
        after.base() == before.base(),
        after@.len() >= before@.len(),
        forall|i: int|
            0 <= i < nodes.len() ==> after.word(#[trigger] nodes[i]) == before.word(nodes[i]),
    ensures
        is_chain(nodes, after),
{
    assert forall|i: int| 0 <= i < nodes.len() implies after.word(nodes[i])
        == #[trigger] link_after(nodes, i) by {
        assert(before.word(nodes[i]) == link_after(nodes, i));
    }
}

/// A chain with a new node in front of it, whose word has been set to the
/// chain's start, is a chain.
pub proof fn lemma_chain_grows(nodes: Seq<u64>, item: u64, before: &PhysMemory, after: &PhysMemory)
    requires
        is_chain(nodes, before),
        item != 0,
        before.has_word(item),
        !nodes.contains(item),
        after.base() == before.base(),
        after@.len() == before@.len(),
        after.word(item) == chain_start(nodes),
        forall|other: u64|
            before.has_word(other) && other != item ==> #[trigger] after.word(other)
                == before.word(other),
    ensures
        is_chain(seq![item] + nodes, after),
{
    let grown: Seq<u64> = seq![item] + nodes;
    assert(grown[0] == item);
    assert forall|i: int| 1 <= i < grown.len() implies grown[i] == nodes[i - 1] by {}
    assert forall|i: int, j: int|
        0 <= i < grown.len() && 0 <= j < grown.len() && i != j implies grown[i] != grown[j] by {
        if i > 0 && j > 0 {
            assert(nodes[i - 1] != nodes[j - 1]);
        } else if i > 0 {
            assert(nodes.contains(nodes[i - 1]));
        } else {
            assert(nodes.contains(nodes[j - 1]));
        }
    }
    assert forall|i: int| 0 <= i < grown.len() implies #[trigger] grown[i] != 0 && after.has_word(
        grown[i],
    ) by {
        if i > 0 {
            assert(grown[i] == nodes[i - 1]);
        }
    }
    assert forall|i: int| 0 <= i < grown.len() implies after.word(grown[i])
        == #[trigger] link_after(grown, i) by {
        if i > 0 {
            let n: u64 = nodes[i - 1];
            assert(grown[i] == n);
            assert(nodes.contains(n));
            assert(n != 0 && before.has_word(n));
            assert(before.word(n) == link_after(nodes, i - 1));
            assert(after.word(n) == before.word(n));
            assert(link_after(grown, i) == link_after(nodes, i - 1)) by {
                if i + 1 < grown.len() {
                    assert(grown[i + 1] == nodes[i]);
                }
            }
        } else {
            if nodes.len() > 0 {
                assert(grown[1] == nodes[0]);
            }
        }
    }
}

/// What is left of a chain behind its first node is a chain, and it starts
/// at the address that the first node holds.
pub proof fn lemma_chain_tail(nodes: Seq<u64>, mem: &PhysMemory)
    requires
        is_chain(nodes, mem),
        nodes.len() > 0,
    ensures
        is_chain(nodes.drop_first(), mem),
        chain_start(nodes.drop_first()) == mem.word(nodes[0]),
{
    let after: Seq<u64> = nodes.drop_first();
    assert forall|i: int| 0 <= i < after.len() implies #[trigger] after[i] != 0 && mem.has_word(
        after[i],
    ) by {
        assert(after[i] == nodes[i + 1]);
    }
    assert forall|i: int| 0 <= i < after.len() implies mem.word(after[i])
        == #[trigger] link_after(after, i) by {
        assert(after[i] == nodes[i + 1]);
        assert(link_after(nodes, i + 1) == link_after(after, i));
    }
    assert forall|i: int, j: int|
        0 <= i < after.len() && 0 <= j < after.len() && i != j implies after[i] != after[j] by {
        assert(nodes[i + 1] != nodes[j + 1]);
    }
    assert(nodes[0] != 0);
    assert(mem.word(nodes[0]) == link_after(nodes, 0));
}

/// A chain without its node at place `at`, the node in front of which has
/// been given the address that the node held, is a chain.
pub proof fn lemma_chain_shrinks(nodes: Seq<u64>, at: int, before: &PhysMemory, after: &PhysMemory)
    requires
        before.wf(),
        is_chain(nodes, before),
        0 <= at < nodes.len(),
        after.base() == before.base(),
        after@.len() == before@.len(),
        at > 0 ==> after.word(nodes[at - 1]) == link_after(nodes, at),
        forall|other: u64|
            before.has_word(other) && !(at > 0 && other == nodes[at - 1])
                ==> #[trigger] after.word(other) == before.word(other),
    ensures
        is_chain(nodes.remove(at), after),
        chain_start(nodes.remove(at)) == (if at == 0 {
            link_after(nodes, 0)
        } else {
            nodes[0]
        }),
{
    let rest: Seq<u64> = nodes.remove(at);
    assert forall|i: int| 0 <= i < rest.len() implies rest[i] == (if i < at {
        nodes[i]
    } else {
        nodes[i + 1]
    }) by {}
    assert forall|i: int, j: int|
        0 <= i < rest.len() && 0 <= j < rest.len() && i != j implies rest[i] != rest[j] by {
        let a: int = if i < at {
            i
        } else {
            i + 1
        };
        let b: int = if j < at {
            j
        } else {
            j + 1
        };
        assert(nodes[a] != nodes[b]);
    }
    assert forall|i: int| 0 <= i < rest.len() implies #[trigger] rest[i] != 0 && after.has_word(
        rest[i],
    ) by {
        let a: int = if i < at {
            i
        } else {
            i + 1
        };
        assert(nodes[a] != 0 && before.has_word(nodes[a]));
    }
    assert forall|i: int| 0 <= i < rest.len() implies after.word(rest[i])
        == #[trigger] link_after(rest, i) by {
        let a: int = if i < at {
            i
        } else {
            i + 1
        };
        assert(rest[i] == nodes[a]);
        assert(nodes[a] != 0 && before.has_word(nodes[a]));
        assert(before.word(nodes[a]) == link_after(nodes, a));
        if i + 1 < rest.len() {
            assert(rest[i + 1] == (if i + 1 < at {
                nodes[i + 1]
            } else {
                nodes[i + 2]
            }));
        }
        if at > 0 && a == at - 1 {
            assert(after.word(nodes[a]) == link_after(nodes, at));
        } else {
            if at > 0 {
                assert(nodes[a] != nodes[at - 1]);
            }
            assert(after.word(nodes[a]) == before.word(nodes[a]));
        }
    }
    if at == 0 && nodes.len() > 1 {
        assert(rest[0] == nodes[1]);
    }
    if at > 0 {
        assert(rest[0] == nodes[0]);
    }
}

/// The list: the address of its first node, zero where it is empty. Its
/// view is the sequence of its nodes' addresses, first node first.
pub struct LinkedList {
    head: u64,
    nodes: Ghost<Seq<u64>>,
}

impl View for LinkedList {
    type V = Seq<u64>;

    closed spec fn view(&self) -> Seq<u64> {
        self.nodes@
    }
}

impl LinkedList {
    /// Address of the first node, zero for the empty list.
    pub closed spec fn head_addr(&self) -> u64 {
        self.head
    }

    /// The list is a chain in `mem` that starts at its head.
    pub open spec fn wf(&self, mem: &PhysMemory) -> bool {
        &&& self.head_addr() == chain_start(self@)
        &&& is_chain(self@, mem)
    }

    /// Create a new LinkedList: the empty one, a chain in any memory.
    pub fn new() -> (r: Self)
        ensures
            r@ == Seq::<u64>::empty(),
            r.head_addr() == 0,
            forall|mem: &PhysMemory| r.wf(mem),
    {
        Self { head: 0, nodes: Ghost(Seq::empty()) }
    }

    /// Check empty: the head is null, which for a chain means that it has no
    /// node.
    pub fn is_empty(&self) -> (r: bool)
        ensures
            r == (self.head_addr() == 0),
            (exists|mem: &PhysMemory| self.wf(mem)) ==> r == (self@.len() == 0),
    {
        self.head == 0
    }

    /// Push to front: the head's address is written to the first word of
    /// `item`, which becomes the head. No other word changes.
    pub fn push(&mut self, mem: &mut PhysMemory, item: PhysAddr)
        requires
            old(mem).wf(),
            old(self).wf(old(mem)),
            item@ != 0,
            old(mem).has_word(item@),
            !old(self)@.contains(item@),
        ensures
            final(mem).wf(),
            final(self).wf(final(mem)),
            final(self)@ == seq![item@] + old(self)@,
            final(self).head_addr() == item@,
            final(mem).base() == old(mem).base(),
            final(mem)@.len() == old(mem)@.len(),
            final(mem)@ == old(mem)@.update(old(mem).word_index(item@), old(self).head_addr()),
            final(mem).word(item@) == old(self).head_addr(),
            forall|other: u64|
                old(mem).has_word(other) && other != item@ ==> #[trigger] final(mem).word(other)
                    == old(mem).word(other),
    {
        let ghost before: Seq<u64> = self.nodes@;
        let written: bool = mem.write(item, self.head);
        self.head = item.to_u64();
        self.nodes = Ghost(seq![item@] + before);
        proof {
            lemma_chain_grows(before, item@, old(mem), mem);
        }
    }

    /// Pop from front: the head leaves the list and the word at its place
    /// names the new head. Memory is only read.
    pub fn pop(&mut self, mem: &PhysMemory) -> (r: Option<PhysAddr>)
        requires
            mem.wf(),
            old(self).wf(mem),
        ensures
            final(self).wf(mem),
            r is None <==> old(self)@.len() == 0,
            r is None ==> final(self)@ == old(self)@,
            r matches Some(item) ==> {
                &&& item@ == old(self)@[0]
                &&& final(self)@ == old(self)@.drop_first()
            },
    {
        if self.head == 0 {
            return None;
        }
        let ghost before: Seq<u64> = self.nodes@;
        let item: u64 = self.head;
        assert(before[0] == item);
        let next: Option<u64> = mem.read(PhysAddr::new(item));
        match next {
            None => None,
            Some(link) => {
                self.head = link;
                self.nodes = Ghost(before.drop_first());
                proof {
                    lemma_chain_tail(before, mem);
                }
                Some(PhysAddr::new(item))
            },
        }
    }

    /// Get iterator: a cursor at the head, with the whole list ahead of it.
    pub fn iter(&self) -> (r: Iter)
        ensures
            r@ == self@,
            forall|mem: &PhysMemory| self.wf(mem) ==> r.wf(mem),
    {
        Iter { curr: self.head, rest: Ghost(self.nodes@) }
    }

    /// Get mutable iterator: a cursor at the head that hands out the nodes
    /// together with their places in the list, so that a node can be taken
    /// out.
    pub fn iter_mut(&mut self) -> (r: IterMut)
        ensures
            *final(self) == *old(self),
            r.nodes() == old(self)@,
            r.position() == 0,
            forall|mem: &PhysMemory| old(self).wf(mem) ==> r.wf(mem),
    {
        IterMut { prev: 0, curr: self.head, all: Ghost(self.nodes@), position: Ghost(0) }
    }
}

/// A cursor over the linked list. Its view is the run of nodes that it has
/// not handed out yet.
pub struct Iter {
    curr: u64,
    rest: Ghost<Seq<u64>>,
}

impl View for Iter {
    type V = Seq<u64>;

    closed spec fn view(&self) -> Seq<u64> {
        self.rest@
    }
}

impl Iter {
    /// Address of the node that comes next, zero behind the last.
    pub closed spec fn curr_addr(&self) -> u64 {
        self.curr
    }

    /// The nodes ahead are a chain in `mem` that starts at the cursor.
    pub open spec fn wf(&self, mem: &PhysMemory) -> bool {
        &&& self.curr_addr() == chain_start(self@)
        &&& is_chain(self@, mem)
    }

    /// Hand out the node at the cursor and step to the one behind it;
    /// `None` behind the last node.
    pub fn next(&mut self, mem: &PhysMemory) -> (r: Option<PhysAddr>)
        requires
            mem.wf(),
            old(self).wf(mem),
        ensures
            final(self).wf(mem),
            r is None <==> old(self)@.len() == 0,
            r is None ==> final(self)@ == old(self)@,
            r matches Some(item) ==> {
                &&& item@ == old(self)@[0]
                &&& final(self)@ == old(self)@.drop_first()
            },
    {
        if self.curr == 0 {
            return None;
        }
        let ghost before: Seq<u64> = self.rest@;
        let item: u64 = self.curr;
        assert(before[0] == item);
        let next: Option<u64> = mem.read(PhysAddr::new(item));
        match next {
            None => None,
            Some(link) => {
                self.curr = link;
                self.rest = Ghost(before.drop_first());
                proof {
                    lemma_chain_tail(before, mem);
                }
                Some(PhysAddr::new(item))
            },
        }
    }
}

/// Represent a mutable node in 'LinkedList': the address of a node and of
/// the node in front of it, null for the first node, whose address the
/// list's head holds.
pub struct ListNode {
    prev: u64,
    curr: u64,
    position: Ghost<int>,
}

impl ListNode {
    /// Address of the node in front, zero for the first node.
    pub closed spec fn prev_addr(&self) -> u64 {
        self.prev
    }

    /// Address of the node.
    pub closed spec fn curr_addr(&self) -> u64 {
        self.curr
    }

    /// The place of the node in its list, counted from 0.
    pub closed spec fn position(&self) -> int {
        self.position@
    }

    /// The node is the one at its place in `nodes`.
    pub open spec fn is_in(&self, nodes: Seq<u64>) -> bool {
        &&& 0 <= self.position() < nodes.len()
        &&& self.curr_addr() == nodes[self.position()]
        &&& self.prev_addr() == (if self.position() == 0 {
            0
        } else {
            nodes[self.position() - 1]
        })
    }

    /// Remove the node from the list: the node in front of it, or the head
    /// of the list, takes over the address that the node holds. No other
    /// word changes.
    pub fn pop(self, list: &mut LinkedList, mem: &mut PhysMemory) -> (r: PhysAddr)
        requires
            old(mem).wf(),
            old(list).wf(old(mem)),
            self.is_in(old(list)@),
        ensures
            final(mem).wf(),
            final(list).wf(final(mem)),
            final(list)@ == old(list)@.remove(self.position()),
            r@ == self.curr_addr(),
            final(mem).base() == old(mem).base(),
            final(mem)@.len() == old(mem)@.len(),
            self.position() == 0 ==> final(mem)@ == old(mem)@,
            self.position() > 0 ==> final(mem).word(self.prev_addr()) == link_after(
                old(list)@,
                self.position(),
            ),
            forall|other: u64|
                old(mem).has_word(other) && other != self.prev_addr()
                    ==> #[trigger] final(mem).word(other) == old(mem).word(other),
    {
        let ghost before: Seq<u64> = list.nodes@;
        let ghost at: int = self.position@;
        assert(before[at] != 0 && old(mem).has_word(before[at]));
        assert(old(mem).word(before[at]) == link_after(before, at));
        let next: u64 = match mem.read(PhysAddr::new(self.curr)) {
            Some(link) => link,
            None => 0,
        };
        if self.prev == 0 {
            assert(at == 0) by {
                if at > 0 {
                    assert(before[at - 1] != 0);
                }
            }
            list.head = next;
        } else {
            assert(at > 0);
            assert(before[at - 1] != 0 && old(mem).has_word(before[at - 1]));
            let written: bool = mem.write(PhysAddr::new(self.prev), next);
        }
        list.nodes = Ghost(before.remove(at));
        proof {
            lemma_chain_shrinks(before, at, old(mem), mem);
        }
        PhysAddr::new(self.curr)
    }

    /// Returns the pointed address.
    pub fn value(&self) -> (r: PhysAddr)
        ensures
            r@ == self.curr_addr(),
    {
        PhysAddr::new(self.curr)
    }
}

/// A mutable iterator over the linked list: a cursor that knows the node in
/// front of it.
pub struct IterMut {
    prev: u64,
    curr: u64,
    all: Ghost<Seq<u64>>,
    position: Ghost<int>,
}

impl IterMut {
    /// The nodes of the list that the cursor walks.
    pub closed spec fn nodes(&self) -> Seq<u64> {
        self.all@
    }

    /// Number of nodes that the cursor has handed out.
    pub closed spec fn position(&self) -> int {
        self.position@
    }

    /// Address of the node that comes next, zero behind the last.
    pub closed spec fn curr_addr(&self) -> u64 {
        self.curr
    }

    /// Address of the node handed out last, zero before the first.
    pub closed spec fn prev_addr(&self) -> u64 {
        self.prev
    }

    /// The nodes are a chain in `mem`, and the cursor stands at its place
    /// in it.
    pub open spec fn wf(&self, mem: &PhysMemory) -> bool {
        &&& is_chain(self.nodes(), mem)
        &&& 0 <= self.position() <= self.nodes().len()
        &&& self.curr_addr() == (if self.position() < self.nodes().len() {
            self.nodes()[self.position()]
        } else {
            0
        })
        &&& self.prev_addr() == (if self.position() == 0 {
            0
        } else {
            self.nodes()[self.position() - 1]
        })
    }

    /// Hand out the node at the cursor, with the node in front of it, and
    /// step to the one behind it; `None` behind the last node.
    pub fn next(&mut self, mem: &PhysMemory) -> (r: Option<ListNode>)
        requires
            mem.wf(),
            old(self).wf(mem),
        ensures
            final(self).wf(mem),
            final(self).nodes() == old(self).nodes(),
            r is None <==> old(self).position() == old(self).nodes().len(),
            r is None ==> final(self).position() == old(self).position(),
            r matches Some(node) ==> {
                &&& node.is_in(old(self).nodes())
                &&& node.position() == old(self).position()
                &&& final(self).position() == old(self).position() + 1
            },
    {
        if self.curr == 0 {
            proof {
                if self.position@ < self.all@.len() {
                    assert(self.all@[self.position@] != 0);
                }
            }
            return None;
        }
        let ghost at: int = self.position@;
        assert(at < self.all@.len());
        assert(self.all@[at] != 0 && mem.has_word(self.all@[at]));
        assert(mem.word(self.all@[at]) == link_after(self.all@, at));
        let res: ListNode = ListNode { prev: self.prev, curr: self.curr, position: Ghost(at) };
        let link: u64 = match mem.read(PhysAddr::new(self.curr)) {
            Some(link) => link,
            None => 0,
        };
        self.prev = self.curr;
        self.curr = link;
        self.position = Ghost(at + 1);
        Some(res)
    }
}

} // verus!
