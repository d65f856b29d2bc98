use vstd::prelude::*;

verus! {

/// One link of a [`LinkedList`].
#[derive(Debug, PartialEq, Eq)]
pub struct Node<T> {
    pub data: T,
    pub next: Option<Pointer<T>>,
}

/// An owned link to the next node.
pub type Pointer<T> = Box<Node<T>>;

/// The items of the chain that starts at `link`, in order.
pub open spec fn chain<T>(link: Option<Pointer<T>>) -> Seq<T>
    decreases link,
{
    match link {
        None => Seq::empty(),
        Some(node) => seq![node.data].add(chain(node.next)),
    }
}

impl<T> Node<T> {
    pub fn new(data: T) -> (r: Node<T>)
        ensures
            r.data == data,
            r.next.is_none(),
    {
        Node { data, next: None }
    }

    pub fn new_dyn(data: T) -> (r: Pointer<T>)
        ensures
            r.data == data,
            r.next.is_none(),
    {
        Box::new(Node::new(data))
    }

    /// The owned link to this node, ready to be linked from another node.
    pub fn as_ptr(self: Box<Self>) -> (r: Pointer<T>)
        ensures
            r == self,
    {
        self
    }

    /// Makes this node link to `node` and returns what it linked to before.
    pub fn point_to(&mut self, node: Option<Pointer<T>>) -> (r: Option<Pointer<T>>)
        ensures
            final(self).data == old(self).data,
            final(self).next == node,
            r == old(self).next,
    {
        let mut next = node;
        core::mem::swap(&mut self.next, &mut next);
        next
    }

    /// Unlinks this node from the rest of its chain, which is returned.
    pub fn remove_next(&mut self) -> (r: Option<Pointer<T>>)
        ensures
            final(self).data == old(self).data,
            final(self).next.is_none(),
            r == old(self).next,
    {
        self.point_to(None)
    }

    pub fn next_mut(&mut self) -> (r: Option<&mut Node<T>>)
        ensures
            old(self).next.is_none() ==> r.is_none() && *final(self) == *old(self),
            old(self).next.is_some() ==> r.is_some() && *r.unwrap() == *old(self).next.unwrap()
                && final(self).data == old(self).data && final(self).next == Some(
                Box::new(*final(r.unwrap())),
            ),
    {
        match &mut self.next {
            Some(node) => Some(&mut **node),
            None => None,
        }
    }

    pub fn next(&self) -> (r: Option<&Node<T>>)
        ensures
            self.next.is_none() ==> r.is_none(),
            self.next.is_some() ==> r == Some(&*self.next.unwrap()),
    {
        match &self.next {
            Some(node) => Some(node),
            None => None,
        }
    }
}

fn append_to<T>(link: &mut Option<Pointer<T>>, data: T)
    ensures
        chain(*final(link)) == chain(*old(link)).push(data),
    decreases chain(*old(link)).len(),
{
    match link {
        None => {
            *link = Some(Node::new_dyn(data));
        },
        Some(node) => {
            append_to(&mut node.next, data);
        },
    }
}

/// The items from node `n` on.
pub open spec fn node_items<T>(n: Node<T>) -> Seq<T> {
    seq![n.data].add(chain(n.next))
}

fn last_node<T>(node: &Node<T>) -> (r: &Node<T>)
    ensures
        r.data == node_items(*node).last(),
        r.next.is_none(),
    decreases chain(node.next).len(),
{
    match &node.next {
        None => node,
        Some(next) => {
            let r = last_node(next);
            proof {
                assert(node_items(*node) =~= seq![node.data].add(node_items(**next)));
            }
            r
        },
    }
}

fn nth_item<T>(link: &Option<Pointer<T>>, index: usize) -> (r: &T)
    requires
        index < chain(*link).len(),
    ensures
        *r == chain(*link)[index as int],
    decreases index,
{
    match link {
        Some(node) => {
            if index == 0 {
                &node.data
            } else {
                nth_item(&node.next, index - 1)
            }
        },
        None => {
            proof {
                assert(false);
            }
            nth_item(link, index)
        },
    }
}

/// Cuts the chain after its item `index`, keeping the items up to it and
/// returning the chain of the items after it.
fn split_link<T>(link: &mut Option<Pointer<T>>, index: usize) -> (r: Option<Pointer<T>>)
    requires
        index < chain(*old(link)).len(),
    ensures
        chain(*final(link)) == chain(*old(link)).take(index + 1),
        chain(r) == chain(*old(link)).skip(index + 1),
    decreases index,
{
    match link {
        Some(node) => {
            if index == 0 {
                let ghost before = chain(*old(link));
                let rest = node.remove_next();
                proof {
                    assert(chain(rest) =~= before.skip(1));
                    assert(seq![node.data].add(chain(node.next)) =~= before.take(1));
                }
                rest
            } else {
                split_link(&mut node.next, index - 1)
            }
        },
        None => {
            proof {
                assert(false);
            }
            None
        },
    }
}

/// Cuts the chain before its item `at`, keeping the items before it and
/// returning the chain of the rest.
fn cut_at<T>(link: &mut Option<Pointer<T>>, at: usize, len: usize) -> (r: Option<Pointer<T>>)
    requires
        at <= len,
        len == chain(*old(link)).len(),
    ensures
        chain(*final(link)) == chain(*old(link)).take(at as int),
        chain(r) == chain(*old(link)).skip(at as int),
{
    if at == 0 {
        let mut whole: Option<Pointer<T>> = None;
        core::mem::swap(link, &mut whole);
        proof {
            assert(chain(whole) =~= chain(whole).skip(0));
        }
        whole
    } else if at == len {
        proof {
            assert(chain(*link) =~= chain(*link).take(at as int));
        }
        None
    } else {
        split_link(link, at - 1)
    }
}

/// Hangs `rest` at the end of the chain.
fn attach<T>(link: &mut Option<Pointer<T>>, rest: Option<Pointer<T>>)
    ensures
        chain(*final(link)) == chain(*old(link)) + chain(rest),
    decreases chain(*old(link)).len(),
{
    match link {
        None => {
            *link = rest;
        },
        Some(node) => {
            attach(&mut node.next, rest);
        },
    }
}

/// A singly linked list of owned nodes, with its length kept beside it.
pub struct LinkedList<T> {
    pub head: Option<Pointer<T>>,
    pub length: usize,
}

impl<T> LinkedList<T> {
    pub open spec fn wf(&self) -> bool {
        self.length == chain(self.head).len()
    }

    pub open spec fn items(&self) -> Seq<T> {
        chain(self.head)
    }

    pub fn new() -> (r: LinkedList<T>)
        ensures
            r.wf(),
            r.items() == Seq::<T>::empty(),
    {
        LinkedList { head: None, length: 0 }
    }

    /// Removes every item.
    pub fn clear(&mut self)
        requires
            old(self).wf(),
        ensures
            final(self).wf(),
            final(self).items() == Seq::<T>::empty(),
    {
        while self.head.is_some()
            invariant
                self.wf(),
            decreases self.length,
        {
            let _ = self.dequeue();
        }
    }

    pub fn is_empty(&self) -> (r: bool)
        requires
            self.wf(),
        ensures
            r == (self.items().len() == 0),
    {
        self.len() == 0
    }

    pub fn len(&self) -> (r: usize)
        requires
            self.wf(),
        ensures
            r == self.items().len(),
    {
        self.length
    }

    /// Adds an item at the end.
    pub fn append(&mut self, data: T)
        requires
            old(self).wf(),
            old(self).length < usize::MAX,
        ensures
            final(self).wf(),
            final(self).items() == old(self).items().push(data),
    {
        append_to(&mut self.head, data);
        self.length = self.length + 1;
    }

    /// Adds the items at the end, in order.
    pub fn extend(&mut self, items: Vec<T>)
        requires
            old(self).wf(),
            old(self).length + items@.len() <= usize::MAX,
        ensures
            final(self).wf(),
            final(self).items() == old(self).items() + items@,
    {
        let ghost all = items@;
        let mut rest = items;
        let mut tail: Option<Pointer<T>> = None;
        let count = rest.len();
        while rest.len() > 0
            invariant
                chain(tail) == all.skip(rest@.len() as int),
                rest@ == all.take(rest@.len() as int),
                rest@.len() <= all.len(),
            decreases rest@.len(),
        {
            let data = rest.pop().unwrap();
            tail = Some(Box::new(Node { data, next: tail }));
            proof {
                assert(chain(tail) =~= all.skip(rest@.len() as int));
                assert(rest@ =~= all.take(rest@.len() as int));
            }
        }
        proof {
            assert(all.skip(0) =~= all);
        }
        attach(&mut self.head, tail);
        self.length = self.length + count;
    }

    /// Removes the first node and returns it, unlinked from the rest.
    pub fn dequeue(&mut self) -> (r: Option<Pointer<T>>)
        requires
            old(self).wf(),
        ensures
            final(self).wf(),
            old(self).items().len() == 0 ==> r.is_none() && final(self).items() == old(self).items(),
            old(self).items().len() > 0 ==> r.is_some() && r.unwrap().data == old(self).items()[0]
                && r.unwrap().next.is_none() && final(self).items() == old(self).items().drop_first(),
    {
        let mut taken: Option<Pointer<T>> = None;
        core::mem::swap(&mut self.head, &mut taken);
        match taken {
            Some(mut node) => {
                let rest = node.remove_next();
                proof {
                    assert(chain(rest) =~= old(self).items().drop_first());
                }
                self.head = rest;
                self.length = self.length - 1;
                Some(node)
            },
            None => None,
        }
    }

    pub fn head(&self) -> (r: Option<&Node<T>>)
        ensures
            self.items().len() == 0 ==> r.is_none(),
            self.items().len() > 0 ==> r.is_some() && r.unwrap().data == self.items()[0],
            self.head.is_some() ==> r.is_some() && *r.unwrap() == *self.head.unwrap(),
    {
        match &self.head {
            Some(node) => Some(node),
            None => None,
        }
    }

    pub fn tail(&self) -> (r: Option<&Node<T>>)
        ensures
            self.items().len() == 0 ==> r.is_none(),
            self.items().len() > 0 ==> r.is_some() && r.unwrap().data == self.items().last()
                && r.unwrap().next.is_none(),
    {
        match &self.head {
            Some(node) => {
                proof {
                    assert(node_items(**node) == self.items());
                }
                Some(last_node(node))
            },
            None => None,
        }
    }

    /// Walks the items by reference.
    pub fn iter(&self) -> (r: Iter<'_, T>)
        requires
            self.wf(),
        ensures
            r.rest() == self.items(),
            r.length == self.items().len(),
    {
        let next = match &self.head {
            Some(node) => Some(&**node),
            None => None,
        };
        Iter { next, length: self.length }
    }

    /// Walks the items by mutable reference.
    pub fn iter_mut(&mut self) -> (r: IterMut<'_, T>)
        requires
            old(self).wf(),
        ensures
            r.rest() == old(self).items(),
            r.length == old(self).items().len(),
    {
        let length = self.length;
        let next = match &mut self.head {
            Some(node) => Some(&mut **node),
            None => None,
        };
        IterMut { next, length }
    }

    /// Walks the items by value, emptying the list.
    pub fn into_iter(self) -> (r: IntoIter<T>)
        ensures
            r.0 == self,
    {
        IntoIter(self)
    }

    /// A cursor placed before the first item.
    pub fn cursor_mut(&mut self) -> (r: CursorMut<'_, T>)
        ensures
            *r.list == *old(self),
            r.index.is_none(),
            *final(self) == *final(r.list),
    {
        CursorMut { list: self, index: None }
    }
}

/// A walk over the items of a list by reference.
pub struct Iter<'a, T> {
    pub next: Option<&'a Node<T>>,
    pub length: usize,
}

impl<'a, T> Iter<'a, T> {
    /// The items still to come.
    pub open spec fn rest(&self) -> Seq<T> {
        match self.next {
            None => Seq::empty(),
            Some(node) => node_items(*node),
        }
    }

    pub fn next(&mut self) -> (r: Option<&'a T>)
        ensures
            old(self).rest().len() == 0 ==> r.is_none() && final(self).rest().len() == 0,
            old(self).rest().len() > 0 ==> r == Some(&old(self).rest()[0]) && final(self).rest()
                == old(self).rest().drop_first(),
    {
        match self.next {
            Some(node) => {
                self.next = match &node.next {
                    Some(following) => Some(&**following),
                    None => None,
                };
                proof {
                    assert(self.rest() =~= old(self).rest().drop_first());
                }
                Some(&node.data)
            },
            None => None,
        }
    }
}

/// A walk over the items of a list by mutable reference.
pub struct IterMut<'a, T> {
    pub next: Option<&'a mut Node<T>>,
    pub length: usize,
}

impl<'a, T> IterMut<'a, T> {
    /// The items still to come.
    pub open spec fn rest(&self) -> Seq<T> {
        match self.next {
            None => Seq::empty(),
            Some(node) => node_items(*node),
        }
    }

    pub fn next(&mut self) -> (r: Option<&'a mut T>)
        ensures
            old(self).rest().len() == 0 ==> r.is_none(),
            old(self).rest().len() > 0 ==> r.is_some() && *r.unwrap() == old(self).rest()[0]
                && final(self).rest() == old(self).rest().drop_first(),
    {
        let mut taken: Option<&'a mut Node<T>> = None;
        core::mem::swap(&mut self.next, &mut taken);
        match taken {
            Some(node) => {
                self.next = match &mut node.next {
                    Some(following) => Some(&mut **following),
                    None => None,
                };
                Some(&mut node.data)
            },
            None => None,
        }
    }
}

/// A walk over the items of a list by value.
pub struct IntoIter<T>(pub LinkedList<T>);

impl<T> IntoIter<T> {
    pub fn next(&mut self) -> (r: Option<T>)
        requires
            old(self).0.wf(),
        ensures
            final(self).0.wf(),
            old(self).0.items().len() == 0 ==> r.is_none(),
            old(self).0.items().len() > 0 ==> r == Some(old(self).0.items()[0]) && final(self).0.items()
                == old(self).0.items().drop_first(),
    {
        match self.0.dequeue() {
            Some(node) => Some(node.data),
            None => None,
        }
    }
}

/// A position in a list: before the first item (`None`) or at an item. It
/// moves forward and wraps around through the position before the first item.
pub struct CursorMut<'a, T> {
    pub list: &'a mut LinkedList<T>,
    pub index: Option<usize>,
}

impl<'a, T> CursorMut<'a, T> {
    /// The items of the list under the cursor.
    pub open spec fn items(&self) -> Seq<T> {
        self.list.items()
    }

    pub open spec fn wf(&self) -> bool {
        &&& self.list.wf()
        &&& self.index matches Some(i) ==> i < self.list.items().len()
    }

    /// The item at the cursor.
    pub fn current(&self) -> (r: Option<&T>)
        requires
            self.wf(),
        ensures
            self.index.is_none() ==> r.is_none(),
            self.index matches Some(i) ==> r == Some(&self.items()[i as int]),
    {
        match self.index {
            Some(i) => Some(nth_item(&self.list.head, i)),
            None => None,
        }
    }

    /// Moves to the next item; from the last item to the position before the
    /// first, and from there to the first item, if any.
    pub fn next(&mut self)
        requires
            old(self).wf(),
        ensures
            final(self).wf(),
            final(self).items() == old(self).items(),
            final(self).index == next_index(old(self).index, old(self).items().len()),
    {
        let length = self.list.len();
        self.index = match self.index {
            None => if length > 0 {
                Some(0)
            } else {
                None
            },
            Some(i) => if i + 1 < length {
                Some(i + 1)
            } else {
                None
            },
        };
    }

    /// Moves to item `idx`, counted around the list.
    pub fn seek(&mut self, idx: usize)
        requires
            old(self).wf(),
            old(self).items().len() > 0,
        ensures
            final(self).wf(),
            final(self).items() == old(self).items(),
            final(self).index == Some((idx as int % old(self).items().len() as int) as usize),
    {
        let true_idx = idx % self.list.len();
        self.index = Some(true_idx);
    }

    /// Moves to the item before item `idx`, counted around the list.
    pub fn seek_before(&mut self, idx: usize)
        requires
            old(self).wf(),
            old(self).items().len() > 0,
            idx > 0,
        ensures
            final(self).wf(),
            final(self).items() == old(self).items(),
            final(self).index == Some(((idx - 1) as int % old(self).items().len() as int) as usize),
    {
        self.seek(idx - 1)
    }

    /// Moves to the item after item `idx`, counted around the list.
    pub fn seek_after(&mut self, idx: usize)
        requires
            old(self).wf(),
            old(self).items().len() > 0,
            idx < usize::MAX,
        ensures
            final(self).wf(),
            final(self).items() == old(self).items(),
            final(self).index == Some(((idx + 1) as int % old(self).items().len() as int) as usize),
    {
        self.seek(idx + 1)
    }

    /// Moves to the position before the first item.
    pub fn reset(&mut self)
        requires
            old(self).wf(),
        ensures
            final(self).wf(),
            final(self).items() == old(self).items(),
            final(self).index.is_none(),
    {
        self.index = None;
    }

    /// Exchanges the items `[start_idx, end_idx)` of this list with the items
    /// `[other_start_idx, other_end_idx)` of the other; a missing end stands
    /// for the end of its list. Nothing happens when either list is empty.
    /// Both cursors are left before the first item.
    pub fn swap(
        &mut self,
        other: &mut CursorMut<'a, T>,
        start_idx: usize,
        other_start_idx: usize,
        end_idx: Option<usize>,
        other_end_idx: Option<usize>,
    )
        requires
            old(self).wf(),
            old(other).wf(),
            old(self).items().len() > 0 && old(other).items().len() > 0 ==> {
                &&& start_idx < end_idx.unwrap_or(old(self).items().len() as usize)
                &&& end_idx.unwrap_or(old(self).items().len() as usize) <= old(self).items().len()
                &&& other_start_idx < other_end_idx.unwrap_or(old(other).items().len() as usize)
                &&& other_end_idx.unwrap_or(old(other).items().len() as usize) <= old(other).items().len()
            },
            old(self).items().len() + old(other).items().len() <= usize::MAX,
        ensures
            final(self).wf(),
            final(other).wf(),
            old(self).items().len() == 0 || old(other).items().len() == 0 ==> final(self).items()
                == old(self).items() && final(other).items() == old(other).items(),
            old(self).items().len() > 0 && old(other).items().len() > 0 ==> {
                let a = old(self).items();
                let b = old(other).items();
                let a_end = end_idx.unwrap_or(a.len() as usize) as int;
                let b_end = other_end_idx.unwrap_or(b.len() as usize) as int;
                &&& final(self).items() == swapped(a, b, start_idx as int, a_end, other_start_idx as int, b_end)
                &&& final(other).items() == swapped(b, a, other_start_idx as int, b_end, start_idx as int, a_end)
            },
            final(self).index.is_none(),
            final(other).index.is_none(),
    {
        self.reset();
        other.reset();
        let length = self.list.len();
        let other_length = other.list.len();
        if length == 0 || other_length == 0 {
            return;
        }
        let end = match end_idx {
            Some(i) => i,
            None => length,
        };
        let other_end = match other_end_idx {
            Some(i) => i,
            None => other_length,
        };
        let ghost a = self.list.items();
        let ghost b = other.list.items();
        let tail = cut_at(&mut self.list.head, end, length);
        let middle = cut_at(&mut self.list.head, start_idx, end);
        let other_tail = cut_at(&mut other.list.head, other_end, other_length);
        let other_middle = cut_at(&mut other.list.head, other_start_idx, other_end);
        proof {
            assert(chain(middle) =~= a.subrange(start_idx as int, end as int));
            assert(chain(other_middle) =~= b.subrange(other_start_idx as int, other_end as int));
            assert(a.take(end as int).take(start_idx as int) =~= a.take(start_idx as int));
            assert(b.take(other_end as int).take(other_start_idx as int) =~= b.take(other_start_idx as int));
        }
        attach(&mut self.list.head, other_middle);
        attach(&mut self.list.head, tail);
        attach(&mut other.list.head, middle);
        attach(&mut other.list.head, other_tail);
        self.list.length = start_idx + (other_end - other_start_idx) + (length - end);
        other.list.length = other_start_idx + (end - start_idx) + (other_length - other_end);
        proof {
            assert(self.list.items() =~= swapped(a, b, start_idx as int, end as int, other_start_idx as int, other_end as int));
            assert(other.list.items() =~= swapped(b, a, other_start_idx as int, other_end as int, start_idx as int, end as int));
        }
    }

    /// Splits the list after the cursor: the list keeps the items up to the
    /// cursor, the rest is returned. Before the first item, the whole list is
    /// returned and the list is left empty.
    pub fn split_after(&mut self) -> (r: LinkedList<T>)
        requires
            old(self).wf(),
        ensures
            final(self).wf(),
            r.wf(),
            final(self).index == old(self).index,
            old(self).index matches Some(i) ==> final(self).items() == old(self).items().take(i + 1)
                && r.items() == old(self).items().skip(i + 1),
            old(self).index.is_none() ==> final(self).items() == Seq::<T>::empty() && r.items()
                == old(self).items(),
    {
        match self.index {
            Some(i) => {
                let rest = split_link(&mut self.list.head, i);
                let moved = self.list.length - (i + 1);
                self.list.length = i + 1;
                LinkedList { head: rest, length: moved }
            },
            None => {
                let mut whole: Option<Pointer<T>> = None;
                core::mem::swap(&mut self.list.head, &mut whole);
                let length = self.list.length;
                self.list.length = 0;
                LinkedList { head: whole, length }
            },
        }
    }
}

/// `a` with its items `[start, end)` replaced by the items `[b_start, b_end)`
/// of `b`.
pub open spec fn swapped<T>(a: Seq<T>, b: Seq<T>, start: int, end: int, b_start: int, b_end: int) -> Seq<T> {
    a.take(start) + b.subrange(b_start, b_end) + a.skip(end)
}

/// Where a cursor at `index` goes next in a list of `length` items.
pub open spec fn next_index(index: Option<usize>, length: nat) -> Option<usize> {
    match index {
        None => if length > 0 {
            Some(0usize)
        } else {
            None
        },
        Some(i) => if i + 1 < length {
            Some((i + 1) as usize)
        } else {
            None
        },
    }
}

} // verus!
