//! A singly linked list that owns its nodes.
use vstd::prelude::*;

verus! {

struct Node<T> {
    value: T,
    next: Option<Box<Node<T>>>,
}

/// The values held from `link` on, front first.
spec fn link_seq<T>(link: Option<Box<Node<T>>>) -> Seq<T>
    decreases link,
{
    match link {
        None => Seq::empty(),
        Some(node) => seq![node.value] + link_seq(node.next),
    }
}

/// A singly linked list; `len` counts its nodes.
pub struct LinkedList<T> {
    head: Option<Box<Node<T>>>,
    len: usize,
}

impl<T> View for LinkedList<T> {
    type V = Seq<T>;

    closed spec fn view(&self) -> Seq<T> {
        link_seq(self.head)
    }
}

fn node_of<T>(link: &Option<Box<Node<T>>>) -> (r: Option<&Node<T>>)
    ensures
        match *link {
            None => r is None,
            Some(b) => r == Some(&*b),
        },
{
    match link {
        None => None,
        Some(b) => Some(&**b),
    }
}

fn push_back_link<T>(link: &mut Option<Box<Node<T>>>, value: T)
    ensures
        link_seq(*final(link)) == link_seq(*old(link)).push(value),
    decreases link_seq(*old(link)).len(),
{
    match link {
        Some(node) => {
            push_back_link(&mut node.next, value);
        },
        None => {
            *link = Some(Box::new(Node { value, next: None }));
        },
    }
}

impl<T> LinkedList<T> {
    /// The list's own bookkeeping: `len` is the number of nodes.
    pub closed spec fn wf(&self) -> bool {
        self.len == link_seq(self.head).len()
    }

    /// An empty list.
    pub fn new() -> (l: Self)
        ensures
            l.wf(),
            l@ == Seq::<T>::empty(),
    {
        LinkedList { head: None, len: 0 }
    }

    /// The number of values.
    pub fn len(&self) -> (n: usize)
        requires
            self.wf(),
        ensures
            n == self@.len(),
    {
        self.len
    }

    /// Whether the list holds no value.
    pub fn is_empty(&self) -> (b: bool)
        requires
            self.wf(),
        ensures
            b == (self@.len() == 0),
    {
        self.len == 0
    }

    /// Puts `value` in front of the others.
    pub fn push_front(&mut self, value: T)
        requires
            old(self).wf(),
            old(self)@.len() < usize::MAX,
        ensures
            final(self).wf(),
            final(self)@ == seq![value] + old(self)@,
    {
        let next = self.head.take();
        self.head = Some(Box::new(Node { value, next }));
        self.len += 1;
    }

    /// Puts `value` behind the others.
    pub fn push_back(&mut self, value: T)
        requires
            old(self).wf(),
            old(self)@.len() < usize::MAX,
        ensures
            final(self).wf(),
            final(self)@ == old(self)@.push(value),
    {
        push_back_link(&mut self.head, value);
        self.len += 1;
    }

    /// Removes the front value and returns it; `None` on an empty list.
    pub fn pop_front(&mut self) -> (r: Option<T>)
        requires
            old(self).wf(),
        ensures
            final(self).wf(),
            old(self)@.len() == 0 ==> r is None && final(self)@ == old(self)@,
            old(self)@.len() > 0 ==> r == Some(old(self)@[0]) && final(self)@ == old(self)@.drop_first(),
    {
        match self.head.take() {
            None => None,
            Some(node) => {
                let node = *node;
                self.head = node.next;
                self.len -= 1;
                assert(link_seq(self.head) =~= old(self)@.drop_first());
                Some(node.value)
            },
        }
    }

    /// A cursor over the values, front first.
    pub fn iter(&self) -> (it: Iter<'_, T>)
        ensures
            it@ == self@,
    {
        Iter { current: node_of(&self.head) }
    }
}

impl<T> Default for LinkedList<T> {
    fn default() -> (l: Self)
        ensures
            l.wf(),
            l@ == Seq::<T>::empty(),
    {
        Self::new()
    }
}

/// A cursor over the values of a [`LinkedList`], front first.
pub struct Iter<'a, T> {
    current: Option<&'a Node<T>>,
}

impl<'a, T> View for Iter<'a, T> {
    type V = Seq<T>;

    /// The values not yet handed out.
    closed spec fn view(&self) -> Seq<T> {
        match self.current {
            None => Seq::empty(),
            Some(node) => seq![node.value] + link_seq(node.next),
        }
    }
}

impl<'a, T> Iter<'a, T> {
    /// The next value, if any.
    pub fn next(&mut self) -> (r: Option<&'a T>)
        ensures
            old(self)@.len() == 0 ==> r is None && final(self)@ == old(self)@,
            old(self)@.len() > 0 ==> r == Some(&old(self)@[0]) && final(self)@ == old(self)@.drop_first(),
    {
        match self.current {
            None => None,
            Some(node) => {
                self.current = node_of(&node.next);
                assert(final(self)@ =~= old(self)@.drop_first());
                Some(&node.value)
            },
        }
    }
}

} // verus!
