use vstd::prelude::*;

verus! {

/// One cell of a singly linked list.
pub struct Node<T> {
    pub value: T,
    pub next: Option<Box<Node<T>>>,
}

/// The values held from `link` onwards, front first.
pub open spec fn values_of<T>(link: Option<Box<Node<T>>>) -> Seq<T>
    decreases link,
{
    match link {
        None => Seq::empty(),
        Some(node) => seq![node.value].add(values_of(node.next)),
    }
}

impl<T> Node<T> {
    pub fn new(value: T, next: Option<Box<Node<T>>>) -> (r: Node<T>)
        ensures
            r.value == value,
            r.next == next,
    {
        Node { value: value, next: next }
    }
}

/// A singly linked stack of values that keeps count of its length.
pub struct LinkedList<T> {
    pub head: Option<Box<Node<T>>>,
    pub size: usize,
}

impl<T> View for LinkedList<T> {
    type V = Seq<T>;

    open spec fn view(&self) -> Seq<T> {
        values_of(self.head)
    }
}

impl<T> LinkedList<T> {
    /// The stored length is the number of values.
    pub open spec fn well_formed(&self) -> bool {
        self.size == self@.len()
    }

    pub fn new() -> (r: LinkedList<T>)
        ensures
            r.well_formed(),
            r@ == Seq::<T>::empty(),
    {
        LinkedList { head: None, size: 0 }
    }

    pub fn get_size(&self) -> (r: usize)
        requires
            self.well_formed(),
        ensures
            r == self@.len(),
    {
        self.size
    }

    pub fn is_empty(&self) -> (r: bool)
        requires
            self.well_formed(),
        ensures
            r == (self@.len() == 0),
    {
        self.get_size() == 0
    }

    /// Puts `value` in front of the list.
    pub fn push_front(&mut self, value: T)
        requires
            old(self).well_formed(),
            old(self)@.len() < usize::MAX,
        ensures
            final(self).well_formed(),
            final(self)@ == seq![value].add(old(self)@),
    {
        let new_node: Box<Node<T>> = Box::new(Node::new(value, self.head.take()));
        self.head = Some(new_node);
        self.size += 1;
    }

    /// Takes the front value out of the list, if there is one.
    pub fn pop_front(&mut self) -> (r: Option<T>)
        requires
            old(self).well_formed(),
        ensures
            final(self).well_formed(),
            old(self)@.len() == 0 ==> r is None && final(self)@ == old(self)@,
            old(self)@.len() > 0 ==> r == Some(old(self)@[0]) && final(self)@ == old(self)@.drop_first(),
    {
        match self.head.take() {
            None => None,
            Some(node) => {
                let node = *node;
                assert(values_of(Some(Box::new(node))) == seq![node.value].add(values_of(node.next)));
                assert(seq![node.value].add(values_of(node.next)).drop_first() =~= values_of(node.next));
                self.head = node.next;
                self.size -= 1;
                Some(node.value)
            },
        }
    }
}

} // verus!
