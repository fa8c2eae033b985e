use vstd::prelude::*;

verus! {

/// A growable vector that keeps its own notion of capacity.
///
/// The elements are stored in order; the capacity is the number of elements
/// the vector may hold before it must grow, and it doubles on growth.
pub struct FastVec<T> {
    data: Vec<T>,
    cap: usize,
}

impl<T> View for FastVec<T> {
    type V = Seq<T>;

    closed spec fn view(&self) -> Seq<T> {
        self.data@
    }
}

impl<T> FastVec<T> {
    #[verifier::type_invariant]
    spec fn inv(self) -> bool {
        self.data@.len() <= self.cap
    }

    /// The capacity of the vector in the mathematical model.
    pub closed spec fn spec_capacity(&self) -> nat {
        self.cap as nat
    }

    /// The capacity reached by a push onto a vector of capacity `cap` that
    /// holds `len` elements: doubled when the vector is full (an empty
    /// capacity grows to one), unchanged otherwise.
    pub open spec fn grown_capacity(len: nat, cap: nat) -> nat {
        if len == cap {
            if cap == 0 {
                1
            } else {
                2 * cap
            }
        } else {
            cap
        }
    }

    /// An empty vector with room for one element.
    pub fn new() -> (v: FastVec<T>)
        ensures
            v@ == Seq::<T>::empty(),
            v.spec_capacity() == 1,
    {
        FastVec::with_capacity(1)
    }

    /// An empty vector with room for `capacity` elements.
    pub fn with_capacity(capacity: usize) -> (v: FastVec<T>)
        ensures
            v@ == Seq::<T>::empty(),
            v.spec_capacity() == capacity,
    {
        FastVec { data: Vec::new(), cap: capacity }
    }

    /// The number of elements.
    pub fn len(&self) -> (n: usize)
        ensures
            n == self@.len(),
    {
        self.data.len()
    }

    /// The capacity.
    pub fn capacity(&self) -> (c: usize)
        ensures
            c == self.spec_capacity(),
            self@.len() <= c,
    {
        proof {
            use_type_invariant(self);
        }
        self.cap
    }

    /// The elements, in order, as a `Vec`.
    pub fn into_vec(self) -> (v: Vec<T>)
        ensures
            v@ == self@,
    {
        self.data
    }

    /// A vector holding the elements of `vec`, in order, with capacity for exactly them.
    pub fn from_vec(vec: Vec<T>) -> (v: FastVec<T>)
        ensures
            v@ == vec@,
            v.spec_capacity() == vec@.len(),
    {
        let cap = vec.len();
        FastVec { data: vec, cap }
    }

    /// The element at position `i`, which must be in bounds.
    pub fn get(&self, i: usize) -> (e: &T)
        requires
            i < self@.len(),
        ensures
            *e == self@[i as int],
    {
        &self.data[i]
    }

    /// Appends `t`; a full vector first doubles its capacity.
    pub fn push(&mut self, t: T)
        requires
            old(self)@.len() == old(self).spec_capacity() ==> old(self).spec_capacity() * 2
                <= usize::MAX,
        ensures
            final(self)@ == old(self)@.push(t),
            final(self).spec_capacity() == Self::grown_capacity(
                old(self)@.len(),
                old(self).spec_capacity(),
            ),
    {
        proof {
            use_type_invariant(&*self);
        }
        let mut data: Vec<T> = Vec::new();
        std::mem::swap(&mut data, &mut self.data);
        let cap = if data.len() == self.cap {
            if self.cap == 0 {
                1
            } else {
                self.cap * 2
            }
        } else {
            self.cap
        };
        data.push(t);
        self.cap = cap;
        self.data = data;
    }

    /// Removes the element at position `i`, which must be in bounds; the
    /// later elements move one place toward the front. The capacity is kept.
    pub fn remove(&mut self, i: usize)
        requires
            i < old(self)@.len(),
        ensures
            final(self)@ == old(self)@.remove(i as int),
            final(self).spec_capacity() == old(self).spec_capacity(),
    {
        proof {
            use_type_invariant(&*self);
        }
        let mut data: Vec<T> = Vec::new();
        std::mem::swap(&mut data, &mut self.data);
        data.remove(i);
        self.data = data;
    }

    /// Drops every element and releases the storage: the vector is empty,
    /// with capacity zero.
    pub fn clear(&mut self)
        ensures
            final(self)@ == Seq::<T>::empty(),
            final(self).spec_capacity() == 0,
    {
        self.data = Vec::new();
        self.cap = 0;
    }
}

/// Law: a push always finds room: the grown capacity holds the old elements
/// and the new one, and capacity never shrinks.
pub proof fn law_push_makes_room(len: nat, cap: nat)
    requires
        len <= cap,
    ensures
        FastVec::<()>::grown_capacity(len, cap) >= len + 1,
        FastVec::<()>::grown_capacity(len, cap) >= cap,
{
}

/// Law: a pushed element is read back at the end, the earlier elements stay
/// where they were, and removing it again restores the vector.
pub proof fn law_push_then_get_and_remove<T>(elements: Seq<T>, t: T)
    ensures
        elements.push(t)[elements.len() as int] == t,
        forall|i: int| 0 <= i < elements.len() ==> #[trigger] elements.push(t)[i] == elements[i],
        elements.push(t).remove(elements.len() as int) == elements,
{
    assert(elements.push(t).remove(elements.len() as int) =~= elements);
}

/// Law: removing position `i` shifts every later element one place toward
/// the front and keeps the earlier ones.
pub proof fn law_remove_shifts<T>(elements: Seq<T>, i: int)
    requires
        0 <= i < elements.len(),
    ensures
        elements.remove(i).len() == elements.len() - 1,
        forall|j: int| 0 <= j < i ==> #[trigger] elements.remove(i)[j] == elements[j],
        forall|j: int| i <= j < elements.len() - 1 ==> #[trigger] elements.remove(i)[j] == elements[j + 1],
{
}

/// The texts of `parts`, each followed by `", "`, for the first `i` parts.
pub open spec fn comma_terminated(parts: Seq<Seq<char>>, i: int) -> Seq<char>
    decreases i,
{
    if i <= 0 {
        Seq::empty()
    } else {
        comma_terminated(parts, i - 1) + parts[i - 1] + ", "@
    }
}

/// The texts of `parts` separated by `", "`.
pub open spec fn comma_separated(parts: Seq<Seq<char>>) -> Seq<char> {
    if parts.len() == 0 {
        Seq::empty()
    } else {
        comma_terminated(parts, parts.len() - 1) + parts.last()
    }
}

/// How a vector whose elements read `items` is written out: `FastVec[`,
/// the items separated by `", "`, then `]`.
pub fn display_text(items: &Vec<String>) -> (text: String)
    ensures
        text@ == "FastVec["@ + comma_separated(items@.map_values(|s: String| s@)) + "]"@,
{
    let ghost parts = items@.map_values(|s: String| s@);
    let mut text = String::from_str("FastVec[");
    let n = items.len();
    if n > 0 {
        for i in 0..n - 1
            invariant
                n == items@.len(),
                n > 0,
                parts == items@.map_values(|s: String| s@),
                text@ == "FastVec["@ + comma_terminated(parts, i as int),
        {
            text.append(items[i].as_str());
            text.append(", ");
            assert(text@ =~= "FastVec["@ + comma_terminated(parts, i + 1));
        }
        text.append(items[n - 1].as_str());
        assert(text@ =~= "FastVec["@ + comma_separated(parts));
    } else {
        assert(text@ =~= "FastVec["@ + comma_separated(parts));
    }
    text.append("]");
    text
}

} // verus!
