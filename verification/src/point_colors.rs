//! The bounded list of point colours a local adjustment samples: at most
//! `MAX_POINT_COLORS` entries, kept in the order they were added. The
//! colour model itself is a type parameter; the list only stores it.
use vstd::prelude::*;

verus! {

/// Point colours a list holds at most.
pub const MAX_POINT_COLORS: usize = 8;

#[derive(Debug, PartialEq)]
pub struct PointColors<T> {
    values: Vec<T>,
}

impl<T> PointColors<T> {
    #[verifier::type_invariant]
    closed spec fn bounded(self) -> bool {
        self.values@.len() <= MAX_POINT_COLORS
    }

    /// The colours, in the order they were added.
    pub closed spec fn colors(self) -> Seq<T> {
        self.values@
    }

    /// An empty list.
    pub fn new() -> (r: Self)
        ensures
            r.colors() == Seq::<T>::empty(),
    {
        PointColors { values: Vec::new() }
    }

    /// A list holding `values`, refused when there are more than
    /// `MAX_POINT_COLORS` of them.
    pub fn from_vec(values: Vec<T>) -> (r: Option<Self>)
        ensures
            values@.len() <= MAX_POINT_COLORS <==> r is Some,
            r matches Some(list) ==> list.colors() == values@,
    {
        if values.len() > MAX_POINT_COLORS {
            None
        } else {
            Some(PointColors { values })
        }
    }

    pub fn len(&self) -> (r: usize)
        ensures
            r == self.colors().len(),
            r <= MAX_POINT_COLORS,
    {
        proof {
            use_type_invariant(self);
        }
        self.values.len()
    }

    pub fn is_empty(&self) -> (r: bool)
        ensures
            r == (self.colors().len() == 0),
    {
        self.values.len() == 0
    }

    pub fn as_slice(&self) -> (r: &[T])
        ensures
            r@ == self.colors(),
    {
        self.values.as_slice()
    }

    pub fn get(&self, index: usize) -> (r: Option<&T>)
        ensures
            index < self.colors().len() <==> r is Some,
            r matches Some(color) ==> *color == self.colors()[index as int],
    {
        if index < self.values.len() {
            Some(&self.values[index])
        } else {
            None
        }
    }

    /// Colour `index`, to change in place; whatever the caller writes
    /// through it lands at that index and nowhere else.
    pub fn get_mut(&mut self, index: usize) -> (r: Option<&mut T>)
        ensures
            index < old(self).colors().len() <==> r is Some,
            r is None ==> final(self).colors() == old(self).colors(),
            r matches Some(color) ==> *color == old(self).colors()[index as int] && final(self).colors()
                == old(self).colors().update(index as int, *final(color)),
    {
        proof {
            use_type_invariant(&*self);
        }
        if index < self.values.len() {
            Some(&mut self.values[index])
        } else {
            None
        }
    }

    /// Adds a colour at the end; refused when the list is full.
    pub fn push(&mut self, color: T) -> (r: bool)
        ensures
            r == (old(self).colors().len() < MAX_POINT_COLORS),
            r ==> final(self).colors() == old(self).colors().push(color),
            !r ==> final(self).colors() == old(self).colors(),
    {
        proof {
            use_type_invariant(&*self);
        }
        if self.values.len() == MAX_POINT_COLORS {
            return false;
        }
        let mut values: Vec<T> = Vec::new();
        std::mem::swap(&mut values, &mut self.values);
        values.push(color);
        self.values = values;
        true
    }

    /// Removes and returns colour `index`; the later colours move up.
    pub fn remove(&mut self, index: usize) -> (r: Option<T>)
        ensures
            index < old(self).colors().len() <==> r is Some,
            r matches Some(color) ==> color == old(self).colors()[index as int] && final(self).colors()
                == old(self).colors().remove(index as int),
            r is None ==> final(self).colors() == old(self).colors(),
    {
        proof {
            use_type_invariant(&*self);
        }
        if index >= self.values.len() {
            return None;
        }
        let mut values: Vec<T> = Vec::new();
        std::mem::swap(&mut values, &mut self.values);
        let color = values.remove(index);
        self.values = values;
        Some(color)
    }

    pub fn clear(&mut self)
        ensures
            final(self).colors() == Seq::<T>::empty(),
    {
        self.values = Vec::new();
    }
}

impl<T: Clone> Clone for PointColors<T> {
    /// A list of the clones of the colours.
    fn clone(&self) -> (r: Self)
        ensures
            r.colors().len() == self.colors().len(),
            forall|i: int| 0 <= i < self.colors().len() ==> cloned::<T>(self.colors()[i], #[trigger] r.colors()[i]),
    {
        proof {
            use_type_invariant(self);
        }
        PointColors { values: self.values.clone() }
    }
}

impl<T> Default for PointColors<T> {
    fn default() -> (r: Self)
        ensures
            r.colors() == Seq::<T>::empty(),
    {
        PointColors::new()
    }
}

} // verus!
