//! The contacts that position solving records for velocity solving.
use vstd::prelude::*;

verus! {

/// The contacts found in one substep, in the order they were found: each is
/// the ids of the two bodies in contact and the contact normal `N`.
/// No contact joins a body with itself.
#[derive(Debug)]
pub struct Contacts<N> {
    items: Vec<(u64, u64, N)>,
}

/// Contacts between a moving body and a static collider.
pub type StaticContacts<N> = Contacts<N>;

/// No recorded contact joins an id with itself.
pub open spec fn joins_distinct_bodies<N>(s: Seq<(u64, u64, N)>) -> bool {
    forall|k: int| 0 <= k < s.len() ==> #[trigger] s[k].0 != s[k].1
}

impl<N> View for Contacts<N> {
    type V = Seq<(u64, u64, N)>;

    closed spec fn view(&self) -> Seq<(u64, u64, N)> {
        self.items@
    }
}

impl<N> Contacts<N> {
    #[verifier::type_invariant]
    spec fn distinct_bodies(self) -> bool {
        joins_distinct_bodies(self.items@)
    }

    /// No contacts.
    pub fn new() -> (contacts: Self)
        ensures
            contacts@ == Seq::<(u64, u64, N)>::empty(),
    {
        Contacts { items: Vec::new() }
    }

    /// Forgets every contact.
    pub fn clear(&mut self)
        ensures
            final(self)@ == Seq::<(u64, u64, N)>::empty(),
    {
        self.items = Vec::new();
    }

    /// Records a contact between two different bodies after the others.
    pub fn push(&mut self, a: u64, b: u64, normal: N)
        requires
            a != b,
        ensures
            final(self)@ == old(self)@.push((a, b, normal)),
    {
        proof {
            use_type_invariant(&*self);
        }
        let mut items = Vec::new();
        std::mem::swap(&mut items, &mut self.items);
        items.push((a, b, normal));
        self.items = items;
    }

    /// Number of contacts.
    pub fn len(&self) -> (n: usize)
        ensures
            n == self@.len(),
    {
        self.items.len()
    }

    /// The contacts in the order they were recorded.
    pub fn as_slice(&self) -> (s: &[(u64, u64, N)])
        ensures
            s@ == self@,
            joins_distinct_bodies(s@),
    {
        proof {
            use_type_invariant(self);
        }
        self.items.as_slice()
    }
}

impl<N> Default for Contacts<N> {
    fn default() -> (contacts: Self)
        ensures
            contacts@ == Seq::<(u64, u64, N)>::empty(),
    {
        Contacts::new()
    }
}

} // verus!
