//! The space in which objects live together, and the prototype chains that
//! run through it.
//!
//! Objects refer to each other by `RcObject`. Nothing keeps a prototype link
//! from leading back to an object that the chain has passed: a chain may be
//! cyclic, and then it has no end. A reference that belongs to another
//! space, and so designates no object of this one, ends a chain as a missing
//! prototype does.

use crate::object::{Namespace, Object, RcObject};
use vstd::prelude::*;

verus! {

/// Whether `reference` is a reference to an object of `objects`.
pub open spec fn live(objects: Seq<Object>, reference: Option<RcObject>) -> bool {
    match reference {
        Some(object) => object.index < objects.len(),
        None => false,
    }
}

/// The prototype of the object behind the live reference `reference`.
pub open spec fn parent(objects: Seq<Object>, reference: Option<RcObject>) -> Option<RcObject> {
    objects[reference->0.index as int].prototype
}

/// Whether the prototype chain that begins at `start` comes to an end after
/// at most `hops` objects. A reference to no object of `objects` ends it.
pub open spec fn chain_ends_within(objects: Seq<Object>, start: Option<RcObject>, hops: nat) -> bool
    decreases hops,
{
    !live(objects, start) || (hops > 0 && chain_ends_within(
        objects,
        parent(objects, start),
        (hops - 1) as nat,
    ))
}

/// Whether the prototype chain that begins at `start` is finite, that is,
/// does not run into a cycle.
pub open spec fn finite_chain(objects: Seq<Object>, start: Option<RcObject>) -> bool {
    exists|hops: nat| chain_ends_within(objects, start, hops)
}

/// What the object behind the live reference `reference` itself binds `name`
/// to in the namespace `kind`, if it binds it.
pub open spec fn own_binding(
    objects: Seq<Object>,
    reference: Option<RcObject>,
    name: Seq<char>,
    kind: Namespace,
) -> Option<RcObject> {
    let table = objects[reference->0.index as int].table(kind);
    if table.contains_key(name) {
        Some(table[name])
    } else {
        None
    }
}

/// The binding of `name` in the first of the next `hops + 1` objects of the
/// chain at `start` that defines `name` in the namespace `kind`.
pub open spec fn first_binding(
    objects: Seq<Object>,
    start: Option<RcObject>,
    name: Seq<char>,
    kind: Namespace,
    hops: nat,
) -> Option<RcObject>
    decreases hops,
{
    if !live(objects, start) {
        None
    } else if own_binding(objects, start, name, kind) is Some || hops == 0 {
        own_binding(objects, start, name, kind)
    } else {
        first_binding(objects, parent(objects, start), name, kind, (hops - 1) as nat)
    }
}

/// The binding of `name` in the first object of the finite chain at `start`
/// that defines it, if there is one.
pub open spec fn inherited(
    objects: Seq<Object>,
    start: Option<RcObject>,
    name: Seq<char>,
    kind: Namespace,
) -> Option<RcObject> {
    first_binding(
        objects,
        start,
        name,
        kind,
        choose|hops: nat| chain_ends_within(objects, start, hops),
    )
}

/// On a chain that ends within `hops` objects, looking at `hops` objects
/// finds what looking at any other sufficient number of them finds.
pub proof fn lemma_first_binding_stable(
    objects: Seq<Object>,
    start: Option<RcObject>,
    name: Seq<char>,
    kind: Namespace,
    hops: nat,
    more: nat,
)
    requires
        chain_ends_within(objects, start, hops),
        chain_ends_within(objects, start, more),
    ensures
        first_binding(objects, start, name, kind, hops) == first_binding(
            objects,
            start,
            name,
            kind,
            more,
        ),
    decreases hops,
{
    if live(objects, start) && own_binding(objects, start, name, kind) is None {
        lemma_first_binding_stable(
            objects,
            parent(objects, start),
            name,
            kind,
            (hops - 1) as nat,
            (more - 1) as nat,
        );
    }
}

/// What `hops` prototype links lead to from `start`: a reference, or `None`
/// past the end of the chain.
pub open spec fn ancestor(objects: Seq<Object>, start: Option<RcObject>, hops: nat) -> Option<
    RcObject,
>
    decreases hops,
{
    if hops == 0 {
        start
    } else if live(objects, start) {
        ancestor(objects, parent(objects, start), (hops - 1) as nat)
    } else {
        None
    }
}

/// Following `first` links and then `second` links is following
/// `first + second` links.
pub proof fn lemma_ancestor_of_ancestor(
    objects: Seq<Object>,
    start: Option<RcObject>,
    first: nat,
    second: nat,
)
    ensures
        ancestor(objects, ancestor(objects, start, first), second) == ancestor(
            objects,
            start,
            first + second,
        ),
    decreases first,
{
    if first > 0 {
        if live(objects, start) {
            lemma_ancestor_of_ancestor(
                objects,
                parent(objects, start),
                (first - 1) as nat,
                second,
            );
        } else {
            lemma_ancestor_past_end(objects, second);
        }
    }
}

/// Nothing follows the end of a chain.
pub proof fn lemma_ancestor_past_end(objects: Seq<Object>, hops: nat)
    ensures
        ancestor(objects, None, hops) is None,
{
}

/// A chain on which `hops` links lead to no object ends within `hops`
/// objects.
pub proof fn lemma_chain_ends_at(objects: Seq<Object>, start: Option<RcObject>, hops: nat)
    requires
        !live(objects, ancestor(objects, start, hops)),
    ensures
        chain_ends_within(objects, start, hops),
    decreases hops,
{
    if hops > 0 && live(objects, start) {
        lemma_chain_ends_at(objects, parent(objects, start), (hops - 1) as nat);
    }
}

/// On a chain that ends within `bound` objects, an object that `hops`
/// links lead to is one of them, and the chain from it ends within those
/// that remain.
pub proof fn lemma_chain_ends_after(
    objects: Seq<Object>,
    start: Option<RcObject>,
    bound: nat,
    hops: nat,
)
    requires
        chain_ends_within(objects, start, bound),
        live(objects, ancestor(objects, start, hops)),
    ensures
        hops < bound,
        chain_ends_within(objects, ancestor(objects, start, hops), (bound - hops) as nat),
    decreases hops,
{
    if hops > 0 {
        lemma_chain_ends_after(
            objects,
            parent(objects, start),
            (bound - 1) as nat,
            (hops - 1) as nat,
        );
    }
}

/// A chain that leads from an object back to that object never ends.
pub proof fn lemma_cycle_never_ends(
    objects: Seq<Object>,
    object: RcObject,
    period: nat,
    bound: nat,
)
    requires
        live(objects, Some(object)),
        period >= 1,
        ancestor(objects, Some(object), period) == Some(object),
    ensures
        !chain_ends_within(objects, Some(object), bound),
    decreases bound,
{
    if chain_ends_within(objects, Some(object), bound) {
        let next = parent(objects, Some(object));
        assert(ancestor(objects, next, (period - 1) as nat) == Some(object));
        if period > 1 {
            if !live(objects, next) {
                lemma_ancestor_past_end(objects, (period - 1) as nat);
            }
            lemma_ancestor_of_ancestor(objects, next, (period - 1) as nat, 1);
            assert(ancestor(objects, Some(object), 1) == next) by {
                reveal_with_fuel(ancestor, 2);
            }
        }
        lemma_cycle_never_ends(objects, next->0, period, (bound - 1) as nat);
    }
}

/// A chain that leads through more objects than there are passes through
/// one of them twice, and so never ends.
pub proof fn lemma_long_chain_never_ends(objects: Seq<Object>, start: Option<RcObject>)
    requires
        forall|hops: nat|
            hops <= objects.len() ==> live(objects, #[trigger] ancestor(objects, start, hops)),
    ensures
        !finite_chain(objects, start),
{
    let count = objects.len();
    let visited = Seq::new(
        count + 1,
        |hops: int| ancestor(objects, start, hops as nat)->0.index as int,
    );
    if visited.no_duplicates() {
        visited.unique_seq_to_set();
        vstd::set_lib::lemma_int_range(0, count as int);
        assert(visited.to_set().subset_of(vstd::set_lib::set_int_range(0, count as int))) by {
            assert forall|index: int| visited.to_set().contains(index) implies 0 <= index
                < count by {
                let hops = choose|hops: int| 0 <= hops < visited.len() && visited[hops] == index;
                assert(live(objects, ancestor(objects, start, hops as nat)));
            }
        }
        vstd::set_lib::lemma_len_subset(
            visited.to_set(),
            vstd::set_lib::set_int_range(0, count as int),
        );
    }
    let (first, second) = choose|first: int, second: int|
        0 <= first < visited.len() && 0 <= second < visited.len() && first != second
            && visited[first] == visited[second];
    let (near, far) = if first < second {
        (first as nat, second as nat)
    } else {
        (second as nat, first as nat)
    };
    assert(live(objects, ancestor(objects, start, near)));
    assert(live(objects, ancestor(objects, start, far)));
    let object = ancestor(objects, start, near)->0;
    assert(ancestor(objects, start, far) == Some(object));
    lemma_ancestor_of_ancestor(objects, start, near, (far - near) as nat);
    assert forall|bound: nat| !chain_ends_within(objects, start, bound) by {
        if chain_ends_within(objects, start, bound) {
            lemma_chain_ends_after(objects, start, bound, near);
            lemma_cycle_never_ends(objects, object, (far - near) as nat, (bound - near) as nat);
        }
    }
}

/// Along a finite chain a name resolves to what the first object binds it
/// to, if that object binds it, and to what it resolves to along the rest of
/// the chain otherwise. Past the end of a chain it resolves to nothing.
pub proof fn lemma_inherited_unfolds(
    objects: Seq<Object>,
    start: Option<RcObject>,
    name: Seq<char>,
    kind: Namespace,
)
    requires
        finite_chain(objects, start),
    ensures
        !live(objects, start) ==> inherited(objects, start, name, kind) is None,
        live(objects, start) ==> finite_chain(objects, parent(objects, start)),
        live(objects, start) ==> inherited(objects, start, name, kind) == (if own_binding(
            objects,
            start,
            name,
            kind,
        ) is Some {
            own_binding(objects, start, name, kind)
        } else {
            inherited(objects, parent(objects, start), name, kind)
        }),
{
    if live(objects, start) {
        let hops = choose|hops: nat| chain_ends_within(objects, start, hops);
        let next = parent(objects, start);
        assert(chain_ends_within(objects, next, (hops - 1) as nat));
        let rest = choose|rest: nat| chain_ends_within(objects, next, rest);
        lemma_first_binding_stable(objects, next, name, kind, (hops - 1) as nat, rest);
    }
}

/// The objects of one runtime, which may refer to each other.
pub struct ObjectSpace {
    objects: Vec<Object>,
}

impl View for ObjectSpace {
    type V = Seq<Object>;

    closed spec fn view(&self) -> Seq<Object> {
        self.objects@
    }
}

impl ObjectSpace {
    /// A space without objects.
    pub fn new() -> (space: ObjectSpace)
        ensures
            space@ == Seq::<Object>::empty(),
    {
        ObjectSpace { objects: Vec::new() }
    }

    /// The number of objects.
    pub fn len(&self) -> (len: usize)
        ensures
            len == self@.len(),
    {
        self.objects.len()
    }

    /// Moves `object` into the space and returns the reference under which
    /// it is shared from now on.
    pub fn share(&mut self, object: Object) -> (reference: RcObject)
        ensures
            reference.index == old(self)@.len(),
            final(self)@ == old(self)@.push(object),
    {
        let index: usize = self.objects.len();
        self.objects.push(object);
        RcObject { index: index }
    }

    /// The object behind `reference`, for reading; `None` where the
    /// reference is to no object of this space.
    pub fn read(&self, reference: RcObject) -> (object: Option<&Object>)
        ensures
            reference.index < self@.len() ==> object == Some(&self@[reference.index as int]),
            reference.index >= self@.len() ==> object is None,
    {
        if reference.index < self.objects.len() {
            Some(&self.objects[reference.index])
        } else {
            None
        }
    }

    /// Whether the prototype chain that begins at `start` comes to an end,
    /// so that a lookup along it terminates.
    pub fn chain_is_finite(&self, start: Option<RcObject>) -> (finite: bool)
        ensures
            finite == finite_chain(self@, start),
    {
        let count: usize = self.objects.len();
        let mut current: Option<RcObject> = start;
        let mut hops: usize = 0;
        loop
            invariant
                count == self@.len(),
                hops <= count,
                current == ancestor(self@, start, hops as nat),
                forall|earlier: nat|
                    earlier < hops ==> live(self@, #[trigger] ancestor(self@, start, earlier)),
            decreases count - hops,
        {
            let index: usize = match current {
                Some(reference) => reference.index,
                None => count,
            };
            if index >= count {
                proof {
                    lemma_chain_ends_at(self@, start, hops as nat);
                }
                return true;
            }
            if hops == count {
                proof {
                    lemma_long_chain_never_ends(self@, start);
                }
                return false;
            }
            proof {
                lemma_ancestor_of_ancestor(self@, start, hops as nat, 1);
                reveal_with_fuel(ancestor, 2);
            }
            current = self.objects[index].prototype;
            hops = hops + 1;
        }
    }

    /// The object behind `reference`, for writing. Every other object of
    /// the space stays as it is.
    pub fn write(&mut self, reference: RcObject) -> (object: &mut Object)
        requires
            reference.index < old(self)@.len(),
        ensures
            *object == old(self)@[reference.index as int],
            final(self)@ == old(self)@.update(reference.index as int, *final(object)),
    {
        &mut self.objects[reference.index]
    }
}

} // verus!
