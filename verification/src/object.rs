//! Runtime objects.
//!
//! Every runtime value is an `Object`: an identity, an optional prototype, an
//! optional header holding its methods, constants, attributes and flags, and
//! a wrapped native value. Objects that refer to each other live together in
//! an `ObjectSpace`, and an `RcObject` is a shared reference to one of them.
//! The header is allocated by the first operation that needs it; an object
//! without a header has no methods, constants or attributes, is not pinned
//! and is truthy.

use crate::space::{chain_ends_within, finite_chain, first_binding, inherited, ObjectSpace};
use vstd::hash_map::StringHashMap;
use vstd::prelude::*;

verus! {

/// A shared reference to an object of an `ObjectSpace`.
#[derive(Debug, Clone, Copy, PartialEq, Eq, Structural)]
pub struct RcObject {
    pub index: usize,
}

/// The native value an object wraps.
#[derive(Debug)]
pub enum ObjectValue {
    /// No native value.
    Nil,
    Integer(i64),
    /// A double, kept as its IEEE 754 bit pattern.
    Float(u64),
    String(String),
    Array(Vec<RcObject>),
}

/// The metadata of an object, allocated on first use.
pub struct ObjectHeader {
    pub methods: StringHashMap<RcObject>,
    pub constants: StringHashMap<RcObject>,
    pub attributes: StringHashMap<RcObject>,
    pub pinned: bool,
    pub truthy: bool,
}

impl ObjectHeader {
    /// An empty header: no names, not pinned, truthy.
    pub fn new() -> (header: ObjectHeader)
        ensures
            header.methods@ == Map::<Seq<char>, RcObject>::empty(),
            header.constants@ == Map::<Seq<char>, RcObject>::empty(),
            header.attributes@ == Map::<Seq<char>, RcObject>::empty(),
            !header.pinned,
            header.truthy,
    {
        ObjectHeader {
            methods: StringHashMap::new(),
            constants: StringHashMap::new(),
            attributes: StringHashMap::new(),
            pinned: false,
            truthy: true,
        }
    }

    /// Clears the truthy flag and leaves everything else as it was.
    pub fn set_falsy(&mut self)
        ensures
            !final(self).truthy,
            final(self).pinned == old(self).pinned,
            final(self).methods == old(self).methods,
            final(self).constants == old(self).constants,
            final(self).attributes == old(self).attributes,
    {
        self.truthy = false;
    }
}

/// The two namespaces whose names are inherited along the prototype chain.
#[derive(Debug, Clone, Copy, PartialEq, Eq, Structural)]
pub enum Namespace {
    Methods,
    Constants,
}

/// A single runtime object.
pub struct Object {
    /// A unique ID associated with the object.
    pub id: usize,
    pub prototype: Option<RcObject>,
    pub header: Option<Box<ObjectHeader>>,
    pub value: ObjectValue,
}

impl Object {
    /// The methods defined directly on this object.
    pub open spec fn methods(&self) -> Map<Seq<char>, RcObject> {
        match self.header {
            Some(header) => header.methods@,
            None => Map::empty(),
        }
    }

    /// The constants defined directly on this object.
    pub open spec fn constants(&self) -> Map<Seq<char>, RcObject> {
        match self.header {
            Some(header) => header.constants@,
            None => Map::empty(),
        }
    }

    /// The attributes of this object.
    pub open spec fn attributes(&self) -> Map<Seq<char>, RcObject> {
        match self.header {
            Some(header) => header.attributes@,
            None => Map::empty(),
        }
    }

    /// Whether the object is pinned; an object without a header is not.
    pub open spec fn is_pinned(&self) -> bool {
        match self.header {
            Some(header) => header.pinned,
            None => false,
        }
    }

    /// Whether the object counts as true; an object without a header does.
    pub open spec fn is_truthy(&self) -> bool {
        match self.header {
            Some(header) => header.truthy,
            None => true,
        }
    }

    /// The names this object defines in one of the inherited namespaces.
    pub open spec fn table(&self, space: Namespace) -> Map<Seq<char>, RcObject> {
        match space {
            Namespace::Methods => self.methods(),
            Namespace::Constants => self.constants(),
        }
    }

    /// A fresh object: no prototype and no header.
    pub fn new(id: usize, value: ObjectValue) -> (object: Object)
        ensures
            object.id == id,
            object.value == value,
            object.prototype is None,
            object.header is None,
    {
        Object { id: id, prototype: None, header: None, value: value }
    }

    /// Replaces the prototype link. The link is not checked in any way.
    pub fn set_prototype(&mut self, prototype: RcObject)
        ensures
            final(self).prototype == Some(prototype),
            final(self).id == old(self).id,
            final(self).header == old(self).header,
            final(self).value == old(self).value,
    {
        self.prototype = Some(prototype);
    }

    /// The prototype link.
    pub fn prototype(&self) -> (prototype: Option<RcObject>)
        ensures
            prototype == self.prototype,
    {
        self.prototype
    }

    fn allocate_header(&mut self)
        ensures
            final(self).header is Some,
            old(self).header is Some ==> final(self).header == old(self).header,
            final(self).methods() == old(self).methods(),
            final(self).constants() == old(self).constants(),
            final(self).attributes() == old(self).attributes(),
            final(self).is_pinned() == old(self).is_pinned(),
            final(self).is_truthy() == old(self).is_truthy(),
            final(self).id == old(self).id,
            final(self).prototype == old(self).prototype,
            final(self).value == old(self).value,
    {
        if self.header.is_none() {
            self.header = Some(Box::new(ObjectHeader::new()));
        }
    }

    /// Marks the object as one that must not be moved or reclaimed.
    pub fn pin(&mut self)
        ensures
            final(self).header is Some,
            final(self).is_pinned(),
            final(self).methods() == old(self).methods(),
            final(self).constants() == old(self).constants(),
            final(self).attributes() == old(self).attributes(),
            final(self).is_truthy() == old(self).is_truthy(),
            final(self).id == old(self).id,
            final(self).prototype == old(self).prototype,
            final(self).value == old(self).value,
    {
        self.allocate_header();
        let mut header = self.header.take().unwrap();
        header.pinned = true;
        self.header = Some(header);
    }

    /// Clears the pinned flag.
    pub fn unpin(&mut self)
        ensures
            final(self).header is Some,
            !final(self).is_pinned(),
            final(self).methods() == old(self).methods(),
            final(self).constants() == old(self).constants(),
            final(self).attributes() == old(self).attributes(),
            final(self).is_truthy() == old(self).is_truthy(),
            final(self).id == old(self).id,
            final(self).prototype == old(self).prototype,
            final(self).value == old(self).value,
    {
        self.allocate_header();
        let mut header = self.header.take().unwrap();
        header.pinned = false;
        self.header = Some(header);
    }

    /// Binds `name` to `method` among the methods of this object, in place of
    /// any earlier binding of that name.
    pub fn add_method(&mut self, name: String, method: RcObject)
        ensures
            final(self).header is Some,
            final(self).methods() == old(self).methods().insert(name@, method),
            final(self).constants() == old(self).constants(),
            final(self).attributes() == old(self).attributes(),
            final(self).is_pinned() == old(self).is_pinned(),
            final(self).is_truthy() == old(self).is_truthy(),
            final(self).id == old(self).id,
            final(self).prototype == old(self).prototype,
            final(self).value == old(self).value,
    {
        self.allocate_header();
        let mut header = self.header.take().unwrap();
        header.methods.insert(name, method);
        self.header = Some(header);
    }

    /// Binds `name` to `value` among the constants of this object, in place
    /// of any earlier binding of that name.
    pub fn add_constant(&mut self, name: String, value: RcObject)
        ensures
            final(self).header is Some,
            final(self).constants() == old(self).constants().insert(name@, value),
            final(self).methods() == old(self).methods(),
            final(self).attributes() == old(self).attributes(),
            final(self).is_pinned() == old(self).is_pinned(),
            final(self).is_truthy() == old(self).is_truthy(),
            final(self).id == old(self).id,
            final(self).prototype == old(self).prototype,
            final(self).value == old(self).value,
    {
        self.allocate_header();
        let mut header = self.header.take().unwrap();
        header.constants.insert(name, value);
        self.header = Some(header);
    }

    /// Binds `name` to `object` among the attributes of this object, in
    /// place of any earlier binding of that name.
    pub fn add_attribute(&mut self, name: String, object: RcObject)
        ensures
            final(self).header is Some,
            final(self).attributes() == old(self).attributes().insert(name@, object),
            final(self).methods() == old(self).methods(),
            final(self).constants() == old(self).constants(),
            final(self).is_pinned() == old(self).is_pinned(),
            final(self).is_truthy() == old(self).is_truthy(),
            final(self).id == old(self).id,
            final(self).prototype == old(self).prototype,
            final(self).value == old(self).value,
    {
        self.allocate_header();
        let mut header = self.header.take().unwrap();
        header.attributes.insert(name, object);
        self.header = Some(header);
    }

    /// The attribute bound to `name` on this object itself. Attributes are
    /// never inherited: neither the prototype nor any other object is read.
    pub fn lookup_attribute(&self, name: &String) -> (found: Option<RcObject>)
        ensures
            found == (if self.attributes().contains_key(name@) {
                Some(self.attributes()[name@])
            } else {
                None
            }),
    {
        match &self.header {
            Some(header) => match header.attributes.get(name.as_str()) {
                Some(object) => Some(*object),
                None => None,
            },
            None => None,
        }
    }

    /// Whether the object counts as true.
    pub fn truthy(&self) -> (truthy: bool)
        ensures
            truthy == self.is_truthy(),
    {
        match &self.header {
            Some(header) => header.truthy,
            None => true,
        }
    }

    /// Makes the object count as false from now on.
    pub fn set_falsy(&mut self)
        ensures
            final(self).header is Some,
            !final(self).is_truthy(),
            final(self).methods() == old(self).methods(),
            final(self).constants() == old(self).constants(),
            final(self).attributes() == old(self).attributes(),
            final(self).is_pinned() == old(self).is_pinned(),
            final(self).id == old(self).id,
            final(self).prototype == old(self).prototype,
            final(self).value == old(self).value,
    {
        self.allocate_header();
        let mut header = self.header.take().unwrap();
        header.set_falsy();
        self.header = Some(header);
    }

    /// What a lookup of `name` in the namespace `kind` finds from this
    /// object. An object with a header answers from its own table alone,
    /// whether or not the name is there; an object without one answers with
    /// the first binding along its prototype chain.
    pub open spec fn resolve(
        &self,
        objects: Seq<Object>,
        name: Seq<char>,
        kind: Namespace,
    ) -> Option<RcObject> {
        if self.header is Some {
            if self.table(kind).contains_key(name) {
                Some(self.table(kind)[name])
            } else {
                None
            }
        } else {
            inherited(objects, self.prototype, name, kind)
        }
    }

    fn lookup(&self, name: &str, space: &ObjectSpace, kind: Namespace) -> (found: Option<RcObject>)
        requires
            self.header is None ==> finite_chain(space@, self.prototype),
        ensures
            found == self.resolve(space@, name@, kind),
    {
        if let Some(header) = &self.header {
            let own = match kind {
                Namespace::Methods => header.methods.get(name),
                Namespace::Constants => header.constants.get(name),
            };
            return match own {
                Some(object) => Some(*object),
                None => None,
            };
        }
        let ghost hops: nat = choose|hops: nat| chain_ends_within(space@, self.prototype, hops);
        let ghost mut left: nat = hops;
        let mut current: Option<RcObject> = self.prototype;
        loop
            invariant
                chain_ends_within(space@, current, left),
                first_binding(space@, current, name@, kind, left) == self.resolve(
                    space@,
                    name@,
                    kind,
                ),
            decreases left,
        {
            let parent = match current {
                Some(reference) => match space.read(reference) {
                    Some(parent) => parent,
                    None => { return None; },
                },
                None => { return None; },
            };
            if let Some(header) = &parent.header {
                let bound = match kind {
                    Namespace::Methods => header.methods.get(name),
                    Namespace::Constants => header.constants.get(name),
                };
                if let Some(object) = bound {
                    return Some(*object);
                }
            }
            current = parent.prototype;
            proof {
                left = (left - 1) as nat;
            }
        }
    }

    /// The method that `name` resolves to from this object.
    ///
    /// The prototype chain of an object without a header must be finite:
    /// the walk along it has no guard against a cycle of prototypes.
    pub fn lookup_method(&self, name: &String, space: &ObjectSpace) -> (found: Option<RcObject>)
        requires
            self.header is None ==> finite_chain(space@, self.prototype),
        ensures
            found == self.resolve(space@, name@, Namespace::Methods),
    {
        self.lookup(name.as_str(), space, Namespace::Methods)
    }

    /// The constant that `name` resolves to from this object.
    ///
    /// The prototype chain of an object without a header must be finite:
    /// the walk along it has no guard against a cycle of prototypes.
    pub fn lookup_constant(&self, name: &String, space: &ObjectSpace) -> (found: Option<RcObject>)
        requires
            self.header is None ==> finite_chain(space@, self.prototype),
        ensures
            found == self.resolve(space@, name@, Namespace::Constants),
    {
        self.lookup(name.as_str(), space, Namespace::Constants)
    }
}

/// An object without a header is truthy, is not pinned, has no attribute,
/// and resolves a method or constant exactly as its prototype chain does:
/// to nothing at all where it has no prototype.
pub proof fn lemma_object_without_header(
    object: Object,
    objects: Seq<Object>,
    name: Seq<char>,
    kind: Namespace,
)
    requires
        object.header is None,
    ensures
        object.is_truthy(),
        !object.is_pinned(),
        !object.attributes().contains_key(name),
        !object.table(kind).contains_key(name),
        object.resolve(objects, name, kind) == inherited(objects, object.prototype, name, kind),
        object.prototype is None ==> object.resolve(objects, name, kind) is None,
{
}

/// An object with a header resolves methods and constants from its own
/// tables alone. Whatever its prototype chain defines, a name that is
/// missing from its own table resolves to nothing, and the answer is the
/// same in every space and under every prototype.
pub proof fn lemma_header_hides_prototypes(
    object: Object,
    objects: Seq<Object>,
    prototype: Option<RcObject>,
    others: Seq<Object>,
    name: Seq<char>,
    kind: Namespace,
)
    requires
        object.header is Some,
    ensures
        !object.table(kind).contains_key(name) ==> object.resolve(objects, name, kind) is None,
        object.table(kind).contains_key(name) ==> object.resolve(objects, name, kind) == Some(
            object.table(kind)[name],
        ),
        (Object { prototype: prototype, ..object }).resolve(others, name, kind) == object.resolve(
            objects,
            name,
            kind,
        ),
{
}

/// The attributes of an object do not depend on its prototype: no change of
/// the prototype link adds, removes or rebinds one.
pub proof fn lemma_attributes_not_inherited(object: Object, prototype: Option<RcObject>)
    ensures
        (Object { prototype: prototype, ..object }).attributes() == object.attributes(),
{
}

} // verus!
