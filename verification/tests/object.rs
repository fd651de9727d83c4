use aeon::object::{Object, ObjectHeader, ObjectValue, RcObject};
use aeon::space::ObjectSpace;

fn name(text: &str) -> String {
    text.to_string()
}

fn plain(space: &mut ObjectSpace, id: usize) -> RcObject {
    space.share(Object::new(id, ObjectValue::Nil))
}

#[test]
fn test_new_object_has_no_prototype_and_no_header() {
    let object = Object::new(7, ObjectValue::Integer(42));

    assert_eq!(object.id, 7);
    assert!(object.prototype().is_none());
    assert!(object.header.is_none());
    assert!(matches!(object.value, ObjectValue::Integer(42)));
}

#[test]
fn test_header_defaults() {
    let header = ObjectHeader::new();

    assert!(header.truthy);
    assert!(!header.pinned);
    assert!(header.methods.is_empty());
    assert!(header.constants.is_empty());
    assert!(header.attributes.is_empty());
}

#[test]
fn test_object_without_header_is_truthy_and_finds_nothing() {
    let space = ObjectSpace::new();
    let object = Object::new(1, ObjectValue::Nil);

    assert!(object.truthy());
    assert_eq!(object.lookup_method(&name("x"), &space), None);
    assert_eq!(object.lookup_constant(&name("x"), &space), None);
    assert_eq!(object.lookup_attribute(&name("x")), None);
    assert!(object.header.is_none());
}

#[test]
fn test_pin_allocates_header_and_adds_no_method() {
    let space = ObjectSpace::new();
    let mut object = Object::new(1, ObjectValue::Nil);

    object.pin();

    assert!(object.header.is_some());
    assert!(object.header.as_ref().unwrap().pinned);
    assert!(object.truthy());
    assert_eq!(object.lookup_method(&name("x"), &space), None);
    assert_eq!(object.lookup_constant(&name("x"), &space), None);
    assert_eq!(object.lookup_attribute(&name("x")), None);
}

#[test]
fn test_unpin_clears_the_flag() {
    let mut object = Object::new(1, ObjectValue::Nil);

    object.unpin();
    assert!(object.header.is_some());
    assert!(!object.header.as_ref().unwrap().pinned);

    object.pin();
    object.unpin();
    assert!(!object.header.as_ref().unwrap().pinned);
}

#[test]
fn test_set_falsy_is_kept_by_later_mutators() {
    let mut space = ObjectSpace::new();
    let other = plain(&mut space, 2);
    let mut object = Object::new(1, ObjectValue::Nil);

    object.set_falsy();
    assert!(!object.truthy());

    object.pin();
    object.add_method(name("m"), other);
    object.add_constant(name("C"), other);
    object.add_attribute(name("a"), other);
    object.unpin();

    assert!(!object.truthy());
}

#[test]
fn test_mutators_leave_the_other_tables_alone() {
    let mut space = ObjectSpace::new();
    let first = plain(&mut space, 10);
    let second = plain(&mut space, 11);
    let third = plain(&mut space, 12);
    let mut object = Object::new(1, ObjectValue::Nil);

    object.add_method(name("x"), first);
    assert_eq!(object.lookup_method(&name("x"), &space), Some(first));
    assert_eq!(object.lookup_constant(&name("x"), &space), None);
    assert_eq!(object.lookup_attribute(&name("x")), None);

    object.add_constant(name("x"), second);
    object.add_attribute(name("x"), third);
    object.pin();
    object.set_falsy();

    assert_eq!(object.lookup_method(&name("x"), &space), Some(first));
    assert_eq!(object.lookup_constant(&name("x"), &space), Some(second));
    assert_eq!(object.lookup_attribute(&name("x")), Some(third));
    assert_eq!(object.lookup_method(&name("y"), &space), None);
    assert!(object.header.as_ref().unwrap().pinned);
}

#[test]
fn test_add_method_replaces_an_earlier_binding() {
    let mut space = ObjectSpace::new();
    let first = plain(&mut space, 10);
    let second = plain(&mut space, 11);
    let mut object = Object::new(1, ObjectValue::Nil);

    object.add_method(name("x"), first);
    object.add_method(name("x"), second);

    assert_eq!(object.lookup_method(&name("x"), &space), Some(second));
}

#[test]
fn test_method_is_inherited_by_object_without_header() {
    let mut space = ObjectSpace::new();
    let method = plain(&mut space, 10);
    let parent = plain(&mut space, 1);
    space.write(parent).add_method(name("x"), method);

    let mut child = Object::new(2, ObjectValue::Nil);
    child.set_prototype(parent);

    assert_eq!(child.prototype(), Some(parent));
    assert_eq!(child.lookup_method(&name("x"), &space), Some(method));
    assert_eq!(child.lookup_method(&name("y"), &space), None);
    assert_eq!(child.lookup_constant(&name("x"), &space), None);
    assert!(child.header.is_none());
}

#[test]
fn test_header_short_circuits_method_lookup() {
    let mut space = ObjectSpace::new();
    let method = plain(&mut space, 10);
    let parent = plain(&mut space, 1);
    space.write(parent).add_method(name("x"), method);

    let mut child = Object::new(2, ObjectValue::Nil);
    child.set_prototype(parent);
    child.pin();

    assert_eq!(child.lookup_method(&name("x"), &space), None);
}

#[test]
fn test_header_short_circuits_constant_lookup() {
    let mut space = ObjectSpace::new();
    let constant = plain(&mut space, 10);
    let own = plain(&mut space, 11);
    let parent = plain(&mut space, 1);
    space.write(parent).add_constant(name("X"), constant);

    let mut child = Object::new(2, ObjectValue::Nil);
    child.set_prototype(parent);
    assert_eq!(child.lookup_constant(&name("X"), &space), Some(constant));

    child.add_constant(name("Y"), own);
    assert_eq!(child.lookup_constant(&name("X"), &space), None);
    assert_eq!(child.lookup_constant(&name("Y"), &space), Some(own));
}

#[test]
fn test_lookup_passes_over_parents_that_lack_the_name() {
    let mut space = ObjectSpace::new();
    let near = plain(&mut space, 10);
    let far = plain(&mut space, 11);
    let grandparent = plain(&mut space, 1);
    space.write(grandparent).add_method(name("x"), far);
    space.write(grandparent).add_method(name("y"), far);
    let parent = plain(&mut space, 2);
    space.write(parent).set_prototype(grandparent);
    space.write(parent).add_method(name("x"), near);
    let bare = plain(&mut space, 3);
    space.write(bare).set_prototype(parent);

    let mut child = Object::new(4, ObjectValue::Nil);
    child.set_prototype(bare);

    assert_eq!(child.lookup_method(&name("x"), &space), Some(near));
    assert_eq!(child.lookup_method(&name("y"), &space), Some(far));
    assert_eq!(child.lookup_method(&name("z"), &space), None);
}

#[test]
fn test_attributes_are_never_inherited() {
    let mut space = ObjectSpace::new();
    let attribute = plain(&mut space, 10);
    let parent = plain(&mut space, 1);
    space.write(parent).add_attribute(name("a"), attribute);

    let mut child = Object::new(2, ObjectValue::Nil);
    child.set_prototype(parent);
    assert_eq!(child.lookup_attribute(&name("a")), None);

    child.pin();
    assert_eq!(child.lookup_attribute(&name("a")), None);
    assert_eq!(space.read(parent).unwrap().lookup_attribute(&name("a")), Some(attribute));
}

#[test]
fn test_reference_to_no_object_ends_the_chain() {
    let mut space = ObjectSpace::new();
    let mut other = ObjectSpace::new();
    plain(&mut other, 1);
    plain(&mut other, 2);
    let stray = plain(&mut other, 3);
    let method = plain(&mut space, 10);

    let mut child = Object::new(2, ObjectValue::Nil);
    child.set_prototype(stray);

    assert!(space.read(stray).is_none());
    assert!(space.chain_is_finite(child.prototype()));
    assert_eq!(child.lookup_method(&name("x"), &space), None);
    assert_eq!(space.read(method).unwrap().id, 10);
}

#[test]
fn test_space_shares_reads_and_writes() {
    let mut space = ObjectSpace::new();
    assert_eq!(space.len(), 0);

    let first = space.share(Object::new(5, ObjectValue::String(name("five"))));
    let second = space.share(Object::new(6, ObjectValue::Float(0x4018_0000_0000_0000)));
    assert_eq!(space.len(), 2);
    assert_ne!(first, second);

    space.write(second).set_falsy();
    assert!(space.read(first).unwrap().truthy());
    assert!(!space.read(second).unwrap().truthy());
    assert_eq!(space.read(first).unwrap().id, 5);
    assert!(matches!(
        &space.read(first).unwrap().value,
        ObjectValue::String(text) if text == "five"
    ));

    let list = space.share(Object::new(7, ObjectValue::Array(vec![first, second])));
    assert!(matches!(
        &space.read(list).unwrap().value,
        ObjectValue::Array(items) if items.len() == 2
    ));
}

#[test]
fn test_later_change_of_a_parent_is_seen_by_the_child() {
    let mut space = ObjectSpace::new();
    let method = plain(&mut space, 10);
    let parent = plain(&mut space, 1);
    let child = plain(&mut space, 2);
    space.write(child).set_prototype(parent);

    assert_eq!(space.read(child).unwrap().lookup_method(&name("x"), &space), None);

    space.write(parent).add_method(name("x"), method);

    assert_eq!(space.read(child).unwrap().lookup_method(&name("x"), &space), Some(method));
}

#[test]
fn test_finite_chains_are_recognised() {
    let mut space = ObjectSpace::new();
    let a = plain(&mut space, 1);
    let b = plain(&mut space, 2);
    let c = plain(&mut space, 3);
    space.write(b).set_prototype(a);
    space.write(c).set_prototype(b);

    assert!(space.chain_is_finite(None));
    assert!(space.chain_is_finite(Some(a)));
    assert!(space.chain_is_finite(Some(c)));
}

#[test]
fn test_cyclic_chains_are_recognised() {
    let mut space = ObjectSpace::new();
    let a = plain(&mut space, 1);
    let b = plain(&mut space, 2);
    let c = plain(&mut space, 3);
    let alone = plain(&mut space, 4);
    space.write(a).set_prototype(b);
    space.write(b).set_prototype(a);
    space.write(c).set_prototype(a);
    space.write(alone).set_prototype(alone);

    assert!(!space.chain_is_finite(Some(a)));
    assert!(!space.chain_is_finite(Some(b)));
    assert!(!space.chain_is_finite(Some(c)));
    assert!(!space.chain_is_finite(Some(alone)));

    space.write(b).set_prototype(alone);
    space.write(alone).set_prototype(c);
    assert!(!space.chain_is_finite(Some(a)));
}

#[test]
fn test_object_with_header_may_sit_in_a_cycle() {
    let mut space = ObjectSpace::new();
    let method = plain(&mut space, 10);
    let mut object = Object::new(1, ObjectValue::Nil);
    object.add_method(name("x"), method);
    let shared = space.share(object);
    space.write(shared).set_prototype(shared);

    let mut child = Object::new(2, ObjectValue::Nil);
    child.set_prototype(shared);

    assert!(!space.chain_is_finite(child.prototype()));
    assert!(space.chain_is_finite(None));

    let looped = space.read(shared).unwrap();
    assert_eq!(looped.prototype(), Some(shared));
    assert_eq!(looped.lookup_method(&name("x"), &space), Some(method));
    assert_eq!(looped.lookup_method(&name("y"), &space), None);
    assert_eq!(looped.lookup_constant(&name("x"), &space), None);
}
