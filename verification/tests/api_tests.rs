use comet_core::api::Collectable;
use comet_core::api::Finalize;
use comet_core::api::Field;
use comet_core::api::Gc;
use comet_core::api::Rooted;
use comet_core::api::ShadowStack;
use comet_core::api::Trace;
use comet_core::api::Visitor;

struct Counter {
    marked: Vec<usize>,
}

impl Visitor for Counter {
    fn mark_object(&mut self, root: &mut usize) {
        self.marked.push(*root);
    }
}

struct Node {
    next: usize,
}

impl Trace for Node {
    fn trace<V: Visitor>(&mut self, vis: &mut V) {
        vis.mark_object(&mut self.next);
    }
}

impl Finalize for Node {}

impl Collectable for Node {
    fn spec_type_tag() -> u32 {
        11
    }

    fn type_tag() -> u32 {
        11
    }

    fn allocation_size(&self) -> usize {
        core::mem::size_of::<Node>()
    }
}

struct Leaf;

impl Trace for Leaf {
    fn trace<V: Visitor>(&mut self, _vis: &mut V) {}
}

impl Finalize for Leaf {}

impl Collectable for Leaf {
    fn spec_type_tag() -> u32 {
        22
    }

    fn type_tag() -> u32 {
        22
    }

    fn allocation_size(&self) -> usize {
        16
    }
}

#[test]
fn gc_downcast_checks_the_tag() {
    let g: Gc<Node> = Gc::from_raw_parts(0x10_000, Node::type_tag());
    assert!(g.is::<Node>());
    assert!(!g.is::<Leaf>());
    assert!(g.downcast::<Node>().is_some());
    assert!(g.downcast::<Leaf>().is_none());
}

#[test]
fn gc_field_round_trip() {
    let g: Gc<Node> = Gc::from_raw_parts(0x10_040, Node::type_tag());
    let f = g.to_field();
    assert_eq!(f.base, 0x10_040);
    let back = f.to_gc();
    assert_eq!(back.base, 0x10_040);
    assert_eq!(back.type_id, Node::type_tag());
    assert!(f.is::<Node>());
    assert!(f.downcast::<Leaf>().is_none());
}

#[test]
fn shadow_stack_links_and_unlinks_roots() {
    let mut stack = ShadowStack::new();
    assert!(stack.walk().is_empty());
    stack.push_root(0x10_000);
    stack.push_root(0x10_040);
    assert_eq!(stack.walk(), &vec![0x10_000, 0x10_040]);
    assert_eq!(stack.pop_root(), Some(0x10_040));
    assert_eq!(stack.pop_root(), Some(0x10_000));
    assert_eq!(stack.pop_root(), None);
}

#[test]
fn rooted_value_hands_out_handles() {
    let rooted = Rooted::construct(Gc::<Node>::from_raw_parts(0x20_000, Node::type_tag()));
    let handle = rooted.handle();
    let g = handle.gc();
    assert_eq!(g.base, 0x20_000);
    assert_eq!(g.type_id, Node::type_tag());
}

#[test]
fn trace_hands_references_to_the_visitor() {
    let mut counter = Counter { marked: Vec::new() };
    let mut node = Node { next: 0x30_000 };
    node.trace(&mut counter);
    assert_eq!(counter.marked, vec![0x30_000]);
    let mut leaf = Leaf;
    leaf.trace(&mut counter);
    assert_eq!(counter.marked.len(), 1);
    assert_eq!(node.allocation_size(), core::mem::size_of::<Node>());
    node.finalize();
}

pub struct Bar {
    pub x: u32,
}

impl Trace for Bar {
    fn trace<V: Visitor>(&mut self, _vis: &mut V) {}
}

impl Finalize for Bar {}

impl Collectable for Bar {
    fn spec_type_tag() -> u32 {
        100
    }

    fn type_tag() -> u32 {
        100
    }

    fn allocation_size(&self) -> usize {
        core::mem::size_of::<Bar>()
    }
}

pub struct LargeBar {
    pub x: u32,
}

impl Trace for LargeBar {
    fn trace<V: Visitor>(&mut self, _vis: &mut V) {}
}

impl Finalize for LargeBar {}

impl Collectable for LargeBar {
    fn spec_type_tag() -> u32 {
        101
    }

    fn type_tag() -> u32 {
        101
    }

    fn allocation_size(&self) -> usize {
        128 * 1024
    }
}

pub struct LargeFoo {
    pub bar: Option<Field<Bar>>,
}

impl Trace for LargeFoo {
    fn trace<V: Visitor>(&mut self, vis: &mut V) {
        self.bar.trace(vis);
    }
}

impl Finalize for LargeFoo {}

impl Collectable for LargeFoo {
    fn spec_type_tag() -> u32 {
        102
    }

    fn type_tag() -> u32 {
        102
    }

    fn allocation_size(&self) -> usize {
        128 * 1024
    }
}

pub struct LargeFoo2 {
    pub bar: Option<Field<LargeBar>>,
}

impl Trace for LargeFoo2 {
    fn trace<V: Visitor>(&mut self, vis: &mut V) {
        self.bar.trace(vis);
    }
}

impl Finalize for LargeFoo2 {}

impl Collectable for LargeFoo2 {
    fn spec_type_tag() -> u32 {
        103
    }

    fn type_tag() -> u32 {
        103
    }

    fn allocation_size(&self) -> usize {
        128 * 1024
    }
}

#[test]
fn stored_fields_trace_through_options() {
    let mut counter = Counter { marked: Vec::new() };
    let mut foo = LargeFoo { bar: None };
    foo.trace(&mut counter);
    assert!(counter.marked.is_empty());

    let bar: Gc<Bar> = Gc::from_raw_parts(0x40_000, Bar::type_tag());
    foo.bar = Some(bar.to_field());
    foo.trace(&mut counter);
    assert_eq!(counter.marked, vec![0x40_000]);
    assert_eq!(foo.allocation_size(), 128 * 1024);

    let mut foo2 = LargeFoo2 { bar: Some(Gc::<LargeBar>::from_raw_parts(0x50_000, LargeBar::type_tag()).to_field()) };
    foo2.trace(&mut counter);
    assert_eq!(counter.marked, vec![0x40_000, 0x50_000]);
    assert_eq!(LargeBar { x: 420 }.allocation_size(), 128 * 1024);
}
