use bevl::DeferredQueue;
use bevl::DeferredRender;
use bevl::RenderId;
use bevl::RenderObject;

#[test]
fn same_call_site_yields_equal_identifiers() {
    // One textual construction site, invoked twice: the coordinates are the
    // same both times, so the identifiers are equal.
    let make = || RenderId::new(7, 21);
    let a = make();
    let b = make();
    assert_eq!(a, b);
}

#[test]
fn distinct_call_sites_yield_unequal_identifiers() {
    // Two construction sites on different lines of a source file.
    let a = RenderId::new(40, 13);
    let b = RenderId::new(41, 13);
    assert_ne!(a, b);
}

#[test]
fn identifiers_are_equal_exactly_when_components_match() {
    assert_eq!(RenderId::new(3, 4), RenderId::new(3, 4));
    assert_ne!(RenderId::new(3, 4), RenderId::new(3, 5));
    assert_ne!(RenderId::new(3, 4), RenderId::new(4, 4));
}

#[test]
fn pushes_from_one_producer_never_block() {
    let mut queue = DeferredQueue::new();
    let id = RenderId::new(30, 14);
    for _ in 0..100 {
        queue.push_render_object(id, RenderObject::Empty);
    }
    RenderObject::Empty.push(id, &mut queue);
    let batch = vec![
        DeferredRender { id, object: RenderObject::Empty },
        DeferredRender { id: RenderId::new(1, 2), object: RenderObject::Empty },
    ];
    queue.push_all(batch);
}
