//! Call-site-keyed identities and the deferred render-object queue.
//!
//! A `RenderId` names the source location (line, column) of the call that
//! constructed it, so repeated pushes from one call site share one logical
//! slot. The `DeferredQueue` accepts tagged render objects from any number of
//! producer threads without blocking; a consumer that drains it is a future
//! extension, so the queue's obligation here is that no push is lost or
//! duplicated.

use vstd::multiset::Multiset;
use vstd::prelude::*;

verus! {

/// Identity of a call site: the line and column at which the identifier was
/// constructed. Two identifiers are equal iff both components match.
#[derive(Clone, Copy, PartialEq, Eq, PartialOrd, Ord, Hash, Structural, Debug)]
pub struct RenderId {
    pub line: u32,
    pub col: u32,
}

impl RenderId {
    pub fn new(a: u32, b: u32) -> (r: Self)
        ensures
            r.line == a,
            r.col == b,
    {
        RenderId { line: a, col: b }
    }
}

/// Law: an identifier is a pure function of the call-site coordinates. Two
/// identifiers are equal exactly when both components match, so the textually
/// same call site always yields the same identity and two distinct sites
/// never do.
pub proof fn lemma_render_id_identity(p: RenderId, q: RenderId)
    ensures
        (p == q) <==> (p.line == q.line && p.col == q.col),
{
}

/// A deferred render object: a tagged variant set, open for concrete payload
/// kinds to come. No real payload is defined yet; `Empty` is the provisional
/// stand-in, and the queue's push protocol does not depend on the payload.
#[derive(Clone, Copy, PartialEq, Eq, Structural, Debug)]
#[non_exhaustive]
pub enum RenderObject {
    Empty,
}

/// One queued element: a render object tagged with the call-site identity
/// that produced it.
#[derive(Clone, Copy)]
pub struct DeferredRender {
    pub id: RenderId,
    pub object: RenderObject,
}

#[verifier::external_type_specification]
#[verifier::external_body]
#[verifier::reject_recursive_types(T)]
pub struct ExQueue<T>(lockfree::queue::Queue<T>);

/// What a queue of deferred render objects holds. Concurrent pushes land in
/// some order, so the contents are abstracted as a multiset: enough to state
/// that no element is ever lost or duplicated.
pub uninterp spec fn queue_contents(q: lockfree::queue::Queue<DeferredRender>) -> Multiset<
    DeferredRender,
>;

/// Multi-producer queue of deferred render objects. Pushes never block, and
/// never lose or duplicate an element.
pub struct DeferredQueue {
    inner: lockfree::queue::Queue<DeferredRender>,
}

impl DeferredQueue {
    /// The multiset of elements pushed so far and not yet drained.
    pub closed spec fn contents(self) -> Multiset<DeferredRender> {
        queue_contents(self.inner)
    }

    /// Relies on lockfree::queue::Queue::new: it creates an empty queue.
    #[verifier::external_body]
    fn new_raw() -> (q: Self)
        ensures
            queue_contents(q.inner) == Multiset::<DeferredRender>::empty(),
    {
        DeferredQueue { inner: lockfree::queue::Queue::new() }
    }

    /// Relies on lockfree::queue::Queue::push: it appends exactly the given
    /// element, losing and duplicating nothing.
    #[verifier::external_body]
    fn push_raw(&mut self, item: DeferredRender)
        ensures
            queue_contents(final(self).inner) == queue_contents(old(self).inner).insert(item),
    {
        self.inner.push(item)
    }

    /// An empty queue.
    pub fn new() -> (q: Self)
        ensures
            q.contents() == Multiset::<DeferredRender>::empty(),
    {
        Self::new_raw()
    }

    /// Queue one render object under the given call-site identity.
    pub fn push_render_object(&mut self, id: RenderId, object: RenderObject)
        ensures
            final(self).contents() == old(self).contents().insert(
                (DeferredRender { id, object }),
            ),
    {
        self.push_raw(DeferredRender { id, object });
    }

    /// Law: a batch of pushes adds exactly the pushed elements to the queue's
    /// contents, whatever else the queue holds: none is lost, none is
    /// duplicated.
    pub fn push_all(&mut self, items: Vec<DeferredRender>)
        ensures
            final(self).contents() == old(self).contents().add(items@.to_multiset()),
    {
        proof {
            let e = Seq::<DeferredRender>::empty();
            e.to_multiset_ensures();
            assert forall|a: DeferredRender| e.to_multiset().count(a) == 0 by {
                assert(!e.contains(a));
            }
            assert(items@.take(0) =~= e);
            assert(old(self).contents().add(e.to_multiset()) =~= old(self).contents());
        }
        let n = items.len();
        let mut i: usize = 0;
        while i < n
            invariant
                i <= n,
                n == items@.len(),
                self.contents() == old(self).contents().add(items@.take(i as int).to_multiset()),
            decreases n - i,
        {
            let it = items[i];
            self.push_raw(it);
            proof {
                let done = items@.take(i as int);
                assert(items@.take(i as int + 1) =~= done.push(items@[i as int]));
                done.to_multiset_ensures();
                assert(old(self).contents().add(done.to_multiset().insert(items@[i as int]))
                    =~= old(self).contents().add(done.to_multiset()).insert(items@[i as int]));
            }
            i = i + 1;
        }
        proof {
            assert(items@.take(n as int) =~= items@);
        }
    }
}

impl RenderObject {
    /// Queue this object under the given call-site identity.
    pub fn push(self, id: RenderId, queue: &mut DeferredQueue)
        ensures
            final(queue).contents() == old(queue).contents().insert(
                (DeferredRender { id, object: self }),
            ),
    {
        queue.push_render_object(id, self);
    }
}

} // verus!
