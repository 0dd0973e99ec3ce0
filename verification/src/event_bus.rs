//! Type-keyed publish/subscribe: systems react to domain events without
//! holding references to each other.  The bus keeps, per event type tag,
//! an ordered list of subscribed handlers; dispatch is synchronous and in
//! registration order.

use vstd::prelude::*;

use crate::ecs::EntityComponentWrapper;

verus! {

/// The untyped side of an event subscriber: one entry point receiving
/// every event dispatched under a tag it subscribed to, to be narrowed
/// by the handler itself.  Like `System::run`, it promises only that the
/// store view is used through its own operations, so its well-formedness
/// and creation snapshot survive.
pub trait HandlerBase<C, EV> {
    fn handle_any(&mut self, ec_manager: &mut EntityComponentWrapper<C>, event: &EV)
        requires
            old(ec_manager).wf(),
        ensures
            final(ec_manager).wf(),
            final(ec_manager).snapshot == old(ec_manager).snapshot,
    ;
}

/// The typed side of a subscriber: reacting to one particular event
/// type, usually called by its own `handle_any` after narrowing.
pub trait Handler<C, EV, E>: HandlerBase<C, EV> {
    fn handle(&mut self, ec_manager: &mut EntityComponentWrapper<C>, event: &E)
        requires
            old(ec_manager).wf(),
        ensures
            final(ec_manager).wf(),
            final(ec_manager).snapshot == old(ec_manager).snapshot,
    ;
}

/// Whether the subscription list holds an entry for `tag`.
pub open spec fn spec_lists_has<H>(ls: Seq<(u64, Vec<H>)>, tag: u64) -> bool {
    exists|i: int| 0 <= i < ls.len() && (#[trigger] ls[i]).0 == tag
}

/// The index of the entry for `tag`.
pub open spec fn spec_lists_at<H>(ls: Seq<(u64, Vec<H>)>, tag: u64) -> int {
    choose|i: int| 0 <= i < ls.len() && (#[trigger] ls[i]).0 == tag
}

/// The event bus over one handler universe `H`.
pub struct EventBus<H> {
    pub handlers: Vec<(u64, Vec<H>)>,
}

impl<H> EventBus<H> {
    pub open spec fn spec_has_subscribers(self, tag: u64) -> bool {
        spec_lists_has(self.handlers@, tag)
    }

    pub open spec fn spec_list_at(self, tag: u64) -> int {
        spec_lists_at(self.handlers@, tag)
    }

    /// The ordered list of handlers subscribed under `tag`, empty when
    /// none ever was.
    pub open spec fn spec_subscribers(self, tag: u64) -> Seq<H> {
        if self.spec_has_subscribers(tag) {
            self.handlers@[self.spec_list_at(tag)].1@
        } else {
            Seq::empty()
        }
    }

    /// How many handlers are subscribed under `tag`.
    pub open spec fn spec_subscriber_count(self, tag: u64) -> int {
        self.spec_subscribers(tag).len() as int
    }

    pub open spec fn wf(self) -> bool {
        forall|i: int, j: int|
            0 <= i < j < self.handlers@.len() ==> (#[trigger] self.handlers@[i]).0 != (
            #[trigger] self.handlers@[j]).0
    }

    pub fn new() -> (r: Self)
        ensures
            r.wf(),
            forall|tag: u64| !r.spec_has_subscribers(tag),
            forall|tag: u64| r.spec_subscriber_count(tag) == 0,
    {
        Self { handlers: Vec::new() }
    }

    /// Index of the subscription list for `tag`, if any.
    fn find_list(&self, tag: u64) -> (r: Option<usize>)
        requires
            self.wf(),
        ensures
            match r {
                Some(i) => {
                    &&& (i as int) < self.handlers@.len()
                    &&& self.handlers@[i as int].0 == tag
                    &&& self.spec_has_subscribers(tag)
                    &&& self.spec_list_at(tag) == i as int
                },
                None => !self.spec_has_subscribers(tag),
            },
    {
        let mut i: usize = 0;
        while i < self.handlers.len()
            invariant
                i <= self.handlers@.len(),
                forall|k: int| 0 <= k < i ==> (#[trigger] self.handlers@[k]).0 != tag,
                forall|k: int, j: int|
                    0 <= k < j < self.handlers@.len() ==> (#[trigger] self.handlers@[k]).0 != (
                    #[trigger] self.handlers@[j]).0,
            decreases self.handlers@.len() - i,
        {
            if self.handlers[i].0 == tag {
                proof {
                    assert(spec_lists_has(self.handlers@, tag));
                    let j = spec_lists_at(self.handlers@, tag);
                    assert(0 <= j < self.handlers@.len() && self.handlers@[j].0 == tag);
                    if j < i as int {
                        assert(self.handlers@[j].0 != self.handlers@[i as int].0);
                    }
                    if (i as int) < j {
                        assert(self.handlers@[i as int].0 != self.handlers@[j].0);
                    }
                }
                return Some(i);
            }
            i = i + 1;
        }
        None
    }

    /// Appends `handler` to the ordered subscription list for
    /// `event_tag`, creating the list on first use.  Registration order
    /// is dispatch order.
    pub fn add_handler(&mut self, event_tag: u64, handler: H)
        requires
            old(self).wf(),
        ensures
            final(self).wf(),
            final(self).spec_has_subscribers(event_tag),
            final(self).spec_subscribers(event_tag) == old(self).spec_subscribers(
                event_tag,
            ).push(handler),
            forall|t2: u64|
                t2 != event_tag ==> final(self).spec_has_subscribers(t2) == old(
                    self,
                ).spec_has_subscribers(t2) && final(self).spec_subscribers(t2) == old(
                    self,
                ).spec_subscribers(t2),
    {
        let ghost pre = self.handlers@;
        match self.find_list(event_tag) {
            None => {
                let mut list: Vec<H> = Vec::new();
                list.push(handler);
                self.handlers.push((event_tag, list));
                proof {
                    let n = pre.len() as int;
                    assert(self.handlers@[n].0 == event_tag);
                    assert(spec_lists_has(self.handlers@, event_tag));
                    assert(spec_lists_at(self.handlers@, event_tag) == n) by {
                        let k = spec_lists_at(self.handlers@, event_tag);
                        assert(0 <= k < self.handlers@.len() && self.handlers@[k].0
                            == event_tag);
                        if k < n {
                            assert(pre[k].0 == event_tag);
                            assert(spec_lists_has(pre, event_tag));
                        }
                    }
                    assert(self.spec_subscribers(event_tag) =~= old(self).spec_subscribers(
                        event_tag,
                    ).push(handler));
                    assert forall|t2: u64|
                        t2 != event_tag implies self.spec_has_subscribers(t2) == old(
                        self,
                    ).spec_has_subscribers(t2) && self.spec_subscribers(t2) == old(
                        self,
                    ).spec_subscribers(t2) by {
                        if spec_lists_has(pre, t2) {
                            let k = spec_lists_at(pre, t2);
                            assert(self.handlers@[k].0 == t2);
                            assert(spec_lists_has(self.handlers@, t2));
                            let k2 = spec_lists_at(self.handlers@, t2);
                            assert(k2 != n);
                            assert(pre[k2].0 == t2);
                            if k < k2 {
                                assert(pre[k].0 != pre[k2].0);
                            }
                            if k2 < k {
                                assert(pre[k2].0 != pre[k].0);
                            }
                            assert(self.handlers@[k2] == pre[k2]);
                        }
                        if spec_lists_has(self.handlers@, t2) {
                            let k = spec_lists_at(self.handlers@, t2);
                            assert(k != n);
                            assert(pre[k].0 == t2);
                            assert(spec_lists_has(pre, t2));
                        }
                    }
                }
            },
            Some(i) => {
                self.handlers[i].1.push(handler);
                proof {
                    let i = i as int;
                    assert(self.handlers@[i].0 == event_tag);
                    assert(spec_lists_has(self.handlers@, event_tag));
                    assert(spec_lists_at(self.handlers@, event_tag) == i) by {
                        let k = spec_lists_at(self.handlers@, event_tag);
                        assert(0 <= k < self.handlers@.len() && self.handlers@[k].0
                            == event_tag);
                        if k < i {
                            assert(pre[k].0 != pre[i].0);
                        }
                        if i < k {
                            assert(pre[i].0 != pre[k].0);
                        }
                    }
                    assert(spec_lists_at(pre, event_tag) == i) by {
                        let k = spec_lists_at(pre, event_tag);
                        assert(0 <= k < pre.len() && pre[k].0 == event_tag);
                        if k < i {
                            assert(pre[k].0 != pre[i].0);
                        }
                        if i < k {
                            assert(pre[i].0 != pre[k].0);
                        }
                    }
                    assert(self.spec_subscribers(event_tag) == old(self).spec_subscribers(
                        event_tag,
                    ).push(handler));
                    assert forall|t2: u64|
                        t2 != event_tag implies self.spec_has_subscribers(t2) == old(
                        self,
                    ).spec_has_subscribers(t2) && self.spec_subscribers(t2) == old(
                        self,
                    ).spec_subscribers(t2) by {
                        if spec_lists_has(pre, t2) {
                            let k = spec_lists_at(pre, t2);
                            assert(k != i);
                            assert(self.handlers@[k].0 == t2);
                            assert(spec_lists_has(self.handlers@, t2));
                            let k2 = spec_lists_at(self.handlers@, t2);
                            assert(k2 != i);
                            assert(pre[k2].0 == t2);
                            if k < k2 {
                                assert(pre[k].0 != pre[k2].0);
                            }
                            if k2 < k {
                                assert(pre[k2].0 != pre[k].0);
                            }
                            assert(self.handlers@[k2] == pre[k2]);
                        }
                        if spec_lists_has(self.handlers@, t2) {
                            let k = spec_lists_at(self.handlers@, t2);
                            assert(k != i);
                            assert(pre[k].0 == t2);
                            assert(spec_lists_has(pre, t2));
                        }
                    }
                }
            },
        }
    }

    /// Invokes, in registration order, every handler subscribed under
    /// `event_tag`, each with mutable access to the store view.  With no
    /// subscribers this is a no-op, not an error.  The subscription
    /// structure survives: same tags, same counts, though the handlers'
    /// own state may change.
    pub fn dispatch<C, EV>(
        &mut self,
        ec_manager: &mut EntityComponentWrapper<C>,
        event_tag: u64,
        event: &EV,
    ) where H: HandlerBase<C, EV>
        requires
            old(self).wf(),
            old(ec_manager).wf(),
        ensures
            final(self).wf(),
            final(ec_manager).wf(),
            final(ec_manager).snapshot == old(ec_manager).snapshot,
            final(self).handlers@.len() == old(self).handlers@.len(),
            forall|i: int|
                0 <= i < old(self).handlers@.len() ==> (#[trigger] final(self).handlers@[i]).0
                    == old(self).handlers@[i].0 && final(self).handlers@[i].1@.len() == old(
                    self,
                ).handlers@[i].1@.len(),
            !old(self).spec_has_subscribers(event_tag) ==> {
                &&& *final(self) == *old(self)
                &&& *final(ec_manager) == *old(ec_manager)
            },
    {
        let idx = match self.find_list(event_tag) {
            None => {
                return ;
            },
            Some(i) => i,
        };
        let n = self.handlers[idx].1.len();
        let mut k: usize = 0;
        while k < n
            invariant
                k <= n,
                (idx as int) < self.handlers@.len(),
                n == self.handlers@[idx as int].1@.len(),
                ec_manager.wf(),
                ec_manager.snapshot == old(ec_manager).snapshot,
                self.handlers@.len() == old(self).handlers@.len(),
                forall|i: int|
                    0 <= i < self.handlers@.len() ==> (#[trigger] self.handlers@[i]).0 == old(
                        self,
                    ).handlers@[i].0 && self.handlers@[i].1@.len() == old(
                        self,
                    ).handlers@[i].1@.len(),
                forall|i: int, j: int|
                    0 <= i < j < self.handlers@.len() ==> (#[trigger] self.handlers@[i]).0 != (
                    #[trigger] self.handlers@[j]).0,
            decreases n - k,
        {
            self.handlers[idx].1[k].handle_any(ec_manager, event);
            k = k + 1;
        }
    }
}

} // verus!
