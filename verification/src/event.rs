//! Script handler hooks of frames, and the bus that queues UI events and
//! knows which frames listen for which named events.
use vstd::prelude::*;

use crate::id_sets::{
    assoc_map, insert_sorted, keys_distinct, lemma_entries_absent, lemma_entries_lookup,
    lemma_entries_present, lemma_entries_same_keys, lemma_entries_update, remove_id, set_at,
    strictly_increasing,
};
use crate::text::str_eq;

verus! {

/// All WoW-style script handler hooks a frame can register.
#[derive(Debug, Clone, Copy, PartialEq, Eq, Structural, Hash)]
pub enum ScriptHandler {
    OnLoad,
    OnShow,
    OnHide,
    OnUpdate,
    OnSizeChanged,
    OnClick,
    PreClick,
    PostClick,
    OnDoubleClick,
    OnEnter,
    OnLeave,
    OnMouseDown,
    OnMouseUp,
    OnMouseWheel,
    OnDragStart,
    OnDragStop,
    OnReceiveDrag,
    OnKeyDown,
    OnKeyUp,
    OnChar,
    OnEnterPressed,
    OnEscapePressed,
    OnTabPressed,
    OnSpacePressed,
    OnEditFocusGained,
    OnEditFocusLost,
    OnTextChanged,
    OnValueChanged,
    OnMinMaxChanged,
    OnVerticalScroll,
    OnHorizontalScroll,
    OnScrollRangeChanged,
    OnEvent,
    OnAttributeChanged,
    OnTooltipSetItem,
    OnTooltipSetUnit,
    OnTooltipSetSpell,
    OnTooltipCleared,
    OnCooldownDone,
    OnModelLoaded,
    OnModelCleared,
    OnAnimFinished,
    OnAnimLoop,
    OnAnimPlay,
    OnAnimStop,
    OnPostShow,
    OnPostHide,
    OnPostUpdate,
}

/// Unregistering a frame from an event undoes registering it there, when it
/// was not listening before: the listeners of the event are those of before.
/// (`m` stands for the registrations before `register`; the two updates are
/// those that `register` and `unregister` state.)
pub proof fn unregister_undoes_register(m: Map<Seq<char>, Set<u64>>, event: Seq<char>, frame: u64)
    requires
        !set_at(m, event).contains(frame),
    ensures
        ({
            let after_register = m.insert(event, set_at(m, event).insert(frame));
            let after_unregister = if after_register.dom().contains(event) {
                after_register.insert(event, after_register[event].remove(frame))
            } else {
                after_register
            };
            &&& set_at(after_register, event).contains(frame)
            &&& set_at(after_unregister, event) == set_at(m, event)
        }),
{
    let after_register = m.insert(event, set_at(m, event).insert(frame));
    assert(after_register[event].remove(frame) =~= set_at(m, event));
}

/// The registration entries with names and ids taken as values.
pub open spec fn regs_entries(regs: Seq<(String, Vec<u64>)>) -> Seq<(Seq<char>, Set<u64>)> {
    regs.map_values(|e: (String, Vec<u64>)| (e.0@, e.1@.to_set()))
}

/// After entry `j` of `old_regs` is taken out and put back with new ids,
/// the entries agree but for the ids of entry `j`.
proof fn lemma_entry_replaced(
    old_regs: Seq<(String, Vec<u64>)>,
    new_regs: Seq<(String, Vec<u64>)>,
    j: int,
)
    requires
        0 <= j < old_regs.len(),
        new_regs.len() == old_regs.len(),
        new_regs[j].0 == old_regs[j].0,
        forall|i: int| 0 <= i < old_regs.len() && i != j ==> new_regs[i] == old_regs[i],
    ensures
        regs_entries(new_regs).len() == regs_entries(old_regs).len(),
        forall|i: int|
            0 <= i < old_regs.len() ==> (#[trigger] regs_entries(new_regs)[i]).0 == regs_entries(
                old_regs,
            )[i].0,
        forall|i: int|
            0 <= i < old_regs.len() && i != j ==> (#[trigger] regs_entries(new_regs)[i]).1
                == regs_entries(old_regs)[i].1,
{
}

/// Central bus for dispatching named events to registered frame listeners.
/// Events of type `E` are queued in the order they are pushed.
pub struct EventBus<E> {
    registrations: Vec<(String, Vec<u64>)>,
    queue: Vec<E>,
}

impl<E> EventBus<E> {
    /// The registrations are well formed: each event name once, each set of
    /// listeners kept in increasing order.
    pub closed spec fn wf(&self) -> bool {
        &&& keys_distinct(regs_entries(self.registrations@))
        &&& forall|i: int|
            0 <= i < self.registrations@.len() ==> strictly_increasing(
                #[trigger] self.registrations@[i].1@,
            )
    }

    /// The frames registered for each event name.
    pub closed spec fn registered(&self) -> Map<Seq<char>, Set<u64>> {
        assoc_map(regs_entries(self.registrations@))
    }

    /// The events waiting in the queue, oldest first.
    pub closed spec fn queued(&self) -> Seq<E> {
        self.queue@
    }

    /// The frames listening for `event` (none when it was never registered).
    pub open spec fn listening(&self, event: Seq<char>) -> Set<u64> {
        set_at(self.registered(), event)
    }

    /// The index of the entry for `event`, if any.
    fn find_event(&self, event: &str) -> (r: Option<usize>)
        ensures
            match r {
                Some(j) => j < self.registrations@.len() && self.registrations@[j as int].0@ == event@,
                None => forall|i: int|
                    0 <= i < self.registrations@.len() ==> self.registrations@[i].0@ != event@,
            },
    {
        let mut i: usize = 0;
        while i < self.registrations.len()
            invariant
                i <= self.registrations.len(),
                forall|q: int| 0 <= q < i ==> self.registrations@[q].0@ != event@,
            decreases self.registrations.len() - i,
        {
            if str_eq(self.registrations[i].0.as_str(), event) {
                return Some(i);
            }
            i = i + 1;
        }
        None
    }

    /// Adds `frame_id` to the listeners of entry `j` (`add`), or removes it.
    fn update_entry(&mut self, j: usize, frame_id: u64, add: bool)
        requires
            old(self).wf(),
            j < old(self).registrations@.len(),
        ensures
            final(self).wf(),
            final(self).queued() == old(self).queued(),
            final(self).registrations@.len() == old(self).registrations@.len(),
            final(self).registered() == old(self).registered().insert(
                old(self).registrations@[j as int].0@,
                if add {
                    old(self).registrations@[j as int].1@.to_set().insert(frame_id)
                } else {
                    old(self).registrations@[j as int].1@.to_set().remove(frame_id)
                },
            ),
            forall|i: int|
                0 <= i < old(self).registrations@.len() ==> (#[trigger] final(self).registrations@[i]).0@
                    == old(self).registrations@[i].0@,
            forall|i: int|
                0 <= i < old(self).registrations@.len() && i != j ==> #[trigger] final(self).registrations@[i]
                    == old(self).registrations@[i],
            final(self).registrations@[j as int].1@.to_set() == if add {
                old(self).registrations@[j as int].1@.to_set().insert(frame_id)
            } else {
                old(self).registrations@[j as int].1@.to_set().remove(frame_id)
            },
    {
        let ghost old_regs = self.registrations@;
        let (name, mut ids) = self.registrations.remove(j);
        if add {
            insert_sorted(&mut ids, frame_id);
        } else {
            remove_id(&mut ids, frame_id);
        }
        self.registrations.insert(j, (name, ids));
        proof {
            let new_regs = self.registrations@;
            assert forall|i: int| 0 <= i < old_regs.len() && i != j implies new_regs[i]
                == old_regs[i] by {}
            lemma_entry_replaced(old_regs, new_regs, j as int);
            lemma_entries_update(regs_entries(old_regs), regs_entries(new_regs), j as int);
            assert forall|i: int| 0 <= i < new_regs.len() implies strictly_increasing(
                #[trigger] new_regs[i].1@,
            ) by {
                if i != j {
                    assert(new_regs[i] == old_regs[i]);
                }
            }
        }
    }

    pub fn new() -> (r: Self)
        ensures
            r.wf(),
            r.registered() == Map::<Seq<char>, Set<u64>>::empty(),
            r.queued() == Seq::<E>::empty(),
    {
        let r = EventBus { registrations: Vec::new(), queue: Vec::new() };
        assert(regs_entries(r.registrations@) =~= Seq::<(Seq<char>, Set<u64>)>::empty());
        r
    }

    /// Register a frame to listen for a named event.
    pub fn register(&mut self, frame_id: u64, event: &str)
        requires
            old(self).wf(),
        ensures
            final(self).wf(),
            final(self).registered() == old(self).registered().insert(
                event@,
                old(self).listening(event@).insert(frame_id),
            ),
            final(self).queued() == old(self).queued(),
    {
        match self.find_event(event) {
            Some(j) => {
                proof {
                    lemma_entries_lookup(regs_entries(self.registrations@), j as int);
                }
                self.update_entry(j, frame_id, true);
            },
            None => {
                let ghost old_regs = self.registrations@;
                proof {
                    lemma_entries_absent(regs_entries(old_regs), event@);
                }
                let mut ids: Vec<u64> = Vec::new();
                ids.push(frame_id);
                let ghost ids_view = ids@;
                assert(ids_view[0] == frame_id);
                assert(ids_view.to_set() =~= Set::<u64>::empty().insert(frame_id));
                self.registrations.push((String::from_str(event), ids));
                proof {
                    let new_regs = self.registrations@;
                    let ne = regs_entries(new_regs);
                    let oe = regs_entries(old_regs);
                    assert(ne.drop_last() =~= oe);
                    assert forall|i: int, k: int| 0 <= i < k < ne.len() implies ne[i].0 != ne[k].0 by {
                        if k < oe.len() {
                            assert(ne[i] == oe[i]);
                            assert(ne[k] == oe[k]);
                        } else {
                            assert(ne[i] == oe[i]);
                        }
                    }
                    assert forall|i: int| 0 <= i < new_regs.len() implies strictly_increasing(
                        #[trigger] new_regs[i].1@,
                    ) by {
                        if i < old_regs.len() {
                            assert(new_regs[i] == old_regs[i]);
                        }
                    }
                }
            },
        }
    }

    /// Remove a frame from listeners of a named event.
    pub fn unregister(&mut self, frame_id: u64, event: &str)
        requires
            old(self).wf(),
        ensures
            final(self).wf(),
            final(self).registered() == if old(self).registered().dom().contains(event@) {
                old(self).registered().insert(event@, old(self).registered()[event@].remove(frame_id))
            } else {
                old(self).registered()
            },
            final(self).queued() == old(self).queued(),
    {
        match self.find_event(event) {
            Some(j) => {
                proof {
                    lemma_entries_lookup(regs_entries(self.registrations@), j as int);
                }
                self.update_entry(j, frame_id, false);
            },
            None => {
                proof {
                    lemma_entries_absent(regs_entries(self.registrations@), event@);
                }
            },
        }
    }

    /// Remove a frame from all event registrations.
    pub fn unregister_all(&mut self, frame_id: u64)
        requires
            old(self).wf(),
        ensures
            final(self).wf(),
            final(self).registered().dom() == old(self).registered().dom(),
            forall|k: Seq<char>|
                #[trigger] old(self).registered().dom().contains(k) ==> final(self).registered()[k]
                    == old(self).registered()[k].remove(frame_id),
            final(self).queued() == old(self).queued(),
    {
        let ghost old_regs = self.registrations@;
        let ghost oe = regs_entries(old_regs);
        let mut j: usize = 0;
        while j < self.registrations.len()
            invariant
                self.wf(),
                j <= self.registrations.len(),
                self.registrations@.len() == old_regs.len(),
                self.queue@ == old(self).queue@,
                oe == regs_entries(old_regs),
                keys_distinct(oe),
                forall|i: int| 0 <= i < old_regs.len() ==> (#[trigger] self.registrations@[i]).0@
                    == old_regs[i].0@,
                forall|i: int|
                    0 <= i < j ==> (#[trigger] self.registrations@[i]).1@.to_set()
                        == old_regs[i].1@.to_set().remove(frame_id),
                forall|i: int| j <= i < old_regs.len() ==> #[trigger] self.registrations@[i] == old_regs[i],
            decreases self.registrations.len() - j,
        {
            self.update_entry(j, frame_id, false);
            j = j + 1;
        }
        proof {
            let ne = regs_entries(self.registrations@);
            lemma_entries_same_keys(oe, ne);
            assert forall|k: Seq<char>| #[trigger] assoc_map(oe).dom().contains(k) implies assoc_map(
                ne,
            )[k] == assoc_map(oe)[k].remove(frame_id) by {
                let i = lemma_entries_present(oe, k);
                lemma_entries_lookup(oe, i);
                lemma_entries_lookup(ne, i);
            }
        }
    }

    /// Return a sorted list of frame IDs listening for the given event.
    pub fn listeners(&self, event: &str) -> (r: Vec<u64>)
        requires
            self.wf(),
        ensures
            r@.to_set() == self.listening(event@),
            strictly_increasing(r@),
    {
        match self.find_event(event) {
            Some(j) => {
                proof {
                    lemma_entries_lookup(regs_entries(self.registrations@), j as int);
                }
                let ids = &self.registrations[j].1;
                let mut out: Vec<u64> = Vec::new();
                let mut i: usize = 0;
                while i < ids.len()
                    invariant
                        i <= ids.len(),
                        out@ == ids@.subrange(0, i as int),
                    decreases ids.len() - i,
                {
                    out.push(ids[i]);
                    i = i + 1;
                    assert(out@ =~= ids@.subrange(0, i as int));
                }
                assert(out@ =~= ids@);
                out
            },
            None => {
                proof {
                    lemma_entries_absent(regs_entries(self.registrations@), event@);
                }
                let out: Vec<u64> = Vec::new();
                assert(out@.to_set() =~= Set::<u64>::empty());
                out
            },
        }
    }

    /// Enqueue an event for later processing.
    pub fn push(&mut self, event: E)
        requires
            old(self).wf(),
        ensures
            final(self).wf(),
            final(self).registered() == old(self).registered(),
            final(self).queued() == old(self).queued().push(event),
    {
        self.queue.push(event);
    }

    /// Take all pending events, leaving the queue empty.
    pub fn drain(&mut self) -> (r: Vec<E>)
        requires
            old(self).wf(),
        ensures
            final(self).wf(),
            final(self).registered() == old(self).registered(),
            r@ == old(self).queued(),
            final(self).queued() == Seq::<E>::empty(),
    {
        let mut out: Vec<E> = Vec::new();
        std::mem::swap(&mut out, &mut self.queue);
        out
    }
}

impl<E> Default for EventBus<E> {
    fn default() -> (r: Self)
        ensures
            r.wf(),
            r.registered() == Map::<Seq<char>, Set<u64>>::empty(),
            r.queued() == Seq::<E>::empty(),
    {
        Self::new()
    }
}

} // verus!
