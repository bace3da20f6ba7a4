use vstd::prelude::*;

use std::collections::{HashMap, VecDeque};

use crate::history::{
    Keystroke, PACKED_SLOTS, RING_CAPACITY, empty_keystroke, histories_agree,
    lemma_bump_slot, lemma_packed_head, lemma_shift_slot, lemma_step_right, packed_next, payload, ring_initial, ring_next, slot, slots,
    spec_keystroke_from,
};
use crate::keys::{
    KEY_A, KEY_B, KeyIdentity, KeyTransition, RSHIFT, identity_of, spec_identity_of,
    spec_transition_of, transition_of,
};

verus! {

broadcast use vstd::std_specs::hash::group_hash_axioms;

/// A reaction that runs when its key is seen.  It gets read access to the
/// hook state, so that it can look at the histories.
///
/// Reactions run on the platform's hook-delivery thread for every matching
/// event and must return quickly: a slow reaction delays every keystroke of
/// the system.  They cannot register or remove handlers while they run.
pub trait Reaction: Sized {
    fn run(&self, state: &LLKeyboard<Self>);
}

/// A registered handler: its reaction and whether the event is swallowed.
pub struct KeyEvent<R> {
    pub consume: bool,
    pub event: R,
}

/// What the platform does with the event that was dispatched.
#[derive(Clone, Copy, Debug, PartialEq, Eq, Structural)]
pub enum Decision {
    /// Stop the event here.
    Consume,
    /// Hand the event on to the next hook.
    Forward,
}

/// The hook state: the handler registry and both keystroke histories.
///
/// Every mutation goes through `&mut self`, so the single-writer discipline
/// that the platform's serialized delivery promises is also what the type
/// demands of its callers.
pub struct LLKeyboard<R> {
    events: HashMap<u16, KeyEvent<R>>,
    records: VecDeque<Keystroke>,
    records_u128: u128,
}

/// The decision for an event on `k`, given the registered handlers: consume
/// where a consuming handler is registered, forward otherwise.
pub open spec fn decision_for<R>(handlers: Map<KeyIdentity, KeyEvent<R>>, k: KeyIdentity) -> Decision {
    if handlers.contains_key(k) && handlers[k].consume {
        Decision::Consume
    } else {
        Decision::Forward
    }
}

/// The registry index of an identity; distinct identities get distinct
/// indices.
pub open spec fn spec_index(k: KeyIdentity) -> u16 {
    match k {
        KeyIdentity::Virtual(c) => c as u16,
        KeyIdentity::Unmapped => 0x100,
    }
}

impl KeyIdentity {
    /// The registry index of this identity.
    pub fn index(&self) -> (r: u16)
        ensures
            r == spec_index(*self),
    {
        match self {
            KeyIdentity::Virtual(c) => *c as u16,
            KeyIdentity::Unmapped => 0x100,
        }
    }
}

impl<R> LLKeyboard<R> {
    /// The registered handlers, by key.
    pub closed spec fn handlers(&self) -> Map<KeyIdentity, KeyEvent<R>> {
        Map::new(
            |k: KeyIdentity| self.events@.contains_key(spec_index(k)),
            |k: KeyIdentity| self.events@[spec_index(k)],
        )
    }

    /// The ring history, newest first.
    pub closed spec fn ring(&self) -> Seq<Keystroke> {
        self.records@
    }

    /// The packed history register.
    pub closed spec fn packed(&self) -> u128 {
        self.records_u128
    }

    /// The ring keeps its capacity.
    pub closed spec fn wf(&self) -> bool {
        self.records@.len() == RING_CAPACITY
    }

    /// An empty registry, a ring of empty entries and a zero register.
    pub fn new() -> (r: LLKeyboard<R>)
        ensures
            r.wf(),
            r.ring().len() == RING_CAPACITY,
            r.handlers() == Map::<KeyIdentity, KeyEvent<R>>::empty(),
            r.ring() == ring_initial(),
            r.packed() == 0,
    {
        let mut records: VecDeque<Keystroke> = VecDeque::with_capacity(RING_CAPACITY);
        let mut i: usize = 0;
        while i < RING_CAPACITY
            invariant
                i <= RING_CAPACITY,
                records@ == Seq::new(i as nat, |j: int| empty_keystroke()),
            decreases RING_CAPACITY - i,
        {
            records.push_back(Keystroke::default());
            i = i + 1;
            assert(records@ =~= Seq::new(i as nat, |j: int| empty_keystroke()));
        }
        let r = LLKeyboard { events: HashMap::with_capacity(0xff), records, records_u128: 0 };
        assert(r.handlers() =~= Map::<KeyIdentity, KeyEvent<R>>::empty());
        r
    }

    /// Registers `event` for `key`, replacing a handler that was there.
    pub fn add_event(&mut self, key: KeyIdentity, event: R, consume: bool)
        ensures
            final(self).handlers() == old(self).handlers().insert(
                key,
                KeyEvent { consume, event },
            ),
            final(self).ring() == old(self).ring(),
            final(self).packed() == old(self).packed(),
            final(self).wf() == old(self).wf(),
    {
        let ghost before = self.handlers();
        self.events.insert(key.index(), KeyEvent { consume, event });
        assert(self.handlers() =~= before.insert(key, KeyEvent { consume, event })) by {
            assert forall|k: KeyIdentity| spec_index(k) == spec_index(key) implies k == key by {
                match k {
                    KeyIdentity::Virtual(_) => {},
                    KeyIdentity::Unmapped => {},
                }
            }
        }
    }

    /// Removes the handler of `key` and hands it back, if there was one.
    pub fn remove_event(&mut self, key: KeyIdentity) -> (r: Option<KeyEvent<R>>)
        ensures
            final(self).handlers() == old(self).handlers().remove(key),
            r == (if old(self).handlers().contains_key(key) {
                Some(old(self).handlers()[key])
            } else {
                None
            }),
            final(self).ring() == old(self).ring(),
            final(self).packed() == old(self).packed(),
            final(self).wf() == old(self).wf(),
    {
        let ghost before = self.handlers();
        let r = self.events.remove(&key.index());
        assert(self.handlers() =~= before.remove(key)) by {
            assert forall|k: KeyIdentity| spec_index(k) == spec_index(key) implies k == key by {
                match k {
                    KeyIdentity::Virtual(_) => {},
                    KeyIdentity::Unmapped => {},
                }
            }
        }
        r
    }

    /// The handler registered for `key`, if any.
    pub fn lookup(&self, key: KeyIdentity) -> (r: Option<&KeyEvent<R>>)
        ensures
            r == (if self.handlers().contains_key(key) {
                Some(&self.handlers()[key])
            } else {
                None
            }),
    {
        self.events.get(&key.index())
    }

    /// Records a key event in the ring history.
    pub fn record_key(&mut self, key: KeyIdentity, status: KeyTransition)
        requires
            old(self).wf(),
        ensures
            final(self).wf(),
            final(self).ring().len() == RING_CAPACITY,
            final(self).ring() == ring_next(old(self).ring(), key, status),
            final(self).handlers() == old(self).handlers(),
            final(self).packed() == old(self).packed(),
    {
        let key = Keystroke { key, status, count: 0 };
        let head = self.records[0];
        if key == head {
            let mut h = self.records.pop_front().unwrap();
            h.count = h.count.saturating_add(1);
            self.records.push_front(h);
        } else {
            self.records.pop_back();
            self.records.push_front(key);
        }
        assert(self.records@ =~= ring_next(old(self).records@, key.key, status));
    }

    /// The packed history register as it stands.
    pub fn records_u128(&self) -> (r: u128)
        ensures
            r == self.packed(),
    {
        self.records_u128
    }

    /// A copy of the ring history, newest first.
    pub fn get_records(&self) -> (r: Vec<Keystroke>)
        ensures
            r@ == self.ring(),
    {
        let mut r: Vec<Keystroke> = Vec::with_capacity(self.records.len());
        let mut i: usize = 0;
        while i < self.records.len()
            invariant
                i <= self.records@.len(),
                r@ == self.records@.take(i as int),
            decreases self.records@.len() - i,
        {
            r.push(self.records[i]);
            i = i + 1;
            assert(r@ =~= self.records@.take(i as int));
        }
        assert(r@ =~= self.records@);
        r
    }

    /// Records a key event in the packed history.  `vk_code` contributes its
    /// low 8 bits and `status` its lowest bit.
    pub fn record_key_u128(&mut self, vk_code: u32, status: u32)
        ensures
            slots(final(self).packed()) == packed_next(
                slots(old(self).packed()),
                payload(vk_code, status),
            ),
            final(self).ring() == old(self).ring(),
            final(self).handlers() == old(self).handlers(),
            final(self).wf() == old(self).wf(),
    {
        let old_r = self.records_u128;
        let cur: u32 = (self.records_u128 & 0xffff) as u32;
        let key: u32 = ((status % 2) << 8u32) | (vk_code & 0xff);
        let repeat: bool = cur & 0x1ff == key;
        let limit: bool = cur & 0xfe00 != 0xfe00;
        let ghost s0 = slots(old_r);
        let ghost p = payload(vk_code, status);
        assert(cur == slot(old_r, 0) as u32 && key == p as u32 && key < 0x200) by {
            assert(((old_r & 0xffff) as u32) == (((old_r >> (16 * 0u128)) & 0xffff) as u16)
                as u32) by (bit_vector);
            assert(((((status % 2) << 8u32) | (vk_code & 0xff)) as u32) == (((((status % 2)
                as u32) << 8u32) | (vk_code & 0xff)) as u16) as u32) by (bit_vector);
            assert((((status % 2) << 8u32) | (vk_code & 0xff)) < 0x200) by (bit_vector);
        }
        assert(repeat == (s0[0] & 0x1ff == p)) by {
            let c = s0[0];
            assert(((c as u32) & 0x1ff == key) == (c & 0x1ff == key as u16)) by (bit_vector)
                requires
                    key < 0x200,
            ;
        }
        assert(limit == ((s0[0] >> 9u16) < 0x7f)) by {
            let c = s0[0];
            assert(((c as u32) & 0xfe00 != 0xfe00) == ((c >> 9u16) < 0x7f)) by (bit_vector);
        }
        if repeat {
            if limit {
                assert(old_r & 0xfe00 != 0xfe00) by {
                    assert(((old_r & 0xffff) as u32) & 0xfe00 != 0xfe00 ==> old_r & 0xfe00
                        != 0xfe00) by (bit_vector);
                }
                proof {
                    lemma_bump_slot(old_r, 0);
                }
                self.records_u128 = self.records_u128 + 0x200;
                assert forall|i: int| 0 <= i < PACKED_SLOTS implies #[trigger] slots(
                    self.records_u128,
                )[i] == packed_next(s0, p)[i] by {
                    lemma_bump_slot(old_r, i as u128);
                }
            }
        } else {
            self.records_u128 = (self.records_u128 << 16u128) | (key as u128);
            assert forall|i: int| 0 <= i < PACKED_SLOTS implies #[trigger] slots(
                self.records_u128,
            )[i] == packed_next(s0, p)[i] by {
                if i == 0 {
                    lemma_shift_slot(old_r, key as u128, 1);
                } else {
                    lemma_shift_slot(old_r, key as u128, i as u128);
                }
            }
        }
        assert(slots(self.records_u128) =~= packed_next(s0, p));
    }

    /// The packed history decoded into keystrokes, newest first.
    pub fn get_records_u128(&self) -> (r: Vec<Keystroke>)
        ensures
            r@ == slots(self.packed()).map_values(|x: u16| spec_keystroke_from(x as u32)),
    {
        let mut record = self.records_u128;
        let mut records: Vec<Keystroke> = Vec::with_capacity(PACKED_SLOTS);
        let mut i: usize = 0;
        assert(record >> 0u128 == record) by (bit_vector);
        while i < PACKED_SLOTS
            invariant
                i <= PACKED_SLOTS,
                record == self.records_u128 >> (16 * i as u128),
                records@ == slots(self.records_u128).take(i as int).map_values(
                    |x: u16| spec_keystroke_from(x as u32),
                ),
            decreases PACKED_SLOTS - i,
        {
            proof {
                lemma_step_right(self.records_u128, i as u128);
                assert(record & 0xffff <= 0xffff) by (bit_vector);
            }
            records.push(Keystroke::from((record & 0xffff) as u32));
            record = record >> 16u128;
            i = i + 1;
            assert(records@ =~= slots(self.records_u128).take(i as int).map_values(
                |x: u16| spec_keystroke_from(x as u32),
            ));
        }
        assert(slots(self.records_u128).take(PACKED_SLOTS as int) =~= slots(self.records_u128));
        records
    }
}

impl<R: Reaction> LLKeyboard<R> {
    /// Dispatches one keyboard event.
    ///
    /// The key code and status word are classified; both histories record the
    /// event whether or not a handler is registered (the ring its classified
    /// pair, the packed history its raw code, or 0 where the code does not
    /// fit 8 bits, and its status word); the handler of the key,
    /// if any, runs with read access to the state; the event is consumed
    /// exactly when that handler asks for it.
    pub fn on_event(&mut self, vk_code: u32, w_param: u32) -> (r: Decision)
        requires
            old(self).wf(),
        ensures
            final(self).wf(),
            final(self).ring().len() == RING_CAPACITY,
            final(self).handlers() == old(self).handlers(),
            final(self).ring() == ring_next(
                old(self).ring(),
                spec_identity_of(vk_code),
                spec_transition_of(w_param),
            ),
            slots(final(self).packed()) == packed_next(
                slots(old(self).packed()),
                payload(if vk_code <= 0xff { vk_code } else { 0 }, w_param),
            ),
            histories_agree(final(self).ring(), slots(final(self).packed())),
            r == decision_for(old(self).handlers(), spec_identity_of(vk_code)),
    {
        let key = identity_of(vk_code);
        let status = transition_of(w_param);
        self.record_key(key, status);
        let raw: u32 = if vk_code <= 0xff {
            vk_code
        } else {
            0
        };
        self.record_key_u128(raw, w_param);
        proof {
            lemma_packed_head(slots(old(self).packed()), vk_code, w_param);
        }
        match self.lookup(key) {
            Some(e) => {
                e.event.run(self);
                if e.consume {
                    Decision::Consume
                } else {
                    Decision::Forward
                }
            },
            None => Decision::Forward,
        }
    }
}

/// The hook state that the keyboard program starts with: consuming handlers
/// on `A`, on `B` and on right shift (by convention the one that ends the
/// process), and empty histories.
pub fn init<R>(on_a: R, on_b: R, on_exit: R) -> (r: LLKeyboard<R>)
    ensures
        r.wf(),
        r.ring().len() == RING_CAPACITY,
        r.ring() == ring_initial(),
        r.packed() == 0,
        r.handlers() == Map::<KeyIdentity, KeyEvent<R>>::empty().insert(
            KeyIdentity::Virtual(KEY_A),
            KeyEvent { consume: true, event: on_a },
        ).insert(KeyIdentity::Virtual(KEY_B), KeyEvent { consume: true, event: on_b }).insert(
            KeyIdentity::Virtual(RSHIFT),
            KeyEvent { consume: true, event: on_exit },
        ),
{
    let mut llkp = LLKeyboard::new();
    llkp.add_event(KeyIdentity::Virtual(KEY_A), on_a, true);
    llkp.add_event(KeyIdentity::Virtual(KEY_B), on_b, true);
    llkp.add_event(KeyIdentity::Virtual(RSHIFT), on_exit, true);
    llkp
}

/// Registering a handler and then looking its key up finds that handler;
/// removing it and then looking the key up finds nothing.
pub proof fn lemma_register_then_lookup<R>(
    handlers: Map<KeyIdentity, KeyEvent<R>>,
    key: KeyIdentity,
    entry: KeyEvent<R>,
)
    ensures
        handlers.insert(key, entry).contains_key(key),
        handlers.insert(key, entry)[key] == entry,
        !handlers.remove(key).contains_key(key),
{
}

/// With a consuming handler registered for `key`, an event on `key` is
/// consumed, and an event on another key that has no handler is forwarded.
pub proof fn lemma_consume_dispatch<R>(
    handlers: Map<KeyIdentity, KeyEvent<R>>,
    key: KeyIdentity,
    event: R,
    other: KeyIdentity,
)
    ensures
        decision_for(handlers.insert(key, KeyEvent { consume: true, event }), key)
            == Decision::Consume,
        other != key && !handlers.contains_key(other) ==> decision_for(
            handlers.insert(key, KeyEvent { consume: true, event }),
            other,
        ) == Decision::Forward,
{
}

} // verus!
