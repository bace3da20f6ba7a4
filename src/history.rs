use vstd::prelude::*;

use crate::keys::{
    KeyIdentity, KeyTransition, identity_of, spec_identity_of, spec_transition_of,
    transition_of,
};

verus! {

/// Number of entries that the ring history holds.
pub const RING_CAPACITY: usize = 10;

/// Number of 16-bit slots in the packed history.
pub const PACKED_SLOTS: usize = 8;

/// Largest repeat counter that a packed slot holds (its upper seven bits).
pub const PACKED_COUNT_MAX: u32 = 0x7f;

/// One observed key event, with the number of times it repeated right after
/// itself.  Two keystrokes are equal when key and status agree; the counter
/// is left out so that repeats coalesce.
#[derive(Clone, Copy, Debug)]
pub struct Keystroke {
    pub key: KeyIdentity,
    pub status: KeyTransition,
    pub count: u32,
}

/// The (key, status) pair of a keystroke, which its equality looks at.
pub open spec fn pair_of(k: Keystroke) -> (KeyIdentity, KeyTransition) {
    (k.key, k.status)
}

/// The entry that fills a fresh history: an unmapped key, pressed, no repeats.
pub open spec fn empty_keystroke() -> Keystroke {
    Keystroke { key: KeyIdentity::Unmapped, status: KeyTransition::Pressed, count: 0 }
}

/// The keystroke that a 16-bit slot word encodes: key code in bits 0..8,
/// status in bit 8, repeat counter above.
pub open spec fn spec_keystroke_from(x: u32) -> Keystroke {
    Keystroke {
        key: spec_identity_of(x & 0xff),
        status: spec_transition_of((x >> 8u32) & 1),
        count: x >> 9u32,
    }
}

impl PartialEq for Keystroke {
    fn eq(&self, other: &Keystroke) -> (r: bool) {
        self.key == other.key && self.status == other.status
    }
}

impl vstd::std_specs::cmp::PartialEqSpecImpl for Keystroke {
    open spec fn obeys_eq_spec() -> bool {
        true
    }

    open spec fn eq_spec(&self, other: &Keystroke) -> bool {
        self.key == other.key && self.status == other.status
    }
}

impl Default for Keystroke {
    fn default() -> (r: Keystroke)
        ensures
            r == empty_keystroke(),
    {
        Keystroke { key: KeyIdentity::Unmapped, status: KeyTransition::Pressed, count: 0 }
    }
}

impl From<u32> for Keystroke {
    fn from(x: u32) -> (r: Keystroke) {
        Keystroke {
            key: identity_of(x & 0xff),
            status: transition_of((x >> 8u32) & 1),
            count: x >> 9u32,
        }
    }
}

impl vstd::std_specs::convert::FromSpecImpl<u32> for Keystroke {
    open spec fn obeys_from_spec() -> bool {
        true
    }

    open spec fn from_spec(x: u32) -> Keystroke {
        spec_keystroke_from(x)
    }
}

// ---------------------------------------------------------------------------
// Ring history: a fixed number of keystrokes, newest first.
// ---------------------------------------------------------------------------

/// A repeat counter raised by one, stopping at its largest value.
pub open spec fn bump(c: u32) -> u32 {
    if c < u32::MAX {
        (c + 1) as u32
    } else {
        c
    }
}

/// The ring history after one more event: a repeat of the head raises the
/// head's counter in place; any other event is pushed at the front with
/// count 0 and the oldest entry leaves.
pub open spec fn ring_next(h: Seq<Keystroke>, k: KeyIdentity, t: KeyTransition) -> Seq<Keystroke> {
    if h[0].key == k && h[0].status == t {
        h.update(0, Keystroke { key: h[0].key, status: h[0].status, count: bump(h[0].count) })
    } else {
        seq![Keystroke { key: k, status: t, count: 0 }].add(h.drop_last())
    }
}

/// A fresh ring history: `RING_CAPACITY` empty entries.
pub open spec fn ring_initial() -> Seq<Keystroke> {
    Seq::new(RING_CAPACITY as nat, |i: int| empty_keystroke())
}

// ---------------------------------------------------------------------------
// Packed history: eight 16-bit slots in one u128, slot 0 in the low bits.
// ---------------------------------------------------------------------------

/// The `i`-th 16-bit slot of a packed register (slot 0 is the newest).
pub open spec fn slot(r: u128, i: u128) -> u16 {
    ((r >> (16 * i)) & 0xffff) as u16
}

/// The slots of a packed register, newest first.
pub open spec fn slots(r: u128) -> Seq<u16> {
    Seq::new(PACKED_SLOTS as nat, |i: int| slot(r, i as u128))
}

/// The 9-bit payload that the packed history stores for a key event: the
/// low bit of the status word at bit 8, the key code below it.
pub open spec fn payload(vk_code: u32, status: u32) -> u16 {
    ((((status % 2) as u32) << 8u32) | (vk_code & 0xff)) as u16
}

/// The packed slots after one more event with payload `p`: a repeat of the
/// newest slot's payload raises its counter unless it is saturated; any other
/// payload shifts every slot one place older and takes slot 0 with count 0.
pub open spec fn packed_next(s: Seq<u16>, p: u16) -> Seq<u16> {
    if s[0] & 0x1ff == p {
        if (s[0] >> 9u16) < PACKED_COUNT_MAX {
            s.update(0, (s[0] + 0x200) as u16)
        } else {
            s
        }
    } else {
        seq![p].add(s.take(PACKED_SLOTS as int - 1))
    }
}

/// The key code that dispatch hands the packed history: the raw code where
/// it fits the slot's 8 key bits, 0 otherwise.
pub open spec fn packed_code(vk_code: u32) -> u32 {
    if vk_code <= 0xff {
        vk_code
    } else {
        0
    }
}

/// The payload that the packed history stores for a dispatched raw event.
pub open spec fn dispatch_payload(vk_code: u32, status: u32) -> u16 {
    payload(packed_code(vk_code), status)
}

/// The classified (key, status) pair of a raw event.
pub open spec fn classify(e: (u32, u32)) -> (KeyIdentity, KeyTransition) {
    (spec_identity_of(e.0), spec_transition_of(e.1))
}

/// Both histories name the same most recent (key, status) pair.
pub open spec fn histories_agree(h: Seq<Keystroke>, s: Seq<u16>) -> bool {
    pair_of(h[0]) == pair_of(spec_keystroke_from(s[0] as u32))
}

/// After one dispatched event the newest packed slot decodes to that event's
/// classified pair, whatever the slots were before.
pub proof fn lemma_packed_head(s: Seq<u16>, vk_code: u32, status: u32)
    requires
        s.len() == PACKED_SLOTS,
    ensures
        packed_next(s, dispatch_payload(vk_code, status)).len() == PACKED_SLOTS,
        pair_of(spec_keystroke_from(packed_next(s, dispatch_payload(vk_code, status))[0] as u32))
            == classify((vk_code, status)),
{
    let p = dispatch_payload(vk_code, status);
    let c = packed_code(vk_code);
    let n = packed_next(s, p)[0];
    assert(p & 0x1ff == p) by (bit_vector)
        requires
            p == ((((status % 2) as u32) << 8u32) | (c & 0xff)) as u16,
    ;
    assert(n & 0x1ff == p) by {
        let s0 = s[0];
        if s0 & 0x1ff == p && (s0 >> 9u16) < PACKED_COUNT_MAX {
            assert(((s0 + 0x200) as u16) & 0x1ff == s0 & 0x1ff) by (bit_vector)
                requires
                    (s0 >> 9u16) < 0x7f,
            ;
        }
    }
    assert((n as u32) & 0xff == c && ((n as u32) >> 8u32) & 1 == status % 2) by (bit_vector)
        requires
            n & 0x1ff == ((((status % 2) as u32) << 8u32) | (c & 0xff)) as u16,
            c <= 0xff,
    ;
}

/// Shifting a register one slot up and writing `p` below moves each slot one
/// place older.
pub(crate) proof fn lemma_shift_slot(r: u128, p: u128, i: u128)
    requires
        p < 0x10000,
        1 <= i < 8,
    ensures
        slot(((r << 16u128) | p), i) == slot(r, (i - 1) as u128),
        slot(((r << 16u128) | p), 0) == p,
{
    assert((((((r << 16u128) | p) >> (16 * i)) & 0xffff) as u16) == (((r >> ((16 * i - 16) as u128)) & 0xffff) as u16)) by (bit_vector)
        requires
            p < 0x10000,
            1 <= i < 8,
    ;
    assert((((((r << 16u128) | p) >> (16 * 0u128)) & 0xffff) as u16) == p) by (bit_vector)
        requires
            p < 0x10000,
    ;
}

/// Adding one repeat to an unsaturated newest slot leaves the other slots
/// as they were.
pub(crate) proof fn lemma_bump_slot(r: u128, i: u128)
    requires
        r & 0xfe00 != 0xfe00,
        i < 8,
    ensures
        r + 0x200 <= u128::MAX,
        i == 0 ==> slot((r + 0x200) as u128, i) == slot(r, i) + 0x200,
        i != 0 ==> slot((r + 0x200) as u128, i) == slot(r, i),
{
    assert(r + 0x200 <= u128::MAX) by (bit_vector)
        requires
            r & 0xfe00 != 0xfe00,
    ;
    assert(i == 0 ==> ((((r + 0x200) as u128 >> (16 * i)) & 0xffff) as u16) == (((r >> (16
        * i)) & 0xffff) as u16) + 0x200) by (bit_vector)
        requires
            r & 0xfe00 != 0xfe00,
            i < 8,
    ;
    assert(i != 0 ==> ((((r + 0x200) as u128 >> (16 * i)) & 0xffff) as u16) == (((r >> (16
        * i)) & 0xffff) as u16)) by (bit_vector)
        requires
            r & 0xfe00 != 0xfe00,
            i < 8,
    ;
}

/// Shifting a register right by `16 * i` bits and then by 16 more is the
/// shift by `16 * (i + 1)`, and its low 16 bits are slot `i`.
pub(crate) proof fn lemma_step_right(r: u128, i: u128)
    requires
        i < 8,
    ensures
        (r >> (16 * i)) >> 16u128 == r >> (16 * (i + 1)),
        ((r >> (16 * i)) & 0xffff) as u32 == slot(r, i) as u32,
{
    assert((r >> (16 * i)) >> 16u128 == r >> (16 * (i + 1))) by (bit_vector)
        requires
            i < 8,
    ;
    assert(((r >> (16 * i)) & 0xffff) as u32 == (((r >> (16 * i)) & 0xffff) as u16) as u32)
        by (bit_vector);
}

// ---------------------------------------------------------------------------
// Both histories over a whole sequence of events.
// ---------------------------------------------------------------------------

/// The ring history after each event of `ev` in turn.
pub open spec fn ring_after(h: Seq<Keystroke>, ev: Seq<(KeyIdentity, KeyTransition)>) -> Seq<
    Keystroke,
>
    decreases ev.len(),
{
    if ev.len() == 0 {
        h
    } else {
        ring_next(ring_after(h, ev.drop_last()), ev.last().0, ev.last().1)
    }
}

/// The packed slots after each raw event of `ev` in turn.
pub open spec fn packed_after(s: Seq<u16>, ev: Seq<(u32, u32)>) -> Seq<u16>
    decreases ev.len(),
{
    if ev.len() == 0 {
        s
    } else {
        packed_next(packed_after(s, ev.drop_last()), dispatch_payload(ev.last().0, ev.last().1))
    }
}

/// The same (key, status) pair `n` times over.
pub open spec fn repeated(k: KeyIdentity, t: KeyTransition, n: nat) -> Seq<
    (KeyIdentity, KeyTransition),
> {
    Seq::new(n, |i: int| (k, t))
}

/// Whatever events are recorded, the ring history keeps exactly its
/// capacity.
pub proof fn lemma_ring_length_constant(h: Seq<Keystroke>, ev: Seq<(KeyIdentity, KeyTransition)>)
    requires
        h.len() == RING_CAPACITY,
    ensures
        ring_after(h, ev).len() == RING_CAPACITY,
    decreases ev.len(),
{
    if ev.len() > 0 {
        lemma_ring_length_constant(h, ev.drop_last());
    }
}

/// Whatever events are recorded, the packed history keeps its eight slots.
pub proof fn lemma_packed_length_constant(s: Seq<u16>, ev: Seq<(u32, u32)>)
    requires
        s.len() == PACKED_SLOTS,
    ensures
        packed_after(s, ev).len() == PACKED_SLOTS,
    decreases ev.len(),
{
    if ev.len() > 0 {
        lemma_packed_length_constant(s, ev.drop_last());
    }
}

/// Recording one (key, status) pair `n` times in a row, after a head that
/// differs from it, leaves that pair at the head with count `n - 1` above the
/// old entries moved one place older, at unchanged length.  A different pair
/// recorded next goes to the head with count 0 and the oldest entry leaves.
pub proof fn lemma_repeats_coalesce(
    h: Seq<Keystroke>,
    k: KeyIdentity,
    t: KeyTransition,
    n: nat,
    k2: KeyIdentity,
    t2: KeyTransition,
)
    requires
        h.len() == RING_CAPACITY,
        pair_of(h[0]) != (k, t),
        1 <= n <= u32::MAX + 1,
    ensures
        ring_after(h, repeated(k, t, n)).len() == RING_CAPACITY,
        ring_after(h, repeated(k, t, n))[0] == (Keystroke { key: k, status: t, count: (n - 1) as u32 }),
        ring_after(h, repeated(k, t, n)).drop_first() == h.drop_last(),
        (k2, t2) != (k, t) ==> ring_after(h, repeated(k, t, n).push((k2, t2))) == seq![
            Keystroke { key: k2, status: t2, count: 0 },
        ].add(ring_after(h, repeated(k, t, n)).drop_last()),
    decreases n,
{
    let ev = repeated(k, t, n);
    assert(ev.drop_last() =~= repeated(k, t, (n - 1) as nat));
    if n == 1 {
        assert(ev.drop_last() =~= Seq::<(KeyIdentity, KeyTransition)>::empty());
        assert(ring_after(h, ev) =~= seq![Keystroke { key: k, status: t, count: 0 }].add(
            h.drop_last(),
        ));
        assert(ring_after(h, ev).drop_first() =~= h.drop_last());
    } else {
        lemma_repeats_coalesce(h, k, t, (n - 1) as nat, k2, t2);
        assert(ring_after(h, ev).drop_first() =~= h.drop_last());
    }
    let ev2 = ev.push((k2, t2));
    assert(ev2.drop_last() =~= ev);
}

/// Fed the same raw events from their fresh states, the ring history (which
/// records each event's classified pair) and the packed history (which
/// records its raw code and status) name the same most recent (key, status)
/// pair after every event.
pub proof fn lemma_histories_agree(ev: Seq<(u32, u32)>)
    ensures
        forall|n: int|
            0 <= n <= ev.len() ==> histories_agree(
                ring_after(ring_initial(), ev.take(n).map_values(|e: (u32, u32)| classify(e))),
                #[trigger] packed_after(slots(0), ev.take(n)),
            ),
{
    assert forall|n: int| 0 <= n <= ev.len() implies histories_agree(
        ring_after(ring_initial(), ev.take(n).map_values(|e: (u32, u32)| classify(e))),
        #[trigger] packed_after(slots(0), ev.take(n)),
    ) by {
        let e = ev.take(n);
        let m = e.map_values(|e: (u32, u32)| classify(e));
        if n == 0 {
            assert(e =~= Seq::<(u32, u32)>::empty());
            assert(m =~= Seq::<(KeyIdentity, KeyTransition)>::empty());
            assert(slot(0, 0) == 0) by (bit_vector);
            assert((0u32 & 0xff) == 0 && ((0u32 >> 8u32) & 1) == 0) by (bit_vector);
        } else {
            let (vk, st) = e.last();
            assert(m.drop_last() =~= e.drop_last().map_values(|e: (u32, u32)| classify(e)));
            assert(m.last() == classify((vk, st)));
            lemma_ring_length_constant(ring_initial(), m.drop_last());
            lemma_packed_length_constant(slots(0), e.drop_last());
            lemma_packed_head(packed_after(slots(0), e.drop_last()), vk, st);
        }
    }
}

/// Recording an event changes the ring history, unless it repeats a head
/// whose counter is already at its largest value; the event is then the
/// head's (key, status) pair.
pub proof fn lemma_record_changes_ring(h: Seq<Keystroke>, k: KeyIdentity, t: KeyTransition)
    requires
        h.len() == RING_CAPACITY,
        !(pair_of(h[0]) == (k, t) && h[0].count == u32::MAX),
    ensures
        ring_next(h, k, t) != h,
        pair_of(ring_next(h, k, t)[0]) == (k, t),
{
    assert(ring_next(h, k, t)[0] != h[0]);
}

} // verus!
