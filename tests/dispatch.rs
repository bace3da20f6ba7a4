use std::cell::Cell;

use keyboard_hook::history::Keystroke;
use keyboard_hook::hook::{init, Decision, LLKeyboard, Reaction};
use keyboard_hook::keys::{identity_of, transition_of, KeyIdentity, KeyTransition, KEY_A, KEY_B, RSHIFT};

struct Counter {
    runs: Cell<u32>,
    seen_head: Cell<Option<KeyIdentity>>,
}

impl Counter {
    fn new() -> Counter {
        Counter { runs: Cell::new(0), seen_head: Cell::new(None) }
    }
}

impl Reaction for Counter {
    fn run(&self, state: &LLKeyboard<Counter>) {
        self.runs.set(self.runs.get() + 1);
        self.seen_head.set(Some(state.get_records()[0].key));
    }
}

const DOWN: u32 = 0x100;
const UP: u32 = 0x101;
const A: u32 = 0x41;
const B: u32 = 0x42;

fn head(k: &LLKeyboard<Counter>) -> (KeyIdentity, KeyTransition, u32) {
    let r = k.get_records();
    (r[0].key, r[0].status, r[0].count)
}

#[test]
fn classification_is_total() {
    assert_eq!(identity_of(0x41), KeyIdentity::Virtual(0x41));
    assert_eq!(identity_of(0x01), KeyIdentity::Virtual(0x01));
    assert_eq!(identity_of(0xFE), KeyIdentity::Virtual(0xFE));
    assert_eq!(identity_of(0), KeyIdentity::Unmapped);
    assert_eq!(identity_of(0xFF), KeyIdentity::Unmapped);
    assert_eq!(identity_of(u32::MAX), KeyIdentity::Unmapped);
    assert_eq!(transition_of(0x100), KeyTransition::Pressed);
    assert_eq!(transition_of(0x101), KeyTransition::Released);
    assert_eq!(transition_of(0x104), KeyTransition::Pressed);
    assert_eq!(transition_of(0x105), KeyTransition::Released);
}

#[test]
fn fresh_state_has_ten_empty_entries() {
    let k: LLKeyboard<Counter> = LLKeyboard::new();
    let r = k.get_records();
    assert_eq!(r.len(), 10);
    for e in r {
        assert_eq!(e.key, KeyIdentity::Unmapped);
        assert_eq!(e.status, KeyTransition::Pressed);
        assert_eq!(e.count, 0);
    }
    assert_eq!(k.records_u128(), 0);
    let p = k.get_records_u128();
    assert_eq!(p.len(), 8);
    assert!(p.iter().all(|e| e.key == KeyIdentity::Unmapped && e.count == 0));
}

#[test]
fn ring_scenario_a_a_a_b_a() {
    let mut k: LLKeyboard<Counter> = LLKeyboard::new();
    let va = KeyIdentity::Virtual(0x41);
    let vb = KeyIdentity::Virtual(0x42);
    let p = KeyTransition::Pressed;
    assert_eq!(k.on_event(A, DOWN), Decision::Forward);
    assert_eq!(head(&k), (va, p, 0));
    k.on_event(A, DOWN);
    assert_eq!(head(&k), (va, p, 1));
    k.on_event(A, DOWN);
    assert_eq!(head(&k), (va, p, 2));
    k.on_event(B, DOWN);
    let r = k.get_records();
    assert_eq!((r[0].key, r[0].count), (vb, 0));
    assert_eq!((r[1].key, r[1].count), (va, 2));
    k.on_event(A, DOWN);
    let r = k.get_records();
    assert_eq!((r[0].key, r[0].count), (va, 0));
    assert_eq!((r[1].key, r[1].count), (vb, 0));
    assert_eq!((r[2].key, r[2].count), (va, 2));
    assert_eq!(r[3].key, KeyIdentity::Unmapped);
    assert_eq!(r.len(), 10);
}

#[test]
fn packed_scenario_repeat_then_shift() {
    let mut k: LLKeyboard<Counter> = LLKeyboard::new();
    k.record_key_u128(30, 0);
    assert_eq!(k.records_u128(), 30);
    k.record_key_u128(30, 0);
    // repeat: no shift, counter of slot 0 raised
    assert_eq!(k.records_u128(), 30 + 0x200);
    k.record_key_u128(31, 0);
    assert_eq!(k.records_u128(), ((30u128 + 0x200) << 16) | 31);
    let p = k.get_records_u128();
    assert_eq!((p[0].key, p[0].count), (KeyIdentity::Virtual(31), 0));
    assert_eq!((p[1].key, p[1].count), (KeyIdentity::Virtual(30), 1));
    assert_eq!(p[2].key, KeyIdentity::Unmapped);
}

#[test]
fn packed_release_sets_status_bit() {
    let mut k: LLKeyboard<Counter> = LLKeyboard::new();
    k.record_key_u128(0x41, 0x101);
    assert_eq!(k.records_u128(), 0x141);
    let p = k.get_records_u128();
    assert_eq!(p[0].key, KeyIdentity::Virtual(0x41));
    assert_eq!(p[0].status, KeyTransition::Released);
}

#[test]
fn packed_counter_saturates() {
    let mut k: LLKeyboard<Counter> = LLKeyboard::new();
    for _ in 0..300 {
        k.record_key_u128(30, 0);
    }
    assert_eq!(k.records_u128(), 30 + (0x7f << 9));
    assert_eq!(k.get_records_u128()[0].count, 0x7f);
    assert_eq!(k.get_records_u128()[1].count, 0);
    k.record_key_u128(31, 0);
    assert_eq!(k.records_u128(), ((30u128 + (0x7f << 9)) << 16) | 31);
}

#[test]
fn packed_keeps_eight_newest() {
    let mut k: LLKeyboard<Counter> = LLKeyboard::new();
    for c in 1..=9u32 {
        k.record_key_u128(c, 0);
    }
    let p = k.get_records_u128();
    let keys: Vec<KeyIdentity> = p.iter().map(|e| e.key).collect();
    let want: Vec<KeyIdentity> = (2..=9u8).rev().map(KeyIdentity::Virtual).collect();
    assert_eq!(keys, want);
}

#[test]
fn ring_length_stays_ten() {
    let mut k: LLKeyboard<Counter> = LLKeyboard::new();
    for i in 0..40u32 {
        k.on_event(i % 7 + 1, DOWN + i % 2);
        assert_eq!(k.get_records().len(), 10);
    }
}

#[test]
fn distinct_pair_evicts_tail() {
    let mut k: LLKeyboard<Counter> = LLKeyboard::new();
    for c in 1..=10u32 {
        k.on_event(c, DOWN);
    }
    assert_eq!(k.get_records()[9].key, KeyIdentity::Virtual(1));
    k.on_event(11, DOWN);
    let r = k.get_records();
    assert_eq!(r.len(), 10);
    assert_eq!(r[0].key, KeyIdentity::Virtual(11));
    assert_eq!(r[9].key, KeyIdentity::Virtual(2));
}

#[test]
fn press_and_release_are_distinct() {
    let mut k: LLKeyboard<Counter> = LLKeyboard::new();
    k.on_event(A, DOWN);
    k.on_event(A, UP);
    let r = k.get_records();
    assert_eq!((r[0].status, r[0].count), (KeyTransition::Released, 0));
    assert_eq!((r[1].status, r[1].count), (KeyTransition::Pressed, 0));
}

#[test]
fn histories_agree_on_every_step() {
    let mut k: LLKeyboard<Counter> = LLKeyboard::new();
    let codes = [A, A, B, 0, 0xFF, 0x1234, A, UP, UP, 7];
    for (i, c) in codes.iter().enumerate() {
        k.on_event(*c, DOWN + (i as u32 % 3 == 0) as u32);
        let ring = k.get_records();
        let packed = k.get_records_u128();
        assert_eq!((ring[0].key, ring[0].status), (packed[0].key, packed[0].status));
    }
}

#[test]
fn register_then_lookup() {
    let mut k: LLKeyboard<Counter> = LLKeyboard::new();
    let va = KeyIdentity::Virtual(0x41);
    assert!(k.lookup(va).is_none());
    k.add_event(va, Counter::new(), false);
    assert!(!k.lookup(va).unwrap().consume);
    k.add_event(va, Counter::new(), true);
    assert!(k.lookup(va).unwrap().consume);
    let removed = k.remove_event(va);
    assert!(removed.unwrap().consume);
    assert!(k.lookup(va).is_none());
    assert!(k.remove_event(va).is_none());
}

#[test]
fn unmapped_key_has_its_own_handler() {
    let mut k: LLKeyboard<Counter> = LLKeyboard::new();
    k.add_event(KeyIdentity::Unmapped, Counter::new(), true);
    assert!(k.lookup(KeyIdentity::Virtual(0)).is_none());
    assert!(k.lookup(KeyIdentity::Unmapped).is_some());
    assert_eq!(k.on_event(0x1234, DOWN), Decision::Consume);
}

#[test]
fn consuming_handler_consumes_and_others_forward() {
    let mut k: LLKeyboard<Counter> = LLKeyboard::new();
    k.add_event(KeyIdentity::Virtual(0x41), Counter::new(), true);
    assert_eq!(k.on_event(A, DOWN), Decision::Consume);
    assert_eq!(k.on_event(B, DOWN), Decision::Forward);
    assert_eq!(k.lookup(KeyIdentity::Virtual(0x41)).unwrap().event.runs.get(), 1);
}

#[test]
fn pass_through_handler_runs_and_forwards() {
    let mut k: LLKeyboard<Counter> = LLKeyboard::new();
    k.add_event(KeyIdentity::Virtual(0x42), Counter::new(), false);
    assert_eq!(k.on_event(B, DOWN), Decision::Forward);
    assert_eq!(k.on_event(B, UP), Decision::Forward);
    let h = k.lookup(KeyIdentity::Virtual(0x42)).unwrap();
    assert_eq!(h.event.runs.get(), 2);
    // the reaction saw the history with the current event already recorded
    assert_eq!(h.event.seen_head.get(), Some(KeyIdentity::Virtual(0x42)));
}

#[test]
fn recording_happens_without_handler() {
    let mut k: LLKeyboard<Counter> = LLKeyboard::new();
    let before = k.get_records();
    assert_eq!(k.on_event(B, DOWN), Decision::Forward);
    let after = k.get_records();
    assert_eq!(after.len(), before.len());
    assert_eq!(after[0].key, KeyIdentity::Virtual(0x42));
    assert_eq!(k.records_u128(), 0x42);
    k.on_event(B, DOWN);
    assert_eq!(k.get_records()[0].count, 1);
    assert_eq!(k.records_u128(), 0x42 + 0x200);
}

#[test]
fn init_registers_three_consuming_handlers() {
    let mut k = init(Counter::new(), Counter::new(), Counter::new());
    for c in [KEY_A, KEY_B, RSHIFT] {
        assert!(k.lookup(KeyIdentity::Virtual(c)).unwrap().consume);
    }
    assert!(k.lookup(KeyIdentity::Virtual(0x43)).is_none());
    assert_eq!(k.on_event(RSHIFT as u32, DOWN), Decision::Consume);
    assert_eq!(k.on_event(0x43, DOWN), Decision::Forward);
    assert_eq!(k.get_records().len(), 10);
}

#[test]
fn keystroke_equality_ignores_count() {
    let a = Keystroke { key: KeyIdentity::Virtual(5), status: KeyTransition::Pressed, count: 0 };
    let b = Keystroke { key: KeyIdentity::Virtual(5), status: KeyTransition::Pressed, count: 9 };
    let c = Keystroke { key: KeyIdentity::Virtual(5), status: KeyTransition::Released, count: 0 };
    assert!(a == b);
    assert!(a != c);
    assert!(Keystroke::default() == Keystroke::from(0u32));
}

#[test]
fn keystroke_from_slot_word() {
    let k = Keystroke::from(0x41 | 0x100 | (3 << 9));
    assert_eq!(k.key, KeyIdentity::Virtual(0x41));
    assert_eq!(k.status, KeyTransition::Released);
    assert_eq!(k.count, 3);
}

#[test]
fn identity_codes() {
    assert_eq!(KeyIdentity::Virtual(0x41).code(), 0x41);
    assert_eq!(KeyIdentity::Unmapped.code(), 0);
    assert_eq!(KeyIdentity::Unmapped.index(), 0x100);
    assert_eq!(KeyTransition::Released.status_bit(), 1);
}

#[test]
fn dispatch_feeds_packed_history_the_raw_code() {
    let mut k: LLKeyboard<Counter> = LLKeyboard::new();
    assert_eq!(k.on_event(0xFF, DOWN), Decision::Forward);
    // the ring holds the classified key, the packed register the raw code
    assert_eq!(k.get_records()[0].key, KeyIdentity::Unmapped);
    assert_eq!(k.records_u128(), 0xFF);
    let p = k.get_records_u128();
    assert_eq!((p[0].key, p[0].status, p[0].count), (KeyIdentity::Unmapped, KeyTransition::Pressed, 0));
    k.on_event(0xFF, UP);
    assert_eq!(k.records_u128(), (0xFFu128 << 16) | 0x1FF);
    assert_eq!(k.get_records_u128()[0].status, KeyTransition::Released);
}

#[test]
fn dispatch_of_code_above_key_space_packs_zero() {
    let mut k: LLKeyboard<Counter> = LLKeyboard::new();
    k.on_event(A, DOWN);
    k.on_event(0x1234, DOWN);
    assert_eq!(k.records_u128(), (0x41u128 << 16) | 0);
    let p = k.get_records_u128();
    assert_eq!(p[0].key, KeyIdentity::Unmapped);
    assert_eq!(p[1].key, KeyIdentity::Virtual(0x41));
    assert_eq!(k.get_records()[0].key, KeyIdentity::Unmapped);
}
