//! The key state owned by the machine: which of the sixteen logical keys are
//! held, and which register (if any) is waiting on the next key press. The
//! mapping from physical input devices to this vector belongs to the caller.

use vstd::prelude::*;

verus! {

/// Sixteen held/released key states and the pending key-wait target
/// (`0x10` when no wait is pending).
pub struct KeyHandler {
    pub keys: Vec<bool>,
    pub key_hold: u8,
}

impl KeyHandler {
    /// All sixteen keys released, no key wait pending.
    pub fn new() -> (k: KeyHandler)
        ensures
            k.keys@ == Seq::new(16, |i: int| false),
            k.key_hold == 0x10u8,
    {
        let mut keys: Vec<bool> = Vec::new();
        let mut i: usize = 0;
        while i < 16
            invariant
                i <= 16,
                keys@.len() == i as int,
                forall|j: int| 0 <= j < i as int ==> !(#[trigger] keys@[j]),
            decreases 16 - i,
        {
            keys.push(false);
            i = i + 1;
        }
        proof {
            assert(keys@ =~= Seq::new(16, |i: int| false));
        }
        KeyHandler { keys, key_hold: 0x10 }
    }

    /// Replaces the held/released state of every key with the caller's
    /// sixteen-element snapshot.
    pub fn update_keys(&mut self, held: &Vec<bool>)
        requires
            old(self).keys@.len() == 16,
            held@.len() == 16,
        ensures
            final(self).keys@ == held@,
            final(self).key_hold == old(self).key_hold,
    {
        let mut i: usize = 0;
        while i < 16
            invariant
                i <= 16,
                held@.len() == 16,
                self.keys@.len() == 16,
                self.key_hold == old(self).key_hold,
                forall|j: int| 0 <= j < i as int ==> #[trigger] self.keys@[j] == held@[j],
                forall|j: int| i as int <= j < 16 ==> #[trigger] self.keys@[j] == old(self).keys@[j],
            decreases 16 - i,
        {
            self.keys[i] = held[i];
            i = i + 1;
        }
        proof {
            assert(self.keys@ =~= held@);
        }
    }

    /// The key a pending key wait should resolve with: the lowest-numbered
    /// key reported pressed in the caller's snapshot, or `None` if none is.
    pub fn key_block_pressed(&mut self, pressed: &Vec<bool>) -> (r: Option<u8>)
        requires
            pressed@.len() == 16,
        ensures
            *final(self) == *old(self),
            r == None::<u8> <==> (forall|j: int| 0 <= j < 16 ==> !pressed@[j]),
            forall|k: u8| r == Some(k) ==> k < 16 && pressed@[k as int]
                && (forall|j: int| 0 <= j < k as int ==> !pressed@[j]),
    {
        let mut i: usize = 0;
        while i < 16
            invariant
                i <= 16,
                pressed@.len() == 16,
                forall|j: int| 0 <= j < i as int ==> !pressed@[j],
            decreases 16 - i,
        {
            if pressed[i] {
                return Some(i as u8);
            }
            i = i + 1;
        }
        None
    }
}

} // verus!
