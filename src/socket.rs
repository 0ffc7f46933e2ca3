//! The status that the socket output broadcasts: whether any device needs a
//! touch.
use vstd::prelude::*;

use crate::monitor::{lemma_lists_push, lists};

verus! {

/// The devices that need a touch now, by serial number.
pub struct Presence {
    active: Vec<String>,
}

impl View for Presence {
    type V = Set<Seq<char>>;

    closed spec fn view(&self) -> Set<Seq<char>> {
        Set::new(|s: Seq<char>| lists(self.active@, s))
    }
}

impl Presence {
    /// No device needs a touch.
    pub fn new() -> (r: Presence)
        ensures
            r@ == Set::<Seq<char>>::empty(),
    {
        let r = Presence { active: Vec::new() };
        assert(r@ =~= Set::<Seq<char>>::empty());
        r
    }

    /// Whether no device needs a touch.
    pub fn is_empty(&self) -> (r: bool)
        ensures
            r == (self@ == Set::<Seq<char>>::empty()),
    {
        if self.active.len() == 0 {
            assert(self@ =~= Set::<Seq<char>>::empty());
            true
        } else {
            assert(self@.contains(self.active@[0]@));
            false
        }
    }

    /// Takes the edge of one device. Returns `Some(true)` when it is the
    /// first device that needs a touch, `Some(false)` when a device stops
    /// needing one and none is left, and `None` otherwise.
    pub fn update(&mut self, serial: &String, needed: bool) -> (r: Option<bool>)
        ensures
            final(self)@ == if needed {
                old(self)@.insert(serial@)
            } else {
                old(self)@.remove(serial@)
            },
            r == if needed {
                if old(self)@ == Set::<Seq<char>>::empty() {
                    Some(true)
                } else {
                    None
                }
            } else {
                if final(self)@ == Set::<Seq<char>>::empty() {
                    Some(false)
                } else {
                    None
                }
            },
    {
        if needed {
            let was_empty = self.is_empty();
            let ghost before = self@;
            self.active.push(serial.clone());
            assert(self@ =~= before.insert(serial@)) by {
                assert forall|s: Seq<char>| self@.contains(s) implies before.insert(serial@).contains(s) by {
                    let i = choose|i: int| 0 <= i < self.active@.len() && #[trigger] self.active@[i]@ == s;
                    if i < self.active@.len() - 1 {
                        assert(old(self).active@[i]@ == s);
                    }
                }
                assert forall|s: Seq<char>| before.insert(serial@).contains(s) implies self@.contains(s) by {
                    if s == serial@ {
                        assert(self.active@[self.active@.len() - 1]@ == s);
                    } else {
                        let i = choose|i: int| 0 <= i < old(self).active@.len() && #[trigger] old(self).active@[i]@ == s;
                        assert(self.active@[i]@ == s);
                    }
                }
            }
            if was_empty {
                Some(true)
            } else {
                None
            }
        } else {
            let ghost before = self@;
            let mut kept: Vec<String> = Vec::new();
            let mut i: usize = 0;
            while i < self.active.len()
                invariant
                    i <= self.active@.len(),
                    before == old(self)@,
                    self.active@ == old(self).active@,
                    forall|s: Seq<char>|
                        #[trigger] lists(kept@, s) <==> (s != serial@ && lists(
                            self.active@.take(i as int),
                            s,
                        )),
                decreases self.active.len() - i,
            {
                let ghost prev = kept@;
                proof {
                    assert(self.active@.take(i + 1) =~= self.active@.take(i as int).push(
                        self.active@[i as int],
                    ));
                    lemma_lists_push(self.active@.take(i as int), self.active@[i as int]);
                }
                if !(self.active[i] == *serial) {
                    let copy = self.active[i].clone();
                    proof {
                        lemma_lists_push(prev, copy);
                    }
                    kept.push(copy);
                }
                assert forall|s: Seq<char>|
                    #[trigger] lists(kept@, s) <==> (s != serial@ && lists(
                        self.active@.take(i + 1),
                        s,
                    )) by {
                    assert(lists(prev, s) <==> (s != serial@ && lists(
                        self.active@.take(i as int),
                        s,
                    )));
                }
                i += 1;
            }
            assert(self.active@.take(i as int) =~= self.active@);
            self.active = kept;
            assert(self@ =~= before.remove(serial@));
            if self.is_empty() {
                Some(false)
            } else {
                None
            }
        }
    }
}

/// The token broadcast to socket clients for an edge: `U2F_1` when a touch
/// is needed, `U2F_0` when none is.
pub fn token(needed: bool) -> (r: &'static str)
    ensures
        r@ == if needed {
            "U2F_1"@
        } else {
            "U2F_0"@
        },
{
    if needed {
        "U2F_1"
    } else {
        "U2F_0"
    }
}

} // verus!
