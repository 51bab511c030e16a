use vstd::prelude::*;

use crate::extern_calls::{draw_in, room_id_for_code, uuid_v5_dns_of};
use crate::util::{alist_has, alist_idx, alist_unique, alist_val, lemma_alist_push,
    lemma_filter_alist_unique};

verus! {

/// The ASCII bytes of a five-digit code, most significant digit first.
pub open spec fn spec_code_digits(c: int) -> Seq<u8> {
    seq![
        (48 + c / 10000 % 10) as u8,
        (48 + c / 1000 % 10) as u8,
        (48 + c / 100 % 10) as u8,
        (48 + c / 10 % 10) as u8,
        (48 + c % 10) as u8,
    ]
}

/// Renders a five-digit room code as its ASCII decimal bytes.
pub fn code_digits(c: u32) -> (v: Vec<u8>)
    requires
        10000 <= c <= 99999,
    ensures
        v@ == spec_code_digits(c as int),
{
    let mut v: Vec<u8> = Vec::new();
    v.push((48 + c / 10000 % 10) as u8);
    v.push((48 + c / 1000 % 10) as u8);
    v.push((48 + c / 100 % 10) as u8);
    v.push((48 + c / 10 % 10) as u8);
    v.push((48 + c % 10) as u8);
    proof {
        assert(v@ =~= spec_code_digits(c as int));
    }
    v
}

/// The shared map from short human-entered codes to internal room
/// identifiers. Codes are unique; removal is idempotent.
pub struct CodeRegistry {
    entries: Vec<(u32, u128)>,
}

impl CodeRegistry {
    /// Every code occurs at most once.
    pub closed spec fn wf(&self) -> bool {
        alist_unique(self.entries@)
    }

    pub closed spec fn spec_entries(&self) -> Seq<(u32, u128)> {
        self.entries@
    }

    pub closed spec fn spec_has_code(&self, code: u32) -> bool {
        alist_has(self.entries@, code)
    }

    pub closed spec fn spec_room_of(&self, code: u32) -> u128 {
        alist_val(self.entries@, code)
    }

    pub fn new() -> (r: CodeRegistry)
        ensures
            r.wf(),
            r.spec_entries() == Seq::<(u32, u128)>::empty(),
    {
        CodeRegistry { entries: Vec::new() }
    }

    /// The room a code maps to, if the code is live.
    pub fn lookup(&self, code: u32) -> (r: Option<u128>)
        requires
            self.wf(),
        ensures
            match r {
                Some(rid) => self.spec_has_code(code) && rid == self.spec_room_of(code),
                None => !self.spec_has_code(code),
            },
    {
        let mut i: usize = 0;
        while i < self.entries.len()
            invariant
                i <= self.entries@.len(),
                self.wf(),
                forall|j: int| 0 <= j < i ==> self.entries@[j].0 != code,
            decreases self.entries@.len() - i,
        {
            if self.entries[i].0 == code {
                proof {
                    assert(self.entries@[i as int].0 == code);
                    assert(alist_idx(self.entries@, code) == i as int);
                }
                return Some(self.entries[i].1);
            }
            i += 1;
        }
        None
    }

    /// Binds a fresh code; an existing binding is never overwritten.
    pub fn insert_if_absent(&mut self, code: u32, room_id: u128) -> (inserted: bool)
        requires
            old(self).wf(),
        ensures
            final(self).wf(),
            inserted == !old(self).spec_has_code(code),
            final(self).spec_entries() == (if old(self).spec_has_code(code) {
                old(self).spec_entries()
            } else {
                old(self).spec_entries().push((code, room_id))
            }),
    {
        if self.lookup(code).is_some() {
            return false;
        }
        proof {
            lemma_alist_push(self.entries@, code, room_id);
        }
        self.entries.push((code, room_id));
        true
    }

    /// Releases whatever code maps to the given room; a no-op when none
    /// does, so a double release is harmless.
    pub fn remove_by_room(&mut self, room_id: u128)
        requires
            old(self).wf(),
        ensures
            final(self).wf(),
            final(self).spec_entries() == old(self).spec_entries().filter(
                |e: (u32, u128)| e.1 != room_id,
            ),
    {
        proof {
            lemma_filter_alist_unique(self.entries@, |e: (u32, u128)| e.1 != room_id);
        }
        let ghost orig = self.entries@;
        let mut out: Vec<(u32, u128)> = Vec::new();
        let mut i: usize = 0;
        while i < self.entries.len()
            invariant
                i <= self.entries@.len(),
                self.entries@ == orig,
                out@ == orig.take(i as int).filter(|e: (u32, u128)| e.1 != room_id),
            decreases self.entries@.len() - i,
        {
            proof {
                reveal(Seq::filter);
                assert(orig.take(i as int + 1).drop_last() =~= orig.take(i as int));
                assert(orig.take(i as int + 1).last() == orig[i as int]);
            }
            if self.entries[i].1 != room_id {
                let e = self.entries[i];
                out.push(e);
            }
            i += 1;
        }
        proof {
            assert(orig.take(orig.len() as int) =~= orig);
        }
        self.entries = out;
    }

    /// Draws random five-digit codes until one is free, then binds it to
    /// the room identifier derived from its digits; gives up (leaving the
    /// registry unchanged) after `attempts` collisions.
    pub fn issue_code(&mut self, rng: &mut rand::rngs::ThreadRng, attempts: usize) -> (r: Option<
        (u32, u128),
    >)
        requires
            old(self).wf(),
        ensures
            final(self).wf(),
            match r {
                Some(issued) => {
                    &&& 10000 <= issued.0 < 99999
                    &&& !old(self).spec_has_code(issued.0)
                    &&& issued.1 == uuid_v5_dns_of(spec_code_digits(issued.0 as int))
                    &&& final(self).spec_entries() == old(self).spec_entries().push(issued)
                    &&& final(self).spec_has_code(issued.0)
                    &&& final(self).spec_room_of(issued.0) == issued.1
                },
                None => final(self).spec_entries() == old(self).spec_entries(),
            },
    {
        let mut tries: usize = 0;
        while tries < attempts
            invariant
                self.wf(),
                self.spec_entries() == old(self).spec_entries(),
            decreases attempts - tries,
        {
            let code = draw_in(rng, 10000, 99999);
            if self.lookup(code).is_none() {
                let digits = code_digits(code);
                let room_id = room_id_for_code(&digits);
                proof {
                    lemma_alist_push(self.entries@, code, room_id);
                }
                self.entries.push((code, room_id));
                return Some((code, room_id));
            }
            tries += 1;
        }
        None
    }
}

} // verus!
