//! The proof of history: an append-only log of event texts and the hash
//! that witnesses their order.

use vstd::prelude::*;

use crate::digest::{sha256_hex, spec_sha256_hex};
use crate::transaction::spec_utf8;

verus! {

/// The texts of `events` written one after another.
pub open spec fn spec_joined(events: Seq<Seq<char>>) -> Seq<char>
    decreases events.len(),
{
    if events.len() == 0 {
        Seq::empty()
    } else {
        spec_joined(events.drop_last()) + events.last()
    }
}

/// The hash that witnesses `events` in their order: the SHA-256 digest, in
/// hexadecimal, of their texts written one after another.
pub open spec fn spec_history_hash(events: Seq<Seq<char>>) -> Seq<char> {
    spec_sha256_hex(spec_utf8(spec_joined(events)))
}

/// An ordered log of processed events. Entries are only ever added at the
/// end.
pub struct ProofOfHistory {
    pub sequence: Vec<String>,
}

impl View for ProofOfHistory {
    type V = Seq<Seq<char>>;

    open spec fn view(&self) -> Seq<Seq<char>> {
        Seq::new(self.sequence@.len(), |i: int| self.sequence@[i]@)
    }
}

impl ProofOfHistory {
    /// The empty log.
    pub fn new() -> (log: Self)
        ensures
            log@ == Seq::<Seq<char>>::empty(),
    {
        let log = ProofOfHistory { sequence: Vec::new() };
        assert(log@ =~= Seq::<Seq<char>>::empty());
        log
    }

    /// Appends `event` to the log.
    pub fn add_event(&mut self, event: &str)
        ensures
            final(self)@ == old(self)@.push(event@),
    {
        self.sequence.push(String::from_str(event));
        assert(self@ =~= old(self)@.push(event@));
    }

    /// The number of recorded events.
    pub fn len(&self) -> (n: usize)
        ensures
            n == self@.len(),
    {
        self.sequence.len()
    }

    /// The texts of all recorded events written one after another.
    pub fn joined(&self) -> (text: String)
        ensures
            text@ == spec_joined(self@),
    {
        let mut text = String::new();
        let mut i: usize = 0;
        assert(self@.take(0) =~= Seq::<Seq<char>>::empty());
        while i < self.sequence.len()
            invariant
                i <= self.sequence.len(),
                text@ == spec_joined(self@.take(i as int)),
            decreases self.sequence.len() - i,
        {
            text.append(self.sequence[i].as_str());
            proof {
                let next = self@.take(i + 1);
                assert(next.drop_last() =~= self@.take(i as int));
                assert(next.last() == self.sequence@[i as int]@);
            }
            i += 1;
        }
        assert(self@.take(i as int) =~= self@);
        text
    }

    /// The hash of all recorded events in the order of their recording.
    pub fn generate_hash(&self) -> (hash: String)
        ensures
            hash@ == spec_history_hash(self@),
            hash@.len() == 64,
    {
        let text = self.joined();
        sha256_hex(text.as_str().as_bytes())
    }
}

} // verus!
