//! Secure file wiping, as a plan of file actions: three passes of random bytes and one of
//! zeros over the whole file, each from the start and synced, then removal. The caller
//! performs each action on the file and asks for the next.
use vstd::prelude::*;

verus! {

/// The most bytes written by one action (1 MiB).
pub const WIPE_CHUNK: u64 = 1048576;

/// One step of a wipe.
#[derive(Clone, Copy, Debug, PartialEq, Eq, Structural)]
pub enum WipeAction {
    /// The wipe is over.
    Done,
    /// Delete the file.
    Remove,
    /// Go back to the start of the file.
    Rewind,
    /// Write this many random bytes.
    WriteRandom(u64),
    /// Write this many zero bytes.
    WriteZeros(u64),
    /// Flush the file to the device.
    Sync,
}

/// The chunk size for a file of `len` bytes: the file's length, at most 1 MiB.
pub open spec fn chunk_of(len: nat) -> nat {
    if len < WIPE_CHUNK {
        len
    } else {
        WIPE_CHUNK as nat
    }
}

/// A write of `n` bytes: zeros on the last pass, random bytes before.
pub open spec fn write_of(zero: bool, n: nat) -> WipeAction {
    if zero {
        WipeAction::WriteZeros(n as u64)
    } else {
        WipeAction::WriteRandom(n as u64)
    }
}

/// Writes covering `rem` bytes in chunks of at most `chunk` bytes.
pub open spec fn writes(rem: nat, chunk: nat, zero: bool) -> Seq<WipeAction>
    decreases rem,
{
    if rem == 0 || chunk == 0 {
        Seq::empty()
    } else {
        let c: nat = if rem < chunk {
            rem
        } else {
            chunk
        };
        seq![write_of(zero, c)] + writes((rem - c) as nat, chunk, zero)
    }
}

/// One pass over the file: rewind, write it all, sync.
pub open spec fn pass_actions(len: nat, chunk: nat, zero: bool) -> Seq<WipeAction> {
    seq![WipeAction::Rewind] + writes(len, chunk, zero) + seq![WipeAction::Sync]
}

/// Passes `q` to 3; passes 0 to 2 write random bytes, pass 3 writes zeros.
pub open spec fn passes_from(q: nat, len: nat, chunk: nat) -> Seq<WipeAction>
    decreases 4 - q,
{
    if q >= 4 {
        Seq::empty()
    } else {
        pass_actions(len, chunk, q == 3) + passes_from(q + 1, len, chunk)
    }
}

/// The end of every wipe of an existing file.
pub open spec fn wipe_tail() -> Seq<WipeAction> {
    seq![WipeAction::Remove, WipeAction::Done]
}

/// The actions of a wipe: nothing for a missing file; removal alone for an empty one;
/// otherwise four passes over its `len` bytes, then removal.
pub open spec fn wipe_actions(exists: bool, len: nat) -> Seq<WipeAction> {
    if !exists {
        seq![WipeAction::Done]
    } else if len == 0 {
        wipe_tail()
    } else {
        passes_from(0, len, chunk_of(len)) + wipe_tail()
    }
}

/// Where a wipe stands.
pub struct WipePlan {
    len: u64,
    chunk: u64,
    /// Passes 0 to 3 write; 4 removes; 5 ends; 6 has ended.
    pass: u8,
    /// Within a pass: 0 before the rewind, 1 writing, 2 before the sync.
    stage: u8,
    remaining: u64,
}

impl WipePlan {
    #[verifier::type_invariant]
    spec fn well_formed(self) -> bool {
        &&& self.pass <= 6
        &&& self.stage <= 2
        &&& self.pass <= 3 ==> {
            &&& self.len > 0
            &&& self.chunk == chunk_of(self.len as nat)
            &&& self.remaining <= self.len
            &&& self.stage == 1 ==> self.remaining > 0
        }
    }

    /// The actions still to come.
    pub closed spec fn rest(&self) -> Seq<WipeAction> {
        let zero = self.pass == 3;
        let later = passes_from(self.pass as nat + 1, self.len as nat, self.chunk as nat) + wipe_tail();
        if self.pass <= 3 {
            if self.stage == 0 {
                pass_actions(self.len as nat, self.chunk as nat, zero) + later
            } else if self.stage == 1 {
                writes(self.remaining as nat, self.chunk as nat, zero) + seq![WipeAction::Sync] + later
            } else {
                seq![WipeAction::Sync] + later
            }
        } else if self.pass == 4 {
            wipe_tail()
        } else if self.pass == 5 {
            seq![WipeAction::Done]
        } else {
            Seq::empty()
        }
    }
}

/// The first action of a wipe of a file that exists or not, of `len` bytes, and the plan for
/// the rest: together they spell `wipe_actions(exists, len)`.
pub fn wipe_start(exists: bool, len: u64) -> (r: (WipePlan, WipeAction))
    ensures
        seq![r.1] + r.0.rest() == wipe_actions(exists, len as nat),
{
    if !exists {
        let p = WipePlan { len: 0, chunk: 0, pass: 6, stage: 0, remaining: 0 };
        assert(seq![WipeAction::Done] + p.rest() =~= wipe_actions(exists, len as nat));
        (p, WipeAction::Done)
    } else if len == 0 {
        let p = WipePlan { len: 0, chunk: 0, pass: 5, stage: 0, remaining: 0 };
        assert(seq![WipeAction::Remove] + p.rest() =~= wipe_actions(exists, len as nat));
        (p, WipeAction::Remove)
    } else {
        let chunk = if len < WIPE_CHUNK {
            len
        } else {
            WIPE_CHUNK
        };
        let p = WipePlan { len, chunk, pass: 0, stage: 1, remaining: len };
        let ghost later = passes_from(1, len as nat, chunk as nat) + wipe_tail();
        assert(p.rest() == writes(len as nat, chunk as nat, false) + seq![WipeAction::Sync] + later);
        assert(passes_from(0, len as nat, chunk as nat) == pass_actions(len as nat, chunk as nat, false)
            + passes_from(1, len as nat, chunk as nat));
        assert(seq![WipeAction::Rewind] + p.rest() =~= wipe_actions(exists, len as nat));
        (p, WipeAction::Rewind)
    }
}

/// The next action of a wipe and the plan after it: the action followed by the new plan's
/// actions are the old plan's actions. An ended wipe answers `Done` and stays ended.
pub fn wipe_next(p: WipePlan) -> (r: (WipePlan, WipeAction))
    ensures
        p.rest().len() > 0 ==> seq![r.1] + r.0.rest() == p.rest(),
        p.rest().len() == 0 ==> r.1 == WipeAction::Done && r.0.rest().len() == 0,
{
    proof { use_type_invariant(&p); }
    if p.pass >= 6 {
        (p, WipeAction::Done)
    } else if p.pass == 5 {
        let q = WipePlan { len: p.len, chunk: p.chunk, pass: 6, stage: 0, remaining: 0 };
        assert(seq![WipeAction::Done] + q.rest() =~= p.rest());
        (q, WipeAction::Done)
    } else if p.pass == 4 {
        let q = WipePlan { len: p.len, chunk: p.chunk, pass: 5, stage: 0, remaining: 0 };
        assert(seq![WipeAction::Remove] + q.rest() =~= p.rest());
        (q, WipeAction::Remove)
    } else {
        let zero = p.pass == 3;
        let ghost later = passes_from(p.pass as nat + 1, p.len as nat, p.chunk as nat) + wipe_tail();
        if p.stage == 0 {
            let q = WipePlan { len: p.len, chunk: p.chunk, pass: p.pass, stage: 1, remaining: p.len };
            assert(seq![WipeAction::Rewind] + q.rest() =~= p.rest());
            (q, WipeAction::Rewind)
        } else if p.stage == 1 {
            let c = if p.remaining < p.chunk {
                p.remaining
            } else {
                p.chunk
            };
            let rem = p.remaining - c;
            let q = WipePlan { len: p.len, chunk: p.chunk, pass: p.pass, stage: if rem == 0 {
                2
            } else {
                1
            }, remaining: rem };
            let a = if zero {
                WipeAction::WriteZeros(c)
            } else {
                WipeAction::WriteRandom(c)
            };
            assert(a == write_of(zero, c as nat));
            assert(writes(p.remaining as nat, p.chunk as nat, zero) == seq![a] + writes(
                rem as nat,
                p.chunk as nat,
                zero,
            ));
            assert(seq![a] + q.rest() =~= p.rest());
            (q, a)
        } else {
            let q = WipePlan { len: p.len, chunk: p.chunk, pass: p.pass + 1, stage: 0, remaining: 0 };
            if p.pass < 3 {
                assert(passes_from(p.pass as nat + 1, p.len as nat, p.chunk as nat) == pass_actions(
                    p.len as nat,
                    p.chunk as nat,
                    p.pass + 1 == 3,
                ) + passes_from(p.pass as nat + 2, p.len as nat, p.chunk as nat));
            } else {
                assert(passes_from(4, p.len as nat, p.chunk as nat) =~= Seq::<WipeAction>::empty());
            }
            assert(seq![WipeAction::Sync] + q.rest() =~= p.rest());
            (q, WipeAction::Sync)
        }
    }
}

} // verus!
