//! The state shared by the coordinator and the workers: the live template,
//! the solutions handed in, and when the template was installed.

use vstd::prelude::*;

use crate::block::{pow_valid, Block};

verus! {

/// Nanoseconds in a minute.
pub const NANOS_PER_MINUTE: u64 = 60_000_000_000;

/// Whole minutes a template is mined before a fresh one is fetched.
pub const MAX_TIME_TO_ATTEMPT: u64 = 9;

/// The largest difficulty the miner takes on.
pub const MAX_DIFFICULTY: u64 = 64;

/// The shared state. Times are nanoseconds since the epoch.
#[derive(Debug)]
pub struct Queue {
    pub input_block: Block,
    pub solved_blocks: Vec<Block>,
    pub most_recent: u64,
}

/// Why a requested difficulty is refused.
#[derive(Clone, Copy, Debug, PartialEq, Eq, Structural)]
pub enum ConfigError {
    /// Above `MAX_DIFFICULTY`.
    DifficultyTooHigh,
    /// Below the template's own difficulty.
    DifficultyBelowTemplate,
}

/// The difficulty to mine at: the template's, or a requested one that is at
/// most `MAX_DIFFICULTY` and no lower than the template's.
pub fn mining_difficulty(template: u64, requested: Option<u64>) -> (r: Result<u64, ConfigError>)
    ensures
        requested is None ==> r == Ok::<u64, ConfigError>(template),
        requested matches Some(d) ==> {
            &&& d > MAX_DIFFICULTY ==> r == Err::<u64, ConfigError>(ConfigError::DifficultyTooHigh)
            &&& d <= MAX_DIFFICULTY && d < template ==> r == Err::<u64, ConfigError>(
                ConfigError::DifficultyBelowTemplate,
            )
            &&& d <= MAX_DIFFICULTY && d >= template ==> r == Ok::<u64, ConfigError>(d)
        },
{
    match requested {
        None => Ok(template),
        Some(d) => {
            if d > MAX_DIFFICULTY {
                Err(ConfigError::DifficultyTooHigh)
            } else if d < template {
                Err(ConfigError::DifficultyBelowTemplate)
            } else {
                Ok(d)
            }
        },
    }
}

/// Whether a template installed at `installed` has been mined for more than
/// `MAX_TIME_TO_ATTEMPT` whole minutes at `now`.
pub fn needs_refresh(now: u64, installed: u64) -> (r: bool)
    ensures
        r == (now >= installed && (now - installed) / (NANOS_PER_MINUTE as int) > MAX_TIME_TO_ATTEMPT),
{
    now >= installed && (now - installed) / NANOS_PER_MINUTE > MAX_TIME_TO_ATTEMPT
}

impl Queue {
    /// The template and every solution handed in are well formed.
    pub open spec fn wf(&self) -> bool {
        &&& self.input_block.wf()
        &&& forall|i: int| 0 <= i < self.solved_blocks@.len() ==> (#[trigger] self.solved_blocks@[i]).wf()
    }

    /// Whether the template and every solution handed in are well formed.
    pub fn is_well_formed(&self) -> (r: bool)
        ensures
            r == self.wf(),
    {
        if !self.input_block.is_well_formed() {
            return false;
        }
        let mut i: usize = 0;
        while i < self.solved_blocks.len()
            invariant
                i <= self.solved_blocks@.len(),
                forall|k: int| 0 <= k < i ==> (#[trigger] self.solved_blocks@[k]).wf(),
            decreases self.solved_blocks@.len() - i,
        {
            if !self.solved_blocks[i].is_well_formed() {
                return false;
            }
            i = i + 1;
        }
        true
    }

    /// A queue holding `block`, installed at `now`, with no solutions.
    pub fn new(block: Block, now: u64) -> (r: Queue)
        ensures
            r.input_block == block,
            r.solved_blocks@.len() == 0,
            r.most_recent == now,
    {
        Queue { input_block: block, solved_blocks: Vec::new(), most_recent: now }
    }

    /// Installs a new template at `now`; workers that started earlier are
    /// preempted.
    pub fn install(&mut self, block: Block, now: u64)
        ensures
            final(self).input_block == block,
            final(self).most_recent == now,
            final(self).solved_blocks@ == old(self).solved_blocks@,
    {
        self.input_block = block;
        self.most_recent = now;
    }

    /// Whether a worker that read the template at `start_time` must restart.
    pub fn is_preempted(&self, start_time: u64) -> (r: bool)
        ensures
            r == (self.most_recent > start_time),
    {
        self.most_recent > start_time
    }

    /// A copy of the live template.
    pub fn template(&self) -> (r: Block)
        ensures
            r.version == self.input_block.version,
            r.root@ == self.input_block.root@,
            r.parentid@ == self.input_block.parentid@,
            r.difficulty == self.input_block.difficulty,
            r.timestamp == self.input_block.timestamp,
            r.nonces@ == self.input_block.nonces@,
    {
        self.input_block.duplicate()
    }

    /// Hands in a solution.
    pub fn submit(&mut self, block: Block)
        ensures
            final(self).solved_blocks@ == old(self).solved_blocks@.push(block),
            final(self).input_block == old(self).input_block,
            final(self).most_recent == old(self).most_recent,
    {
        self.solved_blocks.push(block);
    }

    /// Empties the solutions and returns those that pass the local check, in
    /// the order they were handed in.
    pub fn drain_valid(&mut self) -> (r: Vec<Block>)
        requires
            old(self).wf(),
        ensures
            final(self).solved_blocks@.len() == 0,
            final(self).input_block == old(self).input_block,
            final(self).most_recent == old(self).most_recent,
            r@ == old(self).solved_blocks@.filter(|b: Block| pow_valid(b)),
    {
        let mut pending: Vec<Block> = Vec::new();
        core::mem::swap(&mut pending, &mut self.solved_blocks);
        let ghost all = pending@;
        let mut out: Vec<Block> = Vec::new();
        let ghost mut taken: int = 0;
        assert(all.subrange(0, 0) =~= Seq::<Block>::empty());
        while pending.len() > 0
            invariant
                0 <= taken <= all.len(),
                pending@ == all.subrange(taken, all.len() as int),
                out@ == all.subrange(0, taken).filter(|b: Block| pow_valid(b)),
                forall|i: int| 0 <= i < all.len() ==> (#[trigger] all[i]).wf(),
            decreases pending@.len(),
        {
            let b = pending.remove(0);
            proof {
                let pred = |b: Block| pow_valid(b);
                let head = all.subrange(0, taken);
                assert(all.subrange(0, taken + 1) =~= head + seq![b]);
                Seq::filter_distributes_over_add(head, seq![b], pred);
                reveal_with_fuel(Seq::filter, 2);
                taken = taken + 1;
                assert(pending@ =~= all.subrange(taken, all.len() as int));
            }
            if b.has_valid_proof_of_work() {
                out.push(b);
            }
        }
        assert(all.subrange(0, all.len() as int) =~= all);
        out
    }
}

} // verus!
