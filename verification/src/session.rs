use vstd::prelude::*;
use vstd::utf8::encode_utf8;

use crate::brain::{bred_generation, breed_next_generation};
use crate::state::{
    cells_fit, generated_free, generated_players, generated_walls, max_size, BuildError, Game,
    MIN_HEIGHT, MIN_WIDTH,
};

verus! {

/// The automatic run: with a step limit, Enter arms it and then pauses and resumes it; while
/// it runs, the NEAT agents take a turn at each tick until the generation is over.
pub struct AutoRun {
    pub max_step: Option<u64>,
    pub armed: bool,
    pub running: bool,
    pub turns_this_generation: u64,
}

impl AutoRun {
    /// Whether the turn count is where the run keeps it: zero, or below the step limit.
    pub open spec fn count_in_range(&self) -> bool {
        self.turns_this_generation == 0 || (self.max_step matches Some(limit)
            && self.turns_this_generation < limit)
    }

    /// A disarmed automatic run with the given step limit.
    pub fn new(max_step: Option<u64>) -> (r: AutoRun)
        ensures
            r.max_step == max_step,
            !r.armed,
            !r.running,
            r.turns_this_generation == 0,
            r.count_in_range(),
    {
        AutoRun { max_step, armed: false, running: false, turns_this_generation: 0 }
    }

    /// Whether a step limit was given, so that Enter drives the automatic run.
    pub fn configured(&self) -> (r: bool)
        ensures
            r == self.max_step is Some,
    {
        self.max_step.is_some()
    }

    /// Enter: arms the run the first time (starting the turn count afresh), then pauses or
    /// resumes it. Gives `false`, changing nothing, when no step limit was given; Enter then
    /// plays one turn instead.
    pub fn press_enter(&mut self) -> (r: bool)
        ensures
            r == old(self).max_step is Some,
            final(self).max_step == old(self).max_step,
            !r ==> *final(self) == *old(self),
            r && !old(self).armed ==> {
                &&& final(self).armed
                &&& final(self).running
                &&& final(self).turns_this_generation == 0
            },
            r && old(self).armed ==> {
                &&& final(self).armed
                &&& final(self).running == !old(self).running
                &&& final(self).turns_this_generation == old(self).turns_this_generation
            },
            old(self).count_in_range() ==> final(self).count_in_range(),
    {
        if self.max_step.is_none() {
            return false;
        }
        if !self.armed {
            self.armed = true;
            self.running = true;
            self.turns_this_generation = 0;
        } else {
            self.running = !self.running;
        }
        true
    }

    /// Whether an automatic turn is due: a step limit was given, the run is armed and
    /// running, and the battle is not paused.
    pub fn ticking(&self, paused: bool) -> (r: bool)
        ensures
            r == (self.max_step is Some && self.armed && self.running && !paused),
    {
        self.max_step.is_some() && self.armed && self.running && !paused
    }

    /// Counts an automatic turn and tells whether the generation is over: the step limit is
    /// reached or at most one agent is left alive. The count starts again when it is.
    pub fn finish_turn(&mut self, alive_agents: usize) -> (done: bool)
        requires
            old(self).max_step is Some,
            old(self).turns_this_generation < u64::MAX,
        ensures
            done == (old(self).turns_this_generation + 1 >= old(self).max_step->0
                || alive_agents <= 1),
            final(self).turns_this_generation == if done {
                0
            } else {
                old(self).turns_this_generation + 1
            },
            final(self).max_step == old(self).max_step,
            final(self).armed == old(self).armed,
            final(self).running == old(self).running,
            final(self).count_in_range(),
    {
        let limit = match self.max_step {
            Some(l) => l,
            None => {
                assert(false);
                0
            },
        };
        self.turns_this_generation = self.turns_this_generation + 1;
        let done = self.turns_this_generation >= limit || alive_agents <= 1;
        if done {
            self.turns_this_generation = 0;
        }
        done
    }
}

/// A run whose turn count is in range can always count one more turn: the count stays below
/// the step limit, so it never overflows.
pub proof fn run_in_range_can_count(a: AutoRun)
    requires
        a.count_in_range(),
        a.max_step is Some,
    ensures
        a.turns_this_generation < u64::MAX,
{
}

/// What advancing to the next generation came to.
#[derive(Debug, PartialEq, Eq, Structural)]
pub enum Advance {
    /// The generation limit is reached: the program ends.
    Finished,
    /// The next game was built from children bred out of the current brains.
    Bred,
    /// The next game needs fresh brains, tagged with lineage serials when `lineage` holds.
    FreshBrains { lineage: bool },
    /// The children were bred, but no game could be built from them.
    Failed(BuildError),
}

/// The battle in progress: the game, how it was seeded, and how generations follow one
/// another.
pub struct Battle {
    pub game: Game,
    pub seed: String,
    pub generation: u64,
    pub paused: bool,
    pub dirty: bool,
    pub max_generation: Option<u64>,
    pub breed_lineage: bool,
    pub lineage_serial: u64,
}

/// Whether generation `generation` is past the last one asked for.
pub open spec fn limit_reached(generation: int, max_generation: Option<u64>) -> bool {
    match max_generation {
        Some(limit) => generation >= limit,
        None => false,
    }
}

impl Battle {
    /// Whether advancing breeds the next brains from the current ones.
    pub open spec fn breeds_next(&self) -> bool {
        &&& !limit_reached(self.generation + 1, self.max_generation)
        &&& self.breed_lineage
        &&& self.game.player_count > 0
    }

    /// Whether the battle takes game commands from the keyboard: not while it is paused, and
    /// not while a modifier key is held.
    pub fn takes_commands(&self, modifier_held: bool) -> (r: bool)
        ensures
            r == (!self.paused && !modifier_held),
    {
        !self.paused && !modifier_held
    }

    /// Escape: pauses or resumes the battle.
    pub fn toggle_pause(&mut self)
        ensures
            final(self).paused == !old(self).paused,
            final(self).dirty,
            final(self).game == old(self).game,
            final(self).generation == old(self).generation,
            final(self).lineage_serial == old(self).lineage_serial,
    {
        self.paused = !self.paused;
        self.dirty = true;
    }

    /// Moves on to the next generation. Past the generation limit it only counts the
    /// generation. Otherwise, when lineages are bred and there are brains to breed from, the
    /// next game is built from their children (each with the next lineage serial), on the
    /// same map size; in the other cases the caller supplies fresh brains.
    pub fn advance_generation(&mut self) -> (r: Advance)
        requires
            old(self).game.wf(),
            old(self).generation < u64::MAX,
            old(self).breeds_next() ==> old(self).lineage_serial + old(self).game.player_count
                <= u64::MAX,
        ensures
            final(self).generation == old(self).generation + 1,
            final(self).seed == old(self).seed,
            final(self).paused == old(self).paused,
            final(self).dirty == old(self).dirty,
            final(self).max_generation == old(self).max_generation,
            final(self).breed_lineage == old(self).breed_lineage,
            r == Advance::Finished <==> limit_reached(
                old(self).generation + 1,
                old(self).max_generation,
            ),
            r == (Advance::FreshBrains { lineage: false }) <==> !limit_reached(
                old(self).generation + 1,
                old(self).max_generation,
            ) && !old(self).breed_lineage,
            r == (Advance::FreshBrains { lineage: true }) <==> !limit_reached(
                old(self).generation + 1,
                old(self).max_generation,
            ) && old(self).breed_lineage && old(self).game.player_count == 0,
            !old(self).breeds_next() ==> final(self).game == old(self).game
                && final(self).lineage_serial == old(self).lineage_serial,
            old(self).breeds_next() ==> final(self).lineage_serial == old(self).lineage_serial
                + old(self).game.player_count,
            r == Advance::Failed(BuildError::MapTooLarge) <==> old(self).breeds_next()
                && !cells_fit(
                max_size(old(self).game.width, MIN_WIDTH) as int,
                max_size(old(self).game.height, MIN_HEIGHT) as int,
            ),
            r == Advance::Failed(BuildError::MapTooSmall) <==> old(self).breeds_next()
                && cells_fit(
                max_size(old(self).game.width, MIN_WIDTH) as int,
                max_size(old(self).game.height, MIN_HEIGHT) as int,
            ) && generated_free(
                encode_utf8(old(self).seed@),
                final(self).generation,
                max_size(old(self).game.width, MIN_WIDTH) as int,
                max_size(old(self).game.height, MIN_HEIGHT) as int,
            ).len() < old(self).game.player_count,
            r != Advance::Failed(BuildError::BrainCount),
            r is Failed ==> final(self).game == old(self).game,
            r == Advance::Bred ==> {
                let g = final(self).game;
                &&& g.wf()
                &&& g.seed@ == old(self).seed@
                &&& g.generation == final(self).generation
                &&& g.width == max_size(old(self).game.width, MIN_WIDTH)
                &&& g.height == max_size(old(self).game.height, MIN_HEIGHT)
                &&& g.player_count == old(self).game.player_count
                &&& g.turn == 0
                &&& bred_generation(
                    g.brains@,
                    old(self).game.brains@,
                    old(self).seed@,
                    final(self).generation,
                    old(self).lineage_serial,
                )
                &&& g.walls@ == generated_walls(
                    encode_utf8(old(self).seed@),
                    final(self).generation,
                    g.width as int,
                    g.height as int,
                )
                &&& g.players@ == generated_players(
                    encode_utf8(old(self).seed@),
                    final(self).generation,
                    g.width as int,
                    g.height as int,
                    g.player_count as nat,
                )
            },
    {
        self.generation = self.generation + 1;
        let reached = match self.max_generation {
            Some(limit) => self.generation >= limit,
            None => false,
        };
        if reached {
            return Advance::Finished;
        }
        if !self.breed_lineage {
            return Advance::FreshBrains { lineage: false };
        }
        let player_count = self.game.player_count;
        let bred = breed_next_generation(
            self.seed.as_str(),
            self.generation,
            player_count,
            self.game.brains.as_slice(),
            &mut self.lineage_serial,
        );
        match bred {
            None => Advance::FreshBrains { lineage: true },
            Some(children) => {
                match Game::build(
                    self.seed.clone(),
                    self.generation,
                    self.game.width,
                    self.game.height,
                    player_count,
                    children,
                ) {
                    Ok(game) => {
                        self.game = game;
                        Advance::Bred
                    },
                    Err(e) => Advance::Failed(e),
                }
            },
        }
    }
}

} // verus!
