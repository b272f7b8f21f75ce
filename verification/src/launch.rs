use vstd::prelude::*;
use vstd::string::StrSliceExecFns;
use vstd::string::StringExecFns;

use crate::constants::DEFAULT_PLAYER_COUNT;
use crate::text::{is_digit, parse_decimal, parse_unsigned, unsigned_body};
use crate::turn::str_equal;

verus! {

/// The settings a battle is launched with.
#[derive(Clone)]
pub struct Launch {
    pub seed: String,
    pub width: usize,
    pub height: usize,
    pub players: usize,
    pub max_step: Option<u64>,
    pub max_generation: Option<u64>,
    pub load_best: bool,
}

/// The settings as plain values: seed, width, height, players, step limit, generation limit,
/// and whether to load the best saved models.
pub type Settings = (Seq<char>, usize, usize, usize, Option<u64>, Option<u64>, bool);

/// What went wrong with the command line.
#[derive(Clone, Copy, Debug, PartialEq, Eq, Structural)]
pub enum LaunchErrorKind {
    /// An option that takes a value came last.
    MissingValue,
    /// An option's value is not a non-negative integer in range.
    NotAnInteger,
    /// An argument starting with `-` that is no known option.
    UnknownOption,
}

/// A command-line error, with the option it concerns.
pub struct LaunchError {
    pub kind: LaunchErrorKind,
    pub option: String,
}

/// What the command line asks for.
pub enum Command {
    /// Run a battle with these settings.
    Run(Launch),
    /// Run the self-test and exit.
    SelfTest,
}

/// The outcome of reading a command line, as plain values: `Ok(None)` asks for the
/// self-test.
pub type Outcome = Result<Option<Settings>, (LaunchErrorKind, Seq<char>)>;

impl Launch {
    /// The settings as plain values.
    pub open spec fn settings(&self) -> Settings {
        (
            self.seed@,
            self.width,
            self.height,
            self.players,
            self.max_step,
            self.max_generation,
            self.load_best,
        )
    }
}

/// The settings without any argument.
pub open spec fn default_settings() -> Settings {
    ("battle-royal"@, 50, 30, DEFAULT_PLAYER_COUNT, None, None, false)
}

/// The value of an option read at position `j`: an error when it is missing or does not
/// parse as an integer no larger than `max`.
pub open spec fn option_value(args: Seq<Seq<char>>, j: int, name: Seq<char>, max: nat) -> Result<
    nat,
    (LaunchErrorKind, Seq<char>),
> {
    if j >= args.len() {
        Err((LaunchErrorKind::MissingValue, name))
    } else {
        match parse_unsigned(args[j], max) {
            Some(v) => Ok(v),
            None => Err((LaunchErrorKind::NotAnInteger, name)),
        }
    }
}

/// Reads the arguments from position `i` on, starting from settings `s`. Options: `--width`,
/// `--height`, `--players` (sizes), `--max-step`, `--max-gen` (turn and generation limits),
/// `--best`, and `--self-test`, which stops reading; any other argument not starting with
/// `-` is the seed.
pub open spec fn read_args(args: Seq<Seq<char>>, i: int, s: Settings) -> Outcome
    decreases args.len() - i,
{
    if i < 0 || i >= args.len() {
        Ok(Some(s))
    } else {
        let a = args[i];
        if a == "--self-test"@ {
            Ok(None)
        } else if a == "--width"@ {
            match option_value(args, i + 1, a, usize::MAX as nat) {
                Ok(v) => read_args(args, i + 2, (s.0, v as usize, s.2, s.3, s.4, s.5, s.6)),
                Err(e) => Err(e),
            }
        } else if a == "--height"@ {
            match option_value(args, i + 1, a, usize::MAX as nat) {
                Ok(v) => read_args(args, i + 2, (s.0, s.1, v as usize, s.3, s.4, s.5, s.6)),
                Err(e) => Err(e),
            }
        } else if a == "--players"@ {
            match option_value(args, i + 1, a, usize::MAX as nat) {
                Ok(v) => read_args(args, i + 2, (s.0, s.1, s.2, v as usize, s.4, s.5, s.6)),
                Err(e) => Err(e),
            }
        } else if a == "--max-step"@ {
            match option_value(args, i + 1, a, u64::MAX as nat) {
                Ok(v) => read_args(args, i + 2, (s.0, s.1, s.2, s.3, Some(v as u64), s.5, s.6)),
                Err(e) => Err(e),
            }
        } else if a == "--max-gen"@ {
            match option_value(args, i + 1, a, u64::MAX as nat) {
                Ok(v) => read_args(args, i + 2, (s.0, s.1, s.2, s.3, s.4, Some(v as u64), s.6)),
                Err(e) => Err(e),
            }
        } else if a == "--best"@ {
            read_args(args, i + 1, (s.0, s.1, s.2, s.3, s.4, s.5, true))
        } else if !(a.len() > 0 && a[0] == '-') {
            read_args(args, i + 1, (a, s.1, s.2, s.3, s.4, s.5, s.6))
        } else {
            Err((LaunchErrorKind::UnknownOption, a))
        }
    }
}

/// The text of each argument.
pub open spec fn arg_texts(args: Seq<String>) -> Seq<Seq<char>> {
    args.map_values(|a: String| a@)
}

/// A command-line result as plain values.
pub open spec fn outcome_of(r: Result<Command, LaunchError>) -> Outcome {
    match r {
        Ok(Command::Run(l)) => Ok(Some(l.settings())),
        Ok(Command::SelfTest) => Ok(None),
        Err(e) => Err((e.kind, e.option@)),
    }
}

/// Reads the value of the option `name` after position `*index`, advancing `*index` to it. A
/// missing or malformed value comes back as an error, on which the program stops.
pub fn cli_value(args: &[String], index: &mut usize, name: &str) -> (r: Result<usize, LaunchError>)
    requires
        *old(index) < usize::MAX,
    ensures
        *final(index) == *old(index) + 1,
        match (r, option_value(arg_texts(args@), *final(index) as int, name@, usize::MAX as nat)) {
            (Ok(v), Ok(w)) => v == w,
            (Err(e), Err(f)) => (e.kind, e.option@) == f,
            _ => false,
        },
{
    *index = *index + 1;
    if *index >= args.len() {
        return Err(LaunchError { kind: LaunchErrorKind::MissingValue, option: String::from_str(name) });
    }
    match parse_decimal(args[*index].as_str(), usize::MAX as u64) {
        Some(v) => Ok(v as usize),
        None => Err(LaunchError { kind: LaunchErrorKind::NotAnInteger, option: String::from_str(name) }),
    }
}

/// Reads the 64-bit value of the option `name` after position `*index`, advancing `*index`
/// to it. A missing or malformed value comes back as an error, on which the program stops.
pub fn cli_value_u64(args: &[String], index: &mut usize, name: &str) -> (r: Result<u64, LaunchError>)
    requires
        *old(index) < usize::MAX,
    ensures
        *final(index) == *old(index) + 1,
        match (r, option_value(arg_texts(args@), *final(index) as int, name@, u64::MAX as nat)) {
            (Ok(v), Ok(w)) => v == w,
            (Err(e), Err(f)) => (e.kind, e.option@) == f,
            _ => false,
        },
{
    *index = *index + 1;
    if *index >= args.len() {
        return Err(LaunchError { kind: LaunchErrorKind::MissingValue, option: String::from_str(name) });
    }
    match parse_decimal(args[*index].as_str(), u64::MAX) {
        Some(v) => Ok(v),
        None => Err(LaunchError { kind: LaunchErrorKind::NotAnInteger, option: String::from_str(name) }),
    }
}

impl Launch {
    /// The settings without any argument: seed `battle-royal`, a 50 by 30 map, the default
    /// number of players, no limits, and a random population.
    pub fn defaults() -> (r: Launch)
        ensures
            r.settings() == default_settings(),
    {
        Launch {
            seed: String::from_str("battle-royal"),
            width: 50,
            height: 30,
            players: DEFAULT_PLAYER_COUNT,
            max_step: None,
            max_generation: None,
            load_best: false,
        }
    }

    /// The turn limit of each tournament trial: the step limit, or 20000 without one.
    pub fn trial_turn_limit(&self) -> (r: u64)
        ensures
            r == match self.max_step {
                Some(limit) => limit,
                None => 20000,
            },
    {
        match self.max_step {
            Some(limit) => limit,
            None => 20000,
        }
    }

    /// Reads the command-line arguments (without the program name). A missing or malformed
    /// value and an unknown option come back as an error, which the program reports as it
    /// stops: `--name needs a value`, `--name must be a positive integer`, `unknown option:
    /// arg`. `--self-test` asks for the self-test, which the program runs before it exits.
    pub fn parse(args: &[String]) -> (r: Result<Command, LaunchError>)
        ensures
            outcome_of(r) == read_args(arg_texts(args@), 0, default_settings()),
    {
        let ghost texts = arg_texts(args@);
        let mut launch = Launch::defaults();
        let mut index: usize = 0;
        while index < args.len()
            invariant
                texts == arg_texts(args@),
                texts.len() == args@.len(),
                index <= args@.len(),
                read_args(texts, 0, default_settings()) == read_args(texts, index as int, launch.settings()),
            decreases args@.len() - index,
        {
            let a = args[index].as_str();
            let ghost i = index as int;
            assert(texts[i] == a@);
            if str_equal(a, "--self-test") {
                return Ok(Command::SelfTest);
            } else if str_equal(a, "--width") {
                match cli_value(args, &mut index, "--width") {
                    Ok(v) => {
                        launch.width = v;
                    },
                    Err(e) => {
                        return Err(e);
                    },
                }
            } else if str_equal(a, "--height") {
                match cli_value(args, &mut index, "--height") {
                    Ok(v) => {
                        launch.height = v;
                    },
                    Err(e) => {
                        return Err(e);
                    },
                }
            } else if str_equal(a, "--players") {
                match cli_value(args, &mut index, "--players") {
                    Ok(v) => {
                        launch.players = v;
                    },
                    Err(e) => {
                        return Err(e);
                    },
                }
            } else if str_equal(a, "--max-step") {
                match cli_value_u64(args, &mut index, "--max-step") {
                    Ok(v) => {
                        launch.max_step = Some(v);
                    },
                    Err(e) => {
                        return Err(e);
                    },
                }
            } else if str_equal(a, "--max-gen") {
                match cli_value_u64(args, &mut index, "--max-gen") {
                    Ok(v) => {
                        launch.max_generation = Some(v);
                    },
                    Err(e) => {
                        return Err(e);
                    },
                }
            } else if str_equal(a, "--best") {
                launch.load_best = true;
            } else if !(a.unicode_len() > 0 && a.get_char(0) == '-') {
                launch.seed = String::from_str(a);
            } else {
                return Err(LaunchError { kind: LaunchErrorKind::UnknownOption, option: String::from_str(a) });
            }
            index = index + 1;
        }
        Ok(Command::Run(launch))
    }

    /// Whether the map and the number of players make sense: both sides at least 8, at least
    /// one player, and at most one player per two cells strictly inside the outer ring. The
    /// program stops with `invalid map size or player count` when they do not.
    pub fn validate(&self) -> (r: bool)
        requires
            self.width >= 8 && self.height >= 8 && self.players > 0 ==> (self.width - 2) * (
            self.height - 2) <= usize::MAX,
        ensures
            r == (self.width >= 8 && self.height >= 8 && self.players > 0 && self.players <= (
            self.width - 2) * (self.height - 2) / 2),
    {
        self.width >= 8 && self.height >= 8 && self.players > 0 && self.players <= (self.width - 2)
            * (self.height - 2) / 2
    }
}

/// Text that starts with `-` is no number.
proof fn lemma_dash_is_no_number(a: Seq<char>, max: nat)
    requires
        a.len() > 0,
        a[0] == '-',
    ensures
        parse_unsigned(a, max) is None,
{
    assert(unsigned_body(a) == a);
    assert(!is_digit(a[0]));
}

/// The option names, told apart.
proof fn lemma_option_names()
    ensures
        "--max-gen"@.len() > 0 && "--max-gen"@[0] == '-',
        "--max-gen"@ != "--self-test"@,
        "--max-gen"@ != "--width"@,
        "--max-gen"@ != "--height"@,
        "--max-gen"@ != "--players"@,
        "--max-gen"@ != "--max-step"@,
        "--max-gen"@ != "--best"@,
{
    reveal_strlit("--max-gen");
    reveal_strlit("--self-test");
    reveal_strlit("--width");
    reveal_strlit("--height");
    reveal_strlit("--players");
    reveal_strlit("--max-step");
    reveal_strlit("--best");
    assert("--max-gen"@[2] != "--players"@[2]);
}

/// Only `--max-gen` sets the generation limit: reading arguments none of which, from
/// position `i` on, is `--max-gen` leaves the generation limit as it was.
pub proof fn generation_limit_set_only_by_max_gen(args: Seq<Seq<char>>, i: int, s: Settings)
    requires
        0 <= i,
        forall|j: int| i <= j < args.len() ==> args[j] != "--max-gen"@,
    ensures
        read_args(args, i, s) matches Ok(Some(r)) ==> r.5 == s.5,
    decreases args.len() - i,
{
    if i < args.len() {
        let a = args[i];
        if a == "--self-test"@ {
        } else if a == "--width"@ {
            if let Ok(v) = option_value(args, i + 1, a, usize::MAX as nat) {
                generation_limit_set_only_by_max_gen(args, i + 2, (s.0, v as usize, s.2, s.3, s.4, s.5, s.6));
            }
        } else if a == "--height"@ {
            if let Ok(v) = option_value(args, i + 1, a, usize::MAX as nat) {
                generation_limit_set_only_by_max_gen(args, i + 2, (s.0, s.1, v as usize, s.3, s.4, s.5, s.6));
            }
        } else if a == "--players"@ {
            if let Ok(v) = option_value(args, i + 1, a, usize::MAX as nat) {
                generation_limit_set_only_by_max_gen(args, i + 2, (s.0, s.1, s.2, v as usize, s.4, s.5, s.6));
            }
        } else if a == "--max-step"@ {
            if let Ok(v) = option_value(args, i + 1, a, u64::MAX as nat) {
                generation_limit_set_only_by_max_gen(args, i + 2, (s.0, s.1, s.2, s.3, Some(v as u64), s.5, s.6));
            }
        } else if a == "--max-gen"@ {
        } else if a == "--best"@ {
            generation_limit_set_only_by_max_gen(args, i + 1, (s.0, s.1, s.2, s.3, s.4, s.5, true));
        } else if !(a.len() > 0 && a[0] == '-') {
            generation_limit_set_only_by_max_gen(args, i + 1, (a, s.1, s.2, s.3, s.4, s.5, s.6));
        }
    }
}

/// Only `--max-step` sets the step limit: reading arguments none of which, from position
/// `i` on, is `--max-step` leaves the step limit as it was.
pub proof fn step_limit_set_only_by_max_step(args: Seq<Seq<char>>, i: int, s: Settings)
    requires
        0 <= i,
        forall|j: int| i <= j < args.len() ==> args[j] != "--max-step"@,
    ensures
        read_args(args, i, s) matches Ok(Some(r)) ==> r.4 == s.4,
    decreases args.len() - i,
{
    if i < args.len() {
        let a = args[i];
        if a == "--self-test"@ {
        } else if a == "--width"@ {
            if let Ok(v) = option_value(args, i + 1, a, usize::MAX as nat) {
                step_limit_set_only_by_max_step(args, i + 2, (s.0, v as usize, s.2, s.3, s.4, s.5, s.6));
            }
        } else if a == "--height"@ {
            if let Ok(v) = option_value(args, i + 1, a, usize::MAX as nat) {
                step_limit_set_only_by_max_step(args, i + 2, (s.0, s.1, v as usize, s.3, s.4, s.5, s.6));
            }
        } else if a == "--players"@ {
            if let Ok(v) = option_value(args, i + 1, a, usize::MAX as nat) {
                step_limit_set_only_by_max_step(args, i + 2, (s.0, s.1, s.2, v as usize, s.4, s.5, s.6));
            }
        } else if a == "--max-step"@ {
        } else if a == "--max-gen"@ {
            if let Ok(v) = option_value(args, i + 1, a, u64::MAX as nat) {
                step_limit_set_only_by_max_step(args, i + 2, (s.0, s.1, s.2, s.3, s.4, Some(v as u64), s.6));
            }
        } else if a == "--best"@ {
            step_limit_set_only_by_max_step(args, i + 1, (s.0, s.1, s.2, s.3, s.4, s.5, true));
        } else if !(a.len() > 0 && a[0] == '-') {
            step_limit_set_only_by_max_step(args, i + 1, (a, s.1, s.2, s.3, s.4, s.5, s.6));
        }
    }
}

/// The generation limit a command line sets is the value of its last `--max-gen`: when the
/// arguments read from position `i` on parse, and `j` is the last position holding
/// `--max-gen`, the limit read is the number after it.
pub proof fn generation_limit_is_last_max_gen(args: Seq<Seq<char>>, i: int, j: int, s: Settings)
    requires
        0 <= i <= j < args.len(),
        args[j] == "--max-gen"@,
        forall|k: int| j < k < args.len() ==> args[k] != "--max-gen"@,
    ensures
        read_args(args, i, s) matches Ok(Some(r)) ==> option_value(
            args,
            j + 1,
            "--max-gen"@,
            u64::MAX as nat,
        ) matches Ok(v) && r.5 == Some(v as u64),
    decreases j - i,
{
    lemma_option_names();
    let a = args[i];
    if i == j {
        if let Ok(v) = option_value(args, i + 1, a, u64::MAX as nat) {
            generation_limit_set_only_by_max_gen(args, i + 2, (s.0, s.1, s.2, s.3, s.4, Some(v as u64), s.6));
        }
    } else {
        if i + 1 == j {
            lemma_dash_is_no_number(args[j], usize::MAX as nat);
            lemma_dash_is_no_number(args[j], u64::MAX as nat);
        }
        if a == "--self-test"@ {
        } else if a == "--width"@ {
            if let Ok(v) = option_value(args, i + 1, a, usize::MAX as nat) {
                generation_limit_is_last_max_gen(args, i + 2, j, (s.0, v as usize, s.2, s.3, s.4, s.5, s.6));
            }
        } else if a == "--height"@ {
            if let Ok(v) = option_value(args, i + 1, a, usize::MAX as nat) {
                generation_limit_is_last_max_gen(args, i + 2, j, (s.0, s.1, v as usize, s.3, s.4, s.5, s.6));
            }
        } else if a == "--players"@ {
            if let Ok(v) = option_value(args, i + 1, a, usize::MAX as nat) {
                generation_limit_is_last_max_gen(args, i + 2, j, (s.0, s.1, s.2, v as usize, s.4, s.5, s.6));
            }
        } else if a == "--max-step"@ {
            if let Ok(v) = option_value(args, i + 1, a, u64::MAX as nat) {
                generation_limit_is_last_max_gen(args, i + 2, j, (s.0, s.1, s.2, s.3, Some(v as u64), s.5, s.6));
            }
        } else if a == "--max-gen"@ {
            if let Ok(v) = option_value(args, i + 1, a, u64::MAX as nat) {
                generation_limit_is_last_max_gen(args, i + 2, j, (s.0, s.1, s.2, s.3, s.4, Some(v as u64), s.6));
            }
        } else if a == "--best"@ {
            generation_limit_is_last_max_gen(args, i + 1, j, (s.0, s.1, s.2, s.3, s.4, s.5, true));
        } else if !(a.len() > 0 && a[0] == '-') {
            generation_limit_is_last_max_gen(args, i + 1, j, (a, s.1, s.2, s.3, s.4, s.5, s.6));
        }
    }
}

} // verus!
