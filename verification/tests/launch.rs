use battle_royal::launch::{cli_value, cli_value_u64, Command, Launch, LaunchErrorKind};

fn args(list: &[&str]) -> Vec<String> {
    list.iter().map(|a| a.to_string()).collect()
}

fn run(list: &[&str]) -> Launch {
    match Launch::parse(&args(list)) {
        Ok(Command::Run(launch)) => launch,
        Ok(Command::SelfTest) => panic!("unexpected self-test"),
        Err(e) => panic!("unexpected error on {}", e.option),
    }
}

fn error(list: &[&str]) -> (LaunchErrorKind, String) {
    match Launch::parse(&args(list)) {
        Ok(_) => panic!("expected an error"),
        Err(e) => (e.kind, e.option),
    }
}

#[test]
fn no_arguments_give_defaults() {
    let launch = run(&[]);
    assert_eq!(launch.seed, "battle-royal");
    assert_eq!(launch.width, 50);
    assert_eq!(launch.height, 30);
    assert_eq!(launch.players, 32);
    assert_eq!(launch.max_step, None);
    assert_eq!(launch.max_generation, None);
    assert!(!launch.load_best);
    let d = Launch::defaults();
    assert_eq!(d.seed, launch.seed);
    assert_eq!(d.width, launch.width);
}

#[test]
fn options_set_their_fields() {
    let launch = run(&[
        "--width", "64", "my seed", "--height", "+40", "--players", "10", "--max-step", "500",
        "--max-gen", "7", "--best",
    ]);
    assert_eq!(launch.seed, "my seed");
    assert_eq!(launch.width, 64);
    assert_eq!(launch.height, 40);
    assert_eq!(launch.players, 10);
    assert_eq!(launch.max_step, Some(500));
    assert_eq!(launch.max_generation, Some(7));
    assert!(launch.load_best);
}

#[test]
fn last_seed_wins() {
    let launch = run(&["first", "second"]);
    assert_eq!(launch.seed, "second");
}

#[test]
fn self_test_stops_reading() {
    assert!(matches!(Launch::parse(&args(&["--self-test", "--bogus"])), Ok(Command::SelfTest)));
    assert!(matches!(Launch::parse(&args(&["seed", "--self-test"])), Ok(Command::SelfTest)));
}

#[test]
fn missing_value_is_reported() {
    let (kind, option) = error(&["--width"]);
    assert_eq!(kind, LaunchErrorKind::MissingValue);
    assert_eq!(option, "--width");
}

#[test]
fn non_integer_value_is_reported() {
    let (kind, option) = error(&["--players", "ten"]);
    assert_eq!(kind, LaunchErrorKind::NotAnInteger);
    assert_eq!(option, "--players");
    let (kind, option) = error(&["--max-gen", "-3"]);
    assert_eq!(kind, LaunchErrorKind::NotAnInteger);
    assert_eq!(option, "--max-gen");
}

#[test]
fn unknown_option_is_reported() {
    let (kind, option) = error(&["--fast"]);
    assert_eq!(kind, LaunchErrorKind::UnknownOption);
    assert_eq!(option, "--fast");
    let (kind, option) = error(&["-"]);
    assert_eq!(kind, LaunchErrorKind::UnknownOption);
    assert_eq!(option, "-");
}

#[test]
fn option_values_advance_the_index() {
    let a = args(&["--width", "12", "--max-step"]);
    let mut index = 0;
    assert_eq!(cli_value(&a, &mut index, "--width").ok(), Some(12));
    assert_eq!(index, 1);
    let mut index = 2;
    match cli_value_u64(&a, &mut index, "--max-step") {
        Ok(_) => panic!("expected a missing value"),
        Err(e) => assert_eq!(e.kind, LaunchErrorKind::MissingValue),
    }
}

#[test]
fn validation_bounds() {
    let mut launch = run(&[]);
    assert!(launch.validate());
    launch.width = 7;
    assert!(!launch.validate());
    launch.width = 8;
    launch.height = 8;
    launch.players = 18;
    assert!(launch.validate());
    launch.players = 19;
    assert!(!launch.validate());
    launch.players = 0;
    assert!(!launch.validate());
}
