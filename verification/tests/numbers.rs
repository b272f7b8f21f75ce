use battle_royal::constants::{direction, DIRECTION_COUNT, OBSERVATION_SIZE, VISION_WINDOW};
use battle_royal::lineage::{parse_serial, serial_text};
use battle_royal::models::{first_free_serial, highest_lineage, model_path};
use battle_royal::rng::Rng;
use battle_royal::text::{parse_decimal, push_decimal, push_hex16};

#[test]
fn rng_first_draws_of_default_seed() {
    let mut rng = Rng::from_phrase("battle-royal", 0);
    assert_eq!(rng.next(), 18361059242132902265);
    assert_eq!(rng.next(), 8246448331256436507);
}

#[test]
fn rng_range_reduces_the_draw() {
    let mut rng = Rng::from_phrase("battle-royal", 0);
    assert_eq!(rng.range(10), 5);
}

#[test]
fn rng_same_phrase_same_draws() {
    let mut a = Rng::from_phrase("replay phrase", 3);
    let mut b = Rng::from_phrase("replay phrase", 3);
    for _ in 0..100 {
        assert_eq!(a.next(), b.next());
    }
    let mut c = Rng::from_phrase("replay phrase", 4);
    let mut d = Rng::from_phrase("replay phrase", 3);
    assert_ne!(c.next(), d.next());
}

#[test]
fn rng_range_stays_below_end() {
    let mut rng = Rng::from_phrase("", 0);
    for end in 1..200usize {
        assert!(rng.range(end) < end);
    }
}

#[test]
fn parse_decimal_accepts_digits_and_plus() {
    assert_eq!(parse_decimal("42", u64::MAX), Some(42));
    assert_eq!(parse_decimal("+7", u64::MAX), Some(7));
    assert_eq!(parse_decimal("007", u64::MAX), Some(7));
    assert_eq!(parse_decimal("18446744073709551615", u64::MAX), Some(u64::MAX));
}

#[test]
fn parse_decimal_rejects_other_text() {
    assert_eq!(parse_decimal("", u64::MAX), None);
    assert_eq!(parse_decimal("+", u64::MAX), None);
    assert_eq!(parse_decimal("-1", u64::MAX), None);
    assert_eq!(parse_decimal("12a", u64::MAX), None);
    assert_eq!(parse_decimal(" 1", u64::MAX), None);
    assert_eq!(parse_decimal("18446744073709551616", u64::MAX), None);
    assert_eq!(parse_decimal("101", 100), None);
    assert_eq!(parse_decimal("100", 100), Some(100));
}

#[test]
fn decimal_and_hex_text() {
    let mut s = String::new();
    push_decimal(&mut s, 0);
    assert_eq!(s, "0");
    let mut s = String::from("n=");
    push_decimal(&mut s, 1234567890);
    assert_eq!(s, "n=1234567890");
    let mut h = String::new();
    push_hex16(&mut h, 0x1f);
    assert_eq!(h, "000000000000001f");
    let mut h = String::new();
    push_hex16(&mut h, u64::MAX);
    assert_eq!(h, "ffffffffffffffff");
}

#[test]
fn serial_text_reads_back() {
    for serial in [0u64, 1, 9, 10, 12345, u64::MAX] {
        assert_eq!(serial_text(serial), serial.to_string());
        assert_eq!(parse_serial(&serial_text(serial)), Some(serial));
    }
    assert_eq!(parse_serial("abc"), None);
    assert_eq!(parse_serial(""), None);
}

#[test]
fn model_path_uses_sixteen_hex_digits() {
    assert_eq!(model_path(255), "models/00000000000000ff.json");
    assert_eq!(model_path(0xdeadbeef), "models/00000000deadbeef.json");
}

#[test]
fn lineage_counters() {
    assert_eq!(highest_lineage(&vec![]), 0);
    assert_eq!(highest_lineage(&vec![Some(3), None, Some(11), Some(2)]), 11);
    assert_eq!(first_free_serial(0), 1);
    assert_eq!(first_free_serial(41), 42);
    assert_eq!(first_free_serial(u64::MAX), u64::MAX);
}

#[test]
fn headings_and_sizes() {
    assert_eq!(DIRECTION_COUNT, 8);
    assert_eq!(direction(0), (0, -1));
    assert_eq!(direction(2), (1, 0));
    assert_eq!(direction(3), (1, 1));
    assert_eq!(direction(7), (-1, -1));
    assert_eq!(OBSERVATION_SIZE, 2 + 8 + VISION_WINDOW * VISION_WINDOW);
}

#[test]
fn seeded_generator_never_draws_zero() {
    for phrase in ["", "a", "battle-royal", "replay phrase"] {
        let mut rng = Rng::from_phrase(phrase, 7);
        for _ in 0..1000 {
            assert_ne!(rng.next(), 0);
        }
    }
}

#[test]
fn clamped_offsets() {
    use_offsets();
}

fn use_offsets() {
    assert_eq!(battle_royal::human::saturating_offset(5, -7), 0);
    assert_eq!(battle_royal::human::saturating_offset(5, 3), 8);
    assert_eq!(battle_royal::human::saturating_offset(usize::MAX - 1, 4), usize::MAX);
    assert_eq!(battle_royal::human::saturating_offset(3, isize::MIN), 0);
    assert_eq!(battle_royal::state::shift_coord(0, -1), 0);
    assert_eq!(battle_royal::state::shift_coord(4, -1), 3);
    assert_eq!(battle_royal::state::shift_coord(4, 1), 5);
    assert_eq!(battle_royal::state::shift_coord(4, 0), 4);
}

#[test]
fn model_paths_differ_for_different_hashes() {
    assert_ne!(model_path(1), model_path(16));
    assert_ne!(model_path(0), model_path(u64::MAX));
}
