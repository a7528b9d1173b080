use passworus::generator::{
    build_alphabet, generate, generate_password, password_from_draws, RandomSource,
};
use passworus::options::{parse_options, CliOptions};

struct Counter(u32);

impl RandomSource for Counter {
    fn next_u32(&mut self) -> u32 {
        let v = self.0;
        self.0 = self.0.wrapping_add(1);
        v
    }
}

/// A small linear congruential stream, for many varied draws.
struct Lcg(u64);

impl RandomSource for Lcg {
    fn next_u32(&mut self) -> u32 {
        self.0 = self.0.wrapping_mul(6364136223846793005).wrapping_add(1442695040888963407);
        (self.0 >> 33) as u32
    }
}

fn options(length: u8, count: u8, lowercase: bool, uppercase: bool, numbers: bool) -> CliOptions {
    CliOptions { length, count, lowercase, uppercase, numbers }
}

fn in_selection(cli: &CliOptions, c: char) -> bool {
    (cli.lowercase && c.is_ascii_lowercase())
        || (cli.uppercase && c.is_ascii_uppercase())
        || (cli.numbers && c.is_ascii_digit())
}

#[test]
fn alphabet_order_is_upper_digits_lower() {
    assert_eq!(
        build_alphabet(&options(1, 1, true, true, true)),
        "ABCDEFGHIJKLMNOPQRSTUVWXYZ0123456789abcdefghijklmnopqrstuvwxyz"
    );
    assert_eq!(build_alphabet(&options(1, 1, false, false, true)), "0123456789");
    assert_eq!(
        build_alphabet(&options(1, 1, true, false, true)),
        "0123456789abcdefghijklmnopqrstuvwxyz"
    );
    assert_eq!(build_alphabet(&options(1, 1, false, false, false)), "");
}

#[test]
fn upper_and_digits_alphabet_is_their_union() {
    let cli = options(1, 1, false, true, true);
    let alphabet = build_alphabet(&cli);
    assert_eq!(alphabet, "ABCDEFGHIJKLMNOPQRSTUVWXYZ0123456789");
    assert!(alphabet.chars().all(|c| c.is_ascii_uppercase() || c.is_ascii_digit()));
    let mut rng = Lcg(42);
    let many = generate(&options(50, 200, false, true, true), &mut rng);
    assert_eq!(many.len(), 200);
    for p in &many {
        assert!(p.chars().all(|c| c.is_ascii_uppercase() || c.is_ascii_digit()));
        assert!(!p.chars().any(|c| c.is_ascii_lowercase()));
    }
}

#[test]
fn password_from_draws_indexes_modulo_size() {
    let d = password_from_draws("0123456789", &vec![3, 15, 0, 9, 1234567]);
    assert_eq!(d, "35097");
    let all = "ABCDEFGHIJKLMNOPQRSTUVWXYZ0123456789abcdefghijklmnopqrstuvwxyz";
    assert_eq!(password_from_draws(all, &vec![u32::MAX, 62, 61]), "DAz");
    assert_eq!(password_from_draws(all, &vec![]), "");
}

#[test]
fn generate_password_draws_length_numbers() {
    let mut rng = Counter(7);
    let p = generate_password("abc", 5, &mut rng);
    assert_eq!(p, "bcabc");
    assert_eq!(rng.0, 12);
}

#[test]
fn generate_gives_count_lines_of_length() {
    let configs = [
        options(1, 1, true, false, false),
        options(10, 1, true, true, true),
        options(255, 3, false, true, false),
        options(7, 255, true, false, true),
        options(16, 20, true, true, false),
    ];
    let mut rng = Lcg(2024);
    for cli in configs.iter() {
        let lines = generate(cli, &mut rng);
        assert_eq!(lines.len(), cli.count as usize);
        for line in &lines {
            assert_eq!(line.chars().count(), cli.length as usize);
            assert!(line.chars().all(|c| in_selection(cli, c)));
        }
    }
}

#[test]
fn generate_with_counter_is_deterministic() {
    let mut rng = Counter(0);
    let lines = generate(&options(4, 2, false, false, true), &mut rng);
    assert_eq!(lines, vec!["0123".to_string(), "4567".to_string()]);
}

#[test]
fn parsed_digits_configuration_generates_digit_lines() {
    let tokens: Vec<String> = ["-l", "5", "-c", "2", "-t", "n"].iter().map(|t| t.to_string()).collect();
    let cli = parse_options(tokens).unwrap();
    let mut rng = Counter(3);
    let lines = generate(&cli, &mut rng);
    assert_eq!(lines, vec!["34567".to_string(), "89012".to_string()]);
    for line in &lines {
        assert_eq!(line.len(), 5);
        assert!(line.chars().all(|c| c.is_ascii_digit()));
    }
}
