use trng_client_core::password::generate_password_from_bytes;

const DIGITS: &str = "0123456789";
const LOWER: &str = "abcdefghijklmnopqrstuvwxyz";
const UPPER: &str = "ABCDEFGHIJKLMNOPQRSTUVWXYZ";
const SYMBOLS: &str = "!@#$%^&*()_+-=[]{}|;:,.<>?";

fn seed() -> Vec<u8> {
    (0u8..=255).collect()
}

#[test]
fn alphabet_by_complexity_code() {
    let s = seed();
    let cases: Vec<(u8, String)> = vec![
        (0, DIGITS.to_string()),
        (1, LOWER.to_string()),
        (2, UPPER.to_string()),
        (3, format!("{}{}", LOWER, UPPER)),
        (4, format!("{}{}{}", LOWER, UPPER, DIGITS)),
        (5, format!("{}{}{}{}", LOWER, UPPER, DIGITS, SYMBOLS)),
        (9, format!("{}{}{}{}", LOWER, UPPER, DIGITS, SYMBOLS)),
        (255, format!("{}{}{}{}", LOWER, UPPER, DIGITS, SYMBOLS)),
    ];
    for (code, alphabet) in cases {
        let p = generate_password_from_bytes(&s, 256, code);
        assert!(
            p.chars().all(|c| alphabet.contains(c)),
            "complexity {} produced a character outside its alphabet",
            code
        );
    }
}

#[test]
fn full_alphabet_reachable_for_default_code() {
    // every byte value, so every alphabet character appears at least once
    let p = generate_password_from_bytes(&seed(), 256, 5);
    let alphabet = format!("{}{}{}{}", LOWER, UPPER, DIGITS, SYMBOLS);
    for c in alphabet.chars() {
        assert!(p.contains(c), "{} never produced", c);
    }
}

#[test]
fn length_is_exact() {
    let s = [7u8, 13, 200];
    assert_eq!(generate_password_from_bytes(&s, 0, 2), "");
    assert_eq!(generate_password_from_bytes(&s, 1, 2).len(), 1);
    assert_eq!(generate_password_from_bytes(&s, 3, 2).len(), 3);
    assert_eq!(generate_password_from_bytes(&s, 64, 2).len(), 64);
}

#[test]
fn seed_cycles_when_shorter_than_length() {
    let s = [0u8, 1];
    assert_eq!(generate_password_from_bytes(&s, 6, 0), "010101");
}

#[test]
fn derivation_formula_exact() {
    // bytes reduced modulo the alphabet size pick the character
    let s = [255u8, 254];
    // 255 % 26 = 21 -> 'v', 254 % 26 = 20 -> 'u'
    assert_eq!(generate_password_from_bytes(&s, 4, 1), "vuvu");
    // 255 % 10 = 5, 254 % 10 = 4
    assert_eq!(generate_password_from_bytes(&s, 2, 0), "54");
}

#[test]
fn sixteen_byte_seed_complexity_zero() {
    let s: Vec<u8> = (0u8..16).collect();
    assert_eq!(generate_password_from_bytes(&s, 4, 0), "0123");
}

#[test]
fn derivation_is_deterministic() {
    let s: Vec<u8> = (0u8..16).rev().collect();
    let a = generate_password_from_bytes(&s, 20, 5);
    let b = generate_password_from_bytes(&s, 20, 5);
    assert_eq!(a, b);
}
