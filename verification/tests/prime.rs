use protohackers::prime::{answer, is_prime_u32, PrimeReply, PrimeRequest};

fn naive_prime(n: u32) -> bool {
    n > 1 && (2..n).all(|d| n % d != 0)
}

#[test]
fn small_numbers_match_definition() {
    for n in 0..2000u32 {
        assert_eq!(is_prime_u32(n), naive_prime(n), "n = {}", n);
    }
}

#[test]
fn known_values() {
    assert!(!is_prime_u32(0));
    assert!(!is_prime_u32(1));
    assert!(is_prime_u32(2));
    assert!(is_prime_u32(3));
    assert!(!is_prime_u32(4));
    assert!(is_prime_u32(25 + 4));
    assert!(!is_prime_u32(25));
    assert!(!is_prime_u32(49));
    assert!(is_prime_u32(7919));
    assert!(is_prime_u32(4294967291));
    assert!(!is_prime_u32(4294967295));
    assert!(!is_prime_u32(65521 * 65521));
    assert!(!is_prime_u32(65519 * 65521));
}

fn request(method: &str, number: Option<u32>) -> Option<PrimeRequest> {
    Some(PrimeRequest {
        method: method.to_string(),
        number,
    })
}

#[test]
fn answers_well_formed_requests() {
    assert_eq!(answer(request("isPrime", Some(7))), PrimeReply::Verdict(true));
    assert_eq!(answer(request("isPrime", Some(8))), PrimeReply::Verdict(false));
    assert_eq!(answer(request("isPrime", None)), PrimeReply::Verdict(false));
}

#[test]
fn rejects_malformed_requests() {
    assert_eq!(answer(None), PrimeReply::Malformed);
    assert_eq!(answer(request("isprime", Some(7))), PrimeReply::Malformed);
    assert_eq!(answer(request("", Some(7))), PrimeReply::Malformed);
}

/// Trial division bounded by the single-precision square root of `n`.
fn float_bounded_trial_division(n: u32) -> bool {
    if n <= 1 {
        return false;
    } else if n == 2 || n == 3 {
        return true;
    } else if n % 2 == 0 || n % 3 == 0 {
        return false;
    }
    let r = (n as f32).sqrt() as u32;
    for i in (5..=r).step_by(6) {
        if n % i == 0 || n % (i + 2) == 0 {
            return false;
        }
    }
    true
}

#[test]
fn integer_bound_agrees_with_float_bound() {
    for n in 0..100_000u32 {
        assert_eq!(is_prime_u32(n), float_bounded_trial_division(n), "n = {}", n);
    }
    for n in (u32::MAX - 2_000)..=u32::MAX {
        assert_eq!(is_prime_u32(n), float_bounded_trial_division(n), "n = {}", n);
    }
}

#[test]
fn squares_of_primes_are_composite() {
    for p in 2..=65535u32 {
        if naive_small_prime(p) {
            let n = p * p;
            assert!(!is_prime_u32(n), "n = {}", n);
            assert!(!float_bounded_trial_division(n), "n = {}", n);
        }
    }
}

fn naive_small_prime(p: u32) -> bool {
    p > 1 && (2..).take_while(|d| d * d <= p).all(|d| p % d != 0)
}
