use vstd::prelude::*;
use vstd::arithmetic::div_mod::{lemma_fundamental_div_mod, lemma_mod_multiples_basic};
use vstd::string::StringExecFns;

verus! {

/// `n` is a prime number: greater than 1 and divisible by no number
/// between 1 and itself.
pub open spec fn is_prime(n: int) -> bool {
    &&& n > 1
    &&& forall|d: int| 2 <= d < n ==> #[trigger] (n % d) != 0
}

/// If `d` divides `n` and `k` divides `d`, then `k` divides `n`.
proof fn lemma_divides_transitive(n: int, d: int, k: int)
    requires
        n >= 0,
        d > 0,
        k > 0,
        n % d == 0,
        d % k == 0,
    ensures
        n % k == 0,
{
    lemma_fundamental_div_mod(n, d);
    lemma_fundamental_div_mod(d, k);
    let q = n / d;
    let r = d / k;
    assert(n == k * (r * q)) by (nonlinear_arith)
        requires
            n == d * q,
            d == k * r,
    ;
    assert((r * q) * k == k * (r * q)) by (nonlinear_arith);
    lemma_mod_multiples_basic(r * q, k);
}

/// A divisor of `n` at least `i` comes with a cofactor below `i` once
/// `i * i > n`.
proof fn lemma_small_cofactor(n: int, d: int, i: int)
    requires
        n > 1,
        2 <= i <= d < n,
        i * i > n,
        n % d == 0,
    ensures
        2 <= n / d < i,
        n % (n / d) == 0,
{
    lemma_fundamental_div_mod(n, d);
    let q = n / d;
    assert(n == d * q);
    assert(q >= 2) by (nonlinear_arith)
        requires
            n == d * q,
            2 <= d < n,
    ;
    assert(q < i) by (nonlinear_arith)
        requires
            n == d * q,
            i <= d,
            i * i > n,
            q >= 0,
            i >= 0,
    ;
    assert(n == q * d) by (nonlinear_arith)
        requires
            n == d * q,
    ;
    lemma_mod_multiples_basic(d, q);
    assert(d * q == q * d) by (nonlinear_arith);
}

/// Decides whether `n` is prime, by trial division with 2, 3 and the
/// numbers `6k - 1`, `6k + 1` up to the square root of `n`.
pub fn is_prime_u32(n: u32) -> (prime: bool)
    ensures
        prime == is_prime(n as int),
{
    if n <= 1 {
        return false;
    } else if n == 2 || n == 3 {
        return true;
    } else if n % 2 == 0 || n % 3 == 0 {
        return false;
    }
    let mut i: u64 = 5;
    proof {
        assert forall|d: int| 2 <= d < 5 implies #[trigger] ((n as int) % d) != 0 by {
            if d == 4 && (n as int) % d == 0 {
                lemma_divides_transitive(n as int, 4, 2);
            }
        }
    }
    while i * i <= n as u64
        invariant
            n >= 5,
            5 <= i <= 0x1_0006,
            i * i <= 0x1_000c_0024,
            i % 6 == 5,
            n % 2 != 0,
            n % 3 != 0,
            forall|d: int| 2 <= d < i ==> #[trigger] ((n as int) % d) != 0,
        decreases 0x1_0006 - i,
    {
        assert(i < 0x1_0000) by (nonlinear_arith)
            requires
                i * i <= n as u64,
                n < 0x1_0000_0000,
                i >= 0,
        ;
        assert(i + 2 < n) by (nonlinear_arith)
            requires
                i * i <= n as u64,
                i >= 5,
        ;
        if n as u64 % i == 0 || n as u64 % (i + 2) == 0 {
            proof {
                if (n as int) % (i as int) != 0 {
                    assert((n as int) % (i as int + 2) == 0);
                }
            }
            return false;
        }
        assert forall|d: int| i <= d < i + 6 implies #[trigger] ((n as int) % d) != 0 by {
            if d == i + 1 || d == i + 3 || d == i + 5 {
                if (n as int) % d == 0 {
                    lemma_divides_transitive(n as int, d, 2);
                }
            } else if d == i + 4 {
                if (n as int) % d == 0 {
                    lemma_divides_transitive(n as int, d, 3);
                }
            }
        }
        i += 6;
        assert(i * i <= 0x1_000c_0024) by (nonlinear_arith)
            requires
                i <= 0x1_0006,
                i >= 0,
        ;
    }
    assert forall|d: int| 2 <= d < n implies #[trigger] ((n as int) % d) != 0 by {
        if d >= i && (n as int) % d == 0 {
            lemma_small_cofactor(n as int, d, i as int);
            let q = (n as int) / d;
            assert((n as int) % q != 0);
        }
    }
    true
}

/// A request of the primality service, once decoded.
pub struct PrimeRequest {
    /// The method the client names.
    pub method: String,
    /// The number to test, when it is a non-negative whole number; numbers
    /// beyond `u32::MAX` stand as `u32::MAX`.
    pub number: Option<u32>,
}

/// The answer of the primality service to one request.
#[derive(PartialEq, Eq, Structural, Debug)]
pub enum PrimeReply {
    /// A well-formed request, answered with whether its number is prime.
    Verdict(bool),
    /// A request that is not well formed.
    Malformed,
}

/// The answer to a request, or to a line that did not decode (`None`):
/// only the method `isPrime` is served, and a number that is not a
/// non-negative whole number is not prime.
pub open spec fn spec_answer(method: Option<Seq<char>>, number: Option<u32>) -> PrimeReply {
    match method {
        Some(m) => if m == "isPrime"@ {
            PrimeReply::Verdict(
                match number {
                    Some(n) => is_prime(n as int),
                    None => false,
                },
            )
        } else {
            PrimeReply::Malformed
        },
        None => PrimeReply::Malformed,
    }
}

/// Answers a request, or a line that did not decode (`None`).
pub fn answer(request: Option<PrimeRequest>) -> (reply: PrimeReply)
    ensures
        reply == match request {
            Some(r) => spec_answer(Some(r.method@), r.number),
            None => spec_answer(None, None),
        },
        request matches Some(r) ==> (r.method@ == "isPrime"@ && r.number is Some ==> reply
            == PrimeReply::Verdict(is_prime(r.number->0 as int))),
        request matches Some(r) ==> (r.method@ == "isPrime"@ && r.number is None ==> reply
            == PrimeReply::Verdict(false)),
        request matches Some(r) ==> (r.method@ != "isPrime"@ ==> reply == PrimeReply::Malformed),
        request is None ==> reply == PrimeReply::Malformed,
{
    match request {
        None => PrimeReply::Malformed,
        Some(r) => {
            if r.method != String::from_str("isPrime") {
                PrimeReply::Malformed
            } else {
                match r.number {
                    Some(n) => PrimeReply::Verdict(is_prime_u32(n)),
                    None => PrimeReply::Verdict(false),
                }
            }
        },
    }
}

/// Every request for the method `isPrime` with a number is answered with
/// whether that number is prime; with no usable number the answer is "not
/// prime"; any other method, or an undecodable line, is malformed.
pub proof fn lemma_answer_reports_primality(method: Seq<char>, n: u32)
    ensures
        method == "isPrime"@ ==> spec_answer(Some(method), Some(n)) == PrimeReply::Verdict(
            is_prime(n as int),
        ),
        method == "isPrime"@ ==> spec_answer(Some(method), None) == PrimeReply::Verdict(false),
        method != "isPrime"@ ==> spec_answer(Some(method), Some(n)) == PrimeReply::Malformed,
        spec_answer(None, Some(n)) == PrimeReply::Malformed,
{
}

/// A number above 1 is prime exactly when it is not the product of two
/// numbers that are both at least 2.
pub proof fn lemma_prime_iff_no_factorization(n: int)
    requires
        n > 1,
    ensures
        is_prime(n) <==> forall|a: int, b: int| 2 <= a && 2 <= b ==> #[trigger] (a * b) != n,
{
    if is_prime(n) {
        assert forall|a: int, b: int| 2 <= a && 2 <= b implies #[trigger] (a * b) != n by {
            if a * b == n {
                assert(a < n) by (nonlinear_arith)
                    requires
                        a * b == n,
                        2 <= a,
                        2 <= b,
                ;
                lemma_mod_multiples_basic(b, a);
                assert(b * a == a * b) by (nonlinear_arith);
                assert(n % a == 0);
            }
        }
    } else {
        let d = choose|d: int| 2 <= d < n && #[trigger] (n % d) == 0;
        lemma_fundamental_div_mod(n, d);
        let q = n / d;
        assert(n == d * q);
        assert(q >= 2) by (nonlinear_arith)
            requires
                n == d * q,
                2 <= d < n,
        ;
        assert(d * q == n);
    }
}

} // verus!
