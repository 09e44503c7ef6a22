use rust_decimal::Decimal;

fn dec(negative: bool, scale: u32, magnitude: u128) -> Decimal {
    let mut d = Decimal::from_i128_with_scale(magnitude as i128, scale);
    d.set_sign_negative(negative);
    d
}

fn signed_at(negative: bool, scale: u32, magnitude: u128, s: u32) -> Option<i128> {
    let p = 10i128.checked_pow(s - scale)?;
    let v = (magnitude as i128).checked_mul(p)?;
    Some(if negative { -v } else { v })
}

struct Lcg(u64);

impl Lcg {
    fn next(&mut self) -> u64 {
        self.0 = self.0.wrapping_mul(6364136223846793005).wrapping_add(1442695040888963407);
        self.0 >> 11
    }
}

fn magnitude(r: &mut Lcg) -> u128 {
    let bits = r.next() % 97;
    let m = ((r.next() as u128) << 64 | r.next() as u128) & ((1u128 << 96) - 1);
    if bits == 0 { 1 } else { (m >> (96 - bits)).max(1) }
}

fn check(sub: bool, a: (bool, u32, u128), b: (bool, u32, u128)) -> bool {
    let s = a.1.max(b.1);
    let (Some(x), Some(y)) = (signed_at(a.0, a.1, a.2, s), signed_at(b.0, b.1, b.2, s)) else {
        return false;
    };
    let Some(total) = (if sub { x.checked_sub(y) } else { x.checked_add(y) }) else {
        return false;
    };
    if total.unsigned_abs() >= 1u128 << 96 {
        return false;
    }
    let (da, db) = (dec(a.0, a.1, a.2), dec(b.0, b.1, b.2));
    let r = if sub { da.checked_sub(db) } else { da.checked_add(db) }.expect("exact result overflowed");
    assert_eq!(r.scale(), s, "{:?} {:?} {}", a, b, sub);
    assert_eq!(r.mantissa(), total, "{:?} {:?} {}", a, b, sub);
    assert_eq!(r.is_sign_negative(), total < 0, "{:?} {:?} {}", a, b, sub);
    true
}

#[test]
fn results_that_fit_are_exact_at_the_larger_scale() {
    let mut r = Lcg(7);
    let mut checked = 0;
    for _ in 0..400_000 {
        let a = (r.next() % 2 == 0, (r.next() % 29) as u32, magnitude(&mut r));
        let b = (r.next() % 2 == 0, (r.next() % 29) as u32, magnitude(&mut r));
        if check(r.next() % 2 == 0, a, b) {
            checked += 1;
        }
    }
    assert!(checked > 10_000);
}

#[test]
fn near_cancellation_across_scales_is_exact() {
    let mut r = Lcg(11);
    let mut checked = 0;
    for _ in 0..200_000 {
        let k = 1 + (r.next() % 10) as u32;
        let p = 10u128.pow(k);
        // a * 10^k just above 2^96, b at scale k close to it
        let lo = (1u128 << 96) / p + 1;
        let a_mag = lo + (r.next() as u128 % (lo / 2 + 1));
        let a_mag = a_mag.min((1u128 << 96) - 1);
        let big = a_mag * p;
        let d = (r.next() as u128) % (1u128 << 60);
        if big <= d {
            continue;
        }
        let b_mag = big - d;
        if b_mag >= 1u128 << 96 {
            continue;
        }
        let neg = r.next() % 2 == 0;
        if check(true, (neg, 0, a_mag), (neg, k, b_mag)) {
            checked += 1;
        }
        if check(false, (neg, 0, a_mag), (!neg, k, b_mag)) {
            checked += 1;
        }
        if check(true, (neg, k, b_mag), (neg, 0, a_mag)) {
            checked += 1;
        }
    }
    assert!(checked > 1000, "{}", checked);
}

#[test]
fn subtraction_is_addition_of_the_negation() {
    let mut r = Lcg(3);
    for _ in 0..300_000 {
        let a = (r.next() % 2 == 0, (r.next() % 29) as u32, if r.next() % 7 == 0 { 0 } else { magnitude(&mut r) });
        let b = (r.next() % 2 == 0, (r.next() % 29) as u32, if r.next() % 7 == 0 { 0 } else { magnitude(&mut r) });
        let s = dec(a.0, a.1, a.2).checked_sub(dec(b.0, b.1, b.2));
        let t = dec(a.0, a.1, a.2).checked_add(dec(!b.0, b.1, b.2));
        if a.2 == 0 && b.2 == 0 {
            continue;
        }
        match (s, t) {
            (Some(x), Some(y)) => {
                assert_eq!(x.serialize(), y.serialize(), "{:?} {:?}", a, b);
            }
            (None, None) => {}
            _ => panic!("{:?} {:?}", a, b),
        }
    }
}
