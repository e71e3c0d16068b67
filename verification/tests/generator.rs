//! Known-answer tests for the cellular-automaton generator: the documented
//! seed buffer, rule number 25165440 and ring size 1024 must reproduce an
//! exact, fixed bit and byte stream.

use ca_random::CAError;
use ca_random::CARandomGenerator;

/// The documented reference seed: 128 bytes, one bit per ring cell of a
/// 1024-cell ring.
fn reference_seed() -> Vec<u8> {
    vec![
        138, 221, 52, 92, 51, 158, 137, 137, 205, 182, 220, 202, 154, 14, 60, 52, 99, 34, 19, 16,
        61, 76, 209, 162, 220, 93, 13, 95, 229, 131, 246, 54, 130, 236, 101, 29, 17, 138, 186, 47,
        21, 137, 111, 84, 181, 15, 53, 125, 171, 34, 68, 86, 131, 33, 92, 226, 214, 191, 69, 29,
        136, 174, 23, 21, 132, 238, 146, 50, 188, 210, 25, 60, 110, 212, 75, 85, 37, 110, 166, 43,
        245, 165, 61, 232, 200, 25, 46, 161, 170, 21, 153, 220, 153, 139, 122, 193, 217, 247, 157,
        123, 176, 218, 70, 135, 150, 232, 233, 163, 51, 95, 35, 180, 220, 19, 155, 162, 91, 86,
        178, 99, 10, 225, 151, 6, 28, 65, 172, 133,
    ]
}

#[test]
fn test_get_random_bit() {
    let seed = reference_seed();
    let mut ca_random_generator = CARandomGenerator::new(1024, 25_165_440, &seed).unwrap();
    assert_eq!(ca_random_generator.get_random_bit(), false);
    assert_eq!(ca_random_generator.get_random_bit(), true);
}

#[test]
fn test_get_random_bytes() {
    let seed = reference_seed();
    let mut ca_random_generator = CARandomGenerator::new(1024, 25_165_440, &seed).unwrap();
    assert_eq!(ca_random_generator.get_random_byte(), 222);
    assert_eq!(ca_random_generator.get_random_byte(), 121);
}

#[test]
fn bytes_pack_the_bit_stream_lsb_first() {
    // The byte stream and the bit stream of two identically seeded
    // generators are the same stream: bit i of each byte is the
    // (8 * k + i)-th bit, the first bit in the least-significant place.
    let seed = reference_seed();
    let mut by_bytes = CARandomGenerator::new(1024, 25_165_440, &seed).unwrap();
    let mut by_bits = CARandomGenerator::new(1024, 25_165_440, &seed).unwrap();
    for _ in 0..4 {
        let byte = by_bytes.get_random_byte();
        let mut packed: u8 = 0;
        for i in 0..8 {
            if by_bits.get_random_bit() {
                packed |= 1 << i;
            }
        }
        assert_eq!(byte, packed);
    }
}

#[test]
fn identical_seeds_give_identical_streams() {
    let seed = reference_seed();
    let mut first = CARandomGenerator::new(1024, 25_165_440, &seed).unwrap();
    let mut second = CARandomGenerator::new(1024, 25_165_440, &seed).unwrap();
    for _ in 0..64 {
        assert_eq!(first.get_random_byte(), second.get_random_byte());
    }
}

#[test]
fn extra_seed_bytes_are_ignored() {
    let seed = reference_seed();
    let mut longer = reference_seed();
    longer.push(0xAB);
    longer.push(0xCD);
    let mut exact = CARandomGenerator::new(1024, 25_165_440, &seed).unwrap();
    let mut padded = CARandomGenerator::new(1024, 25_165_440, &longer).unwrap();
    for _ in 0..16 {
        assert_eq!(exact.get_random_byte(), padded.get_random_byte());
    }
}

#[test]
fn ring_size_not_a_power_of_two_is_rejected() {
    let seed = reference_seed();
    assert_eq!(
        CARandomGenerator::new(1000, 25_165_440, &seed).unwrap_err(),
        CAError::InvalidConfiguration
    );
    assert_eq!(
        CARandomGenerator::new(0, 25_165_440, &seed).unwrap_err(),
        CAError::InvalidConfiguration
    );
    // Powers of two below eight cannot hold a whole seed byte.
    assert_eq!(
        CARandomGenerator::new(4, 25_165_440, &seed).unwrap_err(),
        CAError::InvalidConfiguration
    );
}

#[test]
fn short_seed_is_rejected() {
    let mut seed = reference_seed();
    seed.pop();
    assert_eq!(
        CARandomGenerator::new(1024, 25_165_440, &seed).unwrap_err(),
        CAError::SeedTooShort
    );
    let empty: Vec<u8> = Vec::new();
    assert_eq!(
        CARandomGenerator::new(1024, 25_165_440, &empty).unwrap_err(),
        CAError::SeedTooShort
    );
}
