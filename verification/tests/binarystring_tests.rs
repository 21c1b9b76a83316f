use chadsembler::binarystring::{
    to_binary, number_bits, pad_binary, overflow, unsigned_int, signed_int, read_unsigned_int,
    read_signed_int, logical_shift_left, logical_shift_right, arithmetic_shift_left,
    arithmetic_shift_right, circular_shift_left, circular_shift_right, circular_shift_left_carry,
    circular_shift_right_carry, bitwise_and, bitwise_or, bitwise_not, bitwise_xor,
};
use chadsembler::defaults::{wrap_bound, default_casing};
use chadsembler::tokens::parse_digits_saturating;

fn chars(s: &str) -> Vec<char> {
    s.chars().collect()
}

fn string(v: &Vec<char>) -> String {
    v.iter().collect()
}

#[test]
fn to_binary_minimal_bits() {
    assert_eq!(string(&to_binary(0)), "0");
    assert_eq!(string(&to_binary(1)), "1");
    assert_eq!(string(&to_binary(6)), "110");
    assert_eq!(string(&to_binary(255)), "11111111");
}

#[test]
fn number_bits_highest_set_bit() {
    assert_eq!(number_bits(0), 0);
    assert_eq!(number_bits(1), 1);
    assert_eq!(number_bits(2), 2);
    assert_eq!(number_bits(26), 5);
    assert_eq!(number_bits(100), 7);
    assert_eq!(number_bits(u64::MAX), 64);
}

#[test]
fn pad_binary_left_pads() {
    let s = chars("101");
    assert_eq!(string(&pad_binary(&s, 3, '0').unwrap()), "000101");
    assert_eq!(string(&pad_binary(&s, 0, '0').unwrap()), "101");
    assert!(pad_binary(&s, -1, '0').is_none());
}

#[test]
fn overflow_wraps_mathematically() {
    assert_eq!(overflow(5, 3), 5);
    assert_eq!(overflow(9, 3), 1);
    assert_eq!(overflow(-1, 3), 7);
    assert_eq!(overflow(-9, 3), 7);
    assert_eq!(overflow(0, 0), 0);
}

#[test]
fn unsigned_int_encodes() {
    assert_eq!(string(&unsigned_int(5, 4)), "0101");
    assert_eq!(string(&unsigned_int(0, 1)), "0");
    assert_eq!(string(&unsigned_int(0, -3)), "0");
    assert_eq!(string(&unsigned_int(-1, 4)), "1111");
    assert_eq!(string(&unsigned_int(18, 4)), "0010");
}

#[test]
fn signed_int_is_sign_magnitude() {
    assert_eq!(string(&signed_int(5, 4)), "0101");
    assert_eq!(string(&signed_int(-5, 4)), "1101");
    assert_eq!(string(&signed_int(0, 2)), "00");
    assert_eq!(string(&signed_int(-1, 2)), "11");
    assert_eq!(string(&signed_int(3, 0)), "01");
    assert_eq!(string(&signed_int(9, 4)), "0001");
}

#[test]
fn read_unsigned_int_parses() {
    assert_eq!(read_unsigned_int(&chars("0101")), Some(5));
    assert_eq!(read_unsigned_int(&chars("0")), Some(0));
    assert_eq!(read_unsigned_int(&chars("")), None);
    assert_eq!(read_unsigned_int(&chars("10a1")), None);
}

#[test]
fn read_signed_int_parses() {
    assert_eq!(read_signed_int(&chars("0101")), Some(5));
    assert_eq!(read_signed_int(&chars("1101")), Some(-5));
    assert_eq!(read_signed_int(&chars("10")), Some(0));
    assert_eq!(read_signed_int(&chars("1")), None);
}

// The unsigned round trip: decoding an encoding wraps the value into
// [0, 2^b).
#[test]
fn unsigned_round_trip() {
    for &(v, b) in &[(0i64, 1i64), (5, 4), (-1, 4), (37, 3), (-37, 5), (1023, 10), (-8, 3)] {
        let encoded = unsigned_int(v, b);
        let decoded = read_unsigned_int(&encoded).unwrap();
        let m = 1i128 << b;
        let expected = (((v as i128 % m) + m) % m) as i64;
        assert_eq!(decoded, expected);
    }
}

// The signed round trip: the sign survives and the magnitude wraps into
// [0, 2^(b-1)).
#[test]
fn signed_round_trip() {
    for &(v, b) in &[(5i64, 4i64), (-5, 4), (0, 2), (9, 4), (-9, 4), (100, 8), (-100, 8)] {
        let decoded = read_signed_int(&signed_int(v, b)).unwrap();
        let m = 1i128 << (b - 1);
        let magnitude = ((v as i128).abs() % m) as i64;
        let expected = if v < 0 { -magnitude } else { magnitude };
        assert_eq!(decoded, expected);
    }
}

#[test]
fn logical_shifts() {
    assert!(logical_shift_left(&chars("1011"), 0).is_none());
    let (carry, bits) = logical_shift_left(&chars("1011"), 1).unwrap();
    assert_eq!((carry, string(&bits)), ('1', "0110".to_string()));
    let (carry, bits) = logical_shift_left(&chars("1011"), 5).unwrap();
    assert_eq!((carry, string(&bits)), ('0', "0000".to_string()));
    let (carry, bits) = logical_shift_right(&chars("1011"), 1).unwrap();
    assert_eq!((carry, string(&bits)), ('1', "0101".to_string()));
    let (carry, bits) = logical_shift_right(&chars("1011"), 2).unwrap();
    assert_eq!((carry, string(&bits)), ('1', "0010".to_string()));
}

#[test]
fn arithmetic_shifts() {
    let (carry, bits) = arithmetic_shift_left(&chars("1011"), 1).unwrap();
    assert_eq!((carry, string(&bits)), ('1', "0110".to_string()));
    let (carry, bits) = arithmetic_shift_right(&chars("1010"), 1).unwrap();
    assert_eq!((carry, string(&bits)), ('0', "1101".to_string()));
    let (carry, bits) = arithmetic_shift_right(&chars("1010"), 9).unwrap();
    assert_eq!((carry, string(&bits)), ('1', "1111".to_string()));
}

#[test]
fn circular_shifts() {
    assert_eq!(string(&circular_shift_left(&chars("10110"), 2).unwrap()), "11010");
    assert_eq!(string(&circular_shift_right(&chars("10110"), 2).unwrap()), "10101");
    assert!(circular_shift_left(&chars("10110"), 5).is_none());
    assert!(circular_shift_left(&chars("10110"), 0).is_none());
}

// A circular left shift undone by a circular right shift of the same
// count is the identity, for every count below the length.
#[test]
fn circular_round_trip() {
    let s = "1011001";
    for n in 1..s.len() as i64 {
        let rotated = circular_shift_left(&chars(s), n).unwrap();
        let back = circular_shift_right(&rotated, n).unwrap();
        assert_eq!(string(&back), s);
    }
}

#[test]
fn circular_carry_shifts() {
    // Rotating "1011" once with carry '0': the extended word "01011"
    // rotates left to "10110"; the new carry is its first character.
    let (carry, bits) = circular_shift_left_carry(&chars("1011"), '0', 1).unwrap();
    assert_eq!((carry, string(&bits)), ('1', "0110".to_string()));
    // The right-with-carry variant appends the carry, rotates the
    // extended word right, and splits the last character back off:
    // "10110" becomes "01011", so the ejected carry is '1'.
    let (carry, bits) = circular_shift_right_carry(&chars("1011"), '0', 1).unwrap();
    assert_eq!((carry, string(&bits)), ('1', "0101".to_string()));
    // "10" with carry '0' extends to "100"; one right rotation gives
    // "010", ejecting carry '0' and leaving "01".
    let (carry, bits) = circular_shift_right_carry(&chars("10"), '0', 1).unwrap();
    assert_eq!((carry, string(&bits)), ('0', "01".to_string()));
}

// NOT twice is the identity; AND and OR with itself change nothing; XOR
// with itself gives all zeros.
#[test]
fn bitwise_laws_on_values() {
    let s = chars("100101");
    assert_eq!(string(&bitwise_not(&bitwise_not(&s))), "100101");
    assert_eq!(string(&bitwise_and(&s, &s)), "100101");
    assert_eq!(string(&bitwise_or(&s, &s)), "100101");
    assert_eq!(string(&bitwise_xor(&s, &s)), "000000");
}

#[test]
fn bitwise_tables() {
    let a = chars("1100");
    let b = chars("1010");
    assert_eq!(string(&bitwise_and(&a, &b)), "1000");
    assert_eq!(string(&bitwise_or(&a, &b)), "1110");
    assert_eq!(string(&bitwise_xor(&a, &b)), "0110");
    assert_eq!(string(&bitwise_not(&a)), "0011");
}

// wrap_bound lands in the range and leaves in-range values unchanged.
#[test]
fn wrap_bound_properties() {
    assert_eq!(wrap_bound(1, 5, 3), 3);
    assert_eq!(wrap_bound(1, 5, 7), 2);
    assert_eq!(wrap_bound(1, 5, 6), 1);
    assert_eq!(wrap_bound(0, 3, -1), 3);
    assert_eq!(wrap_bound(1, 3, 0), 3);
    for v in -20..20 {
        let r = wrap_bound(-3, 4, v);
        assert!(-3 <= r && r <= 4);
        if -3 <= v && v <= 4 {
            assert_eq!(r, v);
            assert_eq!(wrap_bound(-3, 4, r), r);
        }
    }
}

#[test]
fn default_casing_uppercases_ascii() {
    assert_eq!(
        default_casing(&chars("add R1,%acc_x9")).iter().collect::<String>(),
        "ADD R1,%ACC_X9"
    );
}

#[test]
fn saturating_digit_parse() {
    assert_eq!(parse_digits_saturating(&chars("200")), 200);
    assert_eq!(parse_digits_saturating(&chars("")), 0);
    assert_eq!(parse_digits_saturating(&chars("99999999999999999999999")), u64::MAX);
}
