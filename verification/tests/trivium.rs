use tfhe::trivium::registers::TriviumRegisters;
use tfhe::trivium::static_deque::StaticDeque;

fn bits_of(hexadecimal: &str) -> Vec<u8> {
    let mut bits = Vec::new();
    for i in (0..hexadecimal.len()).step_by(2) {
        let mut byte = u8::from_str_radix(&hexadecimal[i..i + 2], 16).unwrap();
        for _ in 0..8 {
            bits.push(byte & 1);
            byte >>= 1;
        }
    }
    bits
}

fn hexadecimal_of(bits: &[u8]) -> String {
    let mut text = String::new();
    for byte in bits.chunks(8) {
        let value = byte.iter().enumerate().fold(0u8, |acc, (j, bit)| acc | (bit << j));
        text.push_str(&format!("{:02X}", value));
    }
    text
}

/// The bit that comes out of the step `n` steps from now and the three bits
/// that go into the registers, on bits in the clear.
fn output_and_values(registers: &TriviumRegisters<u8>, n: usize) -> [u8; 4] {
    let a = registers.taps_a(n);
    let b = registers.taps_b(n);
    let c = registers.taps_c(n);
    let temp_a = a.sum.0 ^ a.sum.1;
    let temp_b = b.sum.0 ^ b.sum.1;
    let temp_c = c.sum.0 ^ c.sum.1;
    let new_a = (c.product.0 & c.product.1) ^ a.feedback ^ temp_c;
    let new_b = (a.product.0 & a.product.1) ^ b.feedback ^ temp_a;
    let new_c = (b.product.0 & b.product.1) ^ c.feedback ^ temp_b;
    [temp_a ^ temp_b ^ temp_c, new_a, new_b, new_c]
}

fn next(registers: &mut TriviumRegisters<u8>) -> u8 {
    let [o, a, b, c] = output_and_values(registers, 0);
    registers.push(a, b, c);
    o
}

fn next_64(registers: &mut TriviumRegisters<u8>) -> Vec<u8> {
    let values: Vec<[u8; 4]> = (0..64).map(|n| output_and_values(registers, n)).collect();
    let mut output = Vec::new();
    for [o, a, b, c] in values {
        output.push(o);
        registers.push(a, b, c);
    }
    output
}

fn stream(key: &str, iv: &str, bits: usize, by_64: bool) -> String {
    let mut registers = TriviumRegisters::new(&bits_of(key), &bits_of(iv), &0, &1);
    let mut output = Vec::new();
    if by_64 {
        for _ in 0..18 {
            next_64(&mut registers);
        }
        while output.len() < bits {
            output.extend(next_64(&mut registers));
        }
    } else {
        for _ in 0..1152 {
            next(&mut registers);
        }
        while output.len() < bits {
            output.push(next(&mut registers));
        }
    }
    hexadecimal_of(&output)
}

#[test]
fn the_registers_give_the_stream_of_trivium() {
    let expected = "F4CD954A717F26A7D6930830C4E7CF0819F80E03F25F342C64ADC66ABA7F8A8E\
                    6EAA49F23632AE3CD41A7BD290A0132F81C6D4043B6E397D7388F3A03B5FE358";
    assert_eq!(stream("0053A6F94C9FF24598EB", "0D74DB42A91077DE45AC", 512, false), expected);
    assert_eq!(
        stream("00000000000000000000", "00000000000000000000", 64, false),
        "FBE0BF265859051B"
    );
}

#[test]
fn sixty_four_steps_ahead_give_the_same_stream() {
    let expected = "F4CD954A717F26A7D6930830C4E7CF0819F80E03F25F342C64ADC66ABA7F8A8E\
                    6EAA49F23632AE3CD41A7BD290A0132F81C6D4043B6E397D7388F3A03B5FE358";
    assert_eq!(stream("0053A6F94C9FF24598EB", "0D74DB42A91077DE45AC", 512, true), expected);
}

#[test]
fn the_registers_start_with_the_key_the_input_vector_and_three_ones() {
    let key: Vec<u8> = (0..80).map(|i| 100 + i).collect();
    let iv: Vec<u8> = (0..80).map(|i| 10 + i).collect();
    let registers = TriviumRegisters::new(&key, &iv, &0, &1);
    // The youngest bit of the first register is the last bit of the key.
    let a = registers.taps_a(0);
    assert_eq!((*a.sum.0, *a.sum.1), (100 + 79 - 65, 0));
    assert_eq!((*a.product.0, *a.product.1, *a.feedback), (0, 0, 100 + 79 - 68));
    let b = registers.taps_b(0);
    assert_eq!((*b.sum.0, *b.sum.1), (10 + 79 - 68, 0));
    assert_eq!((*b.product.0, *b.product.1, *b.feedback), (0, 0, 10 + 79 - 77));
    let c = registers.taps_c(0);
    assert_eq!((*c.sum.0, *c.sum.1), (0, 1));
    assert_eq!((*c.product.0, *c.product.1, *c.feedback), (1, 1, 0));
    let a = registers.taps_a(63);
    assert_eq!((*a.sum.0, *a.sum.1), (100 + 79 - 2, 100 + 79 - 29));
}

#[test]
fn a_push_takes_the_oldest_element_out() {
    let mut deque: StaticDeque<4, u32> = StaticDeque::new(vec![1, 2, 3, 4]);
    assert_eq!([*deque.get(0), *deque.get(1), *deque.get(2), *deque.get(3)], [4, 3, 2, 1]);
    deque.push(5);
    assert_eq!([*deque.get(0), *deque.get(1), *deque.get(2), *deque.get(3)], [5, 4, 3, 2]);
    for value in 6..=9 {
        deque.push(value);
    }
    assert_eq!([*deque.get(0), *deque.get(1), *deque.get(2), *deque.get(3)], [9, 8, 7, 6]);
    deque.push(10);
    assert_eq!(*deque.get(3), 7);
    let mut single: StaticDeque<1, u8> = StaticDeque::new(vec![1]);
    single.push(2);
    single.push(3);
    assert_eq!(*single.get(0), 3);
}
