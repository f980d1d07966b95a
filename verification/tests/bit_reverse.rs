use stwo_prover::backend::simd::bit_reverse::{bit_reverse16, bit_reverse_m31, MIN_LOG_SIZE};
use stwo_prover::backend::simd::m31::{PackedBaseField, N_LANES};
use stwo_prover::backend::simd::utils::{LoHiInterleaveHiHi, LoLoInterleaveHiLo};
use stwo_prover::fields::m31::{BaseField, M31, P};
use stwo_prover::utils::{bit_reverse as ground_truth_bit_reverse, bit_reverse_index};

fn pack(values: &[BaseField]) -> Vec<PackedBaseField> {
    values
        .chunks(N_LANES)
        .map(|chunk| {
            let mut lanes = [M31::zero(); N_LANES];
            lanes.copy_from_slice(chunk);
            PackedBaseField::from_array(lanes)
        })
        .collect()
}

fn unpack(words: &[PackedBaseField]) -> Vec<BaseField> {
    words.iter().flat_map(|word| word.to_array()).collect()
}

#[test]
fn test_bit_reverse16() {
    let data: Vec<BaseField> = (0..256u64).map(M31::reduce).collect();
    let mut expected = data.clone();
    ground_truth_bit_reverse(&mut expected);

    let mut block = [PackedBaseField::broadcast(M31::zero()); 16];
    block.copy_from_slice(&pack(&data));
    let res = unpack(&bit_reverse16(block));

    assert_eq!(res, expected);
}

#[test]
fn test_bit_reverse() {
    const SIZE: usize = 1 << 15;
    let data: Vec<BaseField> = (0..SIZE).map(|i| M31::reduce(i as u64)).collect();
    let mut expected = data.clone();
    ground_truth_bit_reverse(&mut expected);

    let mut res = pack(&data);
    bit_reverse_m31(&mut res[..]);

    assert_eq!(unpack(&res), expected);
}

#[test]
fn bit_reverse16_places_each_element_at_its_reversed_index() {
    let data: Vec<BaseField> = (0..256u32).map(M31::from_u32_unchecked).collect();
    let mut block = [PackedBaseField::broadcast(M31::zero()); 16];
    block.copy_from_slice(&pack(&data));
    let res = unpack(&bit_reverse16(block));
    for i in 0..256usize {
        let reversed = (i as u8).reverse_bits() as u32;
        assert_eq!(res[i].value(), reversed);
    }
}

#[test]
fn bit_reverse_of_each_valid_small_size() {
    for log_elements in (MIN_LOG_SIZE + 4)..(MIN_LOG_SIZE + 7) {
        let size = 1usize << log_elements;
        let data: Vec<BaseField> = (0..size).map(|i| M31::reduce(3 * i as u64 + 1)).collect();
        let mut res = pack(&data);
        bit_reverse_m31(&mut res[..]);
        let res = unpack(&res);
        for i in 0..size {
            assert_eq!(res[i], data[bit_reverse_index(i, log_elements)]);
        }
    }
}

#[test]
fn bit_reverse_twice_is_the_identity() {
    const SIZE: usize = 1 << 14;
    let data: Vec<BaseField> = (0..SIZE).map(|i| M31::reduce(7 * i as u64 + 5)).collect();
    let mut res = pack(&data);
    bit_reverse_m31(&mut res[..]);
    assert_ne!(unpack(&res), data);
    bit_reverse_m31(&mut res[..]);
    assert_eq!(unpack(&res), data);
}

#[test]
fn bit_reverse_is_stable_on_palindromes() {
    // A column that holds at each position the same value as at the
    // bit-reversed position is left as it is.
    const LOG_SIZE: u32 = 14;
    const SIZE: usize = 1 << LOG_SIZE;
    let data: Vec<BaseField> = (0..SIZE)
        .map(|i| {
            let reversed = bit_reverse_index(i, LOG_SIZE);
            M31::reduce(i.min(reversed) as u64)
        })
        .collect();
    let mut res = pack(&data);
    bit_reverse_m31(&mut res[..]);
    assert_eq!(unpack(&res), data);
}

#[test]
fn palindrome_blocks_are_reversed_once() {
    // Elements whose index reads the same in both directions stay where
    // they are, also those of blocks that are their own partner.
    const LOG_SIZE: u32 = 14;
    const SIZE: usize = 1 << LOG_SIZE;
    let data: Vec<BaseField> = (0..SIZE).map(|i| M31::reduce(i as u64)).collect();
    let mut res = pack(&data);
    bit_reverse_m31(&mut res[..]);
    let res = unpack(&res);
    let mut palindromes = 0;
    for i in 0..SIZE {
        if bit_reverse_index(i, LOG_SIZE) == i {
            assert_eq!(res[i], data[i]);
            palindromes += 1;
        }
    }
    assert_eq!(palindromes, 1 << (LOG_SIZE / 2));
}

#[test]
fn bit_reverse_index_reverses_the_low_digits() {
    assert_eq!(bit_reverse_index(0, 0), 0);
    assert_eq!(bit_reverse_index(1, 1), 1);
    assert_eq!(bit_reverse_index(1, 3), 4);
    assert_eq!(bit_reverse_index(6, 3), 3);
    assert_eq!(bit_reverse_index(0b0001_0110, 8), 0b0110_1000);
    assert_eq!(bit_reverse_index(1, 15), 1 << 14);
    for i in 0..1024usize {
        assert_eq!(bit_reverse_index(bit_reverse_index(i, 10), 10), i);
    }
}

#[test]
fn ground_truth_bit_reverse_of_eight() {
    let mut data = [0u32, 1, 2, 3, 4, 5, 6, 7];
    ground_truth_bit_reverse(&mut data);
    assert_eq!(data, [0, 4, 2, 6, 1, 5, 3, 7]);
    let mut single = [9u32];
    ground_truth_bit_reverse(&mut single);
    assert_eq!(single, [9]);
}

#[test]
fn interleaving_takes_halves_of_two_words() {
    let a: Vec<BaseField> = (0..16u32).map(M31::from_u32_unchecked).collect();
    let b: Vec<BaseField> = (100..116u32).map(M31::from_u32_unchecked).collect();
    let a = pack(&a)[0];
    let b = pack(&b)[0];
    let low: Vec<u32> =
        LoLoInterleaveHiLo::concat_swizzle(a, b).to_array().iter().map(|x| x.value()).collect();
    assert_eq!(low, vec![0, 100, 1, 101, 2, 102, 3, 103, 4, 104, 5, 105, 6, 106, 7, 107]);
    let high: Vec<u32> =
        LoHiInterleaveHiHi::concat_swizzle(a, b).to_array().iter().map(|x| x.value()).collect();
    assert_eq!(high, vec![8, 108, 9, 109, 10, 110, 11, 111, 12, 112, 13, 113, 14, 114, 15, 115]);
}

#[test]
fn swizzle_takes_lanes_by_index() {
    let a: Vec<BaseField> = (0..16u32).map(M31::from_u32_unchecked).collect();
    let b: Vec<BaseField> = (16..32u32).map(M31::from_u32_unchecked).collect();
    let a = pack(&a)[0];
    let b = pack(&b)[0];
    let index = [31, 0, 30, 1, 29, 2, 28, 3, 27, 4, 26, 5, 25, 6, 24, 7];
    let res: Vec<u32> = a.concat_swizzle(b, &index).to_array().iter().map(|x| x.value()).collect();
    assert_eq!(res, vec![31, 0, 30, 1, 29, 2, 28, 3, 27, 4, 26, 5, 25, 6, 24, 7]);
}

#[test]
fn packed_words_work_lane_by_lane() {
    let a: Vec<BaseField> = (0..16u32).map(|i| M31::from_u32_unchecked(P - 1 - i)).collect();
    let b: Vec<BaseField> = (0..16u32).map(|i| M31::from_u32_unchecked(2 * i + 1)).collect();
    let sum = pack(&a)[0].add(pack(&b)[0]).to_array();
    let product = pack(&a)[0].mul(pack(&b)[0]).to_array();
    for lane in 0..16 {
        assert_eq!(sum[lane], a[lane].add(b[lane]));
        assert_eq!(product[lane], a[lane].mul(b[lane]));
    }
    assert_eq!(sum[0], M31::zero());
    assert_eq!(sum[3].value(), 3);
    assert_eq!(product[1].value(), P - 6);
    assert_eq!(PackedBaseField::broadcast(M31::one()).to_array(), [M31::one(); 16]);
}
