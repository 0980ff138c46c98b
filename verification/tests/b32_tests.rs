use upid::b32::{decode, decode_time, encode, encode_time, index_of, symbol_of};

const EPS: u128 = 256;

/// Generator check for the inverse lookup: mapping every alphabet index
/// through its symbol and back must agree with the byte-wise inverse.
#[test]
fn test_lookup_table() {
    let mut lookup = [255u8; 256];
    for i in 0..32u8 {
        let c = symbol_of(i);
        lookup[c as usize] = i;
    }
    for b in 0..256usize {
        assert_eq!(index_of((b as u8) as char), lookup[b]);
    }
}

fn time_as128(array: &[u8; 5]) -> u128 {
    ((array[0] as u128) << (64 + 24 + 32))
        + ((array[1] as u128) << (64 + 24 + 24))
        + ((array[2] as u128) << (64 + 24 + 16))
        + ((array[3] as u128) << (64 + 24 + 8))
        + ((array[4] as u128) << (64 + 24 + 0))
}

#[test]
fn test_encode_decode() {
    let timestamp: u128 = 1720560233826;
    let time_bits = timestamp >> 1;
    let random: u64 = 1218987987987368123;
    let upid = (time_bits << 88) | ((random as u128) << 24) | (5 << 16) | (5 << 8) | 5;
    let text = encode(upid);
    let end = decode(&text).unwrap();
    assert!(end == upid);
}

#[test]
fn test_encode_decode_time() {
    let timestamp: u128 = 1720560233826;
    let time_bits = timestamp >> 1;
    let t_in = (time_bits << 88).to_be_bytes();
    let enc = encode_time(&t_in);
    let tout = decode_time(&enc.as_bytes()).unwrap();
    let final_t = (time_as128(&tout) >> 88) << 1;
    assert!(timestamp - final_t < EPS);
}
