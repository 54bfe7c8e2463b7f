use isekai_oracle::request::{
    decode_mint_request, pending_requests, word_to_u64, DecodeError, MintRequest, RawLog,
};

fn word(v: u64) -> Vec<u8> {
    let mut w = vec![0u8; 24];
    w.extend_from_slice(&v.to_be_bytes());
    w
}

fn user_word(b: u8) -> Vec<u8> {
    let mut w = vec![0u8; 12];
    w.extend_from_slice(&[b; 20]);
    w
}

fn log(user: u8, nonce: u64, premium: u64, quantity: u64) -> RawLog {
    RawLog {
        topics: vec![vec![0xaa; 32], user_word(user), word(nonce), word(premium)],
        data: word(quantity),
    }
}

#[test]
fn decodes_a_request() {
    let r = decode_mint_request(&log(3, 42, 1, 5)).unwrap();
    assert_eq!(r, MintRequest { requester: [3u8; 20], nonce: 42, premium: true, quantity: 5 });
    let r = decode_mint_request(&log(9, 7, 0, 0)).unwrap();
    assert_eq!(r, MintRequest { requester: [9u8; 20], nonce: 7, premium: false, quantity: 0 });
}

#[test]
fn flag_other_than_one_is_standard() {
    assert!(!decode_mint_request(&log(1, 1, 2, 1)).unwrap().premium);
}

#[test]
fn data_beyond_first_word_is_ignored() {
    let mut l = log(1, 2, 0, 3);
    l.data.extend_from_slice(&word(99));
    assert_eq!(decode_mint_request(&l).unwrap().quantity, 3);
}

#[test]
fn decode_errors() {
    let mut l = log(1, 1, 0, 1);
    l.topics.pop();
    assert_eq!(decode_mint_request(&l), Err(DecodeError::MissingTopics));

    let mut l = log(1, 1, 0, 1);
    l.topics[2].pop();
    assert_eq!(decode_mint_request(&l), Err(DecodeError::BadWordLength));

    let mut l = log(1, 1, 0, 1);
    l.data.truncate(31);
    assert_eq!(decode_mint_request(&l), Err(DecodeError::MissingQuantity));

    let mut l = log(1, 1, 0, 1);
    l.topics[1][0] = 1;
    assert_eq!(decode_mint_request(&l), Err(DecodeError::BadAddress));

    let mut l = log(1, 1, 0, 1);
    l.topics[2][23] = 1;
    assert_eq!(decode_mint_request(&l), Err(DecodeError::ValueTooLarge));

    let mut l = log(1, 1, 0, 1);
    l.data[0] = 1;
    assert_eq!(decode_mint_request(&l), Err(DecodeError::ValueTooLarge));
}

#[test]
fn word_values() {
    assert_eq!(word_to_u64(&word(0)), Some(0));
    assert_eq!(word_to_u64(&word(0x0102_0304_0506_0708)), Some(0x0102_0304_0506_0708));
    assert_eq!(word_to_u64(&word(u64::MAX)), Some(u64::MAX));
    let mut w = word(0);
    w[23] = 1;
    assert_eq!(word_to_u64(&w), None);
}

#[test]
fn pending_keeps_newer_in_delivery_order() {
    let mut bad = log(1, 9, 0, 1);
    bad.topics.truncate(2);
    let logs = vec![log(1, 4, 0, 1), log(2, 6, 0, 3), bad, log(3, 5, 1, 1), log(4, 7, 1, 2)];
    let nonces: Vec<u64> = pending_requests(5, &logs).iter().map(|r| r.nonce).collect();
    assert_eq!(nonces, vec![6, 7]);
    assert!(pending_requests(5, &Vec::new()).is_empty());
}

#[test]
fn catch_up_replay_selects_same_requests() {
    let logs: Vec<RawLog> = (1..=4).map(|i| log(i as u8, 10 + i, i % 2, i)).collect();
    let first = pending_requests(10, &logs);
    let again = pending_requests(10, &logs);
    assert_eq!(first, again);
    let nonces: Vec<u64> = first.iter().map(|r| r.nonce).collect();
    assert_eq!(nonces, vec![11, 12, 13, 14]);
}
