//! Mint requests and their decoding from raw event logs.
//!
//! A `MintRequest(address user, uint nonce, uint isPremiumCurrency, uint quantity)`
//! log carries the event signature in topic 0, the three indexed fields in
//! topics 1 to 3 (one 32-byte big-endian word each) and the quantity in the
//! first 32-byte word of its data.
use vstd::prelude::*;

verus! {

/// Length of an ABI word.
pub const WORD_LEN: usize = 32;

/// Length of an address.
pub const ADDRESS_LEN: usize = 20;

/// A request to mint `quantity` lottery items to `requester`.
#[derive(Clone, Copy, Debug, PartialEq, Eq)]
pub struct MintRequest {
    pub requester: [u8; 20],
    pub nonce: u64,
    pub premium: bool,
    pub quantity: u64,
}

pub ghost struct MintRequestView {
    pub requester: Seq<u8>,
    pub nonce: u64,
    pub premium: bool,
    pub quantity: u64,
}

impl View for MintRequest {
    type V = MintRequestView;

    open spec fn view(&self) -> MintRequestView {
        MintRequestView {
            requester: self.requester@,
            nonce: self.nonce,
            premium: self.premium,
            quantity: self.quantity,
        }
    }
}

/// An event log as the chain reports it: its topics and its data bytes.
#[derive(Debug)]
pub struct RawLog {
    pub topics: Vec<Vec<u8>>,
    pub data: Vec<u8>,
}

pub ghost struct RawLogView {
    pub topics: Seq<Seq<u8>>,
    pub data: Seq<u8>,
}

impl View for RawLog {
    type V = RawLogView;

    open spec fn view(&self) -> RawLogView {
        RawLogView { topics: self.topics@.map_values(|t: Vec<u8>| t@), data: self.data@ }
    }
}

/// Why a log could not be read as a mint request.
#[derive(Clone, Copy, Debug, PartialEq, Eq)]
pub enum DecodeError {
    /// Fewer than four topics.
    MissingTopics,
    /// One of topics 1 to 3 is not a 32-byte word.
    BadWordLength,
    /// The data is shorter than one word, so it holds no quantity.
    MissingQuantity,
    /// The requester word has a nonzero byte above its 20 address bytes.
    BadAddress,
    /// The nonce or the quantity does not fit in 64 bits.
    ValueTooLarge,
}

/// Big-endian value of a byte string.
pub open spec fn word_value(b: Seq<u8>) -> nat
    decreases b.len(),
{
    if b.len() == 0 {
        0
    } else {
        word_value(b.drop_last()) * 256 + b.last() as nat
    }
}

/// A 32-byte word whose top 12 bytes are zero, so that it holds an address.
pub open spec fn is_address_word(w: Seq<u8>) -> bool {
    forall|i: int| 0 <= i < WORD_LEN - ADDRESS_LEN ==> w[i] == 0
}

/// The error that decoding `log` meets first, if any.
pub open spec fn decode_error(log: RawLogView) -> Option<DecodeError> {
    if log.topics.len() < 4 {
        Some(DecodeError::MissingTopics)
    } else if log.topics[1].len() != WORD_LEN || log.topics[2].len() != WORD_LEN
        || log.topics[3].len() != WORD_LEN {
        Some(DecodeError::BadWordLength)
    } else if log.data.len() < WORD_LEN {
        Some(DecodeError::MissingQuantity)
    } else if !is_address_word(log.topics[1]) {
        Some(DecodeError::BadAddress)
    } else if word_value(log.topics[2]) > u64::MAX || word_value(log.data.take(WORD_LEN as int))
        > u64::MAX {
        Some(DecodeError::ValueTooLarge)
    } else {
        None
    }
}

/// The request that a log without decoding error holds.
pub open spec fn decoded_request(log: RawLogView) -> MintRequestView {
    MintRequestView {
        requester: log.topics[1].subrange(WORD_LEN - ADDRESS_LEN, WORD_LEN as int),
        nonce: word_value(log.topics[2]) as u64,
        premium: word_value(log.topics[3]) == 1,
        quantity: word_value(log.data.take(WORD_LEN as int)) as u64,
    }
}

/// What decoding `log` gives.
pub open spec fn decode_spec(log: RawLogView) -> Result<MintRequestView, DecodeError> {
    match decode_error(log) {
        Some(e) => Err(e),
        None => Ok(decoded_request(log)),
    }
}

proof fn lemma_word_value_prefix_grows(b: Seq<u8>, i: int)
    requires
        0 <= i <= b.len(),
    ensures
        word_value(b.take(i)) <= word_value(b),
    decreases b.len() - i,
{
    if i < b.len() {
        lemma_word_value_prefix_grows(b, i + 1);
        assert(b.take(i + 1).drop_last() =~= b.take(i));
    } else {
        assert(b.take(i) =~= b);
    }
}

/// Value of the first 32-byte word of `w`, when it fits in 64 bits.
pub fn word_to_u64(w: &Vec<u8>) -> (r: Option<u64>)
    requires
        w@.len() >= WORD_LEN,
    ensures
        r is Some <==> word_value(w@.take(WORD_LEN as int)) <= u64::MAX,
        r matches Some(v) ==> v == word_value(w@.take(WORD_LEN as int)),
{
    let ghost word = w@.take(WORD_LEN as int);
    let mut acc: u64 = 0;
    let mut i: usize = 0;
    while i < WORD_LEN
        invariant
            w@.len() >= WORD_LEN,
            word == w@.take(WORD_LEN as int),
            0 <= i <= WORD_LEN,
            acc == word_value(word.take(i as int)),
        decreases WORD_LEN - i,
    {
        let b = w[i];
        assert(word.take(i as int + 1).drop_last() =~= word.take(i as int));
        if acc >= 0x0100_0000_0000_0000 {
            proof {
                lemma_word_value_prefix_grows(word, i as int + 1);
            }
            return None;
        }
        acc = acc * 256 + b as u64;
        i = i + 1;
    }
    assert(word.take(WORD_LEN as int) =~= word);
    Some(acc)
}

/// Reads a log as a mint request.
pub fn decode_mint_request(log: &RawLog) -> (r: Result<MintRequest, DecodeError>)
    ensures
        r matches Ok(req) ==> decode_spec(log@) == Ok::<MintRequestView, DecodeError>(req@),
        r matches Err(e) ==> decode_spec(log@) == Err::<MintRequestView, DecodeError>(e),
{
    let ghost lv = log@;
    if log.topics.len() < 4 {
        return Err(DecodeError::MissingTopics);
    }
    let user = &log.topics[1];
    let nonce_word = &log.topics[2];
    let flag_word = &log.topics[3];
    assert(lv.topics[1] == user@ && lv.topics[2] == nonce_word@ && lv.topics[3] == flag_word@);
    if user.len() != WORD_LEN || nonce_word.len() != WORD_LEN || flag_word.len() != WORD_LEN {
        return Err(DecodeError::BadWordLength);
    }
    if log.data.len() < WORD_LEN {
        return Err(DecodeError::MissingQuantity);
    }
    let mut i: usize = 0;
    while i < WORD_LEN - ADDRESS_LEN
        invariant
            user@.len() == WORD_LEN,
            lv == log@,
            lv.topics.len() >= 4,
            lv.topics[1] == user@,
            lv.topics[2] == nonce_word@,
            lv.topics[3] == flag_word@,
            nonce_word@.len() == WORD_LEN,
            flag_word@.len() == WORD_LEN,
            lv.data.len() >= WORD_LEN,
            0 <= i <= WORD_LEN - ADDRESS_LEN,
            forall|j: int| 0 <= j < i ==> user@[j] == 0,
        decreases WORD_LEN - ADDRESS_LEN - i,
    {
        if user[i] != 0 {
            assert(user@[i as int] != 0);
            assert(!is_address_word(lv.topics[1]));
            return Err(DecodeError::BadAddress);
        }
        i = i + 1;
    }
    let nonce = word_to_u64(nonce_word);
    let quantity = word_to_u64(&log.data);
    assert(nonce_word@.take(WORD_LEN as int) =~= nonce_word@);
    assert(flag_word@.take(WORD_LEN as int) =~= flag_word@);
    let (nonce, quantity) = match (nonce, quantity) {
        (Some(n), Some(q)) => (n, q),
        _ => {
            return Err(DecodeError::ValueTooLarge);
        },
    };
    let premium = match word_to_u64(flag_word) {
        Some(v) => v == 1,
        None => false,
    };
    let mut requester: [u8; 20] = [0u8; 20];
    let mut k: usize = 0;
    while k < ADDRESS_LEN
        invariant
            user@.len() == WORD_LEN,
            0 <= k <= ADDRESS_LEN,
            requester@.len() == ADDRESS_LEN,
            forall|j: int| 0 <= j < k ==> requester@[j] == user@[j + (WORD_LEN - ADDRESS_LEN)],
        decreases ADDRESS_LEN - k,
    {
        requester[k] = user[k + (WORD_LEN - ADDRESS_LEN)];
        k = k + 1;
    }
    let req = MintRequest { requester, nonce, premium, quantity };
    assert(req@.requester =~= user@.subrange(WORD_LEN - ADDRESS_LEN, WORD_LEN as int));
    Ok(req)
}

/// The requests still to process among `logs`, in delivery order: those that
/// decode and whose nonce is above `marker`. Logs that do not decode are skipped.
pub open spec fn pending_spec(marker: u64, logs: Seq<RawLogView>) -> Seq<MintRequestView>
    decreases logs.len(),
{
    if logs.len() == 0 {
        Seq::empty()
    } else {
        let rest = pending_spec(marker, logs.drop_last());
        match decode_spec(logs.last()) {
            Ok(req) => if req.nonce > marker {
                rest.push(req)
            } else {
                rest
            },
            Err(_) => rest,
        }
    }
}

pub open spec fn logs_view(logs: Seq<RawLog>) -> Seq<RawLogView> {
    logs.map_values(|l: RawLog| l@)
}

pub open spec fn requests_view(reqs: Seq<MintRequest>) -> Seq<MintRequestView> {
    reqs.map_values(|q: MintRequest| q@)
}

/// Selects, in delivery order, the requests among `logs` that decode and are
/// newer than `marker`.
pub fn pending_requests(marker: u64, logs: &Vec<RawLog>) -> (r: Vec<MintRequest>)
    ensures
        requests_view(r@) == pending_spec(marker, logs_view(logs@)),
{
    let ghost lv = logs_view(logs@);
    let mut out: Vec<MintRequest> = Vec::new();
    let mut i: usize = 0;
    while i < logs.len()
        invariant
            lv == logs_view(logs@),
            0 <= i <= logs@.len(),
            requests_view(out@) == pending_spec(marker, lv.take(i as int)),
        decreases logs@.len() - i,
    {
        assert(lv.take(i as int + 1).drop_last() =~= lv.take(i as int));
        assert(lv.take(i as int + 1).last() == logs@[i as int]@);
        match decode_mint_request(&logs[i]) {
            Ok(req) => {
                if req.nonce > marker {
                    out.push(req);
                    assert(requests_view(out@) =~= pending_spec(marker, lv.take(i as int)).push(
                        req@,
                    ));
                }
            },
            Err(_) => {},
        }
        i = i + 1;
    }
    assert(lv.take(logs@.len() as int) =~= lv);
    out
}

/// When the logs newer than marker `m` decode to the nonces `m + 1, ..., m + k`
/// in delivery order, all `k` requests are selected, each once, in nonce
/// order. The selection depends on `m` and the logs alone, so a scan replayed
/// after a restart with the marker still at `m` selects the same requests.
pub proof fn lemma_catch_up_selects_each_once(m: u64, logs: Seq<RawLogView>)
    requires
        forall|i: int|
            0 <= i < logs.len() ==> (#[trigger] decode_spec(logs[i]) matches Ok(req) && req.nonce
                == m + 1 + i),
    ensures
        pending_spec(m, logs).len() == logs.len(),
        forall|i: int|
            0 <= i < logs.len() ==> decode_spec(logs[i]) == Ok::<MintRequestView, DecodeError>(
                #[trigger] pending_spec(m, logs)[i],
            ),
        forall|i: int| 0 <= i < logs.len() ==> #[trigger] pending_spec(m, logs)[i].nonce == m + 1 + i,
    decreases logs.len(),
{
    if logs.len() > 0 {
        let init = logs.drop_last();
        assert forall|i: int| 0 <= i < init.len() implies (#[trigger] decode_spec(init[i]) matches Ok(
            req,
        ) && req.nonce == m + 1 + i) by {
            assert(init[i] == logs[i]);
        }
        lemma_catch_up_selects_each_once(m, init);
        assert(decode_spec(logs[logs.len() - 1]) matches Ok(req) && req.nonce == m + logs.len());
    }
}

} // verus!
