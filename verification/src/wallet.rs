use vstd::prelude::*;
use crate::principal::PrincipalId;

verus! {

/// Lifecycle of a recorded ledger transaction.
#[derive(Clone, Copy, Debug, PartialEq, Eq, Structural)]
pub enum TransactionStatus {
    Pending,
    Confirmed,
    Failed,
}

/// Mathematical model of one recorded transaction.
#[verifier::ext_equal]
pub ghost struct RecordView {
    pub id: u64,
    pub from: Seq<u8>,
    pub to: Seq<u8>,
    pub amount: u64,
    pub fee: u64,
    pub memo: Option<Seq<u8>>,
    pub timestamp: u64,
    pub status: TransactionStatus,
}

/// One ledger transfer recorded in the vault's history.
#[derive(Debug)]
pub struct TransactionRecord {
    pub id: u64,
    pub from: PrincipalId,
    pub to: PrincipalId,
    pub amount: u64,
    pub fee: u64,
    pub memo: Option<Vec<u8>>,
    pub timestamp: u64,
    pub status: TransactionStatus,
}

impl View for TransactionRecord {
    type V = RecordView;

    open spec fn view(&self) -> RecordView {
        RecordView {
            id: self.id,
            from: self.from@,
            to: self.to@,
            amount: self.amount,
            fee: self.fee,
            memo: match self.memo {
                Some(ref m) => Some(m@),
                None => None,
            },
            timestamp: self.timestamp,
            status: self.status,
        }
    }
}

/// A derived Bitcoin address together with the key material it came from.
#[derive(Debug)]
pub struct BitcoinAddress {
    pub address: String,
    pub derivation_path: Vec<Vec<u8>>,
    pub public_key: Vec<u8>,
}

/// An unsigned Bitcoin transaction handed in for threshold signing.
#[derive(Debug)]
pub struct BitcoinTransaction {
    pub inputs: Vec<TransactionInput>,
    pub outputs: Vec<TransactionOutput>,
    pub fee: u64,
}

/// One input of a Bitcoin transaction.
#[derive(Debug)]
pub struct TransactionInput {
    pub previous_output: OutPoint,
    pub script_sig: Vec<u8>,
    pub sequence: u32,
}

/// One output of a Bitcoin transaction.
#[derive(Debug)]
pub struct TransactionOutput {
    pub value: u64,
    pub script_pubkey: Vec<u8>,
}

/// A reference to one output of an earlier transaction.
#[derive(Debug)]
pub struct OutPoint {
    pub txid: Vec<u8>,
    pub vout: u32,
}

/// A confirmed unspent output credited to the caller.
#[derive(Debug)]
pub struct UtxoStatus {
    pub height: u32,
    pub value: u64,
    pub outpoint: OutPoint,
}

/// An output still awaiting enough confirmations.
#[derive(Debug)]
pub struct PendingUtxo {
    pub outpoint: OutPoint,
    pub value: u64,
    pub confirmations: u32,
}

/// Arguments of a plain Bitcoin withdrawal.
#[derive(Debug)]
pub struct RetrieveBtcArgs {
    pub address: String,
    pub amount: u64,
}

/// Arguments of a withdrawal drawn from an approved subaccount.
#[derive(Debug)]
pub struct RetrieveBtcWithApprovalArgs {
    pub address: String,
    pub amount: u64,
    pub from_subaccount: Option<Vec<u8>>,
}

/// The minter's reasons for refusing a withdrawal.
#[derive(Debug)]
pub enum RetrieveBtcError {
    MalformedAddress(String),
    GenericError { error_message: String, error_code: u64 },
    TemporarilyUnavailable(String),
    AlreadyProcessing,
    AmountTooLow(u64),
    InsufficientFunds { balance: u64 },
}

/// The minter's reasons for refusing to hand out a deposit address.
#[derive(Debug)]
pub enum DepositAddressError {
    TemporarilyUnavailable(String),
    GenericError { error_message: String, error_code: u64 },
}

/// Everything the vault knows about one user's wallet.
#[derive(Debug)]
pub struct WalletInfo {
    pub owner: PrincipalId,
    pub bitcoin_address: Option<String>,
    pub subaccount: Option<Vec<u8>>,
    pub derivation_path: Vec<Vec<u8>>,
}

} // verus!

verus! {

use crate::digest::{sha256, sha256_of};
use crate::encoding::{
    ascii_bytes, ascii_tag_bytes, concat_bytes, encode, hex_of, lemma_concat_bytes_push,
    u32_be_bytes, u32_to_be, u64_be_bytes, u64_to_be,
};
use crate::errors::VaultError;
use crate::principal::bytes_eq;
use crate::shares::{entry_views, find_entry, find_entry_index, lemma_find_entry, upsert_entry};
use crate::state::{address_views, StateView, VaultState};
use crate::types::{distinct_seq, lemma_distinct_push};
use vstd::string::StringExecFns;

/// The hash std's default hasher assigns to a seed string. Named only:
/// every fact about it flows through the contract of `seed_hash` alone.
pub uninterp spec fn seed_hash_of(seed: Seq<char>) -> u64;

/// Relies on std's `DefaultHasher`: its documentation states that every
/// instance created through `new` is the same, so the finished hash is a
/// function of the written bytes alone.
#[verifier::external_body]
fn seed_hash(seed: &str) -> (r: u64)
    ensures
        r == seed_hash_of(seed@),
{
    let mut hasher = std::collections::hash_map::DefaultHasher::new();
    std::hash::Hash::hash(seed, &mut hasher);
    std::hash::Hasher::finish(&hasher)
}

/// A 32-byte subaccount derived from a seed string: the big-endian hash of
/// the seed in the first eight bytes, zeroes after. A stand-in derivation,
/// as the wider design records; a production deployment would substitute a
/// proper key-derivation function.
pub fn derive_subaccount_from_seed(seed: &str) -> (r: Vec<u8>)
    ensures
        r@.len() == 32,
        r@.subrange(0, 8) == u64_be_bytes(seed_hash_of(seed@)),
        forall|i: int| 8 <= i < 32 ==> r@[i] == 0u8,
{
    let h = seed_hash(seed);
    let mut r = u64_to_be(h);
    let mut i: usize = 8;
    while i < 32
        invariant
            8 <= i <= 32,
            r@.len() == i,
            r@.subrange(0, 8) == u64_be_bytes(seed_hash_of(seed@)),
            forall|j: int| 8 <= j < i ==> r@[j] == 0u8,
        decreases 32 - i,
    {
        r.push(0u8);
        proof {
            assert(r@.subrange(0, 8) =~= u64_be_bytes(seed_hash_of(seed@)));
        }
        i += 1;
    }
    r
}

/// A 32-byte subaccount derived from a principal: one length byte, then up
/// to 29 identity bytes, zero-padded.
pub fn derive_subaccount_from_principal(principal: &PrincipalId) -> (r: Vec<u8>)
    ensures
        ({
            let b = principal@;
            let l: int = if b.len() <= 29 {
                b.len() as int
            } else {
                29
            };
            &&& r@.len() == 32
            &&& r@[0] == l as u8
            &&& forall|i: int| 0 <= i < l ==> r@[i + 1] == b[i]
            &&& forall|i: int| l + 1 <= i < 32 ==> r@[i] == 0u8
        }),
{
    let bytes = principal.as_slice();
    let len: usize = if bytes.len() <= 29 {
        bytes.len()
    } else {
        29
    };
    let mut r: Vec<u8> = Vec::new();
    r.push(len as u8);
    let mut i: usize = 0;
    while i < len
        invariant
            0 <= i <= len,
            len <= 29,
            len <= bytes@.len(),
            r@.len() == i + 1,
            r@[0] == len as u8,
            forall|j: int| 0 <= j < i ==> r@[j + 1] == bytes@[j],
        decreases len - i,
    {
        r.push(bytes[i]);
        i += 1;
    }
    let mut k: usize = len + 1;
    while k < 32
        invariant
            len + 1 <= k <= 32,
            len <= 29,
            r@.len() == k,
            r@[0] == len as u8,
            forall|j: int| 0 <= j < len ==> r@[j + 1] == bytes@[j],
            forall|j: int| len + 1 <= j < k ==> r@[j] == 0u8,
        decreases 32 - k,
    {
        r.push(0u8);
        k += 1;
    }
    r
}

/// Derives a subaccount from the seed and records it as the caller's
/// current subaccount, replacing any earlier one.
pub fn create_subaccount(state: &mut VaultState, caller: &PrincipalId, seed: &str) -> (r: Vec<u8>)
    ensures
        r@.len() == 32,
        r@.subrange(0, 8) == u64_be_bytes(seed_hash_of(seed@)),
        final(state)@ == (StateView {
            subaccounts: upsert_entry(old(state)@.subaccounts, caller@, r@),
            ..old(state)@
        }),
        old(state).wf() ==> final(state).wf(),
{
    let ghost s0 = state@;
    let sub = derive_subaccount_from_seed(seed);
    let value = sub.clone();
    proof {
        assert(value@ =~= sub@);
        lemma_find_entry(s0.subaccounts, caller@);
    }
    match find_entry_index(&state.subaccounts, caller) {
        None => {
            state.subaccounts.push((caller.clone(), value));
            proof {
                assert(final(state)@.subaccounts =~= upsert_entry(s0.subaccounts, caller@, sub@));
            }
        },
        Some(e) => {
            *vstd::std_specs::vec::vec_index_mut(&mut state.subaccounts, e) = (
                caller.clone(),
                value,
            );
            proof {
                assert(final(state)@.subaccounts =~= upsert_entry(s0.subaccounts, caller@, sub@));
            }
        },
    }
    proof {
        assert(final(state)@ =~~= (StateView {
            subaccounts: upsert_entry(s0.subaccounts, caller@, sub@),
            ..s0
        }));
        if s0.well_formed() {
            lemma_wf_after_subaccount(s0, caller@, sub@);
        }
    }
    sub
}

/// Recording a subaccount in a well-formed snapshot leaves it well-formed.
proof fn lemma_wf_after_subaccount(s: StateView, caller: Seq<u8>, sub: Seq<u8>)
    requires
        s.well_formed(),
    ensures
        (StateView { subaccounts: upsert_entry(s.subaccounts, caller, sub), ..s }).well_formed(),
{
    let e = find_entry(s.subaccounts, caller);
    lemma_find_entry(s.subaccounts, caller);
    let keys = s.subaccounts.map_values(|x: (Seq<u8>, Seq<u8>)| x.0);
    let subs1 = upsert_entry(s.subaccounts, caller, sub);
    let keys1 = subs1.map_values(|x: (Seq<u8>, Seq<u8>)| x.0);
    if e == -1 {
        assert(keys1 =~= keys.push(caller));
        assert(!keys.contains(caller)) by {
            if keys.contains(caller) {
                let w = choose|w: int| 0 <= w < keys.len() && keys[w] == caller;
                assert(s.subaccounts[w].0 == caller);
            }
        }
        lemma_distinct_push(keys, caller);
    } else {
        assert(keys1 =~= keys);
    }
}

/// The caller's recorded subaccount, if any.
pub fn get_user_subaccount(state: &VaultState, caller: &PrincipalId) -> (r: Option<Vec<u8>>)
    ensures
        ({
            let e = find_entry(state@.subaccounts, caller@);
            match r {
                Some(v) => e >= 0 && v@ == state@.subaccounts[e].1,
                None => e == -1,
            }
        }),
{
    match find_entry_index(&state.subaccounts, caller) {
        None => None,
        Some(e) => {
            let v = state.subaccounts[e].1.clone();
            proof {
                assert(v@ =~= state.subaccounts@[e as int].1@);
            }
            Some(v)
        },
    }
}

/// The caller's deterministic principal-derived subaccount; no state read.
pub fn get_principal_subaccount(caller: &PrincipalId) -> (r: Vec<u8>)
    ensures
        r@.len() == 32,
{
    derive_subaccount_from_principal(caller)
}

} // verus!

verus! {

/// The derivation context every per-user key is derived under: a fixed tag
/// and the user's identity bytes.
pub open spec fn user_derivation_path(user: Seq<u8>) -> Seq<Seq<u8>> {
    seq![ascii_bytes("guardian_vault"@), user]
}

/// The fixed first segment of every user derivation path.
fn wallet_tag_bytes() -> (r: Vec<u8>)
    ensures
        r@ == ascii_bytes("guardian_vault"@),
{
    let t = "guardian_vault";
    proof {
        reveal_strlit("guardian_vault");
        assert(vstd::string::is_ascii(t)) by {
            assert(forall|i: int| 0 <= i < t@.len() ==> '\0' <= #[trigger] t@[i] <= '\u{7f}');
        }
    }
    ascii_tag_bytes(t)
}

/// Builds the derivation context for the user's own key.
pub fn create_user_derivation_path(user: &PrincipalId) -> (r: Vec<Vec<u8>>)
    ensures
        r.deep_view() == user_derivation_path(user@),
{
    let mut r: Vec<Vec<u8>> = Vec::new();
    r.push(wallet_tag_bytes());
    r.push(vstd::slice::slice_to_vec(user.as_slice()));
    proof {
        assert(r.deep_view() =~~= user_derivation_path(user@));
    }
    r
}

/// Builds the derivation context for one numbered child key of the user.
pub fn child_derivation_path(user: &PrincipalId, child_index: u32) -> (r: Vec<Vec<u8>>)
    ensures
        r.deep_view() == user_derivation_path(user@).push(u32_be_bytes(child_index)),
{
    let mut r = create_user_derivation_path(user);
    r.push(u32_to_be(child_index));
    proof {
        assert(r.deep_view() =~~= user_derivation_path(user@).push(u32_be_bytes(child_index)));
    }
    r
}

/// What a derived Bitcoin address renders: a fixed prefix and the first
/// twenty digest bytes of the tagged public key, in hexadecimal.
pub open spec fn bitcoin_address_chars(public_key: Seq<u8>) -> Seq<char> {
    "bc1q"@ + hex_of(sha256_of(ascii_bytes("btc_address_"@) + public_key).subrange(0, 20))
}

/// The fixed tag in front of every address digest preimage.
fn address_tag_bytes() -> (r: Vec<u8>)
    ensures
        r@ == ascii_bytes("btc_address_"@),
{
    let t = "btc_address_";
    proof {
        reveal_strlit("btc_address_");
        assert(vstd::string::is_ascii(t)) by {
            assert(forall|i: int| 0 <= i < t@.len() ==> '\0' <= #[trigger] t@[i] <= '\u{7f}');
        }
    }
    ascii_tag_bytes(t)
}

/// Renders a Bitcoin-style address from a public key of compressed (33
/// bytes) or uncompressed (65 bytes) form; any other length is refused.
/// A simplified rendering, as the wider design records: a production
/// deployment would substitute the full address construction.
pub fn public_key_to_bitcoin_address(public_key: &[u8]) -> (r: Result<String, VaultError>)
    ensures
        match r {
            Ok(addr) => (public_key@.len() == 33 || public_key@.len() == 65) && addr@
                == bitcoin_address_chars(public_key@),
            Err(e) => e == VaultError::InvalidPublicKey && public_key@.len() != 33
                && public_key@.len() != 65,
        },
{
    if public_key.len() != 33 && public_key.len() != 65 {
        return Err(VaultError::InvalidPublicKey);
    }
    let mut msg = address_tag_bytes();
    let ghost tag = msg@;
    msg.extend_from_slice(public_key);
    proof {
        assert(msg@ =~= tag + public_key@);
    }
    let mut digest = sha256(msg.as_slice());
    digest.truncate(20);
    let hex = encode(digest.as_slice());
    let mut addr = String::new();
    addr.append("bc1q");
    addr.append(hex.as_str());
    proof {
        assert(addr@ =~= bitcoin_address_chars(public_key@));
    }
    Ok(addr)
}

/// The first index whose address entry is keyed by `k`, or -1.
pub open spec fn find_address(entries: Seq<(Seq<u8>, Seq<char>)>, k: Seq<u8>) -> int
    decreases entries.len(),
{
    if entries.len() == 0 {
        -1
    } else if entries[0].0 == k {
        0
    } else {
        let rest = find_address(entries.drop_first(), k);
        if rest == -1 {
            -1
        } else {
            rest + 1
        }
    }
}

/// What `find_address` returns: a valid first index with the sought key,
/// or -1 when no entry carries it.
pub proof fn lemma_find_address(entries: Seq<(Seq<u8>, Seq<char>)>, k: Seq<u8>)
    ensures
        ({
            let e = find_address(entries, k);
            &&& -1 <= e < entries.len()
            &&& e >= 0 ==> entries[e].0 == k && (forall|j: int| 0 <= j < e ==> entries[j].0 != k)
            &&& e == -1 ==> (forall|j: int| 0 <= j < entries.len() ==> entries[j].0 != k)
        }),
    decreases entries.len(),
{
    if entries.len() == 0 {
    } else if entries[0].0 == k {
    } else {
        lemma_find_address(entries.drop_first(), k);
        assert(forall|j: int| 1 <= j < entries.len() ==> entries[j] == entries.drop_first()[j - 1]);
    }
}

/// The address list after recording one: the user's existing entry is
/// replaced, or a new entry is appended.
pub open spec fn upsert_address(entries: Seq<(Seq<u8>, Seq<char>)>, k: Seq<u8>, v: Seq<char>) -> Seq<
    (Seq<u8>, Seq<char>),
> {
    let e = find_address(entries, k);
    if e == -1 {
        entries.push((k, v))
    } else {
        entries.update(e, (k, v))
    }
}

/// Finds the position of the address entry keyed by `caller`, if any.
fn find_address_index(entries: &Vec<(PrincipalId, String)>, caller: &PrincipalId) -> (r: Option<
    usize,
>)
    ensures
        ({
            let e = find_address(address_views(entries@), caller@);
            match r {
                Some(i) => e == i && i < entries@.len(),
                None => e == -1,
            }
        }),
{
    let n: usize = entries.len();
    let mut i: usize = 0;
    while i < n
        invariant
            0 <= i <= n,
            n == entries@.len(),
            forall|j: int| 0 <= j < i ==> address_views(entries@)[j].0 != caller@,
        decreases n - i,
    {
        if entries[i].0.eq(caller) {
            proof {
                lemma_find_address(address_views(entries@), caller@);
                assert(address_views(entries@)[i as int].0 == caller@);
            }
            return Some(i);
        }
        assert(address_views(entries@)[i as int].0 != caller@);
        i += 1;
    }
    proof {
        lemma_find_address(address_views(entries@), caller@);
    }
    None
}

/// Records the caller's derived Bitcoin address, replacing any earlier one.
pub fn record_bitcoin_address(state: &mut VaultState, caller: &PrincipalId, address: String)
    ensures
        final(state)@ == (StateView {
            btc_addresses: upsert_address(old(state)@.btc_addresses, caller@, address@),
            ..old(state)@
        }),
        old(state).wf() ==> final(state).wf(),
{
    let ghost s0 = state@;
    let ghost a = address@;
    proof {
        lemma_find_address(s0.btc_addresses, caller@);
    }
    match find_address_index(&state.btc_addresses, caller) {
        None => {
            state.btc_addresses.push((caller.clone(), address));
            proof {
                assert(final(state)@.btc_addresses =~= upsert_address(s0.btc_addresses, caller@, a));
            }
        },
        Some(e) => {
            *vstd::std_specs::vec::vec_index_mut(&mut state.btc_addresses, e) = (
                caller.clone(),
                address,
            );
            proof {
                assert(final(state)@.btc_addresses =~= upsert_address(s0.btc_addresses, caller@, a));
            }
        },
    }
    proof {
        assert(final(state)@ =~~= (StateView {
            btc_addresses: upsert_address(s0.btc_addresses, caller@, a),
            ..s0
        }));
        if s0.well_formed() {
            lemma_wf_after_address(s0, caller@, a);
        }
    }
}

/// Recording an address in a well-formed snapshot leaves it well-formed.
proof fn lemma_wf_after_address(s: StateView, caller: Seq<u8>, a: Seq<char>)
    requires
        s.well_formed(),
    ensures
        (StateView { btc_addresses: upsert_address(s.btc_addresses, caller, a), ..s }).well_formed(),
{
    let e = find_address(s.btc_addresses, caller);
    lemma_find_address(s.btc_addresses, caller);
    let keys = s.btc_addresses.map_values(|x: (Seq<u8>, Seq<char>)| x.0);
    let addrs1 = upsert_address(s.btc_addresses, caller, a);
    let keys1 = addrs1.map_values(|x: (Seq<u8>, Seq<char>)| x.0);
    if e == -1 {
        assert(keys1 =~= keys.push(caller));
        assert(!keys.contains(caller)) by {
            if keys.contains(caller) {
                let w = choose|w: int| 0 <= w < keys.len() && keys[w] == caller;
                assert(s.btc_addresses[w].0 == caller);
            }
        }
        lemma_distinct_push(keys, caller);
    } else {
        assert(keys1 =~= keys);
    }
}

/// The caller's recorded Bitcoin address, if any.
pub fn get_bitcoin_address(state: &VaultState, caller: &PrincipalId) -> (r: Option<String>)
    ensures
        ({
            let e = find_address(state@.btc_addresses, caller@);
            match r {
                Some(v) => e >= 0 && v@ == state@.btc_addresses[e].1,
                None => e == -1,
            }
        }),
{
    match find_address_index(&state.btc_addresses, caller) {
        None => None,
        Some(e) => Some(state.btc_addresses[e].1.clone()),
    }
}

/// Everything the vault knows about the caller's wallet, assembled from
/// the recorded address, the recorded subaccount, and the caller's
/// derivation context.
pub fn get_wallet_info(state: &VaultState, caller: &PrincipalId) -> (r: Result<
    WalletInfo,
    VaultError,
>)
    ensures
        match r {
            Ok(info) => {
                &&& info.owner@ == caller@
                &&& info.derivation_path.deep_view() == user_derivation_path(caller@)
                &&& ({
                    let e = find_address(state@.btc_addresses, caller@);
                    match info.bitcoin_address {
                        Some(ref v) => e >= 0 && v@ == state@.btc_addresses[e].1,
                        None => e == -1,
                    }
                })
                &&& ({
                    let e = find_entry(state@.subaccounts, caller@);
                    match info.subaccount {
                        Some(ref v) => e >= 0 && v@ == state@.subaccounts[e].1,
                        None => e == -1,
                    }
                })
            },
            Err(_) => false,
        },
{
    let bitcoin_address = get_bitcoin_address(state, caller);
    let subaccount = get_user_subaccount(state, caller);
    Ok(
        WalletInfo {
            owner: caller.clone(),
            bitcoin_address,
            subaccount,
            derivation_path: create_user_derivation_path(caller),
        },
    )
}

} // verus!

verus! {

/// The bytes one transaction input contributes to the signing hash.
pub open spec fn input_encoding(i: TransactionInput) -> Seq<u8> {
    i.previous_output.txid@ + u32_be_bytes(i.previous_output.vout) + u32_be_bytes(i.sequence)
}

/// The contributions of a list of inputs, in order.
pub open spec fn input_encodings(inputs: Seq<TransactionInput>) -> Seq<Seq<u8>> {
    inputs.map_values(|i: TransactionInput| input_encoding(i))
}

/// The bytes one transaction output contributes to the signing hash.
pub open spec fn output_encoding(o: TransactionOutput) -> Seq<u8> {
    u64_be_bytes(o.value) + o.script_pubkey@
}

/// The contributions of a list of outputs, in order.
pub open spec fn output_encodings(outputs: Seq<TransactionOutput>) -> Seq<Seq<u8>> {
    outputs.map_values(|o: TransactionOutput| output_encoding(o))
}

/// The serialization a transaction is hashed over for signing: the input
/// index, every input, every output, and the fee, in order. A simplified
/// form, as the wider design records; a production deployment would
/// substitute the full wire serialization.
pub open spec fn tx_encoding(tx: BitcoinTransaction, input_index: u32) -> Seq<u8> {
    u32_be_bytes(input_index) + concat_bytes(input_encodings(tx.inputs@)) + concat_bytes(
        output_encodings(tx.outputs@),
    ) + u64_be_bytes(tx.fee)
}

/// The 32-byte double-SHA-256 signing hash of a transaction, for one of
/// its inputs.
pub fn create_transaction_hash(transaction: &BitcoinTransaction, input_index: u32) -> (r: Result<
    Vec<u8>,
    VaultError,
>)
    ensures
        match r {
            Ok(h) => h@ == sha256_of(sha256_of(tx_encoding(*transaction, input_index))) && h@.len()
                == 32,
            Err(_) => false,
        },
{
    let mut msg = u32_to_be(input_index);
    let ghost head = msg@;
    let n: usize = transaction.inputs.len();
    let mut i: usize = 0;
    while i < n
        invariant
            0 <= i <= n,
            n == transaction.inputs@.len(),
            msg@ == head + concat_bytes(input_encodings(transaction.inputs@).subrange(0, i as int)),
        decreases n - i,
    {
        let inp = &transaction.inputs[i];
        msg.extend_from_slice(inp.previous_output.txid.as_slice());
        let vout = u32_to_be(inp.previous_output.vout);
        msg.extend_from_slice(vout.as_slice());
        let sequence = u32_to_be(inp.sequence);
        msg.extend_from_slice(sequence.as_slice());
        proof {
            let encs = input_encodings(transaction.inputs@);
            assert(encs.subrange(0, i as int).push(encs[i as int]) =~= encs.subrange(
                0,
                i + 1 as int,
            ));
            lemma_concat_bytes_push(encs.subrange(0, i as int), encs[i as int]);
            assert(msg@ =~= head + concat_bytes(encs.subrange(0, i + 1 as int)));
        }
        i += 1;
    }
    proof {
        let encs = input_encodings(transaction.inputs@);
        assert(encs.subrange(0, n as int) =~= encs);
    }
    let ghost mid = msg@;
    let m: usize = transaction.outputs.len();
    let mut j: usize = 0;
    while j < m
        invariant
            0 <= j <= m,
            m == transaction.outputs@.len(),
            msg@ == mid + concat_bytes(output_encodings(transaction.outputs@).subrange(0, j as int)),
        decreases m - j,
    {
        let outp = &transaction.outputs[j];
        let value = u64_to_be(outp.value);
        msg.extend_from_slice(value.as_slice());
        msg.extend_from_slice(outp.script_pubkey.as_slice());
        proof {
            let encs = output_encodings(transaction.outputs@);
            assert(encs.subrange(0, j as int).push(encs[j as int]) =~= encs.subrange(
                0,
                j + 1 as int,
            ));
            lemma_concat_bytes_push(encs.subrange(0, j as int), encs[j as int]);
            assert(msg@ =~= mid + concat_bytes(encs.subrange(0, j + 1 as int)));
        }
        j += 1;
    }
    proof {
        let encs = output_encodings(transaction.outputs@);
        assert(encs.subrange(0, m as int) =~= encs);
    }
    let fee = u64_to_be(transaction.fee);
    msg.extend_from_slice(fee.as_slice());
    proof {
        assert(msg@ =~= tx_encoding(*transaction, input_index));
    }
    let first = sha256(msg.as_slice());
    let second = sha256(first.as_slice());
    Ok(second)
}

} // verus!

verus! {

/// Records a subaccount handed back by the minter as the caller's current
/// one, replacing any earlier entry.
pub fn record_subaccount(state: &mut VaultState, caller: &PrincipalId, subaccount: Vec<u8>)
    ensures
        final(state)@ == (StateView {
            subaccounts: upsert_entry(old(state)@.subaccounts, caller@, subaccount@),
            ..old(state)@
        }),
        old(state).wf() ==> final(state).wf(),
{
    let ghost s0 = state@;
    let ghost sub = subaccount@;
    proof {
        lemma_find_entry(s0.subaccounts, caller@);
    }
    match find_entry_index(&state.subaccounts, caller) {
        None => {
            state.subaccounts.push((caller.clone(), subaccount));
            proof {
                assert(final(state)@.subaccounts =~= upsert_entry(s0.subaccounts, caller@, sub));
            }
        },
        Some(e) => {
            *vstd::std_specs::vec::vec_index_mut(&mut state.subaccounts, e) = (
                caller.clone(),
                subaccount,
            );
            proof {
                assert(final(state)@.subaccounts =~= upsert_entry(s0.subaccounts, caller@, sub));
            }
        },
    }
    proof {
        assert(final(state)@ =~~= (StateView {
            subaccounts: upsert_entry(s0.subaccounts, caller@, sub),
            ..s0
        }));
        if s0.well_formed() {
            lemma_wf_after_subaccount(s0, caller@, sub);
        }
    }
}

} // verus!
