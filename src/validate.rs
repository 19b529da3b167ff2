//! The validator: it takes the transactions that are ready for validation,
//! turns each into per-account results, folds the successful results into
//! the accounts' encrypted balances, and reports the largest transaction id.
//!
//! Reading and writing the ledger, and running the issuance, transfer and
//! account proofs, happen around this module: each transaction arrives with
//! what those steps found.
use vstd::prelude::*;

use crate::elgamal::{
    encryption_of, lemma_sum_of_encryptions, plaintext_of, CipherText, ElgamalPublicKey,
};
use crate::errors::ProofError;
use crate::group::{base_mul_encoding, group_order, is_point_encoding, join_encodings, Point};

verus! {

/// The user and ticker recorded when a transaction's parties are unknown.
pub const NOT_AVAILABLE: &'static str = "n/a";

/// Whether an amount enters or leaves an account.
#[derive(Clone, Copy, Debug, PartialEq, Eq, Structural)]
pub enum Direction {
    Incoming,
    Outgoing,
}

/// What a validated transaction does to one account: the amount is `None`
/// when the transaction failed for that account.
#[derive(Clone)]
pub struct ValidationResult {
    pub user: String,
    pub ticker: String,
    pub direction: Direction,
    pub amount: Option<CipherText>,
}

/// A result as plain values: user, ticker, direction and amount.
pub type ResultView = (Seq<char>, Seq<char>, Direction, Option<CipherText>);

impl View for ValidationResult {
    type V = ResultView;

    open spec fn view(&self) -> ResultView {
        (self.user@, self.ticker@, self.direction, self.amount)
    }
}

impl ValidationResult {
    /// The result of a failed validation for `user` and `ticker`.
    pub fn error(user: &str, ticker: &str) -> (r: ValidationResult)
        ensures
            r@ == failure_view(user@, ticker@),
    {
        ValidationResult {
            user: user.to_owned(),
            ticker: ticker.to_owned(),
            direction: Direction::Incoming,
            amount: None,
        }
    }

    pub open spec fn wf(&self) -> bool {
        self.amount is Some ==> self.amount->Some_0.wf()
    }
}

/// The view of a failed result.
pub open spec fn failure_view(user: Seq<char>, ticker: Seq<char>) -> ResultView {
    (user, ticker, Direction::Incoming, None)
}

/// The memo that an account carries on the ledger.
#[derive(Clone, Copy)]
pub struct PubAccountMemo {
    pub owner_enc_pub_key: ElgamalPublicKey,
    pub last_processed_tx_counter: Option<u32>,
}

/// An account on the ledger: its encrypted asset id and encrypted balance.
#[derive(Clone, Copy)]
pub struct PubAccount {
    pub id: u32,
    pub enc_asset_id: CipherText,
    pub enc_balance: CipherText,
    pub memo: PubAccountMemo,
}

impl PubAccount {
    pub open spec fn wf(&self) -> bool {
        self.enc_asset_id.wf() && self.enc_balance.wf() && self.memo.owner_enc_pub_key.wf()
    }

    /// The 169-byte encoding: the id, the asset-id ciphertext, the balance
    /// ciphertext, the owner's public key, then the counter as a presence
    /// byte and four bytes (zero when absent).
    pub fn to_bytes(&self) -> (r: Vec<u8>)
        ensures
            r@ == encode_account(*self),
    {
        let mut out: Vec<u8> = Vec::new();
        push_u32(&mut out, self.id);
        push_bytes(&mut out, &self.enc_asset_id.to_bytes());
        push_bytes(&mut out, &self.enc_balance.to_bytes());
        push_bytes(&mut out, &self.memo.owner_enc_pub_key.pub_key.to_bytes());
        match self.memo.last_processed_tx_counter {
            None => {
                out.push(0u8);
                push_u32(&mut out, 0);
            },
            Some(c) => {
                out.push(1u8);
                push_u32(&mut out, c);
            },
        }
        proof {
            reveal_with_fuel(encode_counter, 1);
        }
        assert(out@ =~= encode_account(*self));
        out
    }

    /// Decodes an account; any byte string that is not the encoding of one
    /// is refused.
    pub fn from_bytes(bytes: &Vec<u8>) -> (r: Result<PubAccount, ProofError>)
        ensures
            r is Ok <==> account_decodes(bytes@),
            r is Ok ==> r->Ok_0.wf() && encode_account(r->Ok_0) == bytes@,
            r is Ok ==> forall|a: PubAccount|
                #[trigger] a.wf() && encode_account(a) == bytes@ ==> same_points(a, r->Ok_0),
            r is Err ==> r->Err_0 == ProofError::InvalidEncoding,
    {
        if bytes.len() != 169 {
            return Err(ProofError::InvalidEncoding);
        }
        proof {
            assert(bytes@.subrange(4, 68).subrange(0, 32) =~= bytes@.subrange(4, 36));
            assert(bytes@.subrange(4, 68).subrange(32, 64) =~= bytes@.subrange(36, 68));
            assert(bytes@.subrange(68, 132).subrange(0, 32) =~= bytes@.subrange(68, 100));
            assert(bytes@.subrange(68, 132).subrange(32, 64) =~= bytes@.subrange(100, 132));
        }
        let id = read_u32(bytes, 0);
        let asset = match CipherText::from_bytes(&read64(bytes, 4)) {
            Ok(c) => c,
            Err(e) => {
                return Err(e);
            },
        };
        let balance = match CipherText::from_bytes(&read64(bytes, 68)) {
            Ok(c) => c,
            Err(e) => {
                return Err(e);
            },
        };
        let key = match Point::from_bytes(read32(bytes, 132)) {
            Ok(p) => p,
            Err(e) => {
                return Err(e);
            },
        };
        let flag = bytes[164];
        let counter = read_u32(bytes, 165);
        let last_processed_tx_counter = if flag == 0 && counter == 0 {
            None
        } else if flag == 1 {
            Some(counter)
        } else {
            return Err(ProofError::InvalidEncoding);
        };
        let account = PubAccount {
            id,
            enc_asset_id: asset,
            enc_balance: balance,
            memo: PubAccountMemo {
                owner_enc_pub_key: ElgamalPublicKey { pub_key: key },
                last_processed_tx_counter,
            },
        };
        proof {
            lemma_u32_le_of_bytes(bytes@.subrange(0, 4));
            lemma_u32_le_of_bytes(bytes@.subrange(165, 169));
            reveal_with_fuel(encode_counter, 1);
            assert(bytes@.subrange(4, 68) =~= bytes@.subrange(4, 36) + bytes@.subrange(36, 68));
            assert(bytes@.subrange(68, 132) =~= bytes@.subrange(68, 100) + bytes@.subrange(100, 132));
            assert(bytes@.subrange(4, 68).subrange(0, 32) =~= bytes@.subrange(4, 36));
            assert(bytes@.subrange(4, 68).subrange(32, 64) =~= bytes@.subrange(36, 68));
            assert(bytes@.subrange(68, 132).subrange(0, 32) =~= bytes@.subrange(68, 100));
            assert(bytes@.subrange(68, 132).subrange(32, 64) =~= bytes@.subrange(100, 132));
            assert(encode_account(account) =~= bytes@);
            assert forall|a: PubAccount| #[trigger] a.wf() && encode_account(a) == bytes@ implies same_points(
                a,
                account,
            ) by {
                lemma_encoding_parts(a);
                assert(a.enc_asset_id.wf() && a.enc_balance.wf());
                assert(a.memo.owner_enc_pub_key.pub_key.wf());
            }
        }
        Ok(account)
    }
}

/// Two accounts hold the same points: the same logarithms in both
/// ciphertexts and in the owner's key.
pub open spec fn same_points(a: PubAccount, b: PubAccount) -> bool {
    &&& a.enc_asset_id.logs() == b.enc_asset_id.logs()
    &&& a.enc_balance.logs() == b.enc_balance.logs()
    &&& a.memo.owner_enc_pub_key.pub_key@ == b.memo.owner_enc_pub_key.pub_key@
}

/// Where each point's bytes stand in an account's encoding.
proof fn lemma_encoding_parts(a: PubAccount)
    ensures
        encode_account(a).len() == 169,
        encode_account(a).subrange(4, 68) == a.enc_asset_id.x.bytes_spec()
            + a.enc_asset_id.y.bytes_spec(),
        encode_account(a).subrange(68, 132) == a.enc_balance.x.bytes_spec()
            + a.enc_balance.y.bytes_spec(),
        encode_account(a).subrange(132, 164) == a.memo.owner_enc_pub_key.pub_key.bytes_spec(),
{
    reveal_with_fuel(encode_counter, 1);
    let e = encode_account(a);
    assert(e.subrange(4, 68) =~= a.enc_asset_id.x.bytes_spec() + a.enc_asset_id.y.bytes_spec());
    assert(e.subrange(68, 132) =~= a.enc_balance.x.bytes_spec() + a.enc_balance.y.bytes_spec());
    assert(e.subrange(132, 164) =~= a.memo.owner_enc_pub_key.pub_key.bytes_spec());
}

/// The four little-endian bytes of `v`.
pub open spec fn u32_le(v: u32) -> Seq<u8> {
    seq![
        (v % 256) as u8,
        ((v / 256) % 256) as u8,
        ((v / 65536) % 256) as u8,
        (v / 16777216) as u8,
    ]
}

/// The number that four little-endian bytes denote.
pub open spec fn u32_of(b: Seq<u8>) -> int {
    b[0] as int + 256 * b[1] as int + 65536 * b[2] as int + 16777216 * b[3] as int
}

/// The presence byte and the four counter bytes.
pub open spec fn encode_counter(c: Option<u32>) -> Seq<u8> {
    match c {
        None => seq![0u8] + u32_le(0),
        Some(v) => seq![1u8] + u32_le(v),
    }
}

/// The encoding of an account.
pub open spec fn encode_account(a: PubAccount) -> Seq<u8> {
    u32_le(a.id) + a.enc_asset_id.x.bytes_spec() + a.enc_asset_id.y.bytes_spec()
        + a.enc_balance.x.bytes_spec() + a.enc_balance.y.bytes_spec()
        + a.memo.owner_enc_pub_key.pub_key.bytes_spec() + encode_counter(
        a.memo.last_processed_tx_counter,
    )
}

/// The bytes encode an account: the length is right, the four points
/// decode, and the counter is either absent with zero bytes or present.
pub open spec fn account_decodes(b: Seq<u8>) -> bool {
    &&& b.len() == 169
    &&& is_point_encoding(b.subrange(4, 36))
    &&& is_point_encoding(b.subrange(36, 68))
    &&& is_point_encoding(b.subrange(68, 100))
    &&& is_point_encoding(b.subrange(100, 132))
    &&& is_point_encoding(b.subrange(132, 164))
    &&& (b[164] == 1u8 || (b[164] == 0u8 && u32_of(b.subrange(165, 169)) == 0))
}

/// Four bytes are the encoding of the number they denote.
proof fn lemma_u32_le_of_bytes(b: Seq<u8>)
    requires
        b.len() == 4,
    ensures
        0 <= u32_of(b) <= u32::MAX,
        u32_le(u32_of(b) as u32) =~= b,
{
    let v = u32_of(b);
    let (b0, b1, b2, b3) = (b[0] as int, b[1] as int, b[2] as int, b[3] as int);
    assert(0 <= v <= u32::MAX);
    assert(v % 256 == b0) by (nonlinear_arith)
        requires v == b0 + 256 * b1 + 65536 * b2 + 16777216 * b3, 0 <= b0 < 256, 0 <= b1 < 256,
            0 <= b2 < 256, 0 <= b3 < 256;
    assert((v / 256) % 256 == b1) by (nonlinear_arith)
        requires v == b0 + 256 * b1 + 65536 * b2 + 16777216 * b3, 0 <= b0 < 256, 0 <= b1 < 256,
            0 <= b2 < 256, 0 <= b3 < 256;
    assert((v / 65536) % 256 == b2) by (nonlinear_arith)
        requires v == b0 + 256 * b1 + 65536 * b2 + 16777216 * b3, 0 <= b0 < 256, 0 <= b1 < 256,
            0 <= b2 < 256, 0 <= b3 < 256;
    assert(v / 16777216 == b3) by (nonlinear_arith)
        requires v == b0 + 256 * b1 + 65536 * b2 + 16777216 * b3, 0 <= b0 < 256, 0 <= b1 < 256,
            0 <= b2 < 256, 0 <= b3 < 256;
}

/// Encoding a number in four bytes and reading them back gives the number.
proof fn lemma_u32_round_trip(v: u32)
    ensures
        u32_of(u32_le(v)) == v,
{
    let x = v as int;
    assert(x == x % 256 + 256 * ((x / 256) % 256) + 65536 * ((x / 65536) % 256) + 16777216 * (x
        / 16777216)) by (nonlinear_arith)
        requires 0 <= x <= u32::MAX;
}

/// Appends the four little-endian bytes of `v`.
fn push_u32(out: &mut Vec<u8>, v: u32)
    ensures
        final(out)@ == old(out)@ + u32_le(v),
{
    out.push((v % 256) as u8);
    out.push(((v / 256) % 256) as u8);
    out.push(((v / 65536) % 256) as u8);
    out.push((v / 16777216) as u8);
    assert(out@ =~= old(out)@ + u32_le(v));
}

/// Appends the bytes.
fn push_bytes(out: &mut Vec<u8>, b: &[u8])
    ensures
        final(out)@ == old(out)@ + b@,
{
    let ghost start = out@;
    let mut i: usize = 0;
    while i < b.len()
        invariant
            0 <= i <= b@.len(),
            out@ == start + b@.subrange(0, i as int),
        decreases b@.len() - i,
    {
        out.push(b[i]);
        assert(b@.subrange(0, i + 1) =~= b@.subrange(0, i as int).push(b@[i as int]));
        i = i + 1;
    }
    assert(b@.subrange(0, b@.len() as int) =~= b@);
}

/// The number held in four little-endian bytes at `off`.
fn read_u32(bytes: &Vec<u8>, off: usize) -> (r: u32)
    requires
        off + 4 <= bytes@.len() <= usize::MAX,
    ensures
        r == u32_of(bytes@.subrange(off as int, off + 4)),
{
    let b0 = bytes[off] as u32;
    let b1 = bytes[off + 1] as u32;
    let b2 = bytes[off + 2] as u32;
    let b3 = bytes[off + 3] as u32;
    b0 + 256 * b1 + 65536 * b2 + 16777216 * b3
}

/// The 32 bytes at `off`.
fn read32(bytes: &Vec<u8>, off: usize) -> (r: [u8; 32])
    requires
        off + 32 <= bytes@.len() <= usize::MAX,
    ensures
        r@ == bytes@.subrange(off as int, off + 32),
{
    let mut out = [0u8; 32];
    let mut i: usize = 0;
    while i < 32
        invariant
            0 <= i <= 32,
            off + 32 <= bytes@.len() <= usize::MAX,
            forall|j: int| 0 <= j < i ==> out@[j] == bytes@[off + j],
        decreases 32 - i,
    {
        out[i] = bytes[off + i];
        i = i + 1;
    }
    assert(out@ =~= bytes@.subrange(off as int, off + 32));
    out
}

/// The 64 bytes at `off`.
fn read64(bytes: &Vec<u8>, off: usize) -> (r: [u8; 64])
    requires
        off + 64 <= bytes@.len() <= usize::MAX,
    ensures
        r@ == bytes@.subrange(off as int, off + 64),
{
    let a = read32(bytes, off);
    let b = read32(bytes, off + 32);
    let r = join_encodings(&a, &b);
    assert(r@ =~= bytes@.subrange(off as int, off + 64));
    r
}

/// Encoding and then decoding an account gives the same account: the
/// encoding is accepted, and the decoded account encodes to the same bytes,
/// so every field is the same.
pub proof fn lemma_pub_account_round_trip(a: PubAccount)
    requires
        a.wf(),
    ensures
        account_decodes(encode_account(a)),
{
    let b = encode_account(a);
    lemma_u32_round_trip(a.id);
    lemma_u32_round_trip(0);
    reveal_with_fuel(encode_counter, 1);
    assert(b.subrange(4, 36) =~= a.enc_asset_id.x.bytes_spec());
    assert(b.subrange(36, 68) =~= a.enc_asset_id.y.bytes_spec());
    assert(b.subrange(68, 100) =~= a.enc_balance.x.bytes_spec());
    assert(b.subrange(100, 132) =~= a.enc_balance.y.bytes_spec());
    assert(b.subrange(132, 164) =~= a.memo.owner_enc_pub_key.pub_key.bytes_spec());
    assert(base_mul_encoding(a.enc_asset_id.x@) == a.enc_asset_id.x.bytes_spec());
    assert(base_mul_encoding(a.enc_asset_id.y@) == a.enc_asset_id.y.bytes_spec());
    assert(base_mul_encoding(a.enc_balance.x@) == a.enc_balance.x.bytes_spec());
    assert(base_mul_encoding(a.enc_balance.y@) == a.enc_balance.y.bytes_spec());
    assert(base_mul_encoding(a.memo.owner_enc_pub_key.pub_key@)
        == a.memo.owner_enc_pub_key.pub_key.bytes_spec());
    if a.memo.last_processed_tx_counter is None {
        assert(b.subrange(165, 169) =~= u32_le(0));
    }
}

/// An account together with the user and ticker that it is filed under.
#[derive(Clone)]
pub struct LedgerAccount {
    pub user: String,
    pub ticker: String,
    pub account: PubAccount,
}

/// A user and the ticker of one of their accounts.
#[derive(Clone)]
pub struct AccountRef {
    pub user: String,
    pub ticker: String,
}

/// An issuance and what was found about it: the issuer's account, if the
/// account id led to one, and whether the mediator's signature, the proofs and
/// the recording of the new state all succeeded.
#[derive(Clone)]
pub struct IssuanceCheck {
    pub issuer: Option<AccountRef>,
    pub passed: bool,
    pub enc_issued_amount: CipherText,
}

/// A transfer and what was found about it: the sender and the receiver with
/// the ticker, if their account ids led to accounts, and whether the
/// signature, the proofs against the sender's pending balance and the
/// recording of the new state all succeeded.
#[derive(Clone)]
pub struct TransferCheck {
    pub sender: Option<String>,
    pub receiver: Option<AccountRef>,
    pub passed: bool,
    pub enc_amount_using_sndr: CipherText,
    pub enc_amount_using_rcvr: CipherText,
}

/// The stage that a transaction has reached.
#[derive(Clone, Copy, Debug, PartialEq, Eq, Structural)]
pub enum TxSubstate {
    Started,
    Validated,
    Rejected,
}

/// A transaction as the validator receives it.
#[derive(Clone)]
pub enum CoreTransaction {
    /// An account creation.
    Account { tx_id: u32, substate: TxSubstate },
    /// A justified asset issuance.
    IssueJustify { tx_id: u32, substate: TxSubstate, issuance: IssuanceCheck },
    /// A justified confidential transfer.
    TransferJustify { tx_id: u32, substate: TxSubstate, transfer: TransferCheck },
    /// A transaction at a stage that the validator does not handle.
    Other { tx_id: u32 },
}

impl CoreTransaction {
    pub open spec fn id(&self) -> u32 {
        match self {
            CoreTransaction::Account { tx_id, .. } => *tx_id,
            CoreTransaction::IssueJustify { tx_id, .. } => *tx_id,
            CoreTransaction::TransferJustify { tx_id, .. } => *tx_id,
            CoreTransaction::Other { tx_id } => *tx_id,
        }
    }

    pub open spec fn ready_spec(&self) -> bool {
        match self {
            CoreTransaction::Account { substate, .. } => *substate == TxSubstate::Started,
            CoreTransaction::IssueJustify { substate, .. } => *substate == TxSubstate::Started,
            CoreTransaction::TransferJustify { substate, .. } => *substate == TxSubstate::Started,
            CoreTransaction::Other { .. } => false,
        }
    }

    /// Its ciphertexts are well formed.
    pub open spec fn wf(&self) -> bool {
        match self {
            CoreTransaction::IssueJustify { issuance, .. } => issuance.enc_issued_amount.wf(),
            CoreTransaction::TransferJustify { transfer, .. } => transfer.enc_amount_using_sndr.wf()
                && transfer.enc_amount_using_rcvr.wf(),
            _ => true,
        }
    }

    /// The transaction id.
    pub fn tx_id(&self) -> (r: u32)
        ensures
            r == self.id(),
    {
        match self {
            CoreTransaction::Account { tx_id, .. } => *tx_id,
            CoreTransaction::IssueJustify { tx_id, .. } => *tx_id,
            CoreTransaction::TransferJustify { tx_id, .. } => *tx_id,
            CoreTransaction::Other { tx_id } => *tx_id,
        }
    }

    /// An account creation, an issuance or a transfer that has been justified
    /// and awaits validation.
    pub fn is_ready_for_validation(&self) -> (r: bool)
        ensures
            r == self.ready_spec(),
    {
        match self {
            CoreTransaction::Account { substate, .. } => *substate == TxSubstate::Started,
            CoreTransaction::IssueJustify { substate, .. } => *substate == TxSubstate::Started,
            CoreTransaction::TransferJustify { substate, .. } => *substate == TxSubstate::Started,
            CoreTransaction::Other { .. } => false,
        }
    }
}

/// Why a validation run stopped.
#[derive(Clone, Debug, PartialEq)]
pub enum ValidatorError {
    /// A transaction of a kind or stage that the validator does not handle.
    TransactionIsNotReadyForValidation { tx_id: u32 },
    /// A cryptographic operation failed.
    LibraryError { error: ProofError },
    /// No account is filed under the user and ticker of a result.
    AccountNotFound { user: String, ticker: String },
    /// A transaction could not be read.
    UnreadableTransaction { reason: String },
}

// ------------------------------------------------------------------------
// What each transaction yields
// ------------------------------------------------------------------------

/// The views of a sequence of results.
pub open spec fn views(rs: Seq<ValidationResult>) -> Seq<ResultView> {
    rs.map_values(|r: ValidationResult| r@)
}

/// The result of an issuance: the issued amount comes into the issuer's
/// account when everything passed.
pub open spec fn issuance_view(c: IssuanceCheck) -> ResultView {
    match c.issuer {
        None => failure_view(NOT_AVAILABLE@, NOT_AVAILABLE@),
        Some(a) => if c.passed {
            (a.user@, a.ticker@, Direction::Incoming, Some(c.enc_issued_amount))
        } else {
            failure_view(a.user@, a.ticker@)
        },
    }
}

/// The results of a transfer, the sender's then the receiver's: the amount
/// leaves the sender and comes to the receiver when everything passed, and
/// neither account is touched otherwise.
pub open spec fn transfer_views(c: TransferCheck) -> (ResultView, ResultView) {
    match (c.sender, c.receiver) {
        (Some(s), Some(a)) => if c.passed {
            (
                (s@, a.ticker@, Direction::Outgoing, Some(c.enc_amount_using_sndr)),
                (a.user@, a.ticker@, Direction::Incoming, Some(c.enc_amount_using_rcvr)),
            )
        } else {
            (failure_view(s@, a.ticker@), failure_view(a.user@, a.ticker@))
        },
        _ => (
            failure_view(NOT_AVAILABLE@, NOT_AVAILABLE@),
            failure_view(NOT_AVAILABLE@, NOT_AVAILABLE@),
        ),
    }
}

/// The results that a transaction yields.
pub open spec fn tx_views(tx: CoreTransaction) -> Seq<ResultView> {
    match tx {
        CoreTransaction::IssueJustify { issuance, .. } => seq![issuance_view(issuance)],
        CoreTransaction::TransferJustify { transfer, .. } => {
            let (a, b) = transfer_views(transfer);
            seq![a, b]
        },
        _ => Seq::empty(),
    }
}

/// The results of a sequence of transactions, in order.
pub open spec fn all_views(txs: Seq<CoreTransaction>) -> Seq<ResultView>
    decreases txs.len(),
{
    if txs.len() == 0 {
        Seq::empty()
    } else {
        all_views(txs.drop_last()) + tx_views(txs.last())
    }
}

/// The largest transaction id, or `-1` when there is none.
pub open spec fn max_tx_id(txs: Seq<CoreTransaction>) -> int
    decreases txs.len(),
{
    if txs.len() == 0 {
        -1
    } else {
        let m = max_tx_id(txs.drop_last());
        if m < txs.last().id() {
            txs.last().id() as int
        } else {
            m
        }
    }
}

/// The larger of two transaction ids.
pub open spec fn later_id(a: int, b: int) -> int {
    if a < b {
        b
    } else {
        a
    }
}

/// The transaction is of a kind that the validator handles.
pub open spec fn handled(tx: CoreTransaction) -> bool {
    !(tx is Other)
}

/// Turns an issuance into its result.
pub fn validate_asset_issuance(issuance: &IssuanceCheck) -> (r: ValidationResult)
    requires
        issuance.enc_issued_amount.wf(),
    ensures
        r@ == issuance_view(*issuance),
        r.wf(),
{
    match &issuance.issuer {
        None => ValidationResult::error(NOT_AVAILABLE, NOT_AVAILABLE),
        Some(a) => {
            if issuance.passed {
                ValidationResult {
                    user: a.user.clone(),
                    ticker: a.ticker.clone(),
                    amount: Some(issuance.enc_issued_amount),
                    direction: Direction::Incoming,
                }
            } else {
                ValidationResult::error(a.user.as_str(), a.ticker.as_str())
            }
        },
    }
}

/// Turns a transfer into its two results, the sender's then the receiver's.
pub fn validate_transaction(transfer: &TransferCheck) -> (r: (ValidationResult, ValidationResult))
    requires
        transfer.enc_amount_using_sndr.wf(),
        transfer.enc_amount_using_rcvr.wf(),
    ensures
        (r.0@, r.1@) == transfer_views(*transfer),
        r.0.wf(),
        r.1.wf(),
{
    match (&transfer.sender, &transfer.receiver) {
        (Some(sender), Some(receiver)) => {
            if transfer.passed {
                (
                    ValidationResult {
                        user: sender.clone(),
                        ticker: receiver.ticker.clone(),
                        direction: Direction::Outgoing,
                        amount: Some(transfer.enc_amount_using_sndr),
                    },
                    ValidationResult {
                        user: receiver.user.clone(),
                        ticker: receiver.ticker.clone(),
                        direction: Direction::Incoming,
                        amount: Some(transfer.enc_amount_using_rcvr),
                    },
                )
            } else {
                (
                    ValidationResult::error(sender.as_str(), receiver.ticker.as_str()),
                    ValidationResult::error(receiver.user.as_str(), receiver.ticker.as_str()),
                )
            }
        },
        _ => (
            ValidationResult::error(NOT_AVAILABLE, NOT_AVAILABLE),
            ValidationResult::error(NOT_AVAILABLE, NOT_AVAILABLE),
        ),
    }
}

// ------------------------------------------------------------------------
// Folding results into balances
// ------------------------------------------------------------------------

/// The result is for `user`'s account in `ticker` and carries an amount.
pub open spec fn applies_to(v: ResultView, user: Seq<char>, ticker: Seq<char>) -> bool {
    v.0 == user && v.1 == ticker && v.3 is Some
}

/// The logarithms of a balance once the results are applied to it in order:
/// incoming amounts are added and outgoing ones subtracted; results without
/// an amount change nothing.
pub open spec fn net_balance(
    vs: Seq<ResultView>,
    user: Seq<char>,
    ticker: Seq<char>,
    start: (int, int),
) -> (int, int)
    decreases vs.len(),
{
    if vs.len() == 0 {
        start
    } else {
        let prev = net_balance(vs.drop_last(), user, ticker, start);
        let v = vs.last();
        if applies_to(v, user, ticker) {
            let amount = v.3->Some_0;
            match v.2 {
                Direction::Incoming => (
                    (prev.0 + amount.x@) % group_order(),
                    (prev.1 + amount.y@) % group_order(),
                ),
                Direction::Outgoing => (
                    (prev.0 - amount.x@) % group_order(),
                    (prev.1 - amount.y@) % group_order(),
                ),
            }
        } else {
            prev
        }
    }
}

/// Some result changes `user`'s balance in `ticker`.
pub open spec fn touches(vs: Seq<ResultView>, user: Seq<char>, ticker: Seq<char>) -> bool {
    exists|i: int| 0 <= i < vs.len() && #[trigger] applies_to(vs[i], user, ticker)
}

/// The accounts that the results name, each once, in order of first
/// appearance; results for an unknown user name none.
pub open spec fn account_keys(vs: Seq<ResultView>) -> Seq<(Seq<char>, Seq<char>)>
    decreases vs.len(),
{
    if vs.len() == 0 {
        Seq::empty()
    } else {
        let prev = account_keys(vs.drop_last());
        let k = (vs.last().0, vs.last().1);
        if k.0 == NOT_AVAILABLE@ || prev.contains(k) {
            prev
        } else {
            prev.push(k)
        }
    }
}

/// Applies the results to a balance, in order.
pub fn fold_balance(
    results: &Vec<ValidationResult>,
    user: &String,
    ticker: &String,
    start: &CipherText,
) -> (r: CipherText)
    requires
        start.wf(),
        forall|i: int| 0 <= i < results@.len() ==> (#[trigger] results@[i]).wf(),
    ensures
        r.wf(),
        r.logs() == net_balance(views(results@), user@, ticker@, start.logs()),
        !touches(views(results@), user@, ticker@) ==> r == *start,
{
    let ghost vs = views(results@);
    let mut balance = *start;
    let mut i: usize = 0;
    while i < results.len()
        invariant
            0 <= i <= results@.len(),
            vs == views(results@),
            start.wf(),
            forall|k: int| 0 <= k < results@.len() ==> (#[trigger] results@[k]).wf(),
            balance.wf(),
            balance.logs() == net_balance(vs.subrange(0, i as int), user@, ticker@, start.logs()),
            !touches(vs.subrange(0, i as int), user@, ticker@) ==> balance == *start,
        decreases results@.len() - i,
    {
        let ghost before = vs.subrange(0, i as int);
        let ghost after = vs.subrange(0, i + 1);
        assert(after.drop_last() =~= before);
        assert(after.last() == results@[i as int]@);
        let r = &results[i];
        if r.user == *user && r.ticker == *ticker {
            match r.amount {
                Some(amount) => {
                    match r.direction {
                        Direction::Incoming => {
                            balance = balance.add(&amount);
                        },
                        Direction::Outgoing => {
                            balance = balance.sub(&amount);
                        },
                    }
                    assert(applies_to(after[i as int], user@, ticker@));
                },
                None => {
                    proof {
                        lemma_touches_extend(before, after, user@, ticker@);
                    }
                },
            }
        } else {
            proof {
                lemma_touches_extend(before, after, user@, ticker@);
            }
        }
        i = i + 1;
    }
    assert(vs.subrange(0, results@.len() as int) =~= vs);
    balance
}

/// A result that changes nothing leaves `touches` as it was.
proof fn lemma_touches_extend(
    before: Seq<ResultView>,
    after: Seq<ResultView>,
    user: Seq<char>,
    ticker: Seq<char>,
)
    requires
        after.len() == before.len() + 1,
        after.drop_last() == before,
        !applies_to(after.last(), user, ticker),
    ensures
        touches(after, user, ticker) == touches(before, user, ticker),
{
    if touches(after, user, ticker) {
        let i = choose|i: int| 0 <= i < after.len() && #[trigger] applies_to(after[i], user, ticker);
        assert(i < before.len());
        assert(after[i] == before[i]);
    }
    if touches(before, user, ticker) {
        let i = choose|i: int|
            0 <= i < before.len() && #[trigger] applies_to(before[i], user, ticker);
        assert(after[i] == before[i]);
    }
}

// ------------------------------------------------------------------------
// The validation run
// ------------------------------------------------------------------------

/// The account is filed under `user` and `ticker`.
pub open spec fn filed_under(a: LedgerAccount, user: Seq<char>, ticker: Seq<char>) -> bool {
    a.user@ == user && a.ticker@ == ticker
}

/// Some account of the ledger is filed under the key.
pub open spec fn is_filed(ledger: Seq<LedgerAccount>, key: (Seq<char>, Seq<char>)) -> bool {
    exists|j: int| 0 <= j < ledger.len() && #[trigger] filed_under(ledger[j], key.0, key.1)
}

/// `j` is the first account of the ledger filed under `user` and `ticker`.
#[verifier::opaque]
pub open spec fn first_filed(
    ledger: Seq<LedgerAccount>,
    user: Seq<char>,
    ticker: Seq<char>,
    j: int,
) -> bool {
    &&& 0 <= j < ledger.len()
    &&& filed_under(ledger[j], user, ticker)
    &&& forall|i: int| 0 <= i < j ==> !(#[trigger] filed_under(ledger[i], user, ticker))
}

/// `updated` is `current` with the results applied to its balance; every
/// other field is kept.
#[verifier::opaque]
pub open spec fn applied(updated: LedgerAccount, current: LedgerAccount, vs: Seq<ResultView>) -> bool {
    let user = current.user@;
    let ticker = current.ticker@;
    &&& updated.user@ == user
    &&& updated.ticker@ == ticker
    &&& updated.account.id == current.account.id
    &&& updated.account.enc_asset_id == current.account.enc_asset_id
    &&& updated.account.memo == current.account.memo
    &&& updated.account.enc_balance.wf()
    &&& updated.account.enc_balance.logs() == net_balance(
        vs,
        user,
        ticker,
        current.account.enc_balance.logs(),
    )
    &&& !touches(vs, user, ticker) ==> updated.account.enc_balance
        == current.account.enc_balance
}

/// `updated` is the first account of the ledger filed under `key`, with the
/// results applied to its balance.
pub open spec fn updated_from_ledger(
    updated: LedgerAccount,
    ledger: Seq<LedgerAccount>,
    vs: Seq<ResultView>,
    key: (Seq<char>, Seq<char>),
) -> bool {
    exists|j: int| first_filed(ledger, key.0, key.1, j) && #[trigger] applied(updated, ledger[j], vs)
}

/// The views of the keys.
pub open spec fn key_views(keys: Seq<AccountRef>) -> Seq<(Seq<char>, Seq<char>)> {
    keys.map_values(|k: AccountRef| (k.user@, k.ticker@))
}

/// What a validation run produces: the results in order, the accounts with
/// their new balances, and the last validated transaction id: the larger of
/// the one recorded before the run and the largest one seen in it.
pub struct ValidationOutcome {
    pub results: Vec<ValidationResult>,
    pub updated_accounts: Vec<LedgerAccount>,
    pub last_validated_tx_id: i64,
}

/// The key is among the keys.
fn contains_key(keys: &Vec<AccountRef>, user: &String, ticker: &String) -> (r: bool)
    ensures
        r == key_views(keys@).contains((user@, ticker@)),
{
    let mut i: usize = 0;
    while i < keys.len()
        invariant
            0 <= i <= keys@.len(),
            forall|k: int| 0 <= k < i ==> key_views(keys@)[k] != (user@, ticker@),
        decreases keys@.len() - i,
    {
        if keys[i].user == *user && keys[i].ticker == *ticker {
            assert(key_views(keys@)[i as int] == (user@, ticker@));
            return true;
        }
        i = i + 1;
    }
    false
}

/// The first account of the ledger filed under `user` and `ticker`.
fn find_account(ledger: &Vec<LedgerAccount>, user: &String, ticker: &String) -> (r: Option<usize>)
    ensures
        r is Some ==> r->Some_0 < ledger@.len() && filed_under(ledger@[r->Some_0 as int], user@, ticker@)
            && first_filed(ledger@, user@, ticker@, r->Some_0 as int),
        r is None ==> !is_filed(ledger@, (user@, ticker@)),
{
    let mut j: usize = 0;
    while j < ledger.len()
        invariant
            0 <= j <= ledger@.len(),
            forall|k: int| 0 <= k < j ==> !(#[trigger] filed_under(ledger@[k], user@, ticker@)),
        decreases ledger@.len() - j,
    {
        if ledger[j].user == *user && ledger[j].ticker == *ticker {
            proof {
                reveal(first_filed);
            }
            return Some(j);
        }
        j = j + 1;
    }
    None
}

/// Validates every pending transaction, then applies the successful results
/// to the balances of the accounts they name.
///
/// A transaction of a kind that the validator does not handle stops the run
/// before any balance is computed, as does a result whose account is not on
/// the ledger. A failed issuance or transfer only yields results without an
/// amount, which change no balance. The last validated transaction id never
/// decreases: `last_validated_tx_id` is the one recorded by earlier runs
/// (`-1` when there is none).
pub fn validate_all_pending(
    txs: &Vec<CoreTransaction>,
    ledger: &Vec<LedgerAccount>,
    last_validated_tx_id: i64,
) -> (r: Result<
    ValidationOutcome,
    ValidatorError,
>)
    requires
        forall|i: int| 0 <= i < txs@.len() ==> (#[trigger] txs@[i]).wf(),
        forall|j: int| 0 <= j < ledger@.len() ==> (#[trigger] ledger@[j]).account.wf(),
        -1 <= last_validated_tx_id,
    ensures
        (exists|i: int| 0 <= i < txs@.len() && !handled(#[trigger] txs@[i])) <==> (r is Err
            && r->Err_0 is TransactionIsNotReadyForValidation),
        r is Err && r->Err_0 is TransactionIsNotReadyForValidation ==> exists|i: int|
            0 <= i < txs@.len() && !handled(#[trigger] txs@[i]) && r->Err_0
                == (ValidatorError::TransactionIsNotReadyForValidation { tx_id: txs@[i].id() })
                && forall|k: int| 0 <= k < i ==> handled(#[trigger] txs@[k]),
        (forall|i: int| 0 <= i < txs@.len() ==> handled(#[trigger] txs@[i])) ==> (r is Ok <==> (
        forall|k: int|
            0 <= k < account_keys(all_views(txs@)).len() ==> is_filed(
                ledger@,
                #[trigger] account_keys(all_views(txs@))[k],
            ))),
        r is Ok ==> ({
            let out = r->Ok_0;
            let vs = all_views(txs@);
            let keys = account_keys(vs);
            &&& views(out.results@) == vs
            &&& out.last_validated_tx_id == later_id(last_validated_tx_id as int, max_tx_id(txs@))
            &&& out.updated_accounts@.len() == keys.len()
            &&& forall|k: int|
                0 <= k < keys.len() ==> updated_from_ledger(
                    #[trigger] out.updated_accounts@[k],
                    ledger@,
                    vs,
                    keys[k],
                )
        }),
{
    let mut results: Vec<ValidationResult> = Vec::new();
    let mut last_tx_id: i64 = last_validated_tx_id;
    let mut i: usize = 0;
    while i < txs.len()
        invariant
            0 <= i <= txs@.len(),
            forall|k: int| 0 <= k < txs@.len() ==> (#[trigger] txs@[k]).wf(),
            forall|k: int| 0 <= k < i ==> handled(#[trigger] txs@[k]),
            views(results@) == all_views(txs@.subrange(0, i as int)),
            forall|k: int| 0 <= k < results@.len() ==> (#[trigger] results@[k]).wf(),
            -1 <= last_validated_tx_id,
            last_tx_id == later_id(last_validated_tx_id as int, max_tx_id(txs@.subrange(0, i as int))),
        decreases txs@.len() - i,
    {
        let ghost prefix = txs@.subrange(0, i as int);
        let ghost next = txs@.subrange(0, i + 1);
        assert(next.drop_last() =~= prefix);
        let ghost before = results@;
        let tx = &txs[i];
        match tx {
            CoreTransaction::IssueJustify { issuance, .. } => {
                let result = validate_asset_issuance(issuance);
                results.push(result);
                assert(views(results@) =~= views(before) + tx_views(txs@[i as int]));
            },
            CoreTransaction::TransferJustify { transfer, .. } => {
                let (sender_result, receiver_result) = validate_transaction(transfer);
                results.push(sender_result);
                results.push(receiver_result);
                assert(views(results@) =~= views(before) + tx_views(txs@[i as int]));
            },
            CoreTransaction::Account { .. } => {
                assert(views(results@) =~= views(before) + tx_views(txs@[i as int]));
            },
            CoreTransaction::Other { tx_id } => {
                return Err(ValidatorError::TransactionIsNotReadyForValidation { tx_id: *tx_id });
            },
        }
        let id = tx.tx_id();
        if last_tx_id < id as i64 {
            last_tx_id = id as i64;
        }
        i = i + 1;
    }
    assert(txs@.subrange(0, txs@.len() as int) =~= txs@);
    let ghost vs = views(results@);
    let not_available: String = NOT_AVAILABLE.to_owned();
    let mut keys: Vec<AccountRef> = Vec::new();
    let mut n: usize = 0;
    while n < results.len()
        invariant
            0 <= n <= results@.len(),
            not_available@ == NOT_AVAILABLE@,
            vs == views(results@),
            key_views(keys@) == account_keys(vs.subrange(0, n as int)),
        decreases results@.len() - n,
    {
        let ghost prefix = vs.subrange(0, n as int);
        let ghost next = vs.subrange(0, n + 1);
        assert(next.drop_last() =~= prefix);
        let ghost before = keys@;
        let result = &results[n];
        assert(next.last() == result@);
        if !(result.user == not_available) && !contains_key(&keys, &result.user, &result.ticker) {
            keys.push(AccountRef { user: result.user.clone(), ticker: result.ticker.clone() });
            assert(key_views(keys@) =~= key_views(before).push((result.user@, result.ticker@)));
        }
        n = n + 1;
    }
    assert(vs.subrange(0, results@.len() as int) =~= vs);
    let mut updated_accounts: Vec<LedgerAccount> = Vec::new();
    let ghost mut idx: Seq<int> = Seq::empty();
    let mut k: usize = 0;
    while k < keys.len()
        invariant
            0 <= k <= keys@.len(),
            vs == views(results@),
            vs == all_views(txs@),
            key_views(keys@) == account_keys(vs),
            last_tx_id == later_id(last_validated_tx_id as int, max_tx_id(txs@)),
            forall|m: int| 0 <= m < txs@.len() ==> handled(#[trigger] txs@[m]),
            forall|j: int| 0 <= j < ledger@.len() ==> (#[trigger] ledger@[j]).account.wf(),
            forall|m: int| 0 <= m < results@.len() ==> (#[trigger] results@[m]).wf(),
            updated_accounts@.len() == k,
            forall|m: int| 0 <= m < k ==> is_filed(ledger@, #[trigger] key_views(keys@)[m]),
            idx.len() == k,
            forall|m: int|
                0 <= m < k ==> first_filed(
                    ledger@,
                    (#[trigger] key_views(keys@)[m]).0,
                    key_views(keys@)[m].1,
                    idx[m],
                ),
            forall|m: int| 0 <= m < k ==> applied(#[trigger] updated_accounts@[m], ledger@[idx[m]], vs),
        decreases keys@.len() - k,
    {
        let key = &keys[k];
        assert(key_views(keys@)[k as int] == (key.user@, key.ticker@));
        let found = find_account(ledger, &key.user, &key.ticker);
        if found.is_none() {
            assert(!is_filed(ledger@, account_keys(all_views(txs@))[k as int]));
            return Err(
                ValidatorError::AccountNotFound { user: key.user.clone(), ticker: key.ticker.clone() },
            );
        }
        let j = found.unwrap();
        let current = &ledger[j];
        let balance = fold_balance(&results, &key.user, &key.ticker, &current.account.enc_balance);
        let account = PubAccount {
            id: current.account.id,
            enc_asset_id: current.account.enc_asset_id,
            enc_balance: balance,
            memo: current.account.memo,
        };
        let ghost prev = updated_accounts@;
        let ghost prev_idx = idx;
        updated_accounts.push(
            LedgerAccount { user: current.user.clone(), ticker: current.ticker.clone(), account },
        );
        let ghost kv = key_views(keys@)[k as int];
        assert(first_filed(ledger@, kv.0, kv.1, j as int));
        assert(applied(updated_accounts@[k as int], ledger@[j as int], vs)) by {
            reveal(applied);
        }
        proof {
            idx = idx.push(j as int);
            assert forall|m: int| 0 <= m < k + 1 implies first_filed(
                ledger@,
                (#[trigger] key_views(keys@)[m]).0,
                key_views(keys@)[m].1,
                idx[m],
            ) by {
                if m < k {
                    assert(idx[m] == prev_idx[m]);
                }
            }
            assert forall|m: int| 0 <= m < k + 1 implies applied(
                #[trigger] updated_accounts@[m],
                ledger@[idx[m]],
                vs,
            ) by {
                if m < k {
                    assert(updated_accounts@[m] == prev[m]);
                    assert(idx[m] == prev_idx[m]);
                }
            }
        }
        k = k + 1;
    }
    let ghost ghost_updated = updated_accounts@;
    let out = ValidationOutcome { results, updated_accounts, last_validated_tx_id: last_tx_id };
    assert forall|m: int| 0 <= m < account_keys(all_views(txs@)).len() implies updated_from_ledger(
        #[trigger] out.updated_accounts@[m],
        ledger@,
        all_views(txs@),
        account_keys(all_views(txs@))[m],
    ) by {
        assert(out.updated_accounts@[m] == ghost_updated[m]);
        assert(applied(ghost_updated[m], ledger@[idx[m]], vs));
        assert(first_filed(ledger@, key_views(keys@)[m].0, key_views(keys@)[m].1, idx[m]));
        assert(account_keys(all_views(txs@))[m] == key_views(keys@)[m]);
    }
    Ok(out)
}

/// Keeps the transactions that are ready for validation, in order; the first
/// one that could not be read stops the loading.
pub fn load_all_unverified_and_ready(loaded: Vec<Result<CoreTransaction, ValidatorError>>) -> (r: Result<
    Vec<CoreTransaction>,
    ValidatorError,
>)
    ensures
        r is Err <==> exists|i: int| 0 <= i < loaded@.len() && (#[trigger] loaded@[i]) is Err,
        r is Err ==> exists|i: int|
            0 <= i < loaded@.len() && (#[trigger] loaded@[i]) is Err && r->Err_0 == loaded@[i]->Err_0
                && forall|k: int| 0 <= k < i ==> (#[trigger] loaded@[k]) is Ok,
        r is Ok ==> r->Ok_0@ == ready_ones(loaded@),
{
    let ghost all = loaded@;
    let mut rest = loaded;
    let mut ready: Vec<CoreTransaction> = Vec::new();
    let ghost mut i: int = 0;
    while rest.len() > 0
        invariant
            all == loaded@,
            0 <= i <= all.len(),
            rest@ == all.subrange(i, all.len() as int),
            forall|k: int| 0 <= k < i ==> (#[trigger] all[k]) is Ok,
            ready@ == ready_ones(all.subrange(0, i)),
        decreases rest@.len(),
    {
        let ghost next = all.subrange(0, i + 1);
        assert(next.drop_last() =~= all.subrange(0, i));
        assert(rest@[0] == all[i]);
        let item = rest.remove(0);
        match item {
            Err(e) => {
                assert(all[i] is Err && all[i]->Err_0 == e);
                return Err(e);
            },
            Ok(tx) => {
                if tx.is_ready_for_validation() {
                    ready.push(tx);
                }
            },
        }
        proof {
            i = i + 1;
        }
        assert(rest@ =~= all.subrange(i, all.len() as int));
    }
    assert(all.subrange(0, all.len() as int) =~= all);
    Ok(ready)
}

/// The transactions that were read and are ready, in order.
pub open spec fn ready_ones(loaded: Seq<Result<CoreTransaction, ValidatorError>>) -> Seq<CoreTransaction>
    decreases loaded.len(),
{
    if loaded.len() == 0 {
        Seq::empty()
    } else {
        let prev = ready_ones(loaded.drop_last());
        match loaded.last() {
            Ok(tx) => if tx.ready_spec() {
                prev.push(tx)
            } else {
                prev
            },
            Err(_) => prev,
        }
    }
}

/// The logarithms of a balance once each outgoing amount is taken from it.
pub open spec fn pending_logs(start: (int, int), outgoing: Seq<CipherText>) -> (int, int)
    decreases outgoing.len(),
{
    if outgoing.len() == 0 {
        start
    } else {
        let prev = pending_logs(start, outgoing.drop_last());
        (
            (prev.0 - outgoing.last().x@) % group_order(),
            (prev.1 - outgoing.last().y@) % group_order(),
        )
    }
}

/// The sender's pending balance: its committed balance less the amounts of
/// its transfers that are still in flight, by ciphertext arithmetic alone.
pub fn compute_enc_pending_balance(enc_balance: &CipherText, outgoing: &Vec<CipherText>) -> (r:
    CipherText)
    requires
        enc_balance.wf(),
        forall|i: int| 0 <= i < outgoing@.len() ==> (#[trigger] outgoing@[i]).wf(),
    ensures
        r.wf(),
        r.logs() == pending_logs(enc_balance.logs(), outgoing@),
{
    let mut balance = *enc_balance;
    let mut i: usize = 0;
    while i < outgoing.len()
        invariant
            0 <= i <= outgoing@.len(),
            forall|k: int| 0 <= k < outgoing@.len() ==> (#[trigger] outgoing@[k]).wf(),
            balance.wf(),
            balance.logs() == pending_logs(enc_balance.logs(), outgoing@.subrange(0, i as int)),
        decreases outgoing@.len() - i,
    {
        let ghost next = outgoing@.subrange(0, i + 1);
        assert(next.drop_last() =~= outgoing@.subrange(0, i as int));
        balance = balance.sub(&outgoing[i]);
        i = i + 1;
    }
    assert(outgoing@.subrange(0, outgoing@.len() as int) =~= outgoing@);
    balance
}

/// A transfer that failed adds results without amounts: appending them to
/// any results changes no account's folded balance, nor whether it is
/// touched at all, so every balance stays bit for bit as it was.
pub proof fn lemma_failed_transfer_changes_nothing(
    vs: Seq<ResultView>,
    transfer: TransferCheck,
    user: Seq<char>,
    ticker: Seq<char>,
    start: (int, int),
)
    requires
        !transfer.passed,
    ensures
        ({
            let (a, b) = transfer_views(transfer);
            &&& net_balance(vs + seq![a, b], user, ticker, start) == net_balance(
                vs,
                user,
                ticker,
                start,
            )
            &&& touches(vs + seq![a, b], user, ticker) == touches(vs, user, ticker)
        }),
{
    let (a, b) = transfer_views(transfer);
    let once = vs + seq![a];
    let twice = vs + seq![a, b];
    assert(twice.drop_last() =~= once);
    assert(once.drop_last() =~= vs);
    assert(once.last() == a);
    assert(twice.last() == b);
    assert(!applies_to(a, user, ticker));
    assert(!applies_to(b, user, ticker));
    assert(net_balance(once, user, ticker, start) == net_balance(vs, user, ticker, start));
    assert(net_balance(twice, user, ticker, start) == net_balance(once, user, ticker, start));
    lemma_touches_extend(vs, once, user, ticker);
    lemma_touches_extend(once, twice, user, ticker);
}

/// Results are touched by a concatenation exactly when one of the parts is.
proof fn lemma_touches_concat(a: Seq<ResultView>, b: Seq<ResultView>, user: Seq<char>, ticker: Seq<char>)
    ensures
        touches(a + b, user, ticker) == (touches(a, user, ticker) || touches(b, user, ticker)),
{
    let ab = a + b;
    if touches(ab, user, ticker) {
        let i = choose|i: int| 0 <= i < ab.len() && #[trigger] applies_to(ab[i], user, ticker);
        if i < a.len() {
            assert(ab[i] == a[i]);
        } else {
            assert(ab[i] == b[i - a.len()]);
        }
    }
    if touches(a, user, ticker) {
        let i = choose|i: int| 0 <= i < a.len() && #[trigger] applies_to(a[i], user, ticker);
        assert(ab[i] == a[i]);
    }
    if touches(b, user, ticker) {
        let i = choose|i: int| 0 <= i < b.len() && #[trigger] applies_to(b[i], user, ticker);
        assert(ab[i + a.len()] == b[i]);
    }
}

/// When no transaction's results change an account, the run's results do
/// not either.
proof fn lemma_untouched_by_each(txs: Seq<CoreTransaction>, user: Seq<char>, ticker: Seq<char>)
    requires
        forall|i: int| 0 <= i < txs.len() ==> !touches(tx_views(#[trigger] txs[i]), user, ticker),
    ensures
        !touches(all_views(txs), user, ticker),
    decreases txs.len(),
{
    if txs.len() > 0 {
        let init = txs.drop_last();
        assert forall|i: int| 0 <= i < init.len() implies !touches(
            tx_views(#[trigger] init[i]),
            user,
            ticker,
        ) by {
            assert(init[i] == txs[i]);
        }
        lemma_untouched_by_each(init, user, ticker);
        assert(txs.last() == txs[txs.len() - 1]);
        lemma_touches_concat(all_views(init), tx_views(txs.last()), user, ticker);
    }
}

/// A failed transfer leaves its parties' balances bit for bit as they were:
/// when transfer `k` of a run fails and no other transaction of the run has
/// a result for `user`'s account in `ticker`, no result touches that
/// account, so a successful run keeps its balance as it was on the ledger.
pub proof fn lemma_failed_transfer_keeps_balances(
    txs: Seq<CoreTransaction>,
    k: int,
    user: Seq<char>,
    ticker: Seq<char>,
)
    requires
        0 <= k < txs.len(),
        txs[k] is TransferJustify,
        !txs[k]->TransferJustify_transfer.passed,
        forall|i: int, j: int|
            0 <= i < txs.len() && i != k && 0 <= j < tx_views(txs[i]).len() ==> !(#[trigger] tx_views(
                txs[i],
            )[j].0 == user && tx_views(txs[i])[j].1 == ticker),
    ensures
        !touches(all_views(txs), user, ticker),
{
    assert forall|i: int| 0 <= i < txs.len() implies !touches(
        tx_views(#[trigger] txs[i]),
        user,
        ticker,
    ) by {
        if touches(tx_views(txs[i]), user, ticker) {
            let vs = tx_views(txs[i]);
            let j = choose|j: int| 0 <= j < vs.len() && #[trigger] applies_to(vs[j], user, ticker);
            if i == k {
                assert(vs[j].3 is None);
            } else {
                assert(vs[j].0 == user && vs[j].1 == ticker);
            }
        }
    }
    lemma_untouched_by_each(txs, user, ticker);
}

/// A run with nothing ready changes nothing: it yields no result, updates no
/// account, and keeps the recorded last validated transaction id.
pub proof fn lemma_empty_run_is_a_no_op(last_validated_tx_id: int)
    requires
        -1 <= last_validated_tx_id,
    ensures
        all_views(Seq::<CoreTransaction>::empty()).len() == 0,
        account_keys(all_views(Seq::<CoreTransaction>::empty())).len() == 0,
        later_id(last_validated_tx_id, max_tx_id(Seq::<CoreTransaction>::empty()))
            == last_validated_tx_id,
{
}

/// Results that change nothing leave the balance where it started.
proof fn lemma_net_balance_untouched(
    vs: Seq<ResultView>,
    user: Seq<char>,
    ticker: Seq<char>,
    start: (int, int),
)
    requires
        forall|i: int| 0 <= i < vs.len() ==> !applies_to(#[trigger] vs[i], user, ticker),
    ensures
        net_balance(vs, user, ticker, start) == start,
    decreases vs.len(),
{
    if vs.len() > 0 {
        let init = vs.drop_last();
        assert forall|i: int| 0 <= i < init.len() implies !applies_to(#[trigger] init[i], user, ticker) by {
            assert(init[i] == vs[i]);
        }
        lemma_net_balance_untouched(init, user, ticker, start);
        assert(vs.last() == vs[vs.len() - 1]);
    }
}

/// When exactly one result of a run changes an account, and it brings an
/// amount in, the account's balance is the start plus that amount.
proof fn lemma_net_balance_single_incoming(
    vs: Seq<ResultView>,
    k: int,
    user: Seq<char>,
    ticker: Seq<char>,
    start: (int, int),
)
    requires
        0 <= k < vs.len(),
        applies_to(vs[k], user, ticker),
        vs[k].2 == Direction::Incoming,
        forall|i: int| 0 <= i < vs.len() && i != k ==> !applies_to(#[trigger] vs[i], user, ticker),
    ensures
        net_balance(vs, user, ticker, start) == (
            (start.0 + vs[k].3->Some_0.x@) % group_order(),
            (start.1 + vs[k].3->Some_0.y@) % group_order(),
        ),
    decreases vs.len(),
{
    let init = vs.drop_last();
    assert(vs.last() == vs[vs.len() - 1]);
    if k == vs.len() - 1 {
        assert forall|i: int| 0 <= i < init.len() implies !applies_to(#[trigger] init[i], user, ticker) by {
            assert(init[i] == vs[i]);
        }
        lemma_net_balance_untouched(init, user, ticker, start);
    } else {
        assert(init[k] == vs[k]);
        assert forall|i: int| 0 <= i < init.len() && i != k implies !applies_to(
            #[trigger] init[i],
            user,
            ticker,
        ) by {
            assert(init[i] == vs[i]);
        }
        lemma_net_balance_single_incoming(init, k, user, ticker, start);
    }
}

/// Over a whole run: when an account's balance encrypts `v1` under
/// `P = s·H` and the run's only result for it brings in an encryption of
/// `v2`, the folded balance decrypts to `v1 + v2`.
pub proof fn lemma_run_adds_incoming_plaintext(
    vs: Seq<ResultView>,
    k: int,
    user: Seq<char>,
    ticker: Seq<char>,
    s: int,
    h: int,
    v1: int,
    r1: int,
    v2: int,
    r2: int,
)
    requires
        0 <= s < group_order(),
        0 <= h < group_order(),
        0 <= k < vs.len(),
        applies_to(vs[k], user, ticker),
        vs[k].2 == Direction::Incoming,
        vs[k].3->Some_0.logs() == encryption_of((s * h) % group_order(), h, v2, r2),
        forall|i: int| 0 <= i < vs.len() && i != k ==> !applies_to(#[trigger] vs[i], user, ticker),
    ensures
        ({
            let b = net_balance(vs, user, ticker, encryption_of((s * h) % group_order(), h, v1, r1));
            plaintext_of(s, b.0, b.1) == (v1 + v2) % group_order()
        }),
{
    let start = encryption_of((s * h) % group_order(), h, v1, r1);
    lemma_net_balance_single_incoming(vs, k, user, ticker, start);
    lemma_sum_of_encryptions(s, h, v1, r1, v2, r2);
}

} // verus!
