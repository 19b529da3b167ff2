use mercat_proofs::elgamal::{CipherText, CommitmentWitness, ElgamalPublicKey, ElgamalSecretKey};
use mercat_proofs::group::{PedersenGens, Scalar};
use mercat_proofs::validate::{
    compute_enc_pending_balance, load_all_unverified_and_ready, validate_all_pending,
    validate_asset_issuance, validate_transaction, AccountRef, CoreTransaction, Direction,
    IssuanceCheck, LedgerAccount, PubAccount, PubAccountMemo, TransferCheck, TxSubstate,
    ValidationResult, ValidatorError,
};

struct Party {
    secret: ElgamalSecretKey,
    public: ElgamalPublicKey,
}

fn party(seed: u64) -> Party {
    let gens = PedersenGens::default();
    let secret = ElgamalSecretKey::new(Scalar::from_u64(seed * 7919 + 3));
    let public = secret.get_public_key(&gens);
    Party { secret, public }
}

fn enc(p: &Party, value: u64, blinding: u64) -> CipherText {
    let gens = PedersenGens::default();
    p.public.encrypt(&gens, &CommitmentWitness::new(Scalar::from_u64(value), Scalar::from_u64(blinding)))
}

fn dec(p: &Party, ct: &CipherText) -> u32 {
    p.secret.decrypt(&PedersenGens::default(), ct).unwrap()
}

fn account(user: &str, ticker: &str, id: u32, p: &Party, balance: u64) -> LedgerAccount {
    LedgerAccount {
        user: user.to_string(),
        ticker: ticker.to_string(),
        account: PubAccount {
            id,
            enc_asset_id: enc(p, 1, 11),
            enc_balance: enc(p, balance, 5 + id as u64),
            memo: PubAccountMemo { owner_enc_pub_key: p.public, last_processed_tx_counter: None },
        },
    }
}

fn aref(user: &str, ticker: &str) -> AccountRef {
    AccountRef { user: user.to_string(), ticker: ticker.to_string() }
}

fn issue(tx_id: u32, a: &Party, amount: u64, passed: bool) -> CoreTransaction {
    CoreTransaction::IssueJustify {
        tx_id,
        substate: TxSubstate::Started,
        issuance: IssuanceCheck {
            issuer: Some(aref("alice", "ACME")),
            passed,
            enc_issued_amount: enc(a, amount, 21),
        },
    }
}

fn transfer(tx_id: u32, a: &Party, b: &Party, amount: u64, passed: bool) -> CoreTransaction {
    CoreTransaction::TransferJustify {
        tx_id,
        substate: TxSubstate::Started,
        transfer: TransferCheck {
            sender: Some("alice".to_string()),
            receiver: Some(aref("bob", "ACME")),
            passed,
            enc_amount_using_sndr: enc(a, amount, 31),
            enc_amount_using_rcvr: enc(b, amount, 32),
        },
    }
}

fn find<'a>(accounts: &'a [LedgerAccount], user: &str) -> &'a LedgerAccount {
    accounts.iter().find(|a| a.user == user).unwrap()
}

#[test]
fn issue_then_transfer_updates_both_balances() {
    let a = party(1);
    let b = party(2);
    let ledger = vec![account("alice", "ACME", 1, &a, 0), account("bob", "ACME", 2, &b, 0)];
    let txs = vec![
        CoreTransaction::Account { tx_id: 0, substate: TxSubstate::Started },
        issue(1, &a, 100, true),
        transfer(2, &a, &b, 40, true),
    ];
    let out = validate_all_pending(&txs, &ledger, -1).unwrap();
    assert_eq!(out.results.len(), 3);
    assert_eq!(out.last_validated_tx_id, 2);
    assert_eq!(out.updated_accounts.len(), 2);
    assert_eq!(dec(&a, &find(&out.updated_accounts, "alice").account.enc_balance), 60);
    assert_eq!(dec(&b, &find(&out.updated_accounts, "bob").account.enc_balance), 40);
    assert_eq!(out.updated_accounts[0].user, "alice");
    assert_eq!(out.updated_accounts[1].user, "bob");
}

#[test]
fn second_run_over_validated_transactions_is_a_no_op() {
    let a = party(1);
    let b = party(2);
    let ledger = vec![account("alice", "ACME", 1, &a, 0), account("bob", "ACME", 2, &b, 0)];
    let validated = vec![
        Ok(CoreTransaction::Account { tx_id: 0, substate: TxSubstate::Validated }),
        Ok(CoreTransaction::Other { tx_id: 3 }),
    ];
    let ready = load_all_unverified_and_ready(validated).unwrap();
    assert!(ready.is_empty());
    let out = validate_all_pending(&ready, &ledger, 2).unwrap();
    assert!(out.results.is_empty());
    assert!(out.updated_accounts.is_empty());
    assert_eq!(out.last_validated_tx_id, 2);
    let first = validate_all_pending(&ready, &ledger, -1).unwrap();
    assert_eq!(first.last_validated_tx_id, -1);
}

#[test]
fn failed_transfer_leaves_balances_bit_for_bit() {
    let a = party(1);
    let b = party(2);
    let ledger = vec![account("alice", "ACME", 1, &a, 70), account("bob", "ACME", 2, &b, 5)];
    let txs = vec![transfer(4, &a, &b, 40, false)];
    let out = validate_all_pending(&txs, &ledger, -1).unwrap();
    assert_eq!(out.results.len(), 2);
    assert!(out.results.iter().all(|r| r.amount.is_none()));
    assert_eq!(out.last_validated_tx_id, 4);
    for (before, after) in ledger.iter().zip(out.updated_accounts.iter()) {
        assert_eq!(before.user, after.user);
        assert_eq!(
            before.account.enc_balance.to_bytes().to_vec(),
            after.account.enc_balance.to_bytes().to_vec()
        );
    }
}

#[test]
fn failed_transfer_does_not_disturb_a_successful_one() {
    let a = party(1);
    let b = party(2);
    let ledger = vec![account("alice", "ACME", 1, &a, 70), account("bob", "ACME", 2, &b, 5)];
    let txs = vec![transfer(4, &a, &b, 40, false), transfer(5, &a, &b, 20, true)];
    let out = validate_all_pending(&txs, &ledger, -1).unwrap();
    assert_eq!(dec(&a, &find(&out.updated_accounts, "alice").account.enc_balance), 50);
    assert_eq!(dec(&b, &find(&out.updated_accounts, "bob").account.enc_balance), 25);
    assert_eq!(out.last_validated_tx_id, 5);
}

#[test]
fn unexpected_transaction_stops_the_run() {
    let a = party(1);
    let ledger = vec![account("alice", "ACME", 1, &a, 0)];
    let txs = vec![issue(1, &a, 10, true), CoreTransaction::Other { tx_id: 9 }];
    assert_eq!(
        validate_all_pending(&txs, &ledger, -1).err(),
        Some(ValidatorError::TransactionIsNotReadyForValidation { tx_id: 9 })
    );
}

#[test]
fn result_for_an_unknown_account_stops_the_run() {
    let a = party(1);
    let ledger = vec![account("bob", "ACME", 2, &a, 0)];
    let txs = vec![issue(1, &a, 10, true)];
    assert_eq!(
        validate_all_pending(&txs, &ledger, -1).err(),
        Some(ValidatorError::AccountNotFound { user: "alice".to_string(), ticker: "ACME".to_string() })
    );
}

#[test]
fn issuance_results() {
    let a = party(1);
    let ok = IssuanceCheck { issuer: Some(aref("alice", "ACME")), passed: true, enc_issued_amount: enc(&a, 3, 1) };
    let r = validate_asset_issuance(&ok);
    assert_eq!(r.user, "alice");
    assert_eq!(r.ticker, "ACME");
    assert_eq!(r.direction, Direction::Incoming);
    assert_eq!(dec(&a, &r.amount.unwrap()), 3);
    let failed = IssuanceCheck { passed: false, ..ok.clone() };
    let r = validate_asset_issuance(&failed);
    assert_eq!((r.user.as_str(), r.ticker.as_str()), ("alice", "ACME"));
    assert!(r.amount.is_none());
    let unknown = IssuanceCheck { issuer: None, ..ok };
    let r = validate_asset_issuance(&unknown);
    assert_eq!((r.user.as_str(), r.ticker.as_str()), ("n/a", "n/a"));
    assert!(r.amount.is_none());
}

#[test]
fn transfer_results() {
    let a = party(1);
    let b = party(2);
    let check = TransferCheck {
        sender: Some("alice".to_string()),
        receiver: Some(aref("bob", "ACME")),
        passed: true,
        enc_amount_using_sndr: enc(&a, 9, 1),
        enc_amount_using_rcvr: enc(&b, 9, 2),
    };
    let (s, r) = validate_transaction(&check);
    assert_eq!((s.user.as_str(), s.ticker.as_str(), s.direction), ("alice", "ACME", Direction::Outgoing));
    assert_eq!((r.user.as_str(), r.ticker.as_str(), r.direction), ("bob", "ACME", Direction::Incoming));
    assert_eq!(dec(&a, &s.amount.unwrap()), 9);
    assert_eq!(dec(&b, &r.amount.unwrap()), 9);
    let unknown = TransferCheck { receiver: None, ..check };
    let (s, r) = validate_transaction(&unknown);
    assert_eq!(s.user, "n/a");
    assert_eq!(r.user, "n/a");
    assert!(s.amount.is_none() && r.amount.is_none());
    let e = ValidationResult::error("carol", "XYZ");
    assert_eq!((e.user.as_str(), e.ticker.as_str(), e.direction), ("carol", "XYZ", Direction::Incoming));
}

#[test]
fn pending_balance_subtracts_in_flight_amounts() {
    let a = party(1);
    let balance = enc(&a, 100, 3);
    let pending = compute_enc_pending_balance(&balance, &vec![enc(&a, 30, 4), enc(&a, 25, 5)]);
    assert_eq!(dec(&a, &pending), 45);
    let unchanged = compute_enc_pending_balance(&balance, &vec![]);
    assert_eq!(unchanged.to_bytes().to_vec(), balance.to_bytes().to_vec());
}

#[test]
fn loading_keeps_ready_transactions_and_stops_at_an_error() {
    let loaded = vec![
        Ok(CoreTransaction::Account { tx_id: 0, substate: TxSubstate::Started }),
        Ok(CoreTransaction::Account { tx_id: 1, substate: TxSubstate::Rejected }),
        Ok(CoreTransaction::Other { tx_id: 2 }),
        Ok(CoreTransaction::Account { tx_id: 3, substate: TxSubstate::Started }),
    ];
    let ready = load_all_unverified_and_ready(loaded).unwrap();
    assert_eq!(ready.len(), 2);
    assert_eq!(ready[0].tx_id(), 0);
    assert_eq!(ready[1].tx_id(), 3);
    let broken = vec![
        Ok(CoreTransaction::Account { tx_id: 0, substate: TxSubstate::Started }),
        Err(ValidatorError::UnreadableTransaction { reason: "bad name".to_string() }),
        Err(ValidatorError::UnreadableTransaction { reason: "later".to_string() }),
    ];
    assert_eq!(
        load_all_unverified_and_ready(broken).err(),
        Some(ValidatorError::UnreadableTransaction { reason: "bad name".to_string() })
    );
}

#[test]
fn pub_account_round_trips_through_bytes() {
    let a = party(3);
    let mut acc = account("alice", "ACME", 77, &a, 12).account;
    let bytes = acc.to_bytes();
    assert_eq!(bytes.len(), 169);
    let back = PubAccount::from_bytes(&bytes).unwrap();
    assert_eq!(back.to_bytes(), bytes);
    assert_eq!(back.id, 77);
    assert_eq!(back.memo.last_processed_tx_counter, None);
    assert_eq!(dec(&a, &back.enc_balance), 12);

    acc.memo.last_processed_tx_counter = Some(0x01020304);
    let bytes = acc.to_bytes();
    assert_eq!(&bytes[164..], &[1u8, 4, 3, 2, 1]);
    let back = PubAccount::from_bytes(&bytes).unwrap();
    assert_eq!(back.memo.last_processed_tx_counter, Some(0x01020304));

    let mut bad_flag = bytes.clone();
    bad_flag[164] = 2;
    assert!(matches!(PubAccount::from_bytes(&bad_flag), Err(mercat_proofs::errors::ProofError::InvalidEncoding)));
    let mut short = bytes.clone();
    short.pop();
    assert!(matches!(PubAccount::from_bytes(&short), Err(mercat_proofs::errors::ProofError::InvalidEncoding)));
    let mut bad_point = bytes;
    for b in bad_point[68..100].iter_mut() {
        *b = 0xff;
    }
    assert!(matches!(PubAccount::from_bytes(&bad_point), Err(mercat_proofs::errors::ProofError::InvalidEncoding)));
}

#[test]
fn last_validated_id_never_decreases() {
    let a = party(1);
    let b = party(2);
    let ledger = vec![account("alice", "ACME", 1, &a, 0), account("bob", "ACME", 2, &b, 0)];
    let txs = vec![issue(3, &a, 5, true), transfer(4, &a, &b, 1, true)];
    assert_eq!(validate_all_pending(&txs, &ledger, 10).unwrap().last_validated_tx_id, 10);
    assert_eq!(validate_all_pending(&txs, &ledger, 3).unwrap().last_validated_tx_id, 4);
}
