use vm_core::context::{TxContext, TxInput, TxPanic, STATUS_USER_ERROR};
use vm_core::exec_create::{sc_create, CallableContract};
use vm_core::storage::{storage_get, storage_set, DecodeTarget, TypedValue};
use vm_core::world::{Account, Ledger, LedgerError};

const SENDER: [u8; 32] = [1u8; 32];
const NEW_ADDR: [u8; 32] = [9u8; 32];

struct GreeterInit;

impl CallableContract for GreeterInit {
    fn init(&self, ctx: &mut TxContext) -> Result<(), TxPanic> {
        let greeting = ctx.get_argument_vec_u8(0)?;
        storage_set(ctx, &b"greeting".to_vec(), &TypedValue::Buffer(greeting));
        Ok(())
    }
}

struct FailingInit;

impl CallableContract for FailingInit {
    fn init(&self, _ctx: &mut TxContext) -> Result<(), TxPanic> {
        Err(TxPanic { status: STATUS_USER_ERROR, message: b"init rejected".to_vec() })
    }
}

fn seeded_ledger(balance: Vec<u8>, nonce: u64) -> Ledger {
    let mut ledger = Ledger::new();
    ledger.put_account(Account {
        address: SENDER.to_vec(),
        nonce,
        egld_balance: balance,
        contract_path: vec![],
        storage: vec![],
    });
    ledger.put_new_address(&SENDER.to_vec(), nonce, &NEW_ADDR.to_vec());
    ledger
}

fn deploy_input(value: Vec<u8>, gas_limit: u64, gas_price: u64, args: Vec<Vec<u8>>) -> TxInput {
    TxInput {
        from: SENDER.to_vec(),
        to: vec![0u8; 32],
        egld_value: value,
        func_name: b"init".to_vec(),
        args,
        gas_limit,
        gas_price,
    }
}

#[test]
fn deploy_succeeds_and_settles_balances() {
    // balance 1000, value 100, gas 10 * 2 = 20
    let mut ledger = seeded_ledger(vec![0x03, 0xe8], 5);
    let code = b"contract code".to_vec();
    let tx = deploy_input(vec![100], 10, 2, vec![b"hello".to_vec()]);
    let (result, pending) = sc_create(tx, &code, &mut ledger, &GreeterInit).unwrap();
    assert!(pending.is_none());
    assert_eq!(result.result_status, 0);

    let sender = ledger.get_account(&SENDER.to_vec()).unwrap();
    assert_eq!(sender.nonce, 6);
    // 1000 - 100 - 20 = 880
    assert_eq!(sender.egld_balance, vec![0x03, 0x70]);

    let deployed = ledger.get_account(&NEW_ADDR.to_vec()).unwrap();
    assert_eq!(deployed.nonce, 0);
    assert_eq!(deployed.egld_balance, vec![100]);
    assert_eq!(deployed.contract_path, code);

    // the storage written by init was committed to the new account
    let ctx = TxContext {
        input: deploy_input(vec![], 0, 0, vec![]),
        storage: deployed.storage.clone(),
        result: vm_core::context::TxResult {
            result_status: 0,
            result_message: vec![],
            result_values: vec![],
            result_logs: vec![],
        },
        arena: vec![],
    };
    match storage_get(&ctx, &b"greeting".to_vec(), DecodeTarget::Buffer).unwrap() {
        TypedValue::Buffer(b) => assert_eq!(b, b"hello".to_vec()),
        _ => panic!("expected a buffer"),
    }
}

#[test]
fn deploy_with_insufficient_value_keeps_nonce_increment() {
    // balance 50 < value 100
    let mut ledger = seeded_ledger(vec![50], 5);
    let tx = deploy_input(vec![100], 10, 2, vec![]);
    let err = sc_create(tx, &b"code".to_vec(), &mut ledger, &GreeterInit).unwrap_err();
    assert!(matches!(err, LedgerError::InsufficientFunds));

    let sender = ledger.get_account(&SENDER.to_vec()).unwrap();
    assert_eq!(sender.nonce, 6);
    assert_eq!(sender.egld_balance, vec![50]);
    assert!(ledger.get_account(&NEW_ADDR.to_vec()).is_none());
}

#[test]
fn deploy_with_insufficient_gas_keeps_value_debit() {
    // balance 110, value 100, gas 10 * 2 = 20 > 10 left
    let mut ledger = seeded_ledger(vec![110], 5);
    let tx = deploy_input(vec![100], 10, 2, vec![]);
    let err = sc_create(tx, &b"code".to_vec(), &mut ledger, &GreeterInit).unwrap_err();
    assert!(matches!(err, LedgerError::InsufficientFunds));

    let sender = ledger.get_account(&SENDER.to_vec()).unwrap();
    assert_eq!(sender.nonce, 6);
    assert_eq!(sender.egld_balance, vec![10]);
    assert!(ledger.get_account(&NEW_ADDR.to_vec()).is_none());
}

#[test]
fn failing_init_is_reported_on_the_output_not_as_an_error() {
    let mut ledger = seeded_ledger(vec![0x03, 0xe8], 5);
    let tx = deploy_input(vec![100], 10, 2, vec![]);
    let (result, _) = sc_create(tx, &b"code".to_vec(), &mut ledger, &FailingInit).unwrap();
    assert_eq!(result.result_status, STATUS_USER_ERROR);
    assert_eq!(result.result_message, b"init rejected".to_vec());

    // debits were applied regardless of the failing execution
    let sender = ledger.get_account(&SENDER.to_vec()).unwrap();
    assert_eq!(sender.nonce, 6);
    assert_eq!(sender.egld_balance, vec![0x03, 0x70]);
    let deployed = ledger.get_account(&NEW_ADDR.to_vec()).unwrap();
    assert_eq!(deployed.egld_balance, vec![100]);
}

#[test]
fn deploy_with_zero_value_and_zero_gas() {
    let mut ledger = seeded_ledger(vec![7], 0);
    let tx = deploy_input(vec![], 0, 0, vec![b"x".to_vec()]);
    let (result, _) = sc_create(tx, &b"code".to_vec(), &mut ledger, &GreeterInit).unwrap();
    assert_eq!(result.result_status, 0);
    let sender = ledger.get_account(&SENDER.to_vec()).unwrap();
    assert_eq!(sender.nonce, 1);
    assert_eq!(sender.egld_balance, vec![7]);
    let deployed = ledger.get_account(&NEW_ADDR.to_vec()).unwrap();
    assert_eq!(deployed.egld_balance, Vec::<u8>::new());
}
