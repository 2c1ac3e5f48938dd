//! The transaction pipeline for contract deployment: admit (nonce), debit
//! value and gas, provision the new account, execute the contract's
//! initialization entry point in a fresh execution context, and commit.
//! Debit failures are structural errors returned to the pipeline's caller;
//! execution-time failures surface only as the status code on the
//! transaction output — the pipeline itself always completes.
use vstd::prelude::*;

use crate::bytes::{be_unsigned, canonical_mag};
use crate::context::{storage_wf, TxContext, TxInput, TxPanic, TxResult};
use crate::world::{
    account_adjusted, account_index, lemma_account_index_char, lemma_account_index_none,
    lemma_account_index_props, new_address_index, Account, Ledger, LedgerError,
};

verus! {

/// A pending asynchronous follow-up call, dispatched later as a new,
/// independent transaction; a deployment never requests one.
#[derive(Debug)]
pub struct AsyncCallTxData {
    pub from: Vec<u8>,
    pub to: Vec<u8>,
    pub call_value: Vec<u8>,
    pub endpoint_name: Vec<u8>,
    pub arguments: Vec<Vec<u8>>,
}

/// A deployable contract body: the external collaborator the pipeline runs.
/// Its initialization entry point may read arguments, write storage and emit
/// logs through the execution context, and either finishes or raises the
/// transaction-terminating panic.
pub trait CallableContract {
    fn init(&self, ctx: &mut TxContext) -> (r: Result<(), TxPanic>)
        requires
            old(ctx).input.wf(),
            storage_wf(old(ctx).storage@),
        ensures
            final(ctx).input == old(ctx).input,
            storage_wf(final(ctx).storage@),
    ;
}

/// Records an execution outcome on the transaction output: a completed
/// initialization keeps the accumulated result untouched, while a panic
/// overwrites its status and message — execution-time failures surface only
/// here, never as a structural error of the pipeline.
pub fn report_outcome(result: TxResult, outcome: Result<(), TxPanic>) -> (r: TxResult)
    ensures
        outcome is Ok ==> r == result,
        outcome matches Err(p) ==> r == (TxResult {
            result_status: p.status,
            result_message: p.message,
            ..result
        }),
{
    match outcome {
        Ok(_) => result,
        Err(p) => TxResult {
            result_status: p.status,
            result_message: p.message,
            result_values: result.result_values,
            result_logs: result.result_logs,
        },
    }
}

/// Deploys a contract: increments the sender's nonce (never rolled back),
/// debits the transferred value and then the flat gas cost (each failure is
/// a terminal structural error that keeps the earlier steps' effects),
/// provisions the new account under its preset address with the supplied
/// code and the transferred value, runs the contract's initialization entry
/// point, and commits the storage it accumulated regardless of its status.
pub fn sc_create<C: CallableContract>(
    tx_input: TxInput,
    contract_path: &Vec<u8>,
    state: &mut Ledger,
    contract: &C,
) -> (r: Result<(TxResult, Option<AsyncCallTxData>), LedgerError>)
    requires
        old(state).wf(),
        tx_input.wf(),
        account_index(old(state).accounts@, tx_input.from@) >= 0,
        old(state).accounts@[account_index(old(state).accounts@, tx_input.from@)].nonce
            < u64::MAX,
        new_address_index(
            old(state).new_addresses@,
            tx_input.from@,
            old(state).accounts@[account_index(old(state).accounts@, tx_input.from@)].nonce,
        ) >= 0,
        account_index(
            old(state).accounts@,
            old(state).new_addresses@[new_address_index(
                old(state).new_addresses@,
                tx_input.from@,
                old(state).accounts@[account_index(old(state).accounts@, tx_input.from@)].nonce,
            )].new_address@,
        ) < 0,
    ensures
        ({
            let accounts0 = old(state).accounts@;
            let si = account_index(accounts0, tx_input.from@);
            let sender0 = accounts0[si];
            let b = sender0.balance();
            let v = be_unsigned(tx_input.egld_value@);
            let g = (tx_input.gas_limit as nat) * (tx_input.gas_price as nat);
            let nai = new_address_index(old(state).new_addresses@, tx_input.from@, sender0.nonce);
            let new_addr = old(state).new_addresses@[nai].new_address@;
            &&& final(state).wf()
            &&& final(state).new_addresses == old(state).new_addresses
            &&& (b < v ==> (r matches Err(e) && e is InsufficientFunds && final(state).accounts@.len() == accounts0.len() && (forall|j: int|
                0 <= j < accounts0.len() && j != si ==> final(state).accounts@[j] == accounts0[j])
                && final(state).accounts@[si] == Account {
                nonce: (sender0.nonce + 1) as u64,
                ..sender0
            }))
            &&& (b >= v && b - v < g ==> (r matches Err(e) && e is InsufficientFunds && final(state).accounts@.len() == accounts0.len() && (forall|j: int|
                0 <= j < accounts0.len() && j != si ==> final(state).accounts@[j] == accounts0[j])
                && account_adjusted(
                sender0,
                final(state).accounts@[si],
                (sender0.nonce + 1) as u64,
                (b - v) as nat,
            )))
            &&& (b >= v + g ==> (r matches Ok(pair) && pair.1 is None && final(state).accounts@.len() == accounts0.len() + 1 && (forall|j: int|
                0 <= j < accounts0.len() && j != si ==> final(state).accounts@[j] == accounts0[j])
                && account_adjusted(
                sender0,
                final(state).accounts@[si],
                (sender0.nonce + 1) as u64,
                (b - v - g) as nat,
            ) && final(state).accounts@.last().address@ == new_addr && final(state).accounts@.last().nonce == 0 && be_unsigned(
                final(state).accounts@.last().egld_balance@,
            ) == v && canonical_mag(final(state).accounts@.last().egld_balance@) && final(state).accounts@.last().contract_path@ == contract_path@))
        }),
{
    let ghost accounts0 = state.accounts@;
    let ghost si = account_index(accounts0, tx_input.from@);
    proof {
        lemma_account_index_props(accounts0, tx_input.from@);
    }
    let tx_nonce: u64 = match state.get_account(&tx_input.from) {
        Some(a) => a.nonce,
        None => {
            proof {
                assert(false);
            }
            0
        },
    };
    state.increase_account_nonce(&tx_input.from);
    proof {
        assert(state.accounts@[si].address@ == tx_input.from@);
        assert(forall|j: int| 0 <= j < si ==> state.accounts@[j] == accounts0[j]);
        lemma_account_index_char(state.accounts@, tx_input.from@, si);
    }
    state.subtract_egld_balance(&tx_input.from, &tx_input.egld_value)?;
    proof {
        assert(state.accounts@[si].address@ == tx_input.from@);
        assert(forall|j: int| 0 <= j < si ==> state.accounts@[j] == accounts0[j]);
        lemma_account_index_char(state.accounts@, tx_input.from@, si);
    }
    state.subtract_tx_gas(&tx_input.from, tx_input.gas_limit, tx_input.gas_price)?;
    proof {
        assert(state.accounts@[si].address@ == tx_input.from@);
        assert(forall|j: int| 0 <= j < si ==> state.accounts@[j] == accounts0[j]);
        lemma_account_index_char(state.accounts@, tx_input.from@, si);
    }
    let ghost nai = new_address_index(state.new_addresses@, tx_input.from@, tx_nonce);
    let new_address: Vec<u8> = match state.get_new_address(&tx_input.from, tx_nonce) {
        Some(a) => a,
        None => {
            proof {
                assert(false);
            }
            Vec::new()
        },
    };
    proof {
        lemma_account_index_props(accounts0, new_address@);
        assert forall|j: int| 0 <= j < state.accounts@.len() implies state.accounts@[j].address@
            != new_address@ by {
            assert(state.accounts@[j].address@ == accounts0[j].address@);
        }
        lemma_account_index_none(state.accounts@, new_address@);
    }
    state.create_account(&new_address, contract_path);
    state.increase_egld_balance(&new_address, &tx_input.egld_value);
    proof {
        assert(state.accounts@[si].address@ == tx_input.from@);
        assert(forall|j: int| 0 <= j < si ==> state.accounts@[j].address@ != tx_input.from@);
    }
    let mut ctx = TxContext::new(tx_input);
    let init_result = contract.init(&mut ctx);
    proof {
        assert(state.accounts@[accounts0.len() as int].address@ == new_address@);
        assert(forall|j: int|
            0 <= j < accounts0.len() ==> state.accounts@[j].address@ != new_address@);
        lemma_account_index_char(state.accounts@, new_address@, accounts0.len() as int);
    }
    let TxContext { input: _, storage: ctx_storage, result, arena: _ } = ctx;
    state.set_account_storage(&new_address, ctx_storage);
    let tx_result = report_outcome(result, init_result);
    proof {
        assert(final(state).accounts@.last() == state.accounts@.last());
    }
    Ok((tx_result, None))
}

} // verus!
