//! The credit ledger: whether a balance covers a debit, and what a debit
//! writes. The balance is read from the index store by the caller and handed
//! in as the text that was found there.

use vstd::prelude::*;
use crate::decimal::Decimal;
use crate::decimal::MAX_SCALE;
use crate::decimal::MONEY_SCALE;
use crate::decimal::lemma_round_toward_zero_sign;
use crate::decimal::lemma_round_toward_zero_value;
use crate::decimal::pow10;
use crate::decimal::decimal_difference;
use crate::decimal::decimal_of_text;
use crate::decimal::parts_value;
use crate::decimal::round_toward_zero;
use crate::error::MatchError;
use crate::orderbook::CreditTransaction;
use crate::orderbook::OrderBook;
use crate::store::StoreCommand;
use crate::store::balance_key;
use crate::store::make_balance_key;
use crate::store::make_transactions_key;
use crate::store::transactions_key;

verus! {

/// What a successful debit leaves: the new balance, the record of the
/// transaction, and the two writes, which the store is to commit together.
#[derive(Debug)]
pub struct Debit {
    pub balance_after: Decimal,
    pub transaction: CreditTransaction,
    pub commands: Vec<StoreCommand>,
}

/// Mantissa and scale of the balance that a stored text stands for: zero
/// where nothing is stored, or what is stored is no number.
pub open spec fn stored_balance(stored: Option<Seq<char>>) -> (int, nat) {
    match stored {
        Some(text) => match decimal_of_text(text) {
            Some(parts) => parts,
            None => (0, 0),
        },
        None => (0, 0),
    }
}

/// The record of a debit.
pub open spec fn records(
    record: CreditTransaction,
    user_id: Seq<char>,
    amount: (int, nat),
    balance_after: (int, nat),
    provider_id: Seq<char>,
    now: u64,
) -> bool {
    &&& record.user_id@ == user_id
    &&& record.amount.parts() == amount
    &&& record.balance_after.parts() == balance_after
    &&& record.provider_id@ == provider_id
    &&& record.timestamp == now
    &&& record.transaction_type@ == "inference_usage"@
}

/// The two writes of a debit: the new balance, and one record appended to the
/// user's list of transactions.
pub open spec fn commits(
    commands: Seq<StoreCommand>,
    user_id: Seq<char>,
    balance_after: (int, nat),
    record: CreditTransaction,
) -> bool {
    &&& commands.len() == 2
    &&& commands[0] matches StoreCommand::SetBalance { key, balance }
    &&& key@ == balance_key(user_id)
    &&& balance.parts() == balance_after
    &&& commands[1] matches StoreCommand::AppendTransaction { key, record: appended }
    &&& key@ == transactions_key(user_id)
    &&& appended == record
}

/// What a debit ends in, given the amount and the difference of balance and
/// amount, both as mantissa and scale (no difference where it is beyond what
/// a decimal holds): the new balance is the difference cut to eight
/// fractional digits, and the debit fails where the amount or the new balance
/// is below zero.
pub open spec fn debit_outcome(
    result: Result<Debit, MatchError>,
    user_id: Seq<char>,
    amount: (int, nat),
    difference: Option<(int, nat)>,
    provider_id: Seq<char>,
    now: u64,
) -> bool {
    if parts_value(amount) < 0 {
        result == Err::<Debit, MatchError>(MatchError::InvalidArgument)
    } else {
        match difference {
            None => result == Err::<Debit, MatchError>(MatchError::Internal),
            Some(parts) => {
                let rounded = round_toward_zero(parts.0, parts.1, MONEY_SCALE as nat);
                if parts_value(rounded) < 0 {
                    result == Err::<Debit, MatchError>(MatchError::InsufficientCredits)
                } else {
                    &&& result matches Ok(debit)
                    &&& debit.balance_after.parts() == rounded
                    &&& debit.balance_after.value() >= 0
                    &&& records(debit.transaction, user_id, amount, rounded, provider_id, now)
                    &&& commits(debit.commands@, user_id, rounded, debit.transaction)
                }
            },
        }
    }
}

/// A debit of an amount that is not below zero succeeds exactly where the
/// difference of balance and amount is above `-10^-8`. The new balance is then
/// the difference cut toward zero to eight fractional digits: it is not below
/// zero and less than `10^-8` away from the difference. Exactly one record is
/// appended, and it carries the balance that is written.
pub proof fn lemma_debit(
    result: Result<Debit, MatchError>,
    user_id: Seq<char>,
    amount: (int, nat),
    difference: (int, nat),
    provider_id: Seq<char>,
    now: u64,
)
    requires
        debit_outcome(result, user_id, amount, Some(difference), provider_id, now),
        parts_value(amount) >= 0,
        difference.1 <= MAX_SCALE,
    ensures
        result is Ok <==> parts_value(difference) > -pow10((MAX_SCALE - MONEY_SCALE) as nat),
        result matches Ok(debit) ==> {
            let after = debit.balance_after.value();
            let exact = parts_value(difference);
            &&& debit.balance_after.parts() == round_toward_zero(
                difference.0,
                difference.1,
                MONEY_SCALE as nat,
            )
            &&& after >= 0
            &&& exact - pow10((MAX_SCALE - MONEY_SCALE) as nat) < after < exact + pow10(
                (MAX_SCALE - MONEY_SCALE) as nat,
            )
            &&& debit.commands@.len() == 2
            &&& debit.commands@[0] is SetBalance
            &&& debit.commands@[1] is AppendTransaction
            &&& debit.commands@[0]->balance.parts() == debit.balance_after.parts()
            &&& debit.commands@[1]->record == debit.transaction
            &&& debit.transaction.balance_after.parts() == debit.balance_after.parts()
            &&& debit.transaction.amount.parts() == amount
        },
        result matches Err(e) ==> e == MatchError::InsufficientCredits,
{
    lemma_round_toward_zero_sign(difference.0, difference.1, MONEY_SCALE as nat);
    lemma_round_toward_zero_value(difference.0, difference.1, MONEY_SCALE as nat);
}

/// The balance that a stored text stands for.
pub fn credit_balance(stored: Option<&str>) -> (balance: Decimal)
    ensures
        balance.parts() == stored_balance(
            match stored {
                Some(text) => Some(text@),
                None => None,
            },
        ),
{
    match stored {
        Some(text) => match Decimal::from_str(text) {
            Some(d) => d,
            None => Decimal::zero(),
        },
        None => Decimal::zero(),
    }
}

/// Ends a debit whose difference of balance and amount is `difference`: cuts
/// it to eight fractional digits, refuses a negative amount and a negative
/// new balance, and else hands out the record and the two writes.
pub fn settle_debit(
    user_id: &str,
    amount: &Decimal,
    difference: &Decimal,
    provider_id: &str,
    now: u64,
) -> (result: Result<Debit, MatchError>)
    ensures
        debit_outcome(
            result,
            user_id@,
            amount.parts(),
            Some(difference.parts()),
            provider_id@,
            now,
        ),
{
    if amount.is_negative() {
        return Err(MatchError::InvalidArgument);
    }
    let balance_after = difference.round_to_zero(MONEY_SCALE);
    if balance_after.is_negative() {
        return Err(MatchError::InsufficientCredits);
    }
    let transaction = CreditTransaction {
        user_id: String::from_str(user_id),
        amount: *amount,
        balance_after,
        provider_id: String::from_str(provider_id),
        timestamp: now,
        transaction_type: String::from_str("inference_usage"),
    };
    let mut commands: Vec<StoreCommand> = Vec::new();
    commands.push(
        StoreCommand::SetBalance { key: make_balance_key(user_id), balance: balance_after },
    );
    commands.push(
        StoreCommand::AppendTransaction {
            key: make_transactions_key(user_id),
            record: transaction.clone(),
        },
    );
    Ok(Debit { balance_after, transaction, commands })
}

/// Debits `amount` from `balance`.
pub fn debit_balance(
    user_id: &str,
    balance: &Decimal,
    amount: &Decimal,
    provider_id: &str,
    now: u64,
) -> (result: Result<Debit, MatchError>)
    ensures
        debit_outcome(
            result,
            user_id@,
            amount.parts(),
            decimal_difference(
                balance.spec_mantissa(),
                balance.spec_scale(),
                amount.spec_mantissa(),
                amount.spec_scale(),
            ),
            provider_id@,
            now,
        ),
{
    if amount.is_negative() {
        return Err(MatchError::InvalidArgument);
    }
    match balance.checked_sub(amount) {
        Some(difference) => settle_debit(user_id, amount, &difference, provider_id, now),
        None => Err(MatchError::Internal),
    }
}

impl OrderBook {
    /// Whether the stored balance covers `required_credits`.
    pub fn verify_credits(&self, stored: Option<&str>, required_credits: &Decimal) -> (covered:
        bool)
        ensures
            covered == (parts_value(
                stored_balance(
                    match stored {
                        Some(text) => Some(text@),
                        None => None,
                    },
                ),
            ) >= required_credits.value()),
    {
        let balance = credit_balance(stored);
        balance.ge(required_credits)
    }

    /// Debits `amount` from the stored balance of the user in favour of the
    /// provider: the new balance is the difference cut to eight fractional
    /// digits, and where it is not below zero one record is appended with it.
    pub fn deduct_credits(
        &self,
        user_id: &str,
        stored: Option<&str>,
        amount: &Decimal,
        provider_id: &str,
        now: u64,
    ) -> (result: Result<Debit, MatchError>)
        ensures
            ({
                let balance = stored_balance(
                    match stored {
                        Some(text) => Some(text@),
                        None => None,
                    },
                );
                debit_outcome(
                    result,
                    user_id@,
                    amount.parts(),
                    decimal_difference(
                        balance.0,
                        balance.1,
                        amount.spec_mantissa(),
                        amount.spec_scale(),
                    ),
                    provider_id@,
                    now,
                )
            }),
    {
        let balance = credit_balance(stored);
        debit_balance(user_id, &balance, amount, provider_id, now)
    }
}

} // verus!
