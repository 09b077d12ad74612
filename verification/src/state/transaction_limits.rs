//! Daily spending limits per user, kept beside the shielded pool.
use vstd::prelude::*;

verus! {

/// Seconds in one day, the period after which the counters start anew.
pub const SECONDS_PER_DAY: i64 = 86_400;

/// Daily cross-border limit of a fresh account, in lamports: 10 SOL.
pub const DEFAULT_DAILY_LIMIT: u64 = 10_000_000_000;

/// A spending rule was broken.
#[derive(Debug, PartialEq, Eq)]
pub enum TransactionLimitError {
    /// The amount would take the day's cross-border total over the limit.
    DailyLimitExceeded,
    /// The amount is not one that can be transferred.
    InvalidAmount,
    /// The transaction could not be written to the history.
    RecordingFailed,
}

/// One user's counters for the current day.
#[derive(Clone, Copy, Debug)]
pub struct TransactionLimits {
    /// The user's wallet address.
    pub user: [u8; 32],
    /// Cross-border amount spent today, in lamports.
    pub daily_cross_border_spent: u64,
    /// Cross-border amount allowed per day, in lamports.
    pub daily_cross_border_limit: u64,
    /// Unix time at which the counters were last reset.
    pub last_reset_date: i64,
    /// Domestic transactions made today.
    pub domestic_tx_count: u32,
    /// Cross-border transactions made today.
    pub cross_border_tx_count: u32,
    /// Bump seed of the account that stores these counters.
    pub bump: u8,
}

/// One entry of the transaction history.
#[derive(Debug)]
pub struct TransactionRecord {
    /// Unique transaction id.
    pub tx_id: [u8; 32],
    /// The user who started the transaction.
    pub user: [u8; 32],
    /// The recipient's address.
    pub recipient: [u8; 32],
    /// Amount in lamports.
    pub amount: u64,
    /// Whether the transaction crosses a border.
    pub is_cross_border: bool,
    /// 0 for pending, 1 for confirmed, 2 for failed.
    pub status: u8,
    /// Unix time of the transaction.
    pub timestamp: i64,
    /// Signature of the transaction on the chain.
    pub signature: String,
    /// Bump seed of the account that stores this record.
    pub bump: u8,
}

impl TransactionLimits {
    /// Whether a cross-border spend of `amount` stays within today's limit.
    pub open spec fn within_limit(&self, amount: u64) -> bool {
        self.daily_cross_border_spent + amount <= self.daily_cross_border_limit
    }

    /// Whether a full day has passed since the counters were last reset.
    pub fn should_reset(&self, now: i64) -> (due: bool)
        ensures
            due == (now - self.last_reset_date >= SECONDS_PER_DAY),
    {
        let last = self.last_reset_date;
        if now < last {
            false
        } else if last >= 0 || now < 0 {
            now - last >= SECONDS_PER_DAY
        } else {
            now >= SECONDS_PER_DAY || now - SECONDS_PER_DAY >= last
        }
    }

    /// Starts a new day at `now`: all counters go back to zero.
    pub fn reset_daily(&mut self, now: i64)
        ensures
            *final(self) == (TransactionLimits {
                daily_cross_border_spent: 0,
                domestic_tx_count: 0,
                cross_border_tx_count: 0,
                last_reset_date: now,
                ..*old(self)
            }),
    {
        self.daily_cross_border_spent = 0;
        self.domestic_tx_count = 0;
        self.cross_border_tx_count = 0;
        self.last_reset_date = now;
    }

    /// Whether a cross-border spend of `amount` stays within today's limit.
    pub fn can_spend_cross_border(&self, amount: u64) -> (allowed: bool)
        ensures
            allowed == self.within_limit(amount),
    {
        self.daily_cross_border_spent <= self.daily_cross_border_limit && amount
            <= self.daily_cross_border_limit - self.daily_cross_border_spent
    }

    /// Books a cross-border spend of `amount`, or refuses it when it would
    /// exceed today's limit.  A refused spend changes nothing.
    pub fn add_cross_border_spending(&mut self, amount: u64) -> (result: Result<
        (),
        TransactionLimitError,
    >)
        requires
            old(self).cross_border_tx_count < u32::MAX,
        ensures
            result is Ok <==> old(self).within_limit(amount),
            match result {
                Ok(_) => *final(self) == (TransactionLimits {
                    daily_cross_border_spent: (old(self).daily_cross_border_spent + amount) as u64,
                    cross_border_tx_count: (old(self).cross_border_tx_count + 1) as u32,
                    ..*old(self)
                }),
                Err(e) => e == TransactionLimitError::DailyLimitExceeded && *final(self) == *old(
                    self,
                ),
            },
    {
        if !self.can_spend_cross_border(amount) {
            return Err(TransactionLimitError::DailyLimitExceeded);
        }
        self.daily_cross_border_spent = self.daily_cross_border_spent + amount;
        self.cross_border_tx_count = self.cross_border_tx_count + 1;
        Ok(())
    }

    /// Counts one more domestic transaction.
    pub fn add_domestic_transaction(&mut self)
        requires
            old(self).domestic_tx_count < u32::MAX,
        ensures
            *final(self) == (TransactionLimits {
                domestic_tx_count: (old(self).domestic_tx_count + 1) as u32,
                ..*old(self)
            }),
    {
        self.domestic_tx_count = self.domestic_tx_count + 1;
    }
}

} // verus!
