//! A balance counter with a non-negative invariant: deposits grow the
//! balance, withdrawals are honoured exactly when they are covered, so the
//! balance can never drop below zero.

use vstd::prelude::*;

verus! {

pub struct Bank {
    balance: i32,
}

impl Bank {
    /// The current balance.
    pub closed spec fn balance_int(&self) -> int {
        self.balance as int
    }

    /// Law: the balance never drops below zero.
    pub open spec fn wf(&self) -> bool {
        self.balance_int() >= 0
    }

    /// Opens an account with nothing in it.
    pub fn new() -> (r: Bank)
        ensures
            r.wf(),
            r.balance_int() == 0,
    {
        Bank { balance: 0 }
    }

    /// Adds `amount` to the balance.
    pub fn deposit(&mut self, amount: i32)
        requires
            old(self).wf(),
            0 <= amount,
            old(self).balance_int() + amount <= i32::MAX,
        ensures
            final(self).wf(),
            final(self).balance_int() == old(self).balance_int() + amount,
    {
        self.balance = self.balance + amount;
    }

    /// Takes `amount` out of the balance when it is covered and reports
    /// whether it was; an uncovered withdrawal changes nothing.
    pub fn withdraw(&mut self, amount: i32) -> (ok: bool)
        requires
            old(self).wf(),
            0 <= amount,
        ensures
            final(self).wf(),
            ok == (old(self).balance_int() >= amount),
            ok ==> final(self).balance_int() == old(self).balance_int() - amount,
            !ok ==> final(self).balance_int() == old(self).balance_int(),
    {
        if self.balance >= amount {
            self.balance = self.balance - amount;
            true
        } else {
            false
        }
    }

    /// Reads the balance.
    pub fn balance(&self) -> (r: i32)
        ensures
            r == self.balance_int(),
    {
        self.balance
    }
}

} // verus!
