//! The accounts that funds are sent from.

use vstd::prelude::*;

use crate::sender::Key;
use crate::sender::Sender;

verus! {

/// Creates a sender for each account index, from zero on.
pub fn senders(account_count: u32) -> (senders: Vec<(Key, Sender)>)
    ensures
        senders@.len() == account_count,
        forall|i: int|
            0 <= i < senders@.len() ==> (#[trigger] senders@[i]).0 == i && senders@[i].1.account
                == i && senders@[i].1.batch@.len() == 0 && senders@[i].1.number == 0,
{
    let mut senders: Vec<(Key, Sender)> = Vec::new();
    let mut account: u32 = 0;
    while account < account_count
        invariant
            account <= account_count,
            senders@.len() == account,
            forall|i: int|
                0 <= i < senders@.len() ==> (#[trigger] senders@[i]).0 == i
                    && senders@[i].1.account == i && senders@[i].1.batch@.len() == 0 && senders@[i].1.number == 0,
        decreases account_count - account,
    {
        senders.push((account, Sender::new(account)));
        account = account + 1;
    }
    senders
}

/// Returns how many requests may be under way at a time: one per account.
pub fn concurrency(account_count: u32) -> (limit: usize)
    ensures
        limit == account_count,
{
    account_count as usize
}

/// Every account has one sender of its own, which has nothing to send yet, and as many requests may be
/// under way as there are senders.
pub proof fn law_every_account_has_a_sender(
    account_count: u32,
    made: Vec<(Key, Sender)>,
    limit: usize,
    account: u32,
)
    requires
        call_ensures(senders, (account_count,), made),
        call_ensures(concurrency, (account_count,), limit),
        account < account_count,
    ensures
        limit == made@.len(),
        made@[account as int].0 == account,
        made@[account as int].1.account == account,
        made@[account as int].1.batch@.len() == 0,
        made@[account as int].1.number == 0,
        forall|i: int|
            0 <= i < made@.len() && (#[trigger] made@[i]).1.account == account ==> i == account,
        forall|i: int| 0 <= i < made@.len() && (#[trigger] made@[i]).0 == account ==> i == account,
{
}

} // verus!
