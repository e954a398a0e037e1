//! What the stream of an account tells of orders, balances and positions, and how it is
//! kept open.
use vstd::prelude::*;

use crate::decimal::Dec;
use crate::initialization::BalanceSnapshot;
use crate::json::{read_text, text_at, Json};
use crate::numbers::{plain_number, plain_or_zero, read_plain};
use crate::quant::abs_of;
use crate::text::{copy_of, same_text};
use crate::user_stream::{to_position_update, update_is, PositionUpdate};

verus! {

/// How often a listen key is tried to be refreshed.
pub const KEEP_ALIVE_ATTEMPTS: u32 = 3;

/// The pause after the first attempt that fails, in seconds.
pub const KEEP_ALIVE_PAUSE_SECS: u64 = 10;

/// The pause after attempt `attempt` at refreshing a listen key has failed, counted from
/// one, in seconds: it doubles. `None` where it is given up.
pub fn keep_alive_pause(attempt: u32) -> (r: Option<u64>)
    requires
        attempt >= 1,
    ensures
        r == if attempt == 1 {
            Some(KEEP_ALIVE_PAUSE_SECS)
        } else if attempt == 2 {
            Some((KEEP_ALIVE_PAUSE_SECS * 2) as u64)
        } else {
            None
        },
        r is Some <==> attempt < KEEP_ALIVE_ATTEMPTS,
{
    if attempt == 1 {
        Some(KEEP_ALIVE_PAUSE_SECS)
    } else if attempt == 2 {
        Some(KEEP_ALIVE_PAUSE_SECS * 2)
    } else {
        None
    }
}

/// What a message of the stream is about.
#[derive(Clone, Copy, Debug, PartialEq, Eq, Structural)]
pub enum UserMessage {
    Order,
    Account,
    Other,
}

/// What a message of the stream is about.
pub open spec fn message_of(kind: Option<Seq<char>>) -> UserMessage {
    if kind == Some("ORDER_TRADE_UPDATE"@) {
        UserMessage::Order
    } else if kind == Some("ACCOUNT_UPDATE"@) {
        UserMessage::Account
    } else {
        UserMessage::Other
    }
}

/// What a message of the stream is about.
pub fn handle_user_message(message: &Json) -> (r: UserMessage)
    ensures
        r == message_of(text_at(*message, "e"@)),
{
    match read_text(message, "e") {
        Some(kind) => if same_text(kind, "ORDER_TRADE_UPDATE") {
            UserMessage::Order
        } else if same_text(kind, "ACCOUNT_UPDATE") {
            UserMessage::Account
        } else {
            UserMessage::Other
        },
        None => UserMessage::Other,
    }
}

/// A balance in an update of the account.
#[derive(Clone, Debug)]
pub struct AccountBalance {
    pub asset: String,
    pub wallet_balance: String,
}

/// A position in an update of the account.
#[derive(Clone, Debug)]
pub struct AccountPosition {
    pub symbol: String,
    pub position_amount: String,
    pub entry_price: String,
    pub unrealized_pnl: String,
}

impl AccountBalance {
    /// The balance; `None` where it cannot be read.
    pub fn to_balance_snapshot(&self) -> (r: Option<BalanceSnapshot>)
        ensures
            match plain_number(self.wallet_balance@) {
                Some(free) => r matches Some(b) && b.asset@ == self.asset@ && b.free == free,
                None => r is None,
            },
    {
        match read_plain(self.wallet_balance.as_str()) {
            Some(free) => Some(BalanceSnapshot { asset: copy_of(self.asset.as_str()), free }),
            None => None,
        }
    }
}

/// The balances among the first `n` that can be read, in their order.
pub open spec fn readable(balances: Seq<AccountBalance>, n: nat) -> Seq<(Seq<char>, Dec)>
    decreases n,
{
    if n == 0 {
        Seq::empty()
    } else {
        let head = readable(balances, (n - 1) as nat);
        match plain_number(balances[n - 1].wallet_balance@) {
            Some(free) => head.push((balances[n - 1].asset@, free)),
            None => head,
        }
    }
}

/// Balances as assets with what is free of them.
pub open spec fn told_balances(list: Seq<BalanceSnapshot>) -> Seq<(Seq<char>, Dec)> {
    list.map_values(|b: BalanceSnapshot| (b.asset@, b.free))
}

/// The balances that an update of the account tells; one that cannot be read is left out.
pub fn balance_updates(balances: &Vec<AccountBalance>) -> (r: Vec<BalanceSnapshot>)
    ensures
        told_balances(r@) == readable(balances@, balances@.len()),
{
    let mut v: Vec<BalanceSnapshot> = Vec::new();
    let mut i: usize = 0;
    assert(told_balances(v@) =~= readable(balances@, 0));
    while i < balances.len()
        invariant
            i <= balances@.len(),
            told_balances(v@) == readable(balances@, i as nat),
        decreases balances.len() - i,
    {
        let ghost before = v@;
        if let Some(b) = balances[i].to_balance_snapshot() {
            v.push(b);
            assert(told_balances(v@) =~= told_balances(before).push((b.asset@, b.free)));
        }
        i += 1;
    }
    v
}

/// The positions among the first `n` whose size can be read, in their order.
pub open spec fn readable_positions(positions: Seq<AccountPosition>, n: nat) -> Seq<
    AccountPosition,
>
    decreases n,
{
    if n == 0 {
        Seq::empty()
    } else {
        let head = readable_positions(positions, (n - 1) as nat);
        if plain_number(positions[n - 1].position_amount@) is Some {
            head.push(positions[n - 1])
        } else {
            head
        }
    }
}

/// `u` is what an update of the account says of a position.
pub open spec fn tells(u: PositionUpdate, p: AccountPosition, leverage: Dec) -> bool {
    &&& plain_number(p.position_amount@) matches Some(size) && update_is(
        u,
        p.symbol@,
        size,
        p.entry_price@,
        p.unrealized_pnl@,
    )
    &&& u.leverage == leverage
}

/// The positions that an update of the account tells; one whose size cannot be read is
/// left out.
pub fn position_updates(positions: &Vec<AccountPosition>, leverage: Dec) -> (r: Vec<PositionUpdate>)
    ensures
        r@.len() == readable_positions(positions@, positions@.len()).len(),
        forall|i: int|
            0 <= i < r@.len() ==> tells(
                #[trigger] r@[i],
                readable_positions(positions@, positions@.len())[i],
                leverage,
            ),
{
    let mut v: Vec<PositionUpdate> = Vec::new();
    let mut i: usize = 0;
    while i < positions.len()
        invariant
            i <= positions@.len(),
            v@.len() == readable_positions(positions@, i as nat).len(),
            forall|k: int|
                0 <= k < v@.len() ==> tells(
                    #[trigger] v@[k],
                    readable_positions(positions@, i as nat)[k],
                    leverage,
                ),
        decreases positions.len() - i,
    {
        let p = &positions[i];
        if let Some(u) = to_position_update(
            p.symbol.as_str(),
            p.position_amount.as_str(),
            p.entry_price.as_str(),
            p.unrealized_pnl.as_str(),
            leverage,
        ) {
            v.push(u);
        }
        i += 1;
    }
    v
}

/// A message tells of orders or of the account by its kind alone.
pub proof fn law_kinds_of_messages(kind: Option<Seq<char>>)
    ensures
        message_of(Some("ORDER_TRADE_UPDATE"@)) is Order,
        message_of(kind) is Order ==> kind == Some("ORDER_TRADE_UPDATE"@),
        message_of(kind) is Account ==> kind == Some("ACCOUNT_UPDATE"@),
        kind == Some("ACCOUNT_UPDATE"@) && kind != Some("ORDER_TRADE_UPDATE"@) ==> message_of(kind)
            is Account,
        message_of(None) is Other,
{
}

/// Each balance that can be read is told once, with what is in the wallet; the others are not told.
pub proof fn law_readable_balances(balances: Seq<AccountBalance>, n: nat)
    requires
        n < balances.len(),
    ensures
        readable(balances, 0).len() == 0,
        plain_number(balances[n as int].wallet_balance@) matches Some(free) ==> readable(
            balances,
            n + 1,
        ) == readable(balances, n).push((balances[n as int].asset@, free)),
        plain_number(balances[n as int].wallet_balance@) is None ==> readable(balances, n + 1)
            == readable(balances, n),
{
}

/// What an update tells of a position: its symbol, its side by the sign of the amount, and the
/// leverage it was given.
pub proof fn law_told_positions(u: PositionUpdate, p: AccountPosition, leverage: Dec, size: Dec)
    requires
        tells(u, p, leverage),
        plain_number(p.position_amount@) == Some(size),
    ensures
        u.symbol@ == p.symbol@,
        u.leverage == leverage,
        u.side is Short <==> size@ < 0,
        u.is_closed <==> size@ == 0,
        u.size == abs_of(size),
        u.entry_price == plain_or_zero(p.entry_price@),
        u.unrealized_pnl == plain_or_zero(p.unrealized_pnl@),
{
}

} // verus!
