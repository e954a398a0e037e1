//! Requests to the futures exchange that carry few parameters, and what their answers mean.
use vstd::prelude::*;

use crate::api_errors::is_order_unknown;
use crate::connection::{margin_type_word, push_param};
use crate::query::{clocked, push_clock};
use crate::rules::{rules_from_fut_symbol, rules_of, FutExchangeSymbol, SymbolRules};
use crate::signing::pairs;
use crate::text::{copy_of, lowercase, occurs_in};
use crate::types::SymbolMeta;

verus! {

/// How often the rules of a symbol are asked for again.
pub const MAX_RULES_RETRIES: u32 = 2;

/// The pause before they are asked for again the first time, in milliseconds.
pub const INITIAL_RULES_BACKOFF_MS: u64 = 100;

/// Two names with their values, and the clock.
fn two_params(
    first: &str,
    first_value: &str,
    second: &str,
    second_value: &str,
    timestamp: u64,
    recv_window_ms: u64,
) -> (r: Vec<(String, String)>)
    ensures
        pairs(r@) == clocked(
            seq![(first@, first_value@), (second@, second_value@)],
            timestamp as nat,
            recv_window_ms as nat,
        ),
{
    let mut v: Vec<(String, String)> = Vec::new();
    assert(pairs(v@) =~= Seq::<(Seq<char>, Seq<char>)>::empty());
    push_param(&mut v, first, first_value);
    push_param(&mut v, second, second_value);
    assert(pairs(v@) =~= seq![(first@, first_value@), (second@, second_value@)]);
    push_clock(&mut v, timestamp, recv_window_ms);
    v
}

/// The parameters for holding long and short positions apart, or together.
pub fn position_side_params(dual: bool, timestamp: u64, recv_window_ms: u64) -> (r: Vec<
    (String, String),
>)
    ensures
        pairs(r@) == clocked(
            seq![
                (
                    "dualSidePosition"@,
                    if dual {
                        "true"@
                    } else {
                        "false"@
                    },
                ),
            ],
            timestamp as nat,
            recv_window_ms as nat,
        ),
{
    let mut v: Vec<(String, String)> = Vec::new();
    assert(pairs(v@) =~= Seq::<(Seq<char>, Seq<char>)>::empty());
    let word = if dual {
        "true"
    } else {
        "false"
    };
    push_param(&mut v, "dualSidePosition", word);
    assert(pairs(v@) =~= seq![("dualSidePosition"@, word@)]);
    push_clock(&mut v, timestamp, recv_window_ms);
    v
}

/// The parameters for setting how margin is held.
pub fn margin_type_params(symbol: &str, isolated: bool, timestamp: u64, recv_window_ms: u64) -> (r:
    Vec<(String, String)>)
    ensures
        pairs(r@) == clocked(
            seq![("symbol"@, symbol@), ("marginType"@, margin_type_word(isolated))],
            timestamp as nat,
            recv_window_ms as nat,
        ),
{
    let word = if isolated {
        "ISOLATED"
    } else {
        "CROSSED"
    };
    two_params("symbol", symbol, "marginType", word, timestamp, recv_window_ms)
}

/// The parameters for cancelling an order.
pub fn cancel_params(symbol: &str, order_id: &str, timestamp: u64, recv_window_ms: u64) -> (r: Vec<
    (String, String),
>)
    ensures
        pairs(r@) == clocked(
            seq![("symbol"@, symbol@), ("orderId"@, order_id@)],
            timestamp as nat,
            recv_window_ms as nat,
        ),
{
    two_params("symbol", symbol, "orderId", order_id, timestamp, recv_window_ms)
}

/// The parameters for asking for an order by the name that it was sent with.
pub fn order_query_params(
    symbol: &str,
    client_order_id: &str,
    timestamp: u64,
    recv_window_ms: u64,
) -> (r: Vec<(String, String)>)
    ensures
        pairs(r@) == clocked(
            seq![("symbol"@, symbol@), ("origClientOrderId"@, client_order_id@)],
            timestamp as nat,
            recv_window_ms as nat,
        ),
{
    two_params("symbol", symbol, "origClientOrderId", client_order_id, timestamp, recv_window_ms)
}

/// What the answer to a question for an order says.
#[derive(Clone, Copy, Debug, PartialEq, Eq, Structural)]
pub enum OrderQueryOutcome {
    Found,
    NotFound,
    Failed,
}

/// What the answer to a question for an order says. An order that cannot be read was not
/// found; any other answer than that there is no such order fails.
pub fn order_query_outcome(success: bool, readable: bool, body: &str) -> (r: OrderQueryOutcome)
    ensures
        r == if success {
            if readable {
                OrderQueryOutcome::Found
            } else {
                OrderQueryOutcome::NotFound
            }
        } else if occurs_in(lowercase(body@), "-2013"@) || occurs_in(
            lowercase(body@),
            "order does not exist"@,
        ) {
            OrderQueryOutcome::NotFound
        } else {
            OrderQueryOutcome::Failed
        },
{
    if success {
        if readable {
            OrderQueryOutcome::Found
        } else {
            OrderQueryOutcome::NotFound
        }
    } else if is_order_unknown(body) {
        OrderQueryOutcome::NotFound
    } else {
        OrderQueryOutcome::Failed
    }
}

/// What follows a question for the rules of a symbol.
#[derive(Clone, Copy, Debug, PartialEq, Eq, Structural)]
pub enum RulesStep {
    /// The first symbol of the answer is the one.
    Read,
    /// There was an answer, and no symbol in it.
    SymbolMissing,
    /// Ask again after so many milliseconds.
    RetryAfter(u64),
    GiveUp,
}

/// What follows attempt `attempt`, counted from zero, at asking for the rules of a symbol:
/// `listed` is how many symbols the answer lists, where there was one.
pub open spec fn rules_step_of(attempt: u32, listed: Option<usize>) -> RulesStep {
    match listed {
        Some(n) => if n > 0 {
            RulesStep::Read
        } else {
            RulesStep::SymbolMissing
        },
        None => if attempt == 0 {
            RulesStep::RetryAfter(INITIAL_RULES_BACKOFF_MS)
        } else if attempt == 1 {
            RulesStep::RetryAfter((INITIAL_RULES_BACKOFF_MS * 2) as u64)
        } else {
            RulesStep::GiveUp
        },
    }
}

/// What follows a question for the rules of a symbol: it is put again twice, after a pause
/// that doubles.
pub fn rules_step(attempt: u32, listed: Option<usize>) -> (r: RulesStep)
    ensures
        r == rules_step_of(attempt, listed),
        r is RetryAfter <==> listed is None && attempt < MAX_RULES_RETRIES,
{
    match listed {
        Some(n) => if n > 0 {
            RulesStep::Read
        } else {
            RulesStep::SymbolMissing
        },
        None => if attempt == 0 {
            RulesStep::RetryAfter(INITIAL_RULES_BACKOFF_MS)
        } else if attempt == 1 {
            RulesStep::RetryAfter(INITIAL_RULES_BACKOFF_MS * 2)
        } else {
            RulesStep::GiveUp
        },
    }
}

/// The rules of the first symbol that is listed, with the leverage that was asked for
/// separately. `None` where none is listed.
pub fn listed_rules(symbols: &Vec<FutExchangeSymbol>, max_leverage: Option<u32>) -> (r: Option<
    SymbolRules,
>)
    ensures
        r == if symbols@.len() == 0 {
            None::<SymbolRules>
        } else {
            Some(SymbolRules { max_leverage, ..rules_of(symbols@[0]) })
        },
{
    if symbols.len() == 0 {
        return None;
    }
    let rules = rules_from_fut_symbol(&symbols[0]);
    Some(SymbolRules { max_leverage, ..rules })
}

/// `m` says what the exchange lists of a symbol.
pub open spec fn meta_is(m: SymbolMeta, s: FutExchangeSymbol) -> bool {
    &&& m.symbol@ == s.symbol@
    &&& m.base_asset@ == s.base_asset@
    &&& m.quote_asset@ == s.quote_asset@
    &&& m.status matches Some(t) && t@ == s.status@
    &&& m.contract_type matches Some(t) && t@ == s.contract_type@
}

/// What the exchange says of each symbol, in the order listed.
pub fn symbol_metadata(symbols: &Vec<FutExchangeSymbol>) -> (r: Vec<SymbolMeta>)
    ensures
        r@.len() == symbols@.len(),
        forall|i: int| 0 <= i < r@.len() ==> meta_is(#[trigger] r@[i], symbols@[i]),
{
    let mut v: Vec<SymbolMeta> = Vec::new();
    let mut i: usize = 0;
    while i < symbols.len()
        invariant
            i <= symbols@.len(),
            v@.len() == i,
            forall|k: int| 0 <= k < i ==> meta_is(#[trigger] v@[k], symbols@[k]),
        decreases symbols.len() - i,
    {
        let s = &symbols[i];
        v.push(
            SymbolMeta {
                symbol: copy_of(s.symbol.as_str()),
                base_asset: copy_of(s.base_asset.as_str()),
                quote_asset: copy_of(s.quote_asset.as_str()),
                status: Some(copy_of(s.status.as_str())),
                contract_type: Some(copy_of(s.contract_type.as_str())),
            },
        );
        i += 1;
    }
    v
}

/// The base and the quote asset of the first symbol that is listed. `None` where none is.
pub fn symbol_assets(symbols: &Vec<FutExchangeSymbol>) -> (r: Option<(String, String)>)
    ensures
        r is None <==> symbols@.len() == 0,
        r matches Some(a) ==> a.0@ == symbols@[0].base_asset@ && a.1@
            == symbols@[0].quote_asset@,
{
    if symbols.len() == 0 {
        return None;
    }
    let s = &symbols[0];
    Some((copy_of(s.base_asset.as_str()), copy_of(s.quote_asset.as_str())))
}

/// The rules of a symbol are asked for three times at most, a tenth of a second and then two tenths
/// apart; a list that is empty does not have the symbol, and any other is read.
pub proof fn law_asking_for_rules(attempt: u32, listed: Option<usize>)
    ensures
        listed matches Some(n) ==> (n == 0 <==> rules_step_of(attempt, listed) is SymbolMissing),
        listed matches Some(n) ==> (n > 0 <==> rules_step_of(attempt, listed) is Read),
        rules_step_of(0, None) == RulesStep::RetryAfter(100),
        rules_step_of(1, None) == RulesStep::RetryAfter(200),
        attempt >= 2 ==> rules_step_of(attempt, None) is GiveUp,
{
}

/// What a symbol is told to be is what its entry says.
pub proof fn law_metadata(m: SymbolMeta, s: FutExchangeSymbol)
    requires
        meta_is(m, s),
    ensures
        m.symbol@ == s.symbol@ && m.base_asset@ == s.base_asset@ && m.quote_asset@
            == s.quote_asset@,
        m.status is Some && m.status->0@ == s.status@,
        m.contract_type is Some && m.contract_type->0@ == s.contract_type@,
{
}

} // verus!
