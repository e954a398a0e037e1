//! Keeping the tasks of the bot in order: which symbols are traded, over which streams,
//! and what happens when the market is no longer heard.
use vstd::prelude::*;

use crate::initialization::{list_contains, texts};
use crate::text::{copy_of, glue5, i64_text, signed_text};

verus! {

/// From how many symbols on they share a stream.
pub const COMBINED_STREAM_SYMBOLS: usize = 3;

/// Whether the symbols share a stream.
pub fn use_combined_stream(symbols: usize) -> (r: bool)
    ensures
        r == (symbols >= COMBINED_STREAM_SYMBOLS),
{
    symbols >= COMBINED_STREAM_SYMBOLS
}

/// The symbols to begin with: those that were selected, or the one of the settings where
/// none could be, or none was to be.
pub fn initial_symbols(selected: Option<Vec<String>>, symbol: &str) -> (r: Vec<String>)
    ensures
        match selected {
            Some(v) => r == v,
            None => texts(r@) == seq![symbol@],
        },
{
    match selected {
        Some(v) => v,
        None => {
            let mut v: Vec<String> = Vec::new();
            v.push(copy_of(symbol));
            assert(texts(v@) =~= seq![symbol@]);
            v
        },
    }
}

/// The symbols among the first `n` that are held.
pub open spec fn held_among(symbols: Seq<Seq<char>>, held: Seq<Seq<char>>, n: nat) -> Seq<Seq<char>>
    decreases n,
{
    if n == 0 {
        Seq::empty()
    } else {
        let head = held_among(symbols, held, (n - 1) as nat);
        if held.contains(symbols[n - 1]) {
            head.push(symbols[n - 1])
        } else {
            head
        }
    }
}

/// The symbols that are no longer traded and are still held.
pub fn removed_but_held(removed: &Vec<String>, held: &Vec<String>) -> (r: Vec<String>)
    ensures
        texts(r@) == held_among(texts(removed@), texts(held@), removed@.len()),
{
    let mut v: Vec<String> = Vec::new();
    let ghost all = texts(removed@);
    let mut i: usize = 0;
    assert(texts(v@) =~= held_among(all, texts(held@), 0));
    while i < removed.len()
        invariant
            i <= removed@.len(),
            all == texts(removed@),
            texts(v@) == held_among(all, texts(held@), i as nat),
        decreases removed.len() - i,
    {
        let ghost before = texts(v@);
        let symbol = removed[i].as_str();
        assert(all[i as int] == symbol@);
        if list_contains(held, symbol) {
            v.push(copy_of(symbol));
            assert(texts(v@) =~= before.push(symbol@));
        }
        i += 1;
    }
    v
}

/// What is done about a market that is not heard.
#[derive(Clone, Copy, Debug, PartialEq, Eq, Structural)]
pub enum HealthAction {
    /// It is heard.
    Healthy,
    /// It is not heard, and that is all.
    Warn,
    /// It is not heard for so long that all positions are closed.
    ClosePositions,
}

/// What is done about a market that is not heard: positions are closed where that is
/// asked for and the time is over.
pub fn health_action(
    is_stale: bool,
    close_positions: bool,
    seconds_since_update: i64,
    timeout_secs: i64,
) -> (r: HealthAction)
    ensures
        r == if !is_stale {
            HealthAction::Healthy
        } else if close_positions && seconds_since_update > timeout_secs {
            HealthAction::ClosePositions
        } else {
            HealthAction::Warn
        },
{
    if !is_stale {
        HealthAction::Healthy
    } else if close_positions && seconds_since_update > timeout_secs {
        HealthAction::ClosePositions
    } else {
        HealthAction::Warn
    }
}

/// Why positions are closed when the market is not heard.
pub fn disconnect_reason(seconds_since_update: i64, timeout_secs: i64) -> (r: String)
    ensures
        r@ == "WebSocket disconnected for "@ + signed_text(seconds_since_update as int)
            + "s (threshold: "@ + signed_text(timeout_secs as int) + "s)"@,
{
    let since = i64_text(seconds_since_update);
    let limit = i64_text(timeout_secs);
    glue5("WebSocket disconnected for ", since.as_str(), "s (threshold: ", limit.as_str(), "s)")
}

/// How many of the first `n` tasks are over.
pub open spec fn finished_among(finished: Seq<bool>, n: nat) -> nat
    decreases n,
{
    if n == 0 {
        0
    } else {
        finished_among(finished, (n - 1) as nat) + if finished[n - 1] {
            1nat
        } else {
            0
        }
    }
}

/// How many tasks are over.
pub fn finished_tasks(finished: &Vec<bool>) -> (r: usize)
    ensures
        r == finished_among(finished@, finished@.len()),
        r <= finished@.len(),
{
    let mut count: usize = 0;
    let mut i: usize = 0;
    while i < finished.len()
        invariant
            i <= finished@.len(),
            count == finished_among(finished@, i as nat),
            count <= i,
        decreases finished.len() - i,
    {
        if finished[i] {
            count += 1;
        }
        i += 1;
    }
    count
}

/// What an event loop does with what came out of its channel.
#[derive(Clone, Copy, Debug, PartialEq, Eq, Structural)]
pub enum LoopStep {
    /// Handle the event.
    Handle,
    /// Wait for the next one.
    Wait,
    /// Stop.
    Stop,
}

/// What came out of a channel.
#[derive(Clone, Copy, Debug, PartialEq, Eq, Structural)]
pub enum ChannelInput {
    Event,
    /// Some events were missed.
    Lagged,
    Closed,
}

/// What an event loop does: it stops when it is told to and when its channel is closed,
/// and misses nothing else.
pub fn event_loop_step(shutdown: bool, input: ChannelInput) -> (r: LoopStep)
    ensures
        r == match input {
            ChannelInput::Closed => LoopStep::Stop,
            ChannelInput::Lagged => LoopStep::Wait,
            ChannelInput::Event => if shutdown {
                LoopStep::Stop
            } else {
                LoopStep::Handle
            },
        },
{
    match input {
        ChannelInput::Closed => LoopStep::Stop,
        ChannelInput::Lagged => LoopStep::Wait,
        ChannelInput::Event => if shutdown {
            LoopStep::Stop
        } else {
            LoopStep::Handle
        },
    }
}

/// How far the readers of the market have come.
#[derive(Clone, Copy, Debug, PartialEq, Eq, Structural)]
pub enum ReaderLag {
    /// They have read all, or read on.
    Keeping,
    /// They have missed ticks.
    Behind,
    /// There is no one left.
    Gone,
}

/// What is sent to the readers of the market.
#[derive(Clone, Copy, Debug, PartialEq, Eq, Structural)]
pub enum TickDelivery {
    Send,
    /// Ask for the market anew and send that first.
    RecoverAndSend,
    Stop,
}

/// What is sent to the readers of the market when a tick comes in.
pub fn tick_delivery(lag: ReaderLag) -> (r: TickDelivery)
    ensures
        r == match lag {
            ReaderLag::Keeping => TickDelivery::Send,
            ReaderLag::Behind => TickDelivery::RecoverAndSend,
            ReaderLag::Gone => TickDelivery::Stop,
        },
{
    match lag {
        ReaderLag::Keeping => TickDelivery::Send,
        ReaderLag::Behind => TickDelivery::RecoverAndSend,
        ReaderLag::Gone => TickDelivery::Stop,
    }
}

/// A symbol that was taken out is still watched exactly where a position of it is held.
pub proof fn law_held_symbols(symbols: Seq<Seq<char>>, held: Seq<Seq<char>>, n: nat, s: Seq<char>)
    requires
        n <= symbols.len(),
    ensures
        held_among(symbols, held, n).contains(s) <==> symbols.take(n as int).contains(s)
            && held.contains(s),
    decreases n,
{
    if n > 0 {
        law_held_symbols(symbols, held, (n - 1) as nat, s);
        let a = symbols.take(n - 1);
        let b = symbols.take(n as int);
        let h = held_among(symbols, held, (n - 1) as nat);
        let r = held_among(symbols, held, n);
        assert(b[n - 1] == symbols[n - 1]);
        if a.contains(s) {
            assert(b[a.index_of(s)] == s);
        }
        if b.contains(s) && s != symbols[n - 1] {
            assert(a[b.index_of(s)] == s);
        }
        if h.contains(s) {
            assert(r[h.index_of(s)] == s);
        }
        if r.len() > h.len() {
            assert(r[r.len() - 1] == symbols[n - 1]);
        }
        if r.contains(s) && !h.contains(s) {
            let k = r.index_of(s);
            if k < h.len() {
                assert(h[k] == s);
            }
        }
    }
}

/// Each task that has finished counts once.
pub proof fn law_finished_tasks(finished: Seq<bool>, n: nat)
    requires
        n < finished.len(),
    ensures
        finished_among(finished, 0) == 0,
        finished_among(finished, n + 1) - finished_among(finished, n) == if finished[n as int] {
            1int
        } else {
            0
        },
{
}

} // verus!
