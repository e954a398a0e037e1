//! The channels between the parts of the bot: who publishes what, who listens to it.
//!
//! Broadcast topics can be subscribed to any number of times. The trade signals
//! and the close requests each have one receiver, which is handed out once.
use vstd::prelude::*;

use crate::initialization::EventBusConfig;

verus! {

/// What a channel carries.
#[derive(Clone, Copy, Debug, PartialEq, Eq, Structural)]
pub enum Topic {
    MarketTick,
    OrderUpdate,
    PositionUpdate,
    Balance,
    TradeSignal,
    CloseRequest,
    Rotation,
}

/// A handle for sending to a topic.
#[derive(Clone, Copy, Debug, PartialEq, Eq, Structural)]
pub struct Publisher {
    pub topic: Topic,
}

/// A subscription of a broadcast topic.
#[derive(Clone, Copy, Debug, PartialEq, Eq, Structural)]
pub struct Subscriber {
    pub topic: Topic,
}

/// The one receiver of a topic.
#[derive(Debug, PartialEq, Eq, Structural)]
pub struct Receiver {
    pub topic: Topic,
}

#[derive(Clone, Copy, Debug)]
pub struct TrendingChannels {
    pub market_rx: Subscriber,
    pub signal_tx: Publisher,
}

#[derive(Debug)]
pub struct OrderingChannels {
    pub signal_rx: Receiver,
    pub close_rx: Receiver,
    pub order_update_rx: Subscriber,
    pub position_update_rx: Subscriber,
}

#[derive(Clone, Copy, Debug)]
pub struct FollowChannels {
    pub market_rx: Subscriber,
    pub position_update_rx: Subscriber,
    pub close_tx: Publisher,
}

#[derive(Clone, Copy, Debug)]
pub struct BalanceChannels {
    pub balance_tx: Publisher,
}

#[derive(Debug)]
pub struct LoggingChannels {
    pub market_rx: Subscriber,
    pub order_update_rx: Subscriber,
    pub position_update_rx: Subscriber,
    pub balance_rx: Subscriber,
    pub signal_rx: Receiver,
}

#[derive(Clone, Copy, Debug)]
pub struct ConnectionChannels {
    pub market_tx: Publisher,
    pub order_update_tx: Publisher,
    pub position_update_tx: Publisher,
    pub balance_tx: Publisher,
}

#[derive(Clone, Copy, Debug)]
pub struct RotationChannels {
    pub rotation_rx: Subscriber,
}

/// How many messages of rotation are kept for a slow subscriber.
pub const ROTATION_BUFFER: usize = 10;

/// The channels, how much each of them buffers, and the receivers that are still here.
#[derive(Debug)]
pub struct EventBus {
    buffers: EventBusConfig,
    signal_rx: Option<Receiver>,
    close_rx: Option<Receiver>,
}

impl EventBus {
    /// Whether the receiver of the trade signals is still here.
    pub closed spec fn has_signal_rx(&self) -> bool {
        self.signal_rx is Some
    }

    /// Whether the receiver of the close requests is still here.
    pub closed spec fn has_close_rx(&self) -> bool {
        self.close_rx is Some
    }

    /// The receivers that are here are those of their topics.
    pub closed spec fn wf(&self) -> bool {
        &&& self.signal_rx matches Some(r) ==> r.topic == Topic::TradeSignal
        &&& self.close_rx matches Some(r) ==> r.topic == Topic::CloseRequest
    }

    /// How much each channel buffers.
    pub closed spec fn sizes(&self) -> EventBusConfig {
        self.buffers
    }

    pub fn new(
        market_tick_buffer: usize,
        trade_signal_buffer: usize,
        close_request_buffer: usize,
        order_update_buffer: usize,
        position_update_buffer: usize,
        balance_update_buffer: usize,
    ) -> (r: EventBus)
        ensures
            r.wf(),
            r.has_signal_rx(),
            r.has_close_rx(),
            r.sizes() == (EventBusConfig {
                market_tick_buffer,
                trade_signal_buffer,
                close_request_buffer,
                order_update_buffer,
                position_update_buffer,
                balance_update_buffer,
            }),
    {
        EventBus {
            buffers: EventBusConfig {
                market_tick_buffer,
                trade_signal_buffer,
                close_request_buffer,
                order_update_buffer,
                position_update_buffer,
                balance_update_buffer,
            },
            signal_rx: Some(Receiver { topic: Topic::TradeSignal }),
            close_rx: Some(Receiver { topic: Topic::CloseRequest }),
        }
    }

    /// How much each channel buffers.
    pub fn buffers(&self) -> (r: EventBusConfig)
        ensures
            r == self.sizes(),
    {
        self.buffers
    }

    /// Whether the receiver of the trade signals is still here.
    pub fn signal_rx_available(&self) -> (r: bool)
        ensures
            r == self.has_signal_rx(),
    {
        self.signal_rx.is_some()
    }

    /// Whether the receiver of the close requests is still here.
    pub fn close_rx_available(&self) -> (r: bool)
        ensures
            r == self.has_close_rx(),
    {
        self.close_rx.is_some()
    }

    pub fn trending_channels(&self) -> (r: TrendingChannels)
        ensures
            r.market_rx.topic == Topic::MarketTick,
            r.signal_tx.topic == Topic::TradeSignal,
    {
        TrendingChannels {
            market_rx: self.market_receiver(),
            signal_tx: Publisher { topic: Topic::TradeSignal },
        }
    }

    /// The channels of the order handling, with both single receivers.
    pub fn ordering_channels(&mut self) -> (r: OrderingChannels)
        requires
            old(self).wf(),
            old(self).has_signal_rx(),
            old(self).has_close_rx(),
        ensures
            final(self).wf(),
            final(self).sizes() == old(self).sizes(),
            !final(self).has_signal_rx(),
            !final(self).has_close_rx(),
            r.signal_rx.topic == Topic::TradeSignal,
            r.close_rx.topic == Topic::CloseRequest,
            r.order_update_rx.topic == Topic::OrderUpdate,
            r.position_update_rx.topic == Topic::PositionUpdate,
    {
        OrderingChannels {
            signal_rx: Self::take_receiver(&mut self.signal_rx),
            close_rx: Self::take_receiver(&mut self.close_rx),
            order_update_rx: Subscriber { topic: Topic::OrderUpdate },
            position_update_rx: Subscriber { topic: Topic::PositionUpdate },
        }
    }

    pub fn follow_channels(&self) -> (r: FollowChannels)
        ensures
            r.market_rx.topic == Topic::MarketTick,
            r.position_update_rx.topic == Topic::PositionUpdate,
            r.close_tx.topic == Topic::CloseRequest,
    {
        FollowChannels {
            market_rx: self.market_receiver(),
            position_update_rx: Subscriber { topic: Topic::PositionUpdate },
            close_tx: Publisher { topic: Topic::CloseRequest },
        }
    }

    pub fn balance_channels(&self) -> (r: BalanceChannels)
        ensures
            r.balance_tx.topic == Topic::Balance,
    {
        BalanceChannels { balance_tx: Publisher { topic: Topic::Balance } }
    }

    /// The channels of the event log, with the receiver of the trade signals.
    pub fn logging_channels(&mut self) -> (r: LoggingChannels)
        requires
            old(self).wf(),
            old(self).has_signal_rx(),
        ensures
            final(self).wf(),
            final(self).sizes() == old(self).sizes(),
            !final(self).has_signal_rx(),
            final(self).has_close_rx() == old(self).has_close_rx(),
            r.market_rx.topic == Topic::MarketTick,
            r.order_update_rx.topic == Topic::OrderUpdate,
            r.position_update_rx.topic == Topic::PositionUpdate,
            r.balance_rx.topic == Topic::Balance,
            r.signal_rx.topic == Topic::TradeSignal,
    {
        LoggingChannels {
            market_rx: self.market_receiver(),
            order_update_rx: Subscriber { topic: Topic::OrderUpdate },
            position_update_rx: Subscriber { topic: Topic::PositionUpdate },
            balance_rx: Subscriber { topic: Topic::Balance },
            signal_rx: Self::take_receiver(&mut self.signal_rx),
        }
    }

    pub fn market_receiver(&self) -> (r: Subscriber)
        ensures
            r.topic == Topic::MarketTick,
    {
        Subscriber { topic: Topic::MarketTick }
    }

    pub fn connection_channels(&self) -> (r: ConnectionChannels)
        ensures
            r.market_tx.topic == Topic::MarketTick,
            r.order_update_tx.topic == Topic::OrderUpdate,
            r.position_update_tx.topic == Topic::PositionUpdate,
            r.balance_tx.topic == Topic::Balance,
    {
        ConnectionChannels {
            market_tx: Publisher { topic: Topic::MarketTick },
            order_update_tx: Publisher { topic: Topic::OrderUpdate },
            position_update_tx: Publisher { topic: Topic::PositionUpdate },
            balance_tx: Publisher { topic: Topic::Balance },
        }
    }

    pub fn rotation_channels(&self) -> (r: RotationChannels)
        ensures
            r.rotation_rx.topic == Topic::Rotation,
    {
        RotationChannels { rotation_rx: Subscriber { topic: Topic::Rotation } }
    }

    pub fn rotation_sender(&self) -> (r: Publisher)
        ensures
            r.topic == Topic::Rotation,
    {
        Publisher { topic: Topic::Rotation }
    }

    fn take_receiver(slot: &mut Option<Receiver>) -> (r: Receiver)
        requires
            *old(slot) is Some,
        ensures
            Some(r) == *old(slot),
            *final(slot) is None,
    {
        let taken = slot.take();
        taken.unwrap()
    }
}

} // verus!
