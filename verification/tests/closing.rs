use trading_bot::closing::{close_order, CloseStep};
use trading_bot::connection::PositionSide;
use trading_bot::decimal::Dec;
use trading_bot::rules::str_dec;

fn dec(s: &str) -> Dec {
    str_dec(s)
}

#[test]
fn the_whole_of_a_position_is_flattened() {
    assert!(matches!(close_order("BTCUSDT", PositionSide::Long, dec("2"), None), CloseStep::Whole));
}

#[test]
fn a_share_is_ordered_against_the_position() {
    for (side, against) in
        [(PositionSide::Long, PositionSide::Short), (PositionSide::Short, PositionSide::Long)]
    {
        match close_order("BTCUSDT", side, dec("3"), Some(dec("0.25"))) {
            CloseStep::Share { order } => {
                assert_eq!(order.symbol, "BTCUSDT");
                assert_eq!(order.side, against);
                assert!(order.quantity.same(&dec("0.75")));
                assert!(order.reduce_only);
                assert_eq!(order.client_order_id, None);
            }
            other => panic!("{other:?}"),
        }
    }
}

#[test]
fn a_share_never_exceeds_the_position() {
    for size in ["0", "1", "0.0000000000000000000000000001", "79228162514264337593543950335"] {
        for share in ["0", "0.0000000000000000000000000001", "0.5", "1"] {
            match close_order("BTCUSDT", PositionSide::Long, dec(size), Some(dec(share))) {
                CloseStep::Share { order } => {
                    let left = order.quantity;
                    assert!(left.same(&dec("0")) || !left.is_sign_negative());
                    match close_order("BTCUSDT", PositionSide::Long, dec(size), Some(dec("1"))) {
                        CloseStep::Share { order } => assert!(order.quantity.same(&dec(size))),
                        other => panic!("{other:?}"),
                    }
                }
                other => panic!("{other:?}"),
            }
        }
    }
}

#[test]
fn a_share_that_cannot_be_held() {
    let large = dec("79228162514264337593543950335");
    let step = close_order("BTCUSDT", PositionSide::Long, large, Some(dec("2")));
    assert!(matches!(step, CloseStep::ShareTooLarge));
}
