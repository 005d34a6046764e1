use ingestion::Price;
use ingestion::Tick;
use ingestion::TickValidationError;

fn ts() -> i64 {
    1_736_000_000_000
}

#[test]
fn test_valid_tick_creation() {
    let tick = Tick::new(
        ts(),
        "NQ".to_string(),
        Price::new(1_600_025, 2),
        10,
        Price::new(1_600_050, 2),
        15,
        Price::new(1_600_025, 2),
        5,
    );

    assert!(tick.is_ok());
}

#[test]
fn test_empty_symbol_rejected() {
    let result = Tick::new(
        ts(),
        String::new(),
        Price::new(1_600_025, 2),
        10,
        Price::new(1_600_050, 2),
        15,
        Price::new(1_600_025, 2),
        5,
    );

    assert!(matches!(result, Err(TickValidationError::EmptySymbol)));
}

#[test]
fn test_negative_price_rejected() {
    let result = Tick::new(
        ts(),
        "NQ".to_string(),
        Price::new(-1_000, 1),
        10,
        Price::new(1_600_050, 2),
        15,
        Price::new(1_600_025, 2),
        5,
    );

    assert!(matches!(result, Err(TickValidationError::InvalidPrice(_))));
}

#[test]
fn test_zero_price_rejected() {
    let result = Tick::new(
        ts(),
        "NQ".to_string(),
        Price::new(0, 1),
        10,
        Price::new(1_600_050, 2),
        15,
        Price::new(1_600_025, 2),
        5,
    );

    assert!(matches!(result, Err(TickValidationError::InvalidPrice(_))));
}

#[test]
fn tick_fields_are_kept() {
    let tick = Tick::new(
        ts(),
        "ES".to_string(),
        Price::new(500_025, 2),
        1,
        Price::new(500_075, 2),
        2,
        Price::new(500_050, 2),
        3,
    )
    .unwrap();

    assert_eq!(tick.timestamp(), ts());
    assert_eq!(tick.symbol(), "ES");
    assert_eq!(tick.bid_price().mantissa(), 500_025);
    assert_eq!(tick.bid_price().scale(), 2);
    assert_eq!(tick.bid_size(), 1);
    assert_eq!(tick.ask_price().mantissa(), 500_075);
    assert_eq!(tick.ask_size(), 2);
    assert_eq!(tick.last_price().mantissa(), 500_050);
    assert_eq!(tick.last_size(), 3);
}

#[test]
fn non_positive_ask_and_last_rejected() {
    let bad_ask = Tick::new(
        ts(),
        "NQ".to_string(),
        Price::new(100, 0),
        1,
        Price::new(-5, 0),
        1,
        Price::new(100, 0),
        1,
    );
    assert!(matches!(bad_ask, Err(TickValidationError::InvalidPrice(_))));

    let bad_last = Tick::new(
        ts(),
        "NQ".to_string(),
        Price::new(100, 0),
        1,
        Price::new(100, 0),
        1,
        Price::new(0, 0),
        1,
    );
    assert!(matches!(bad_last, Err(TickValidationError::InvalidPrice(_))));
}
