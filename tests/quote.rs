use tickerwatch::quote::{Quote, QuoteError, QuoteState};

fn quote(change: i64) -> Quote {
    Quote {
        timestamp: 1_600_000_000,
        ticker: "AAPL".to_string(),
        price: "101.25".to_string(),
        price_raw: 101_250_000,
        percent_change: "1.25%".to_string(),
        amount_change: "1.25".to_string(),
        amount_change_raw: change,
    }
}

#[test]
fn state_follows_sign_of_change() {
    assert_eq!(quote(1).get_state(), QuoteState::POSITIVE);
    assert_eq!(quote(0).get_state(), QuoteState::NEUTRAL);
    assert_eq!(quote(-1).get_state(), QuoteState::NEGATIVE);
}

#[test]
fn headers_and_row() {
    assert_eq!(Quote::get_table_headers(), vec!["Ticker", "Price", "% Change", "$ Change"]);
    assert_eq!(quote(0).as_row(), vec!["AAPL", "101.25", "1.25%", "1.25"]);
}

#[test]
fn chartable_is_time_and_raw_price() {
    assert_eq!(quote(5).to_chartable(), (1_600_000_000, 101_250_000));
}

#[test]
fn error_text() {
    let e = QuoteError::new(404, "Not Found");
    assert_eq!(e.status_code, 404);
    assert_eq!(e.description(), "Not Found");
    assert_eq!(e.to_string(), "404:Not Found");
    assert_eq!(QuoteError::new(0, "").to_string(), "0:");
}
