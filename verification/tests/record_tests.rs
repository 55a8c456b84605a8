use stest_lib::record::{header_row, milli_to_string, u64_to_string, TestRecord};

#[test]
fn numbers_print_in_canonical_decimal() {
    assert_eq!(u64_to_string(0), "0");
    assert_eq!(u64_to_string(7), "7");
    assert_eq!(u64_to_string(1234567890), "1234567890");
    assert_eq!(u64_to_string(u64::MAX), "18446744073709551615");
}

#[test]
fn speeds_print_with_three_fraction_digits() {
    assert_eq!(milli_to_string(8000), "8.000");
    assert_eq!(milli_to_string(12345), "12.345");
    assert_eq!(milli_to_string(5), "0.005");
    assert_eq!(milli_to_string(0), "0.000");
}

#[test]
fn header_names_the_twelve_columns_in_order() {
    let header = header_row();
    assert_eq!(
        header,
        vec![
            "test_number",
            "server_url",
            "rx_start",
            "rx_total_bytes",
            "rx_total_millis",
            "rx_speed_mbps",
            "rx_end",
            "tx_start",
            "tx_total_bytes",
            "tx_total_millis",
            "tx_speed_mbps",
            "tx_end",
        ]
    );
}

#[test]
fn record_rows_follow_the_fixed_column_order() {
    let record = TestRecord {
        test_number: 1,
        server_host: "host-a.example.net".to_string(),
        rx_start_ts: "2017-05-01 10:00:00".to_string(),
        rx_bytes: 1_000_000,
        rx_millis: 1000,
        rx_mbps: 8000,
        rx_end_ts: "2017-05-01 10:00:11".to_string(),
        tx_start_ts: "2017-05-01 10:00:12".to_string(),
        tx_bytes: 500_000,
        tx_millis: 2000,
        tx_mbps: 2000,
        tx_end_ts: "2017-05-01 10:00:20".to_string(),
    };
    let row = record.to_row();
    assert_eq!(
        row,
        vec![
            "1",
            "host-a.example.net",
            "2017-05-01 10:00:00",
            "1000000",
            "1000",
            "8.000",
            "2017-05-01 10:00:11",
            "2017-05-01 10:00:12",
            "500000",
            "2000",
            "2.000",
            "2017-05-01 10:00:20",
        ]
    );
}
