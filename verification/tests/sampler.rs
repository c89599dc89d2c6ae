use triangle_gator::sampler::{
    extract_after, read_raw_sample, sample_average, RawSample, SampleError,
};

fn reading(tx: i64, signal: i64) -> Option<RawSample> {
    Some(RawSample { signal_milli_dbm: signal, tx_milli_dbm: tx })
}

#[test]
fn average_of_identical_readings_is_exact() {
    // five identical raw readings of tx = 15 dBm, rx = -40 dBm
    let readings = vec![
        reading(15_000, -40_000),
        reading(15_000, -40_000),
        reading(15_000, -40_000),
        reading(15_000, -40_000),
        reading(15_000, -40_000),
    ];
    let info = sample_average(&readings).unwrap();
    let tx = info.tx_power.unwrap();
    let rx = info.measured_power.unwrap();
    assert_eq!(tx.num, 75_000);
    assert_eq!(tx.den, 5_000);
    assert_eq!(rx.num, -200_000);
    assert_eq!(rx.den, 5_000);
    // the averages equal the common readings of 15 dBm and -40 dBm exactly
    assert_eq!(tx.num * 1, 15 * tx.den);
    assert_eq!(rx.num * 1, -40 * rx.den);
}

#[test]
fn run_with_no_readings_is_flagged() {
    let readings = vec![None, None, None];
    assert_eq!(sample_average(&readings), Err(SampleError::RawSampleUnavailable));
}

#[test]
fn failed_iteration_contributes_zero_but_still_divides() {
    let readings = vec![reading(20_000, -30_000), None];
    let info = sample_average(&readings).unwrap();
    let tx = info.tx_power.unwrap();
    let rx = info.measured_power.unwrap();
    assert_eq!((tx.num, tx.den), (20_000, 2_000));
    assert_eq!((rx.num, rx.den), (-30_000, 2_000));
    // half of each reading: the failed iteration still divides
    assert_eq!(tx.num * 1, 10 * tx.den);
    assert_eq!(rx.num * 1, -15 * rx.den);
}

#[test]
fn reads_signal_and_power_from_status_lines() {
    let lines = vec![
        String::from("wlan0     IEEE 802.11  ESSID:\"lab\""),
        String::from("          Bit Rate=130 Mb/s   Tx-Power=15 dBm"),
        String::from("          Link Quality=60/70  Signal level=-40 dBm"),
    ];
    let sample = read_raw_sample(&lines).unwrap();
    assert_eq!(sample.tx_milli_dbm, 15_000);
    assert_eq!(sample.signal_milli_dbm, -40_000);
}

#[test]
fn status_without_both_fields_is_no_reading() {
    let lines = vec![String::from("          Tx-Power=15 dBm")];
    assert_eq!(read_raw_sample(&lines), None);
    let lines = vec![String::from("          Signal level=-38 dBm")];
    assert_eq!(read_raw_sample(&lines), None);
    assert_eq!(read_raw_sample(&vec![]), None);
}

#[test]
fn value_text_variants() {
    // unit attached to the number
    assert_eq!(extract_after("Signal level=-38dBm", "level="), Some(-38_000));
    // fractional reading, kept to the stored resolution
    assert_eq!(extract_after("Signal level=-40.5 dBm", "level="), Some(-40_500));
    assert_eq!(extract_after("Tx-Power=19.25 dBm", "Tx-Power="), Some(19_250));
    // malformed value text yields nothing
    assert_eq!(extract_after("Signal level=abc dBm", "level="), None);
    assert_eq!(extract_after("Signal level= -40 dBm", "level="), None);
    // the pattern itself absent
    assert_eq!(extract_after("Link Quality=60/70", "level="), None);
}
