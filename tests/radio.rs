use snipper::naming::output_file_name;
use snipper::pipeline::{
    after_read, on_shutdown_request, split_windows, ProducerAction, ShutdownAction,
};
use snipper::radio::{optimal_settings, RadioConfig};

#[test]
fn settings_for_default_station() {
    let c = optimal_settings(434_200_000, 2_880_000);
    assert_eq!(
        c,
        RadioConfig {
            capture_freq: 434_920_000,
            capture_rate: 2_880_000
        }
    );
}

#[test]
fn settings_raise_a_low_rate() {
    let c = optimal_settings(100_000_000, 250_000);
    assert_eq!(c.capture_rate, 1_250_000);
    assert_eq!(c.capture_freq, 100_312_500);
    let c = optimal_settings(0, 1_000_000);
    assert_eq!(c.capture_rate, 2_000_000);
    assert_eq!(c.capture_freq, 500_000);
}

#[test]
fn producer_stops_on_failed_or_short_read() {
    assert_eq!(after_read(Some(512), 512), ProducerAction::Forward);
    assert_eq!(after_read(Some(511), 512), ProducerAction::Stop);
    assert_eq!(after_read(None, 512), ProducerAction::Stop);
}

#[test]
fn output_name_replaces_colons() {
    let name = output_file_name("2024-05-06T07:08:09.5Z", 434_920_000, 2_880_000);
    assert_eq!(name, "snipper_2024-05-06T07_08_09.5Z_434920000_2880000.cu8");
    assert_eq!(output_file_name("x", 0, 7), "snipper_x_0_7.cu8");
}

#[test]
fn second_shutdown_request_exits() {
    assert_eq!(on_shutdown_request(false), ShutdownAction::RequestStop);
    assert_eq!(on_shutdown_request(true), ShutdownAction::ExitNow);
}

#[test]
fn block_splits_into_whole_windows() {
    let block: Vec<u8> = (0..21u8).collect();
    let windows = split_windows(&block, 2);
    assert_eq!(windows.len(), 5);
    assert_eq!(windows[0], vec![0, 1, 2, 3]);
    assert_eq!(windows[4], vec![16, 17, 18, 19]);
    assert!(split_windows(&vec![1, 2, 3], 2).is_empty());
    assert_eq!(split_windows(&vec![9u8; 256], 128).len(), 1);
}
