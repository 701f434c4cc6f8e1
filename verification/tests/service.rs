use rsnova::mux::{MAX_STREAM_WINDOW, MIN_STREAM_WINDOW};
use rsnova::service::validate_mux_stream_window;

#[test]
fn validate_mux_stream_window_rejects_out_of_range_values() {
    assert!(validate_mux_stream_window(MIN_STREAM_WINDOW - 1).is_err());
    assert!(validate_mux_stream_window(MIN_STREAM_WINDOW).is_ok());
    assert!(validate_mux_stream_window(MAX_STREAM_WINDOW).is_ok());
    assert!(validate_mux_stream_window(MAX_STREAM_WINDOW + 1).is_err());
}
