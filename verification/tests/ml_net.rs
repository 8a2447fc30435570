use ners::ml::{MetricsWindow, MlBridgeError, MlBridgeStats};
use ners::net::{peek_closed, read_step, write_step, IoOutcome, ReadStep, WriteStep};

/// A feature vector of twelve zeros.
fn zeros() -> [f32; 12] {
    [0.0f32; 12]
}

#[test]
fn test_metrics_window() {
    let mut window = MetricsWindow::new(3);

    assert!(window.is_empty());

    window.push(zeros());
    window.push(zeros());

    assert_eq!(window.len(), 2);
    assert!(!window.is_full());

    window.push(zeros());
    assert!(window.is_full());

    // Push one more, oldest should be evicted
    window.push(zeros());
    assert_eq!(window.len(), 3);
}

#[test]
fn window_keeps_latest_samples_in_order() {
    let mut window = MetricsWindow::new(3);
    for i in 1u32..=5 {
        window.push(i);
    }
    assert_eq!(window.len(), 3);
    assert_eq!(window.get(0), Some(&3));
    assert_eq!(window.get(1), Some(&4));
    assert_eq!(window.get(2), Some(&5));
    assert_eq!(window.get(3), None);
    assert_eq!(window.latest(), Some(&5));
}

#[test]
fn window_of_size_zero_keeps_the_latest() {
    let mut window = MetricsWindow::new(0);
    assert!(window.is_full());
    assert_eq!(window.latest(), None);
    window.push(7u8);
    window.push(8u8);
    assert_eq!(window.len(), 1);
    assert_eq!(window.latest(), Some(&8));
}

#[test]
fn default_window_holds_sixty() {
    let mut window: MetricsWindow<u64> = MetricsWindow::default();
    for i in 0u64..100 {
        window.push(i);
    }
    assert_eq!(window.len(), 60);
    assert_eq!(window.get(0), Some(&40));
}

#[test]
fn bridge_error_messages() {
    assert_eq!(MlBridgeError::ModelUnavailable.message(), "Model not available");
    assert_eq!(MlBridgeError::PredictionFailed("x".to_string()).message(), "Prediction failed: x");
    assert_eq!(MlBridgeError::InvalidInput("No features available".to_string()).message(),
        "Invalid input: No features available");
    assert_eq!(MlBridgeError::Timeout.message(), "Timeout");
}

#[test]
fn bridge_stats_fields() {
    let stats = MlBridgeStats { prediction_count: 1, fallback_count: 0, window_size: 1 };
    let copy = stats.clone();
    assert_eq!(copy.prediction_count, 1);
    assert_eq!(copy.window_size, 1);
}

#[test]
fn read_steps() {
    assert_eq!(read_step(0, IoOutcome::Moved(4096)), ReadStep::Again(4096));
    assert_eq!(read_step(4096, IoOutcome::Moved(10)), ReadStep::Again(4106));
    assert_eq!(read_step(4106, IoOutcome::WouldBlock), ReadStep::Done(4106));
    assert_eq!(read_step(5, IoOutcome::Zero), ReadStep::Closed);
    assert_eq!(read_step(5, IoOutcome::Reset), ReadStep::Failed);
    assert_eq!(read_step(5, IoOutcome::Failed), ReadStep::Failed);
}

#[test]
fn write_steps() {
    assert_eq!(write_step(0, 10, IoOutcome::Moved(4)), WriteStep::Again(4));
    assert_eq!(write_step(4, 10, IoOutcome::Moved(6)), WriteStep::Done(10));
    assert_eq!(write_step(4, 10, IoOutcome::WouldBlock), WriteStep::Done(4));
    assert_eq!(write_step(4, 10, IoOutcome::Zero), WriteStep::WriteZero);
    assert_eq!(write_step(4, 10, IoOutcome::Failed), WriteStep::Failed);
}

#[test]
fn peek_decides_closed() {
    assert!(peek_closed(IoOutcome::Zero));
    assert!(peek_closed(IoOutcome::Reset));
    assert!(!peek_closed(IoOutcome::Moved(1)));
    assert!(!peek_closed(IoOutcome::WouldBlock));
    assert!(!peek_closed(IoOutcome::Failed));
}
