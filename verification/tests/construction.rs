//! Construction-time validation of the size configuration.

use fastcdc_alt::{AsyncStreamCDC, Error, FastCDC, Normalization, StreamCDC};

#[test]
fn test_minimum_too_low() {
    let array = [0u8; 1024];
    assert!(AsyncStreamCDC::new(array.as_slice(), 63, 256, 1024).is_err());
}

#[test]
fn test_minimum_too_high() {
    let array = [0u8; 1024];
    assert!(AsyncStreamCDC::new(array.as_slice(), 67_108_867, 256, 1024).is_err());
}

#[test]
fn test_average_too_low() {
    let array = [0u8; 1024];
    assert!(AsyncStreamCDC::new(array.as_slice(), 64, 255, 1024).is_err());
}

#[test]
fn test_average_too_high() {
    let array = [0u8; 1024];
    assert!(AsyncStreamCDC::new(array.as_slice(), 64, 268_435_457, 1024).is_err());
}

#[test]
fn test_maximum_too_low() {
    let array = [0u8; 1024];
    assert!(AsyncStreamCDC::new(array.as_slice(), 64, 256, 1023).is_err());
}

#[test]
fn test_maximum_too_high() {
    let array = [0u8; 1024];
    assert!(AsyncStreamCDC::new(array.as_slice(), 64, 256, 1_073_741_825).is_err());
}

#[test]
fn construction_succeeds_inside_all_bounds() {
    assert!(FastCDC::new(64, 256, 1024).is_ok());
    assert!(FastCDC::new(67_108_864, 268_435_456, 1_073_741_824).is_ok());
    assert!(FastCDC::new(4096, 16384, 65535).is_ok());
    assert!(FastCDC::new_advanced(8192, 16384, 32768, Normalization::Level3, None).is_ok());
    assert!(FastCDC::new_advanced(8192, 16384, 32768, Normalization::Level0, Some(7)).is_ok());
    let array = [0u8; 16];
    assert!(StreamCDC::new(array.as_slice(), 64, 256, 1024).is_ok());
    assert!(AsyncStreamCDC::new(array.as_slice(), 64, 256, 1024).is_ok());
}

#[test]
fn construction_errors_name_the_violated_bound() {
    assert!(matches!(FastCDC::new(63, 256, 1024), Err(Error::MinSizeTooSmall)));
    assert!(matches!(FastCDC::new(67_108_865, 256, 1024), Err(Error::MinSizeTooLarge)));
    assert!(matches!(FastCDC::new(64, 255, 1024), Err(Error::AvgSizeTooSmall)));
    assert!(matches!(FastCDC::new(64, 268_435_457, 1024), Err(Error::AvgSizeTooLarge)));
    assert!(matches!(FastCDC::new(64, 256, 1023), Err(Error::MaxSizeTooSmall)));
    assert!(matches!(FastCDC::new(64, 256, 1_073_741_825), Err(Error::MaxSizeTooLarge)));
    assert!(matches!(FastCDC::new(2048, 1024, 4096), Err(Error::MinSizeExceedsAvgSize)));
    assert!(matches!(FastCDC::new(64, 65536, 2048), Err(Error::AvgSizeExceedsMaxSize)));
}
