use soundboard::errors::PlaybackError;

#[test]
fn error_names_its_device() {
    let e = PlaybackError::InvalidDeviceName("BlackHole 16ch".to_string());
    assert_eq!(e.device_name(), "BlackHole 16ch");
    let e = PlaybackError::DeviceLacksOutput("mic".to_string());
    assert_eq!(e.device_name(), "mic");
    let e = PlaybackError::DeviceLacksInput("speaker".to_string());
    assert_eq!(e.device_name(), "speaker");
}
