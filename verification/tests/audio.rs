use hallucinator_core::audio::{AudioInputService, AudioOutputService, DeviceChoice};
use hallucinator_core::AudioInputError;

#[test]
fn no_devices_found_is_an_error() {
    let r = AudioInputService::device_list(Vec::new(), Some("Mic".to_string()));
    assert!(matches!(r, Err(AudioInputError::NoDevices)));
}

#[test]
fn device_list_marks_the_default() {
    let found = vec![("Line In".to_string(), 48000, 2), ("Mic".to_string(), 44100, 1)];
    let list = AudioInputService::device_list(found, Some("Mic".to_string())).unwrap();
    assert_eq!(list.len(), 2);
    assert_eq!(list[0].id, "Line In");
    assert_eq!(list[0].name, "Line In");
    assert_eq!(list[0].sample_rate, 48000);
    assert_eq!(list[0].channels, 2);
    assert!(!list[0].is_default);
    assert_eq!(list[1].name, "Mic");
    assert!(list[1].is_default);

    let none_default = AudioInputService::device_list(vec![("Mic".to_string(), 44100, 1)], None).unwrap();
    assert!(!none_default[0].is_default);
}

#[test]
fn choosing_an_input_device() {
    let names = vec![Some("Line In".to_string()), None, Some("Mic".to_string()), Some("Mic".to_string())];
    assert_eq!(AudioInputService::choose_device("default", &names, true).unwrap(), DeviceChoice::Default);
    assert!(matches!(
        AudioInputService::choose_device("default", &names, false),
        Err(AudioInputError::NoDevices)
    ));
    assert_eq!(AudioInputService::choose_device("Mic", &names, true).unwrap(), DeviceChoice::Index(2));
    match AudioInputService::choose_device("USB", &names, true) {
        Err(AudioInputError::DeviceNotFound(id)) => assert_eq!(id, "USB"),
        other => panic!("unexpected {:?}", other),
    }
}

#[test]
fn mono_spread_over_output_channels() {
    let mono = vec![0.5f32, -0.25, 1.0];
    assert_eq!(
        AudioOutputService::spread_to_channels(&mono, 2),
        vec![0.5, 0.5, -0.25, -0.25, 1.0, 1.0]
    );
    assert_eq!(AudioOutputService::spread_to_channels(&mono, 1), mono);
    assert!(AudioOutputService::spread_to_channels(&mono, 0).is_empty());
}
