//! Tests of the configuration container and its persisted JSON format.

use gpio_config::GPIOConfig;
use gpio_config::InputPull;
use gpio_config::PinFunction;

fn to_json_string(config: &GPIOConfig) -> String {
    String::from_utf8(config.to_json()).expect("serialized form is ASCII")
}

#[test]
fn create_a_config() {
    let config = GPIOConfig::default();
    assert!(config.configured_pins.is_empty());
}

#[test]
fn save_one_pin_config_input_no_pullup() {
    let config = GPIOConfig { configured_pins: vec![(1, PinFunction::Input(None))] };
    let pin_config = r#"{"configured_pins":[[1,{"Input":null}]]}"#;
    assert_eq!(to_json_string(&config), pin_config);
}

#[test]
fn load_one_pin_config_input_no_pull() {
    let pin_config = r#"{"configured_pins":[[1,{"Input":null}]]}"#;
    let config = GPIOConfig::from_json(pin_config.as_bytes()).unwrap();
    assert_eq!(config.configured_pins.len(), 1);
    assert_eq!(config.configured_pins[0].0, 1);
    assert_eq!(config.configured_pins[0].1, PinFunction::Input(None));
}

#[test]
fn load_test_file() {
    let file_contents =
        r#"{"configured_pins":[[17,{"Output":true}],[26,{"Input":"PullUp"}]]}"#;
    let config = GPIOConfig::from_json(file_contents.as_bytes())
        .expect("Could not load GPIOConfig from file contents");
    assert_eq!(config.configured_pins.len(), 2);
    // GPIO17 configured as an Output - set to true (high) level
    assert_eq!(config.configured_pins[0].0, 17);
    assert_eq!(config.configured_pins[0].1, PinFunction::Output(Some(true)));

    // GPIO26 configured as an Input - with an internal PullUp
    assert_eq!(config.configured_pins[1].0, 26);
    assert_eq!(config.configured_pins[1].1, PinFunction::Input(Some(InputPull::PullUp)));
}

#[test]
fn save_one_pin_config_output_with_level() {
    let config = GPIOConfig { configured_pins: vec![(7, PinFunction::Output(Some(true)))] };
    let pin_config = r#"{"configured_pins":[[7,{"Output":true}]]}"#;
    assert_eq!(to_json_string(&config), pin_config);
}

#[test]
fn round_trip_many_variants() {
    let config = GPIOConfig {
        configured_pins: vec![
            (0, PinFunction::NoFunction),
            (1, PinFunction::Ground),
            (2, PinFunction::Power3V3),
            (3, PinFunction::Power5V),
            (4, PinFunction::Input(None)),
            (5, PinFunction::Input(Some(InputPull::PullDown))),
            (6, PinFunction::Input(Some(InputPull::NoPull))),
            (7, PinFunction::Output(None)),
            (8, PinFunction::Output(Some(false))),
            (9, PinFunction::GPCLK1),
            (10, PinFunction::I2C5_SCL),
            (11, PinFunction::SPI0_MOMI),
            (12, PinFunction::SPI1_CE2_N),
            (13, PinFunction::PWM1),
            (14, PinFunction::UART0_RXD),
            (15, PinFunction::PCM_DOUT),
            (255, PinFunction::I2C_EEPROM_ID_SC),
        ],
    };
    let bytes = config.to_json();
    let reloaded = GPIOConfig::from_json(&bytes).expect("round trip must succeed");
    assert_eq!(reloaded.configured_pins, config.configured_pins);
}

#[test]
fn round_trip_empty_config() {
    let config = GPIOConfig::default();
    let bytes = config.to_json();
    assert_eq!(bytes, br#"{"configured_pins":[]}"#);
    let reloaded = GPIOConfig::from_json(&bytes).expect("round trip must succeed");
    assert!(reloaded.configured_pins.is_empty());
}

#[test]
fn duplicate_channels_are_preserved() {
    let config = GPIOConfig {
        configured_pins: vec![
            (4, PinFunction::Output(Some(true))),
            (4, PinFunction::Input(None)),
        ],
    };
    let bytes = config.to_json();
    let reloaded = GPIOConfig::from_json(&bytes).unwrap();
    assert_eq!(reloaded.configured_pins, config.configured_pins);
}

#[test]
fn load_accepts_whitespace_between_tokens() {
    let pretty = "{\n  \"configured_pins\": [\n    [ 17 , { \"Output\" : true } ],\r\n    [ 26 , { \"Input\" : \"PullUp\" } ]\n  ]\n}\n";
    let config = GPIOConfig::from_json(pretty.as_bytes()).unwrap();
    assert_eq!(config.configured_pins.len(), 2);
    assert_eq!(config.configured_pins[0], (17, PinFunction::Output(Some(true))));
    assert_eq!(config.configured_pins[1], (26, PinFunction::Input(Some(InputPull::PullUp))));
}

#[test]
fn load_rejects_unknown_function_tag() {
    let bad = r#"{"configured_pins":[[1,"Gruond"]]}"#;
    assert!(GPIOConfig::from_json(bad.as_bytes()).is_err());
}

#[test]
fn load_rejects_wrong_payload_shape() {
    // a pull tag where a level belongs
    let bad = r#"{"configured_pins":[[1,{"Output":"PullUp"}]]}"#;
    assert!(GPIOConfig::from_json(bad.as_bytes()).is_err());
    // a level where a pull tag belongs
    let bad = r#"{"configured_pins":[[1,{"Input":true}]]}"#;
    assert!(GPIOConfig::from_json(bad.as_bytes()).is_err());
    // an inert tag in object form
    let bad = r#"{"configured_pins":[[1,{"Ground":null}]]}"#;
    assert!(GPIOConfig::from_json(bad.as_bytes()).is_err());
}

#[test]
fn load_rejects_malformed_documents() {
    for bad in [
        "",
        "{",
        r#"{"configured_pins":}"#,
        r#"{"configured_pins":[}"#,
        r#"{"configured_pins":[[1,"Ground"]"#,
        r#"{"configured_pins":[[1,"Ground"],]}"#,
        r#"{"configured_pins":[[1,"Ground"]]} trailing"#,
        r#"{"pins":[[1,"Ground"]]}"#,
        r#"["configured_pins"]"#,
    ] {
        assert!(GPIOConfig::from_json(bad.as_bytes()).is_err(), "accepted: {bad}");
    }
}

#[test]
fn load_rejects_bad_channel_numbers() {
    // out of the eight-bit range
    let bad = r#"{"configured_pins":[[256,"Ground"]]}"#;
    assert!(GPIOConfig::from_json(bad.as_bytes()).is_err());
    let bad = r#"{"configured_pins":[[999999999999,"Ground"]]}"#;
    assert!(GPIOConfig::from_json(bad.as_bytes()).is_err());
    // a leading zero is not a JSON integer
    let bad = r#"{"configured_pins":[[01,"Ground"]]}"#;
    assert!(GPIOConfig::from_json(bad.as_bytes()).is_err());
    // the largest channel is accepted
    let good = r#"{"configured_pins":[[255,"Ground"]]}"#;
    let config = GPIOConfig::from_json(good.as_bytes()).unwrap();
    assert_eq!(config.configured_pins, vec![(255, PinFunction::Ground)]);
}

#[test]
fn save_encodes_every_payload_form() {
    let config = GPIOConfig {
        configured_pins: vec![
            (1, PinFunction::Input(Some(InputPull::PullDown))),
            (2, PinFunction::Input(Some(InputPull::NoPull))),
            (3, PinFunction::Output(None)),
            (4, PinFunction::Output(Some(false))),
            (5, PinFunction::NoFunction),
        ],
    };
    assert_eq!(
        to_json_string(&config),
        r#"{"configured_pins":[[1,{"Input":"PullDown"}],[2,{"Input":"None"}],[3,{"Output":null}],[4,{"Output":false}],[5,"None"]]}"#
    );
}
