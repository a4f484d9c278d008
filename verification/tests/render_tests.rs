//! Tests of the human-readable renderings.

use gpio_config::GPIOConfig;
use gpio_config::InputPull;
use gpio_config::PinDescription;
use gpio_config::PinFunction;

#[test]
fn input_pull_renders_with_spaces() {
    assert_eq!(InputPull::PullUp.render(), "Pull Up");
    assert_eq!(InputPull::PullDown.render(), "Pull Down");
    assert_eq!(InputPull::NoPull.render(), "None");
}

#[test]
fn function_renders_tag_only() {
    assert_eq!(PinFunction::Input(Some(InputPull::PullUp)).render(), "Input");
    assert_eq!(PinFunction::Output(Some(true)).render(), "Output");
    assert_eq!(PinFunction::Input(None).render(), "Input");
    assert_eq!(PinFunction::Ground.render(), "Ground");
    assert_eq!(PinFunction::NoFunction.render(), "None");
    assert_eq!(PinFunction::SPI0_CE1_N.render(), "SPI0_CE1_N");
    assert_eq!(PinFunction::I2C_EEPROM_ID_SD.render(), "I2C_EEPROM_ID_SD");
}

#[test]
fn empty_config_renders_fixed_message() {
    let config = GPIOConfig::default();
    assert_eq!(config.render(), "No Pins are Configured\n");
}

#[test]
fn config_renders_one_line_per_entry() {
    let config = GPIOConfig {
        configured_pins: vec![
            (17, PinFunction::Output(Some(true))),
            (26, PinFunction::Input(Some(InputPull::PullUp))),
            (255, PinFunction::Ground),
        ],
    };
    assert_eq!(
        config.render(),
        "Configured Pins:\n\tBCM Pin #: 17 - Output\n\tBCM Pin #: 26 - Input\n\tBCM Pin #: 255 - Ground\n"
    );
}

#[test]
fn pin_description_renders_four_lines() {
    let pin = PinDescription {
        board_pin_number: 26,
        bcm_pin_number: Some(7),
        name: "GPIO7",
        options: &[
            PinFunction::Input(Some(InputPull::PullUp)),
            PinFunction::Output(None),
            PinFunction::GPCLK0,
        ],
    };
    assert_eq!(
        pin.render(),
        "Board Pin #: 26\n\tBCM Pin #: Some(7)\n\tName Pin #: GPIO7\n\tFunctions #: [Input(Some(PullUp)), Output(None), GPCLK0]\n"
    );
}

#[test]
fn pin_description_without_channel() {
    let pin = PinDescription {
        board_pin_number: 6,
        bcm_pin_number: None,
        name: "Ground",
        options: &[PinFunction::Ground],
    };
    assert_eq!(
        pin.render(),
        "Board Pin #: 6\n\tBCM Pin #: None\n\tName Pin #: Ground\n\tFunctions #: [Ground]\n"
    );
}
