//! The pin data model: electrical pull settings, the closed set of pin
//! functions, the static description of one physical pin, and the mutable
//! configuration that maps chip channels to assigned functions.

use vstd::prelude::*;

verus! {

/// Identifies a pin by its chip-level ("Broadcom SOC channel") number.
pub type BCMPinNumber = u8;

/// Identifies a pin by its physical position printed on the board.
pub type BoardPinNumber = u8;

/// The logic level of a digital signal: `true` is high, `false` is low.
pub type PinLevel = bool;

/// The electrical pull configuration of an input pin. `NoPull` is
/// persisted and rendered as `None`: no internal resistor is enabled.
#[derive(Debug, Clone, Copy, PartialEq, Eq, Structural)]
pub enum InputPull {
    PullUp,
    PullDown,
    NoPull,
}

/// Every function a pin may be assigned. Most variants are inert markers;
/// `Input` and `Output` carry an optional payload.
#[derive(Debug, Clone, Copy, PartialEq, Eq, Structural)]
#[allow(non_camel_case_types)]
pub enum PinFunction {
    /// No function assigned; persisted and rendered as `None`.
    NoFunction,
    Power3V3,
    Power5V,
    Ground,
    /// Pin configured as a digital input, with an optional internal pull.
    Input(Option<InputPull>),
    /// Pin configured as a digital output, with an optional initial level.
    Output(Option<PinLevel>),
    GPCLK0,
    GPCLK1,
    GPCLK2,
    I2C1_SDA,
    I2C1_SCL,
    I2C3_SDA,
    I2C3_SCL,
    I2C4_SDA,
    I2C4_SCL,
    I2C5_SDA,
    I2C5_SCL,
    I2C6_SDA,
    I2C6_SCL,
    SPI0_MOSI,
    SPI0_MOMI,
    SPI0_MISO,
    SPI0_SCLK,
    SPI0_CE0_N,
    SPI0_CE1_N,
    SPI1_MOSI,
    SPI1_MOMI,
    SPI1_MISO,
    SPI1_SCLK,
    SPI1_CE0_N,
    SPI1_CE1_N,
    SPI1_CE2_N,
    PWM0,
    PWM1,
    UART0_TXD,
    UART0_RXD,
    PCM_FS,
    PCM_DIN,
    PCM_DOUT,
    PCM_CLK,
    I2C_EEPROM_ID_SD,
    I2C_EEPROM_ID_SC,
}

/// Static, read-only description of one physical pin: its board position,
/// its optional chip channel, its name, and the functions it may be given.
#[derive(Debug, Clone)]
pub struct PinDescription {
    pub board_pin_number: BoardPinNumber,
    pub bcm_pin_number: Option<BCMPinNumber>,
    pub name: &'static str,
    pub options: &'static [PinFunction],
}

/// A user's configuration: the sequence of (channel, assigned function)
/// pairs, in insertion order. Duplicate channels are not rejected here;
/// keeping at most one entry per channel is the caller's responsibility.
#[derive(Debug, Clone)]
pub struct GPIOConfig {
    pub configured_pins: Vec<(BCMPinNumber, PinFunction)>,
}

impl View for GPIOConfig {
    type V = Seq<(BCMPinNumber, PinFunction)>;

    open spec fn view(&self) -> Seq<(BCMPinNumber, PinFunction)> {
        self.configured_pins@
    }
}

impl Default for GPIOConfig {
    /// A fresh configuration has no configured pins.
    fn default() -> (r: Self)
        ensures
            r@ == Seq::<(BCMPinNumber, PinFunction)>::empty(),
    {
        GPIOConfig { configured_pins: Vec::new() }
    }
}

} // verus!
