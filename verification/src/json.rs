//! The persisted document format for a `GPIOConfig`: a single JSON document
//!
//! ```text
//! {"configured_pins":[[<channel>,<function>],...]}
//! ```
//!
//! where an inert function variant is encoded as its quoted tag name,
//! `Input` as `{"Input":null}` or `{"Input":"<pull tag>"}`, and `Output`
//! as `{"Output":null}`, `{"Output":true}` or `{"Output":false}`.
//!
//! `encode_config` defines the exact bytes written for a configuration;
//! `parse_config` defines which byte sequences are accepted back and what
//! value they denote (the writer's output plus JSON whitespace between
//! tokens). `GPIOConfig::to_json` and `GPIOConfig::from_json` are verified
//! against those two definitions, and `lemma_round_trip` proves that every
//! configuration survives the write/read cycle unchanged.

use vstd::prelude::*;

use crate::pins::GPIOConfig;
use crate::pins::InputPull;
use crate::pins::PinFunction;

verus! {

/// A document that does not match the persisted schema.
#[derive(Debug, Clone, Copy, PartialEq, Eq, Structural)]
pub struct FormatError;

pub const QUOTE: u8 = 34;
pub const COMMA: u8 = 44;
pub const COLON: u8 = 58;
pub const LBRACK: u8 = 91;
pub const RBRACK: u8 = 93;
pub const LBRACE: u8 = 123;
pub const RBRACE: u8 = 125;

/// The object key under which the entry list is stored: `configured_pins`.
pub open spec fn key_configured_pins() -> Seq<u8> {
    seq![99u8, 111, 110, 102, 105, 103, 117, 114, 101, 100, 95, 112, 105, 110, 115]
}

/// The key naming the `Input` variant in its object encoding.
pub open spec fn key_input() -> Seq<u8> {
    seq![73u8, 110, 112, 117, 116]
}

/// The key naming the `Output` variant in its object encoding.
pub open spec fn key_output() -> Seq<u8> {
    seq![79u8, 117, 116, 112, 117, 116]
}

/// The JSON literal `null`.
pub open spec fn lit_null() -> Seq<u8> {
    seq![110u8, 117, 108, 108]
}

/// The JSON literal `true`.
pub open spec fn lit_true() -> Seq<u8> {
    seq![116u8, 114, 117, 101]
}

/// The JSON literal `false`.
pub open spec fn lit_false() -> Seq<u8> {
    seq![102u8, 97, 108, 115, 101]
}

/// The tag under which each pull setting is persisted: the unset pull is
/// stored as `None`.
pub open spec fn pull_tag(p: InputPull) -> Seq<u8> {
    match p {
        InputPull::PullUp => seq![80u8, 117, 108, 108, 85, 112],
        InputPull::PullDown => seq![80u8, 117, 108, 108, 68, 111, 119, 110],
        InputPull::NoPull => seq![78u8, 111, 110, 101],
    }
}

/// The tag name under which each function variant is persisted and displayed.
pub open spec fn func_tag(f: PinFunction) -> Seq<u8> {
    match f {
        PinFunction::NoFunction => seq![78u8, 111, 110, 101],  // None
        PinFunction::Power3V3 => seq![80u8, 111, 119, 101, 114, 51, 86, 51],  // Power3V3
        PinFunction::Power5V => seq![80u8, 111, 119, 101, 114, 53, 86],  // Power5V
        PinFunction::Ground => seq![71u8, 114, 111, 117, 110, 100],  // Ground
        PinFunction::GPCLK0 => seq![71u8, 80, 67, 76, 75, 48],  // GPCLK0
        PinFunction::GPCLK1 => seq![71u8, 80, 67, 76, 75, 49],  // GPCLK1
        PinFunction::GPCLK2 => seq![71u8, 80, 67, 76, 75, 50],  // GPCLK2
        PinFunction::I2C1_SDA => seq![73u8, 50, 67, 49, 95, 83, 68, 65],  // I2C1_SDA
        PinFunction::I2C1_SCL => seq![73u8, 50, 67, 49, 95, 83, 67, 76],  // I2C1_SCL
        PinFunction::I2C3_SDA => seq![73u8, 50, 67, 51, 95, 83, 68, 65],  // I2C3_SDA
        PinFunction::I2C3_SCL => seq![73u8, 50, 67, 51, 95, 83, 67, 76],  // I2C3_SCL
        PinFunction::I2C4_SDA => seq![73u8, 50, 67, 52, 95, 83, 68, 65],  // I2C4_SDA
        PinFunction::I2C4_SCL => seq![73u8, 50, 67, 52, 95, 83, 67, 76],  // I2C4_SCL
        PinFunction::I2C5_SDA => seq![73u8, 50, 67, 53, 95, 83, 68, 65],  // I2C5_SDA
        PinFunction::I2C5_SCL => seq![73u8, 50, 67, 53, 95, 83, 67, 76],  // I2C5_SCL
        PinFunction::I2C6_SDA => seq![73u8, 50, 67, 54, 95, 83, 68, 65],  // I2C6_SDA
        PinFunction::I2C6_SCL => seq![73u8, 50, 67, 54, 95, 83, 67, 76],  // I2C6_SCL
        PinFunction::SPI0_MOSI => seq![83u8, 80, 73, 48, 95, 77, 79, 83, 73],  // SPI0_MOSI
        PinFunction::SPI0_MOMI => seq![83u8, 80, 73, 48, 95, 77, 79, 77, 73],  // SPI0_MOMI
        PinFunction::SPI0_MISO => seq![83u8, 80, 73, 48, 95, 77, 73, 83, 79],  // SPI0_MISO
        PinFunction::SPI0_SCLK => seq![83u8, 80, 73, 48, 95, 83, 67, 76, 75],  // SPI0_SCLK
        PinFunction::SPI0_CE0_N => seq![83u8, 80, 73, 48, 95, 67, 69, 48, 95, 78],  // SPI0_CE0_N
        PinFunction::SPI0_CE1_N => seq![83u8, 80, 73, 48, 95, 67, 69, 49, 95, 78],  // SPI0_CE1_N
        PinFunction::SPI1_MOSI => seq![83u8, 80, 73, 49, 95, 77, 79, 83, 73],  // SPI1_MOSI
        PinFunction::SPI1_MOMI => seq![83u8, 80, 73, 49, 95, 77, 79, 77, 73],  // SPI1_MOMI
        PinFunction::SPI1_MISO => seq![83u8, 80, 73, 49, 95, 77, 73, 83, 79],  // SPI1_MISO
        PinFunction::SPI1_SCLK => seq![83u8, 80, 73, 49, 95, 83, 67, 76, 75],  // SPI1_SCLK
        PinFunction::SPI1_CE0_N => seq![83u8, 80, 73, 49, 95, 67, 69, 48, 95, 78],  // SPI1_CE0_N
        PinFunction::SPI1_CE1_N => seq![83u8, 80, 73, 49, 95, 67, 69, 49, 95, 78],  // SPI1_CE1_N
        PinFunction::SPI1_CE2_N => seq![83u8, 80, 73, 49, 95, 67, 69, 50, 95, 78],  // SPI1_CE2_N
        PinFunction::PWM0 => seq![80u8, 87, 77, 48],  // PWM0
        PinFunction::PWM1 => seq![80u8, 87, 77, 49],  // PWM1
        PinFunction::UART0_TXD => seq![85u8, 65, 82, 84, 48, 95, 84, 88, 68],  // UART0_TXD
        PinFunction::UART0_RXD => seq![85u8, 65, 82, 84, 48, 95, 82, 88, 68],  // UART0_RXD
        PinFunction::PCM_FS => seq![80u8, 67, 77, 95, 70, 83],  // PCM_FS
        PinFunction::PCM_DIN => seq![80u8, 67, 77, 95, 68, 73, 78],  // PCM_DIN
        PinFunction::PCM_DOUT => seq![80u8, 67, 77, 95, 68, 79, 85, 84],  // PCM_DOUT
        PinFunction::PCM_CLK => seq![80u8, 67, 77, 95, 67, 76, 75],  // PCM_CLK
        PinFunction::I2C_EEPROM_ID_SD => seq![73u8, 50, 67, 95, 69, 69, 80, 82, 79, 77, 95, 73, 68, 95, 83, 68],  // I2C_EEPROM_ID_SD
        PinFunction::I2C_EEPROM_ID_SC => seq![73u8, 50, 67, 95, 69, 69, 80, 82, 79, 77, 95, 73, 68, 95, 83, 67],  // I2C_EEPROM_ID_SC
        PinFunction::Input(_) => key_input(),  // Input
        PinFunction::Output(_) => key_output(),  // Output
    }
}

/// The bytes of `func_tag(*f)` as an executable value.
fn func_tag_vec(f: &PinFunction) -> (r: Vec<u8>)
    ensures
        r@ == func_tag(*f),
{
    let r: Vec<u8> = match f {
        PinFunction::NoFunction => vec![78u8, 111, 110, 101],  // None
        PinFunction::Power3V3 => vec![80u8, 111, 119, 101, 114, 51, 86, 51],  // Power3V3
        PinFunction::Power5V => vec![80u8, 111, 119, 101, 114, 53, 86],  // Power5V
        PinFunction::Ground => vec![71u8, 114, 111, 117, 110, 100],  // Ground
        PinFunction::GPCLK0 => vec![71u8, 80, 67, 76, 75, 48],  // GPCLK0
        PinFunction::GPCLK1 => vec![71u8, 80, 67, 76, 75, 49],  // GPCLK1
        PinFunction::GPCLK2 => vec![71u8, 80, 67, 76, 75, 50],  // GPCLK2
        PinFunction::I2C1_SDA => vec![73u8, 50, 67, 49, 95, 83, 68, 65],  // I2C1_SDA
        PinFunction::I2C1_SCL => vec![73u8, 50, 67, 49, 95, 83, 67, 76],  // I2C1_SCL
        PinFunction::I2C3_SDA => vec![73u8, 50, 67, 51, 95, 83, 68, 65],  // I2C3_SDA
        PinFunction::I2C3_SCL => vec![73u8, 50, 67, 51, 95, 83, 67, 76],  // I2C3_SCL
        PinFunction::I2C4_SDA => vec![73u8, 50, 67, 52, 95, 83, 68, 65],  // I2C4_SDA
        PinFunction::I2C4_SCL => vec![73u8, 50, 67, 52, 95, 83, 67, 76],  // I2C4_SCL
        PinFunction::I2C5_SDA => vec![73u8, 50, 67, 53, 95, 83, 68, 65],  // I2C5_SDA
        PinFunction::I2C5_SCL => vec![73u8, 50, 67, 53, 95, 83, 67, 76],  // I2C5_SCL
        PinFunction::I2C6_SDA => vec![73u8, 50, 67, 54, 95, 83, 68, 65],  // I2C6_SDA
        PinFunction::I2C6_SCL => vec![73u8, 50, 67, 54, 95, 83, 67, 76],  // I2C6_SCL
        PinFunction::SPI0_MOSI => vec![83u8, 80, 73, 48, 95, 77, 79, 83, 73],  // SPI0_MOSI
        PinFunction::SPI0_MOMI => vec![83u8, 80, 73, 48, 95, 77, 79, 77, 73],  // SPI0_MOMI
        PinFunction::SPI0_MISO => vec![83u8, 80, 73, 48, 95, 77, 73, 83, 79],  // SPI0_MISO
        PinFunction::SPI0_SCLK => vec![83u8, 80, 73, 48, 95, 83, 67, 76, 75],  // SPI0_SCLK
        PinFunction::SPI0_CE0_N => vec![83u8, 80, 73, 48, 95, 67, 69, 48, 95, 78],  // SPI0_CE0_N
        PinFunction::SPI0_CE1_N => vec![83u8, 80, 73, 48, 95, 67, 69, 49, 95, 78],  // SPI0_CE1_N
        PinFunction::SPI1_MOSI => vec![83u8, 80, 73, 49, 95, 77, 79, 83, 73],  // SPI1_MOSI
        PinFunction::SPI1_MOMI => vec![83u8, 80, 73, 49, 95, 77, 79, 77, 73],  // SPI1_MOMI
        PinFunction::SPI1_MISO => vec![83u8, 80, 73, 49, 95, 77, 73, 83, 79],  // SPI1_MISO
        PinFunction::SPI1_SCLK => vec![83u8, 80, 73, 49, 95, 83, 67, 76, 75],  // SPI1_SCLK
        PinFunction::SPI1_CE0_N => vec![83u8, 80, 73, 49, 95, 67, 69, 48, 95, 78],  // SPI1_CE0_N
        PinFunction::SPI1_CE1_N => vec![83u8, 80, 73, 49, 95, 67, 69, 49, 95, 78],  // SPI1_CE1_N
        PinFunction::SPI1_CE2_N => vec![83u8, 80, 73, 49, 95, 67, 69, 50, 95, 78],  // SPI1_CE2_N
        PinFunction::PWM0 => vec![80u8, 87, 77, 48],  // PWM0
        PinFunction::PWM1 => vec![80u8, 87, 77, 49],  // PWM1
        PinFunction::UART0_TXD => vec![85u8, 65, 82, 84, 48, 95, 84, 88, 68],  // UART0_TXD
        PinFunction::UART0_RXD => vec![85u8, 65, 82, 84, 48, 95, 82, 88, 68],  // UART0_RXD
        PinFunction::PCM_FS => vec![80u8, 67, 77, 95, 70, 83],  // PCM_FS
        PinFunction::PCM_DIN => vec![80u8, 67, 77, 95, 68, 73, 78],  // PCM_DIN
        PinFunction::PCM_DOUT => vec![80u8, 67, 77, 95, 68, 79, 85, 84],  // PCM_DOUT
        PinFunction::PCM_CLK => vec![80u8, 67, 77, 95, 67, 76, 75],  // PCM_CLK
        PinFunction::I2C_EEPROM_ID_SD => vec![73u8, 50, 67, 95, 69, 69, 80, 82, 79, 77, 95, 73, 68, 95, 83, 68],  // I2C_EEPROM_ID_SD
        PinFunction::I2C_EEPROM_ID_SC => vec![73u8, 50, 67, 95, 69, 69, 80, 82, 79, 77, 95, 73, 68, 95, 83, 67],  // I2C_EEPROM_ID_SC
        PinFunction::Input(_) => vec![73u8, 110, 112, 117, 116],  // Input
        PinFunction::Output(_) => vec![79u8, 117, 116, 112, 117, 116],  // Output
    };
    proof { assert(r@ =~= func_tag(*f)); }
    r
}

/// A JSON whitespace byte: space, tab, line feed or carriage return.
pub open spec fn is_ws(b: u8) -> bool {
    b == 32 || b == 9 || b == 10 || b == 13
}

/// An ASCII decimal digit.
pub open spec fn is_digit(b: u8) -> bool {
    48 <= b <= 57
}

/// The shortest decimal rendering of `n`, as ASCII bytes.
pub open spec fn dec_bytes(n: nat) -> Seq<u8>
    decreases n,
{
    if n < 10 {
        seq![(48 + n) as u8]
    } else {
        dec_bytes(n / 10) + seq![(48 + n % 10) as u8]
    }
}

/// The encoding of an `Input` payload: `null`, or the quoted pull tag.
pub open spec fn encode_pull_payload(p: Option<InputPull>) -> Seq<u8> {
    match p {
        Option::None => lit_null(),
        Option::Some(pull) => seq![QUOTE] + pull_tag(pull) + seq![QUOTE],
    }
}

/// The encoding of an `Output` payload: `null`, `true` or `false`.
pub open spec fn encode_level_payload(l: Option<bool>) -> Seq<u8> {
    match l {
        Option::None => lit_null(),
        Option::Some(true) => lit_true(),
        Option::Some(false) => lit_false(),
    }
}

/// The encoding of one assigned function: a quoted tag for the inert
/// variants, a one-key object for `Input` and `Output`.
pub open spec fn encode_function(f: PinFunction) -> Seq<u8> {
    match f {
        PinFunction::Input(p) => seq![LBRACE, QUOTE] + key_input() + seq![QUOTE, COLON]
            + encode_pull_payload(p) + seq![RBRACE],
        PinFunction::Output(l) => seq![LBRACE, QUOTE] + key_output() + seq![QUOTE, COLON]
            + encode_level_payload(l) + seq![RBRACE],
        _ => seq![QUOTE] + func_tag(f) + seq![QUOTE],
    }
}

/// The encoding of one configured pin: `[<channel>,<function>]`.
pub open spec fn encode_entry(e: (u8, PinFunction)) -> Seq<u8> {
    seq![LBRACK] + dec_bytes(e.0 as nat) + seq![COMMA] + encode_function(e.1) + seq![RBRACK]
}

/// The comma-separated encodings of all entries, in order.
pub open spec fn encode_entries(es: Seq<(u8, PinFunction)>) -> Seq<u8>
    decreases es.len(),
{
    if es.len() == 0 {
        Seq::empty()
    } else if es.len() == 1 {
        encode_entry(es[0])
    } else {
        encode_entry(es[0]) + seq![COMMA] + encode_entries(es.drop_first())
    }
}

/// The whole persisted document for an entry sequence.
pub open spec fn encode_config(es: Seq<(u8, PinFunction)>) -> Seq<u8> {
    seq![LBRACE, QUOTE] + key_configured_pins() + seq![QUOTE, COLON, LBRACK] + encode_entries(es)
        + seq![RBRACK, RBRACE]
}

/// The bytes of `pull_tag(*p)` as an executable value.
fn pull_tag_vec(p: &InputPull) -> (r: Vec<u8>)
    ensures
        r@ == pull_tag(*p),
{
    let r: Vec<u8> = match p {
        InputPull::PullUp => vec![80u8, 117, 108, 108, 85, 112],
        InputPull::PullDown => vec![80u8, 117, 108, 108, 68, 111, 119, 110],
        InputPull::NoPull => vec![78u8, 111, 110, 101],
    };
    proof {
        assert(r@ =~= pull_tag(*p));
    }
    r
}

fn lit_null_vec() -> (r: Vec<u8>)
    ensures
        r@ == lit_null(),
{
    let r: Vec<u8> = vec![110u8, 117, 108, 108];
    proof {
        assert(r@ =~= lit_null());
    }
    r
}

fn lit_true_vec() -> (r: Vec<u8>)
    ensures
        r@ == lit_true(),
{
    let r: Vec<u8> = vec![116u8, 114, 117, 101];
    proof {
        assert(r@ =~= lit_true());
    }
    r
}

fn lit_false_vec() -> (r: Vec<u8>)
    ensures
        r@ == lit_false(),
{
    let r: Vec<u8> = vec![102u8, 97, 108, 115, 101];
    proof {
        assert(r@ =~= lit_false());
    }
    r
}

fn key_configured_pins_vec() -> (r: Vec<u8>)
    ensures
        r@ == key_configured_pins(),
{
    let r: Vec<u8> = vec![99u8, 111, 110, 102, 105, 103, 117, 114, 101, 100, 95, 112, 105, 110, 115];
    proof {
        assert(r@ =~= key_configured_pins());
    }
    r
}

/// Byte-for-byte equality of two byte vectors.
fn bytes_eq(a: &Vec<u8>, b: &Vec<u8>) -> (r: bool)
    ensures
        r == (a@ == b@),
{
    if a.len() != b.len() {
        return false;
    }
    let mut i: usize = 0;
    while i < a.len()
        invariant
            a@.len() == b@.len(),
            0 <= i <= a@.len(),
            forall|k: int| 0 <= k < i ==> a@[k] == b@[k],
        decreases a@.len() - i,
    {
        if a[i] != b[i] {
            return false;
        }
        i += 1;
    }
    proof {
        assert(a@ =~= b@);
    }
    true
}

/// Appends the decimal rendering of `n` to `out`.
fn push_dec(out: &mut Vec<u8>, n: u8)
    ensures
        final(out)@ == old(out)@ + dec_bytes(n as nat),
{
    proof {
        vstd::arithmetic::div_mod::lemma_div_denominator(n as int, 10, 10);
        reveal_with_fuel(dec_bytes, 4);
    }
    if n >= 100 {
        out.push(48 + n / 100);
    }
    if n >= 10 {
        out.push(48 + (n / 10) % 10);
    }
    out.push(48 + n % 10);
    proof {
        assert(out@ =~= old(out)@ + dec_bytes(n as nat));
    }
}

/// Appends the encoding of one assigned function to `out`.
fn push_function(out: &mut Vec<u8>, f: &PinFunction)
    ensures
        final(out)@ == old(out)@ + encode_function(*f),
{
    match f {
        PinFunction::Input(p) => {
            out.push(LBRACE);
            out.push(QUOTE);
            let mut k = func_tag_vec(f);
            out.append(&mut k);
            out.push(QUOTE);
            out.push(COLON);
            match p {
                Option::None => {
                    let mut l = lit_null_vec();
                    out.append(&mut l);
                },
                Option::Some(pull) => {
                    out.push(QUOTE);
                    let mut t = pull_tag_vec(pull);
                    out.append(&mut t);
                    out.push(QUOTE);
                },
            }
            out.push(RBRACE);
            proof {
                assert(out@ =~= old(out)@ + encode_function(*f));
            }
        },
        PinFunction::Output(l) => {
            out.push(LBRACE);
            out.push(QUOTE);
            let mut k = func_tag_vec(f);
            out.append(&mut k);
            out.push(QUOTE);
            out.push(COLON);
            match l {
                Option::None => {
                    let mut v = lit_null_vec();
                    out.append(&mut v);
                },
                Option::Some(true) => {
                    let mut v = lit_true_vec();
                    out.append(&mut v);
                },
                Option::Some(false) => {
                    let mut v = lit_false_vec();
                    out.append(&mut v);
                },
            }
            out.push(RBRACE);
            proof {
                assert(out@ =~= old(out)@ + encode_function(*f));
            }
        },
        _ => {
            out.push(QUOTE);
            let mut t = func_tag_vec(f);
            out.append(&mut t);
            out.push(QUOTE);
            proof {
                assert(out@ =~= old(out)@ + encode_function(*f));
            }
        },
    }
}

/// Appending one entry's encoding extends the joined list encoding by a
/// comma (when the list was non-empty) and that entry's encoding.
proof fn lemma_encode_entries_push(es: Seq<(u8, PinFunction)>, e: (u8, PinFunction))
    ensures
        encode_entries(es.push(e)) == if es.len() == 0 {
            encode_entry(e)
        } else {
            encode_entries(es) + seq![COMMA] + encode_entry(e)
        },
    decreases es.len(),
{
    if es.len() == 0 {
        assert(es.push(e) =~= seq![e]);
        assert(encode_entries(seq![e]) == encode_entry(e));
    } else {
        lemma_encode_entries_push(es.drop_first(), e);
        assert(es.push(e).drop_first() =~= es.drop_first().push(e));
        assert(es.push(e).len() >= 2);
        assert(es.push(e)[0] == es[0]);
        if es.len() == 1 {
            assert(encode_entries(es) == encode_entry(es[0]));
            assert(encode_entries(es.push(e)) =~= encode_entries(es) + seq![COMMA] + encode_entry(e));
        } else {
            assert(encode_entries(es.push(e)) =~= encode_entries(es) + seq![COMMA] + encode_entry(e));
        }
    }
}

impl GPIOConfig {
    /// Serializes this configuration to the persisted document format,
    /// exactly as `encode_config` defines it.
    pub fn to_json(&self) -> (r: Vec<u8>)
        ensures
            r@ == encode_config(self@),
    {
        let mut out: Vec<u8> = Vec::new();
        out.push(LBRACE);
        out.push(QUOTE);
        let mut k = key_configured_pins_vec();
        out.append(&mut k);
        out.push(QUOTE);
        out.push(COLON);
        out.push(LBRACK);
        let ghost hdr: Seq<u8> = out@;
        let n = self.configured_pins.len();
        let mut i: usize = 0;
        while i < n
            invariant
                n == self.configured_pins@.len(),
                0 <= i <= n,
                out@ == hdr + encode_entries(self.configured_pins@.take(i as int)),
            decreases n - i,
        {
            if i > 0 {
                out.push(COMMA);
            }
            let e = self.configured_pins[i];
            out.push(LBRACK);
            push_dec(&mut out, e.0);
            out.push(COMMA);
            push_function(&mut out, &e.1);
            out.push(RBRACK);
            proof {
                let ghost pre = self.configured_pins@.take(i as int);
                lemma_encode_entries_push(pre, self.configured_pins@[i as int]);
                assert(pre.push(self.configured_pins@[i as int]) =~= self.configured_pins@.take(
                    i + 1 as int,
                ));
                assert(out@ =~= hdr + encode_entries(self.configured_pins@.take(i + 1 as int)));
            }
            i += 1;
        }
        out.push(RBRACK);
        out.push(RBRACE);
        proof {
            assert(self.configured_pins@.take(n as int) =~= self.configured_pins@);
            assert(out@ =~= encode_config(self@));
        }
        out
    }
}

/// Maps a tag, as scanned from a quoted JSON string, to the inert
/// (payload-free) function variant it names, if any.
pub open spec fn classify_inert(t: Seq<u8>) -> Option<PinFunction> {
    if t.len() == 4 {
        if t[0] == 78 {  // 'N'
            if t == func_tag(PinFunction::NoFunction) { Some(PinFunction::NoFunction) } else { None }
        } else if t[0] == 80 {  // 'P'
            if t[3] == 48 {  // '0'
                if t == func_tag(PinFunction::PWM0) { Some(PinFunction::PWM0) } else { None }
            } else if t[3] == 49 {  // '1'
                if t == func_tag(PinFunction::PWM1) { Some(PinFunction::PWM1) } else { None }
            } else {
                None
            }
        } else {
            None
        }
    } else if t.len() == 6 {
        if t[0] == 71 {  // 'G'
            if t[1] == 114 {  // 'r'
                if t == func_tag(PinFunction::Ground) { Some(PinFunction::Ground) } else { None }
            } else if t[1] == 80 {  // 'P'
                if t[5] == 48 {  // '0'
                    if t == func_tag(PinFunction::GPCLK0) { Some(PinFunction::GPCLK0) } else { None }
                } else if t[5] == 49 {  // '1'
                    if t == func_tag(PinFunction::GPCLK1) { Some(PinFunction::GPCLK1) } else { None }
                } else if t[5] == 50 {  // '2'
                    if t == func_tag(PinFunction::GPCLK2) { Some(PinFunction::GPCLK2) } else { None }
                } else {
                    None
                }
            } else {
                None
            }
        } else if t[0] == 80 {  // 'P'
            if t == func_tag(PinFunction::PCM_FS) { Some(PinFunction::PCM_FS) } else { None }
        } else {
            None
        }
    } else if t.len() == 7 {
        if t[1] == 111 {  // 'o'
            if t == func_tag(PinFunction::Power5V) { Some(PinFunction::Power5V) } else { None }
        } else if t[1] == 67 {  // 'C'
            if t[4] == 68 {  // 'D'
                if t == func_tag(PinFunction::PCM_DIN) { Some(PinFunction::PCM_DIN) } else { None }
            } else if t[4] == 67 {  // 'C'
                if t == func_tag(PinFunction::PCM_CLK) { Some(PinFunction::PCM_CLK) } else { None }
            } else {
                None
            }
        } else {
            None
        }
    } else if t.len() == 8 {
        if t[0] == 80 {  // 'P'
            if t[1] == 111 {  // 'o'
                if t == func_tag(PinFunction::Power3V3) { Some(PinFunction::Power3V3) } else { None }
            } else if t[1] == 67 {  // 'C'
                if t == func_tag(PinFunction::PCM_DOUT) { Some(PinFunction::PCM_DOUT) } else { None }
            } else {
                None
            }
        } else if t[0] == 73 {  // 'I'
            if t[3] == 49 {  // '1'
                if t[6] == 68 {  // 'D'
                    if t == func_tag(PinFunction::I2C1_SDA) { Some(PinFunction::I2C1_SDA) } else { None }
                } else if t[6] == 67 {  // 'C'
                    if t == func_tag(PinFunction::I2C1_SCL) { Some(PinFunction::I2C1_SCL) } else { None }
                } else {
                    None
                }
            } else if t[3] == 51 {  // '3'
                if t[6] == 68 {  // 'D'
                    if t == func_tag(PinFunction::I2C3_SDA) { Some(PinFunction::I2C3_SDA) } else { None }
                } else if t[6] == 67 {  // 'C'
                    if t == func_tag(PinFunction::I2C3_SCL) { Some(PinFunction::I2C3_SCL) } else { None }
                } else {
                    None
                }
            } else if t[3] == 52 {  // '4'
                if t[6] == 68 {  // 'D'
                    if t == func_tag(PinFunction::I2C4_SDA) { Some(PinFunction::I2C4_SDA) } else { None }
                } else if t[6] == 67 {  // 'C'
                    if t == func_tag(PinFunction::I2C4_SCL) { Some(PinFunction::I2C4_SCL) } else { None }
                } else {
                    None
                }
            } else if t[3] == 53 {  // '5'
                if t[6] == 68 {  // 'D'
                    if t == func_tag(PinFunction::I2C5_SDA) { Some(PinFunction::I2C5_SDA) } else { None }
                } else if t[6] == 67 {  // 'C'
                    if t == func_tag(PinFunction::I2C5_SCL) { Some(PinFunction::I2C5_SCL) } else { None }
                } else {
                    None
                }
            } else if t[3] == 54 {  // '6'
                if t[6] == 68 {  // 'D'
                    if t == func_tag(PinFunction::I2C6_SDA) { Some(PinFunction::I2C6_SDA) } else { None }
                } else if t[6] == 67 {  // 'C'
                    if t == func_tag(PinFunction::I2C6_SCL) { Some(PinFunction::I2C6_SCL) } else { None }
                } else {
                    None
                }
            } else {
                None
            }
        } else {
            None
        }
    } else if t.len() == 9 {
        if t[0] == 83 {  // 'S'
            if t[3] == 48 {  // '0'
                if t[5] == 77 {  // 'M'
                    if t[6] == 79 {  // 'O'
                        if t[7] == 83 {  // 'S'
                            if t == func_tag(PinFunction::SPI0_MOSI) { Some(PinFunction::SPI0_MOSI) } else { None }
                        } else if t[7] == 77 {  // 'M'
                            if t == func_tag(PinFunction::SPI0_MOMI) { Some(PinFunction::SPI0_MOMI) } else { None }
                        } else {
                            None
                        }
                    } else if t[6] == 73 {  // 'I'
                        if t == func_tag(PinFunction::SPI0_MISO) { Some(PinFunction::SPI0_MISO) } else { None }
                    } else {
                        None
                    }
                } else if t[5] == 83 {  // 'S'
                    if t == func_tag(PinFunction::SPI0_SCLK) { Some(PinFunction::SPI0_SCLK) } else { None }
                } else {
                    None
                }
            } else if t[3] == 49 {  // '1'
                if t[5] == 77 {  // 'M'
                    if t[6] == 79 {  // 'O'
                        if t[7] == 83 {  // 'S'
                            if t == func_tag(PinFunction::SPI1_MOSI) { Some(PinFunction::SPI1_MOSI) } else { None }
                        } else if t[7] == 77 {  // 'M'
                            if t == func_tag(PinFunction::SPI1_MOMI) { Some(PinFunction::SPI1_MOMI) } else { None }
                        } else {
                            None
                        }
                    } else if t[6] == 73 {  // 'I'
                        if t == func_tag(PinFunction::SPI1_MISO) { Some(PinFunction::SPI1_MISO) } else { None }
                    } else {
                        None
                    }
                } else if t[5] == 83 {  // 'S'
                    if t == func_tag(PinFunction::SPI1_SCLK) { Some(PinFunction::SPI1_SCLK) } else { None }
                } else {
                    None
                }
            } else {
                None
            }
        } else if t[0] == 85 {  // 'U'
            if t[6] == 84 {  // 'T'
                if t == func_tag(PinFunction::UART0_TXD) { Some(PinFunction::UART0_TXD) } else { None }
            } else if t[6] == 82 {  // 'R'
                if t == func_tag(PinFunction::UART0_RXD) { Some(PinFunction::UART0_RXD) } else { None }
            } else {
                None
            }
        } else {
            None
        }
    } else if t.len() == 10 {
        if t[3] == 48 {  // '0'
            if t[7] == 48 {  // '0'
                if t == func_tag(PinFunction::SPI0_CE0_N) { Some(PinFunction::SPI0_CE0_N) } else { None }
            } else if t[7] == 49 {  // '1'
                if t == func_tag(PinFunction::SPI0_CE1_N) { Some(PinFunction::SPI0_CE1_N) } else { None }
            } else {
                None
            }
        } else if t[3] == 49 {  // '1'
            if t[7] == 48 {  // '0'
                if t == func_tag(PinFunction::SPI1_CE0_N) { Some(PinFunction::SPI1_CE0_N) } else { None }
            } else if t[7] == 49 {  // '1'
                if t == func_tag(PinFunction::SPI1_CE1_N) { Some(PinFunction::SPI1_CE1_N) } else { None }
            } else if t[7] == 50 {  // '2'
                if t == func_tag(PinFunction::SPI1_CE2_N) { Some(PinFunction::SPI1_CE2_N) } else { None }
            } else {
                None
            }
        } else {
            None
        }
    } else if t.len() == 16 {
        if t[15] == 68 {  // 'D'
            if t == func_tag(PinFunction::I2C_EEPROM_ID_SD) { Some(PinFunction::I2C_EEPROM_ID_SD) } else { None }
        } else if t[15] == 67 {  // 'C'
            if t == func_tag(PinFunction::I2C_EEPROM_ID_SC) { Some(PinFunction::I2C_EEPROM_ID_SC) } else { None }
        } else {
            None
        }
    } else {
        None
    }
}

/// Executable mirror of `classify_inert`.
fn classify_inert_vec(t: &Vec<u8>) -> (r: Option<PinFunction>)
    ensures
        r == classify_inert(t@),
{
    if t.len() == 4 {
        if t[0] == 78 {  // 'N'
            if bytes_eq(t, &func_tag_vec(&PinFunction::NoFunction)) { Some(PinFunction::NoFunction) } else { None }
        } else if t[0] == 80 {  // 'P'
            if t[3] == 48 {  // '0'
                if bytes_eq(t, &func_tag_vec(&PinFunction::PWM0)) { Some(PinFunction::PWM0) } else { None }
            } else if t[3] == 49 {  // '1'
                if bytes_eq(t, &func_tag_vec(&PinFunction::PWM1)) { Some(PinFunction::PWM1) } else { None }
            } else {
                None
            }
        } else {
            None
        }
    } else if t.len() == 6 {
        if t[0] == 71 {  // 'G'
            if t[1] == 114 {  // 'r'
                if bytes_eq(t, &func_tag_vec(&PinFunction::Ground)) { Some(PinFunction::Ground) } else { None }
            } else if t[1] == 80 {  // 'P'
                if t[5] == 48 {  // '0'
                    if bytes_eq(t, &func_tag_vec(&PinFunction::GPCLK0)) { Some(PinFunction::GPCLK0) } else { None }
                } else if t[5] == 49 {  // '1'
                    if bytes_eq(t, &func_tag_vec(&PinFunction::GPCLK1)) { Some(PinFunction::GPCLK1) } else { None }
                } else if t[5] == 50 {  // '2'
                    if bytes_eq(t, &func_tag_vec(&PinFunction::GPCLK2)) { Some(PinFunction::GPCLK2) } else { None }
                } else {
                    None
                }
            } else {
                None
            }
        } else if t[0] == 80 {  // 'P'
            if bytes_eq(t, &func_tag_vec(&PinFunction::PCM_FS)) { Some(PinFunction::PCM_FS) } else { None }
        } else {
            None
        }
    } else if t.len() == 7 {
        if t[1] == 111 {  // 'o'
            if bytes_eq(t, &func_tag_vec(&PinFunction::Power5V)) { Some(PinFunction::Power5V) } else { None }
        } else if t[1] == 67 {  // 'C'
            if t[4] == 68 {  // 'D'
                if bytes_eq(t, &func_tag_vec(&PinFunction::PCM_DIN)) { Some(PinFunction::PCM_DIN) } else { None }
            } else if t[4] == 67 {  // 'C'
                if bytes_eq(t, &func_tag_vec(&PinFunction::PCM_CLK)) { Some(PinFunction::PCM_CLK) } else { None }
            } else {
                None
            }
        } else {
            None
        }
    } else if t.len() == 8 {
        if t[0] == 80 {  // 'P'
            if t[1] == 111 {  // 'o'
                if bytes_eq(t, &func_tag_vec(&PinFunction::Power3V3)) { Some(PinFunction::Power3V3) } else { None }
            } else if t[1] == 67 {  // 'C'
                if bytes_eq(t, &func_tag_vec(&PinFunction::PCM_DOUT)) { Some(PinFunction::PCM_DOUT) } else { None }
            } else {
                None
            }
        } else if t[0] == 73 {  // 'I'
            if t[3] == 49 {  // '1'
                if t[6] == 68 {  // 'D'
                    if bytes_eq(t, &func_tag_vec(&PinFunction::I2C1_SDA)) { Some(PinFunction::I2C1_SDA) } else { None }
                } else if t[6] == 67 {  // 'C'
                    if bytes_eq(t, &func_tag_vec(&PinFunction::I2C1_SCL)) { Some(PinFunction::I2C1_SCL) } else { None }
                } else {
                    None
                }
            } else if t[3] == 51 {  // '3'
                if t[6] == 68 {  // 'D'
                    if bytes_eq(t, &func_tag_vec(&PinFunction::I2C3_SDA)) { Some(PinFunction::I2C3_SDA) } else { None }
                } else if t[6] == 67 {  // 'C'
                    if bytes_eq(t, &func_tag_vec(&PinFunction::I2C3_SCL)) { Some(PinFunction::I2C3_SCL) } else { None }
                } else {
                    None
                }
            } else if t[3] == 52 {  // '4'
                if t[6] == 68 {  // 'D'
                    if bytes_eq(t, &func_tag_vec(&PinFunction::I2C4_SDA)) { Some(PinFunction::I2C4_SDA) } else { None }
                } else if t[6] == 67 {  // 'C'
                    if bytes_eq(t, &func_tag_vec(&PinFunction::I2C4_SCL)) { Some(PinFunction::I2C4_SCL) } else { None }
                } else {
                    None
                }
            } else if t[3] == 53 {  // '5'
                if t[6] == 68 {  // 'D'
                    if bytes_eq(t, &func_tag_vec(&PinFunction::I2C5_SDA)) { Some(PinFunction::I2C5_SDA) } else { None }
                } else if t[6] == 67 {  // 'C'
                    if bytes_eq(t, &func_tag_vec(&PinFunction::I2C5_SCL)) { Some(PinFunction::I2C5_SCL) } else { None }
                } else {
                    None
                }
            } else if t[3] == 54 {  // '6'
                if t[6] == 68 {  // 'D'
                    if bytes_eq(t, &func_tag_vec(&PinFunction::I2C6_SDA)) { Some(PinFunction::I2C6_SDA) } else { None }
                } else if t[6] == 67 {  // 'C'
                    if bytes_eq(t, &func_tag_vec(&PinFunction::I2C6_SCL)) { Some(PinFunction::I2C6_SCL) } else { None }
                } else {
                    None
                }
            } else {
                None
            }
        } else {
            None
        }
    } else if t.len() == 9 {
        if t[0] == 83 {  // 'S'
            if t[3] == 48 {  // '0'
                if t[5] == 77 {  // 'M'
                    if t[6] == 79 {  // 'O'
                        if t[7] == 83 {  // 'S'
                            if bytes_eq(t, &func_tag_vec(&PinFunction::SPI0_MOSI)) { Some(PinFunction::SPI0_MOSI) } else { None }
                        } else if t[7] == 77 {  // 'M'
                            if bytes_eq(t, &func_tag_vec(&PinFunction::SPI0_MOMI)) { Some(PinFunction::SPI0_MOMI) } else { None }
                        } else {
                            None
                        }
                    } else if t[6] == 73 {  // 'I'
                        if bytes_eq(t, &func_tag_vec(&PinFunction::SPI0_MISO)) { Some(PinFunction::SPI0_MISO) } else { None }
                    } else {
                        None
                    }
                } else if t[5] == 83 {  // 'S'
                    if bytes_eq(t, &func_tag_vec(&PinFunction::SPI0_SCLK)) { Some(PinFunction::SPI0_SCLK) } else { None }
                } else {
                    None
                }
            } else if t[3] == 49 {  // '1'
                if t[5] == 77 {  // 'M'
                    if t[6] == 79 {  // 'O'
                        if t[7] == 83 {  // 'S'
                            if bytes_eq(t, &func_tag_vec(&PinFunction::SPI1_MOSI)) { Some(PinFunction::SPI1_MOSI) } else { None }
                        } else if t[7] == 77 {  // 'M'
                            if bytes_eq(t, &func_tag_vec(&PinFunction::SPI1_MOMI)) { Some(PinFunction::SPI1_MOMI) } else { None }
                        } else {
                            None
                        }
                    } else if t[6] == 73 {  // 'I'
                        if bytes_eq(t, &func_tag_vec(&PinFunction::SPI1_MISO)) { Some(PinFunction::SPI1_MISO) } else { None }
                    } else {
                        None
                    }
                } else if t[5] == 83 {  // 'S'
                    if bytes_eq(t, &func_tag_vec(&PinFunction::SPI1_SCLK)) { Some(PinFunction::SPI1_SCLK) } else { None }
                } else {
                    None
                }
            } else {
                None
            }
        } else if t[0] == 85 {  // 'U'
            if t[6] == 84 {  // 'T'
                if bytes_eq(t, &func_tag_vec(&PinFunction::UART0_TXD)) { Some(PinFunction::UART0_TXD) } else { None }
            } else if t[6] == 82 {  // 'R'
                if bytes_eq(t, &func_tag_vec(&PinFunction::UART0_RXD)) { Some(PinFunction::UART0_RXD) } else { None }
            } else {
                None
            }
        } else {
            None
        }
    } else if t.len() == 10 {
        if t[3] == 48 {  // '0'
            if t[7] == 48 {  // '0'
                if bytes_eq(t, &func_tag_vec(&PinFunction::SPI0_CE0_N)) { Some(PinFunction::SPI0_CE0_N) } else { None }
            } else if t[7] == 49 {  // '1'
                if bytes_eq(t, &func_tag_vec(&PinFunction::SPI0_CE1_N)) { Some(PinFunction::SPI0_CE1_N) } else { None }
            } else {
                None
            }
        } else if t[3] == 49 {  // '1'
            if t[7] == 48 {  // '0'
                if bytes_eq(t, &func_tag_vec(&PinFunction::SPI1_CE0_N)) { Some(PinFunction::SPI1_CE0_N) } else { None }
            } else if t[7] == 49 {  // '1'
                if bytes_eq(t, &func_tag_vec(&PinFunction::SPI1_CE1_N)) { Some(PinFunction::SPI1_CE1_N) } else { None }
            } else if t[7] == 50 {  // '2'
                if bytes_eq(t, &func_tag_vec(&PinFunction::SPI1_CE2_N)) { Some(PinFunction::SPI1_CE2_N) } else { None }
            } else {
                None
            }
        } else {
            None
        }
    } else if t.len() == 16 {
        if t[15] == 68 {  // 'D'
            if bytes_eq(t, &func_tag_vec(&PinFunction::I2C_EEPROM_ID_SD)) { Some(PinFunction::I2C_EEPROM_ID_SD) } else { None }
        } else if t[15] == 67 {  // 'C'
            if bytes_eq(t, &func_tag_vec(&PinFunction::I2C_EEPROM_ID_SC)) { Some(PinFunction::I2C_EEPROM_ID_SC) } else { None }
        } else {
            None
        }
    } else {
        None
    }
}

/// Scanning a stored tag back recovers the variant it was written for.
proof fn lemma_classify_inert_round(f: PinFunction)
    requires
        !(f is Input),
        !(f is Output),
    ensures
        classify_inert(func_tag(f)) == Some(f),
{
    match f {
        PinFunction::NoFunction => { assert(classify_inert(func_tag(f)) == Some(f)); }
        PinFunction::Power3V3 => { assert(classify_inert(func_tag(f)) == Some(f)); }
        PinFunction::Power5V => { assert(classify_inert(func_tag(f)) == Some(f)); }
        PinFunction::Ground => { assert(classify_inert(func_tag(f)) == Some(f)); }
        PinFunction::GPCLK0 => { assert(classify_inert(func_tag(f)) == Some(f)); }
        PinFunction::GPCLK1 => { assert(classify_inert(func_tag(f)) == Some(f)); }
        PinFunction::GPCLK2 => { assert(classify_inert(func_tag(f)) == Some(f)); }
        PinFunction::I2C1_SDA => { assert(classify_inert(func_tag(f)) == Some(f)); }
        PinFunction::I2C1_SCL => { assert(classify_inert(func_tag(f)) == Some(f)); }
        PinFunction::I2C3_SDA => { assert(classify_inert(func_tag(f)) == Some(f)); }
        PinFunction::I2C3_SCL => { assert(classify_inert(func_tag(f)) == Some(f)); }
        PinFunction::I2C4_SDA => { assert(classify_inert(func_tag(f)) == Some(f)); }
        PinFunction::I2C4_SCL => { assert(classify_inert(func_tag(f)) == Some(f)); }
        PinFunction::I2C5_SDA => { assert(classify_inert(func_tag(f)) == Some(f)); }
        PinFunction::I2C5_SCL => { assert(classify_inert(func_tag(f)) == Some(f)); }
        PinFunction::I2C6_SDA => { assert(classify_inert(func_tag(f)) == Some(f)); }
        PinFunction::I2C6_SCL => { assert(classify_inert(func_tag(f)) == Some(f)); }
        PinFunction::SPI0_MOSI => { assert(classify_inert(func_tag(f)) == Some(f)); }
        PinFunction::SPI0_MOMI => { assert(classify_inert(func_tag(f)) == Some(f)); }
        PinFunction::SPI0_MISO => { assert(classify_inert(func_tag(f)) == Some(f)); }
        PinFunction::SPI0_SCLK => { assert(classify_inert(func_tag(f)) == Some(f)); }
        PinFunction::SPI0_CE0_N => { assert(classify_inert(func_tag(f)) == Some(f)); }
        PinFunction::SPI0_CE1_N => { assert(classify_inert(func_tag(f)) == Some(f)); }
        PinFunction::SPI1_MOSI => { assert(classify_inert(func_tag(f)) == Some(f)); }
        PinFunction::SPI1_MOMI => { assert(classify_inert(func_tag(f)) == Some(f)); }
        PinFunction::SPI1_MISO => { assert(classify_inert(func_tag(f)) == Some(f)); }
        PinFunction::SPI1_SCLK => { assert(classify_inert(func_tag(f)) == Some(f)); }
        PinFunction::SPI1_CE0_N => { assert(classify_inert(func_tag(f)) == Some(f)); }
        PinFunction::SPI1_CE1_N => { assert(classify_inert(func_tag(f)) == Some(f)); }
        PinFunction::SPI1_CE2_N => { assert(classify_inert(func_tag(f)) == Some(f)); }
        PinFunction::PWM0 => { assert(classify_inert(func_tag(f)) == Some(f)); }
        PinFunction::PWM1 => { assert(classify_inert(func_tag(f)) == Some(f)); }
        PinFunction::UART0_TXD => { assert(classify_inert(func_tag(f)) == Some(f)); }
        PinFunction::UART0_RXD => { assert(classify_inert(func_tag(f)) == Some(f)); }
        PinFunction::PCM_FS => { assert(classify_inert(func_tag(f)) == Some(f)); }
        PinFunction::PCM_DIN => { assert(classify_inert(func_tag(f)) == Some(f)); }
        PinFunction::PCM_DOUT => { assert(classify_inert(func_tag(f)) == Some(f)); }
        PinFunction::PCM_CLK => { assert(classify_inert(func_tag(f)) == Some(f)); }
        PinFunction::I2C_EEPROM_ID_SD => { assert(classify_inert(func_tag(f)) == Some(f)); }
        PinFunction::I2C_EEPROM_ID_SC => { assert(classify_inert(func_tag(f)) == Some(f)); }
        _ => { }
    }
}

/// Drops leading JSON whitespace.
pub open spec fn skip_ws(s: Seq<u8>) -> Seq<u8>
    decreases s.len(),
{
    if s.len() > 0 && is_ws(s[0]) {
        skip_ws(s.drop_first())
    } else {
        s
    }
}

/// The distance to the first quote byte, if one occurs.
pub open spec fn tag_end(s: Seq<u8>) -> Option<int>
    decreases s.len(),
{
    if s.len() == 0 {
        Option::None
    } else if s[0] == QUOTE {
        Option::Some(0)
    } else {
        match tag_end(s.drop_first()) {
            Option::Some(j) => Option::Some(j + 1),
            Option::None => Option::None,
        }
    }
}

/// Reads a quoted string: the bytes between the opening quote and the
/// next quote, and what follows the closing quote.
pub open spec fn parse_qstring(s: Seq<u8>) -> Option<(Seq<u8>, Seq<u8>)> {
    if s.len() > 0 && s[0] == QUOTE {
        match tag_end(s.drop_first()) {
            Option::Some(j) => Option::Some((s.subrange(1, 1 + j), s.skip(2 + j))),
            Option::None => Option::None,
        }
    } else {
        Option::None
    }
}

/// How many decimal digits the input starts with.
pub open spec fn digits_len(s: Seq<u8>) -> int
    decreases s.len(),
{
    if s.len() > 0 && is_digit(s[0]) {
        1 + digits_len(s.drop_first())
    } else {
        0
    }
}

/// The value of a digit string, most significant digit first.
pub open spec fn digits_val(s: Seq<u8>) -> int
    decreases s.len(),
{
    if s.len() == 0 {
        0
    } else {
        digits_val(s.drop_last()) * 10 + (s.last() - 48)
    }
}

/// Reads a channel number: a plain decimal integer without a leading
/// zero, whose value fits in eight bits.
pub open spec fn parse_u8(s: Seq<u8>) -> Option<(u8, Seq<u8>)> {
    let k = digits_len(s);
    if k == 0 {
        Option::None
    } else if s[0] == 48 && k > 1 {
        Option::None
    } else if digits_val(s.take(k)) > 255 {
        Option::None
    } else {
        Option::Some((digits_val(s.take(k)) as u8, s.skip(k)))
    }
}

/// Whether `s` begins with the bytes of `lit`.
pub open spec fn starts_with(s: Seq<u8>, lit: Seq<u8>) -> bool {
    s.len() >= lit.len() && s.take(lit.len() as int) == lit
}

/// Maps a scanned tag to the pull setting it names, if any.
pub open spec fn classify_pull(t: Seq<u8>) -> Option<InputPull> {
    if t == pull_tag(InputPull::PullUp) {
        Option::Some(InputPull::PullUp)
    } else if t == pull_tag(InputPull::PullDown) {
        Option::Some(InputPull::PullDown)
    } else if t == pull_tag(InputPull::NoPull) {
        Option::Some(InputPull::NoPull)
    } else {
        Option::None
    }
}

/// Reads an `Input` payload: `null`, or a quoted pull tag.
pub open spec fn parse_pull_payload(s: Seq<u8>) -> Option<(Option<InputPull>, Seq<u8>)> {
    if starts_with(s, lit_null()) {
        Option::Some((Option::None, s.skip(4)))
    } else if s.len() > 0 && s[0] == QUOTE {
        match parse_qstring(s) {
            Option::Some((t, r)) => match classify_pull(t) {
                Option::Some(p) => Option::Some((Option::Some(p), r)),
                Option::None => Option::None,
            },
            Option::None => Option::None,
        }
    } else {
        Option::None
    }
}

/// Reads an `Output` payload: `null`, `true` or `false`.
pub open spec fn parse_level_payload(s: Seq<u8>) -> Option<(Option<bool>, Seq<u8>)> {
    if starts_with(s, lit_null()) {
        Option::Some((Option::None, s.skip(4)))
    } else if starts_with(s, lit_true()) {
        Option::Some((Option::Some(true), s.skip(4)))
    } else if starts_with(s, lit_false()) {
        Option::Some((Option::Some(false), s.skip(5)))
    } else {
        Option::None
    }
}

/// Reads one function encoding: a quoted inert tag, or a one-key object
/// keyed `Input` or `Output` with the matching payload.
pub open spec fn parse_function(s: Seq<u8>) -> Option<(PinFunction, Seq<u8>)> {
    if s.len() == 0 {
        Option::None
    } else if s[0] == QUOTE {
        match parse_qstring(s) {
            Option::Some((t, r)) => match classify_inert(t) {
                Option::Some(f) => Option::Some((f, r)),
                Option::None => Option::None,
            },
            Option::None => Option::None,
        }
    } else if s[0] == LBRACE {
        let s1 = skip_ws(s.drop_first());
        match parse_qstring(s1) {
            Option::Some((key, s2)) => {
                let s3 = skip_ws(s2);
                if s3.len() == 0 || s3[0] != COLON {
                    Option::None
                } else {
                    let s4 = skip_ws(s3.drop_first());
                    let pf: Option<(PinFunction, Seq<u8>)> = if key == key_input() {
                        match parse_pull_payload(s4) {
                            Option::Some((p, r)) => Option::Some((PinFunction::Input(p), r)),
                            Option::None => Option::None,
                        }
                    } else if key == key_output() {
                        match parse_level_payload(s4) {
                            Option::Some((l, r)) => Option::Some((PinFunction::Output(l), r)),
                            Option::None => Option::None,
                        }
                    } else {
                        Option::None
                    };
                    match pf {
                        Option::Some((f, r)) => {
                            let r1 = skip_ws(r);
                            if r1.len() > 0 && r1[0] == RBRACE {
                                Option::Some((f, r1.drop_first()))
                            } else {
                                Option::None
                            }
                        },
                        Option::None => Option::None,
                    }
                }
            },
            Option::None => Option::None,
        }
    } else {
        Option::None
    }
}

/// Reads one `[<channel>,<function>]` pair.
pub open spec fn parse_entry(s: Seq<u8>) -> Option<((u8, PinFunction), Seq<u8>)> {
    if s.len() == 0 || s[0] != LBRACK {
        Option::None
    } else {
        let s1 = skip_ws(s.drop_first());
        match parse_u8(s1) {
            Option::Some((n, s2)) => {
                let s3 = skip_ws(s2);
                if s3.len() == 0 || s3[0] != COMMA {
                    Option::None
                } else {
                    let s4 = skip_ws(s3.drop_first());
                    match parse_function(s4) {
                        Option::Some((f, s5)) => {
                            let s6 = skip_ws(s5);
                            if s6.len() > 0 && s6[0] == RBRACK {
                                Option::Some(((n, f), s6.drop_first()))
                            } else {
                                Option::None
                            }
                        },
                        Option::None => Option::None,
                    }
                }
            },
            Option::None => Option::None,
        }
    }
}

/// Dropping whitespace never lengthens the input.
proof fn lemma_skip_ws_len(s: Seq<u8>)
    ensures
        skip_ws(s).len() <= s.len(),
    decreases s.len(),
{
    if s.len() > 0 && is_ws(s[0]) {
        lemma_skip_ws_len(s.drop_first());
    }
}

/// A found closing quote lies inside the input.
proof fn lemma_tag_end_bound(s: Seq<u8>)
    ensures
        tag_end(s) matches Option::Some(j) ==> 0 <= j < s.len(),
    decreases s.len(),
{
    if s.len() > 0 && s[0] != QUOTE {
        lemma_tag_end_bound(s.drop_first());
    }
}

/// A parsed quoted string consumes at least its two quotes.
proof fn lemma_parse_qstring_len(s: Seq<u8>)
    ensures
        parse_qstring(s) matches Option::Some((t, r)) ==> r.len() + 2 <= s.len(),
{
    if s.len() > 0 && s[0] == QUOTE {
        lemma_tag_end_bound(s.drop_first());
    }
}

/// The digit prefix lies inside the input.
proof fn lemma_digits_len_bound(s: Seq<u8>)
    ensures
        0 <= digits_len(s) <= s.len(),
    decreases s.len(),
{
    if s.len() > 0 && is_digit(s[0]) {
        lemma_digits_len_bound(s.drop_first());
    }
}

/// A parsed number consumes at least one byte.
proof fn lemma_parse_u8_len(s: Seq<u8>)
    ensures
        parse_u8(s) matches Option::Some((n, r)) ==> r.len() < s.len(),
{
    lemma_digits_len_bound(s);
}

/// A parsed function encoding consumes at least one byte.
proof fn lemma_parse_function_len(s: Seq<u8>)
    ensures
        parse_function(s) matches Option::Some((f, r)) ==> r.len() < s.len(),
{
    if s.len() > 0 && s[0] == QUOTE {
        lemma_parse_qstring_len(s);
    } else if s.len() > 0 && s[0] == LBRACE {
        let s1 = skip_ws(s.drop_first());
        lemma_skip_ws_len(s.drop_first());
        lemma_parse_qstring_len(s1);
        if let Option::Some((key, s2)) = parse_qstring(s1) {
            let s3 = skip_ws(s2);
            lemma_skip_ws_len(s2);
            if s3.len() > 0 && s3[0] == COLON {
                let s4 = skip_ws(s3.drop_first());
                lemma_skip_ws_len(s3.drop_first());
                if key == key_input() {
                    if let Option::Some((p, r)) = parse_pull_payload(s4) {
                        lemma_parse_pull_payload_len(s4);
                        lemma_skip_ws_len(r);
                    }
                } else if key == key_output() {
                    if let Option::Some((l, r)) = parse_level_payload(s4) {
                        lemma_skip_ws_len(r);
                    }
                }
            }
        }
    }
}

/// A parsed `Input` payload never lengthens the input.
proof fn lemma_parse_pull_payload_len(s: Seq<u8>)
    ensures
        parse_pull_payload(s) matches Option::Some((p, r)) ==> r.len() <= s.len(),
{
    if !starts_with(s, lit_null()) && s.len() > 0 && s[0] == QUOTE {
        lemma_parse_qstring_len(s);
    }
}

/// A parsed entry consumes at least one byte.
proof fn lemma_parse_entry_len(s: Seq<u8>)
    ensures
        parse_entry(s) matches Option::Some((e, r)) ==> r.len() < s.len(),
{
    if s.len() > 0 && s[0] == LBRACK {
        let s1 = skip_ws(s.drop_first());
        lemma_skip_ws_len(s.drop_first());
        lemma_parse_u8_len(s1);
        if let Option::Some((n, s2)) = parse_u8(s1) {
            let s3 = skip_ws(s2);
            lemma_skip_ws_len(s2);
            if s3.len() > 0 && s3[0] == COMMA {
                let s4 = skip_ws(s3.drop_first());
                lemma_skip_ws_len(s3.drop_first());
                lemma_parse_function_len(s4);
                if let Option::Some((f, s5)) = parse_function(s4) {
                    lemma_skip_ws_len(s5);
                }
            }
        }
    }
}

/// Reads the entries of a non-empty list, positioned at the first entry,
/// through the closing bracket.
pub open spec fn parse_entries(s: Seq<u8>) -> Option<(Seq<(u8, PinFunction)>, Seq<u8>)>
    decreases s.len(),
    via parse_entries_decreases
{
    match parse_entry(s) {
        Option::Some((e, r)) => {
            let r1 = skip_ws(r);
            if r1.len() == 0 {
                Option::None
            } else if r1[0] == COMMA {
                let r2 = skip_ws(r1.drop_first());
                match parse_entries(r2) {
                    Option::Some((es, rest)) => Option::Some((seq![e] + es, rest)),
                    Option::None => Option::None,
                }
            } else if r1[0] == RBRACK {
                Option::Some((seq![e], r1.drop_first()))
            } else {
                Option::None
            }
        },
        Option::None => Option::None,
    }
}

#[via_fn]
proof fn parse_entries_decreases(s: Seq<u8>) {
    lemma_parse_entry_len(s);
    if let Option::Some((e, r)) = parse_entry(s) {
        lemma_skip_ws_len(r);
        let r1 = skip_ws(r);
        if r1.len() > 0 && r1[0] == COMMA {
            lemma_skip_ws_len(r1.drop_first());
        }
    }
}

/// Reads a whole persisted document. `Some` exactly when the bytes are a
/// well-formed document, and then the value is the entry sequence stored
/// in it.
pub open spec fn parse_config(s: Seq<u8>) -> Option<Seq<(u8, PinFunction)>> {
    let s1 = skip_ws(s);
    if s1.len() == 0 || s1[0] != LBRACE {
        Option::None
    } else {
        let s2 = skip_ws(s1.drop_first());
        match parse_qstring(s2) {
            Option::Some((key, s3)) => {
                if key != key_configured_pins() {
                    Option::None
                } else {
                    let s4 = skip_ws(s3);
                    if s4.len() == 0 || s4[0] != COLON {
                        Option::None
                    } else {
                        let s5 = skip_ws(s4.drop_first());
                        if s5.len() == 0 || s5[0] != LBRACK {
                            Option::None
                        } else {
                            let s6 = skip_ws(s5.drop_first());
                            let body: Option<(Seq<(u8, PinFunction)>, Seq<u8>)> = if s6.len() > 0
                                && s6[0] == RBRACK {
                                Option::Some((Seq::empty(), s6.drop_first()))
                            } else {
                                parse_entries(s6)
                            };
                            match body {
                                Option::Some((es, s7)) => {
                                    let s8 = skip_ws(s7);
                                    if s8.len() > 0 && s8[0] == RBRACE {
                                        if skip_ws(s8.drop_first()).len() == 0 {
                                            Option::Some(es)
                                        } else {
                                            Option::None
                                        }
                                    } else {
                                        Option::None
                                    }
                                },
                                Option::None => Option::None,
                            }
                        }
                    }
                }
            },
            Option::None => Option::None,
        }
    }
}

fn key_input_vec() -> (r: Vec<u8>)
    ensures
        r@ == key_input(),
{
    let r: Vec<u8> = vec![73u8, 110, 112, 117, 116];
    proof {
        assert(r@ =~= key_input());
    }
    r
}

fn key_output_vec() -> (r: Vec<u8>)
    ensures
        r@ == key_output(),
{
    let r: Vec<u8> = vec![79u8, 117, 116, 112, 117, 116];
    proof {
        assert(r@ =~= key_output());
    }
    r
}

/// Advances past JSON whitespace, mirroring `skip_ws`.
fn skip_ws_at(s: &[u8], i: usize) -> (j: usize)
    requires
        i <= s@.len(),
    ensures
        i <= j <= s@.len(),
        skip_ws(s@.skip(i as int)) == s@.skip(j as int),
{
    let mut j = i;
    while j < s.len() && (s[j] == 32 || s[j] == 9 || s[j] == 10 || s[j] == 13)
        invariant
            i <= j <= s@.len(),
            skip_ws(s@.skip(i as int)) == skip_ws(s@.skip(j as int)),
        decreases s@.len() - j,
    {
        proof {
            assert(s@.skip(j as int)[0] == s@[j as int]);
            assert(s@.skip(j as int).drop_first() =~= s@.skip(j as int + 1));
        }
        j += 1;
    }
    proof {
        if j < s@.len() {
            assert(s@.skip(j as int)[0] == s@[j as int]);
        }
        assert(skip_ws(s@.skip(j as int)) == s@.skip(j as int));
    }
    j
}

/// Reads a quoted string starting at `i`, mirroring `parse_qstring`.
fn parse_qstring_at(s: &[u8], i: usize) -> (r: Result<(Vec<u8>, usize), FormatError>)
    requires
        i <= s@.len(),
    ensures
        match r {
            Ok((t, j)) => i < j <= s@.len() && parse_qstring(s@.skip(i as int)) == Option::Some(
                (t@, s@.skip(j as int)),
            ),
            Err(_) => parse_qstring(s@.skip(i as int)) is None,
        },
{
    if i >= s.len() || s[i] != QUOTE {
        proof {
            if i < s@.len() {
                assert(s@.skip(i as int)[0] == s@[i as int]);
            }
        }
        return Err(FormatError);
    }
    proof {
        assert(s@.skip(i as int)[0] == s@[i as int]);
        assert(s@.skip(i as int).drop_first() =~= s@.skip(i as int + 1));
    }
    let mut m = i + 1;
    while m < s.len() && s[m] != QUOTE
        invariant
            i + 1 <= m <= s@.len(),
            tag_end(s@.skip(i as int + 1)) == match tag_end(s@.skip(m as int)) {
                Option::Some(j) => Option::Some(j + (m - i - 1)),
                Option::None => Option::None::<int>,
            },
        decreases s@.len() - m,
    {
        proof {
            assert(s@.skip(m as int)[0] == s@[m as int]);
            assert(s@.skip(m as int).drop_first() =~= s@.skip(m as int + 1));
        }
        m += 1;
    }
    if m >= s.len() {
        proof {
            assert(tag_end(s@.skip(i as int + 1)) is None);
        }
        return Err(FormatError);
    }
    proof {
        assert(s@.skip(m as int)[0] == s@[m as int]);
        assert(tag_end(s@.skip(m as int)) == Option::Some(0int));
        assert(tag_end(s@.skip(i as int + 1)) == Option::Some(m - i - 1));
    }
    let mut t: Vec<u8> = Vec::new();
    let mut k = i + 1;
    while k < m
        invariant
            i + 1 <= k <= m <= s@.len(),
            t@ == s@.subrange(i as int + 1, k as int),
        decreases m - k,
    {
        t.push(s[k]);
        proof {
            assert(t@ =~= s@.subrange(i as int + 1, k as int + 1));
        }
        k += 1;
    }
    proof {
        let si = s@.skip(i as int);
        assert(si.subrange(1, 1 + (m - i - 1)) =~= s@.subrange(i as int + 1, m as int));
        assert(si.skip(2 + (m - i - 1)) =~= s@.skip(m as int + 1));
    }
    Ok((t, m + 1))
}

/// The value of a digit string is never negative.
proof fn lemma_digits_val_nonneg(t: Seq<u8>)
    requires
        forall|k: int| 0 <= k < t.len() ==> is_digit(t[k]),
    ensures
        digits_val(t) >= 0,
    decreases t.len(),
{
    if t.len() > 0 {
        assert(forall|k: int| 0 <= k < t.drop_last().len() ==> is_digit(t.drop_last()[k]));
        lemma_digits_val_nonneg(t.drop_last());
    }
}

/// With more digits appended, the value never decreases.
proof fn lemma_digits_val_mono(t: Seq<u8>, p: int)
    requires
        0 <= p <= t.len(),
        forall|k: int| 0 <= k < t.len() ==> is_digit(t[k]),
    ensures
        digits_val(t.take(p)) <= digits_val(t),
    decreases t.len() - p,
{
    if p == t.len() {
        assert(t.take(p) =~= t);
    } else {
        lemma_digits_val_mono(t, p + 1);
        assert(t.take(p + 1).drop_last() =~= t.take(p));
        assert(t.take(p + 1).last() == t[p]);
        assert(forall|k: int| 0 <= k < t.take(p).len() ==> is_digit(t.take(p)[k]));
        lemma_digits_val_nonneg(t.take(p));
    }
}

/// Reads a channel number starting at `i`, mirroring `parse_u8`.
fn parse_u8_at(s: &[u8], i: usize) -> (r: Result<(u8, usize), FormatError>)
    requires
        i <= s@.len(),
    ensures
        match r {
            Ok((n, j)) => i < j <= s@.len() && parse_u8(s@.skip(i as int)) == Option::Some(
                (n, s@.skip(j as int)),
            ),
            Err(_) => parse_u8(s@.skip(i as int)) is None,
        },
{
    let ghost si = s@.skip(i as int);
    let mut j = i;
    while j < s.len() && 48 <= s[j] && s[j] <= 57
        invariant
            i <= j <= s@.len(),
            digits_len(s@.skip(i as int)) == (j - i) + digits_len(s@.skip(j as int)),
            forall|k: int| i <= k < j ==> is_digit(s@[k]),
        decreases s@.len() - j,
    {
        proof {
            assert(s@.skip(j as int)[0] == s@[j as int]);
            assert(s@.skip(j as int).drop_first() =~= s@.skip(j as int + 1));
        }
        j += 1;
    }
    proof {
        if j < s@.len() {
            assert(s@.skip(j as int)[0] == s@[j as int]);
        }
        assert(digits_len(s@.skip(j as int)) == 0);
        assert(digits_len(si) == j - i);
    }
    if j == i {
        return Err(FormatError);
    }
    proof {
        assert(si[0] == s@[i as int]);
    }
    if s[i] == 48 && j - i > 1 {
        return Err(FormatError);
    }
    let ghost full = s@.subrange(i as int, j as int);
    proof {
        assert(full =~= si.take(j - i));
        assert(full == s@.skip(i as int).take(j - i));
        assert(forall|k: int| 0 <= k < full.len() ==> is_digit(full[k]));
    }
    let mut acc: u32 = 0;
    let mut m = i;
    while m < j
        invariant
            i <= m <= j <= s@.len(),
            i < j,
            digits_len(s@.skip(i as int)) == j - i,
            !(s@[i as int] == 48 && j - i > 1),
            forall|k: int| i <= k < j ==> is_digit(s@[k]),
            full == s@.subrange(i as int, j as int),
            full == s@.skip(i as int).take(j - i),
            forall|k: int| 0 <= k < full.len() ==> is_digit(full[k]),
            acc <= 255,
            acc as int == digits_val(s@.subrange(i as int, m as int)),
        decreases j - m,
    {
        let d: u32 = (s[m] - 48) as u32;
        let newacc: u32 = acc * 10 + d;
        proof {
            assert(s@.subrange(i as int, m as int + 1).drop_last() =~= s@.subrange(
                i as int,
                m as int,
            ));
            assert(s@.subrange(i as int, m as int + 1).last() == s@[m as int]);
        }
        if newacc > 255 {
            proof {
                assert(newacc as int == acc * 10 + (s@[m as int] - 48));
                assert(digits_val(s@.subrange(i as int, m as int + 1)) == acc * 10 + (s@[
                    m as int
                ] - 48));
                assert(s@.subrange(i as int, m as int + 1) =~= full.take(m - i + 1));
                lemma_digits_val_mono(full, m - i + 1);
                assert(digits_val(s@.skip(i as int).take(j - i)) > 255);
            }
            return Err(FormatError);
        }
        proof {
            assert(digits_val(s@.subrange(i as int, m as int + 1)) == acc * 10 + (s@[
                m as int
            ] - 48));
        }
        acc = newacc;
        m += 1;
    }
    proof {
        assert(s@.subrange(i as int, j as int) =~= si.take(j - i));
        assert(si.skip(j - i) =~= s@.skip(j as int));
    }
    Ok((acc as u8, j))
}

/// Whether the bytes of `lit` appear at `i`, mirroring `starts_with`.
fn match_lit(s: &[u8], i: usize, lit: &Vec<u8>) -> (r: bool)
    requires
        i <= s@.len(),
    ensures
        r == starts_with(s@.skip(i as int), lit@),
{
    if s.len() - i < lit.len() {
        return false;
    }
    proof {
        assert(s@.len() <= usize::MAX);
    }
    let mut k: usize = 0;
    while k < lit.len()
        invariant
            0 <= k <= lit@.len(),
            i + lit@.len() <= s@.len(),
            s@.len() <= usize::MAX,
            forall|q: int| 0 <= q < k ==> s@[i + q] == lit@[q],
        decreases lit@.len() - k,
    {
        if s[i + k] != lit[k] {
            proof {
                if starts_with(s@.skip(i as int), lit@) {
                    assert(s@.skip(i as int).take(lit@.len() as int)[k as int] == lit@[k as int]);
                    assert(s@.skip(i as int)[k as int] == s@[i + k]);
                    assert(false);
                }
            }
            return false;
        }
        k += 1;
    }
    proof {
        assert(s@.skip(i as int).take(lit@.len() as int) =~= lit@);
    }
    true
}

/// Executable mirror of `classify_pull`.
fn classify_pull_vec(t: &Vec<u8>) -> (r: Option<InputPull>)
    ensures
        r == classify_pull(t@),
{
    if bytes_eq(t, &pull_tag_vec(&InputPull::PullUp)) {
        Option::Some(InputPull::PullUp)
    } else if bytes_eq(t, &pull_tag_vec(&InputPull::PullDown)) {
        Option::Some(InputPull::PullDown)
    } else if bytes_eq(t, &pull_tag_vec(&InputPull::NoPull)) {
        Option::Some(InputPull::NoPull)
    } else {
        Option::None
    }
}

/// Reads an `Input` payload starting at `i`, mirroring `parse_pull_payload`.
fn parse_pull_payload_at(s: &[u8], i: usize) -> (r: Result<(Option<InputPull>, usize), FormatError>)
    requires
        i <= s@.len(),
    ensures
        match r {
            Ok((p, j)) => i <= j <= s@.len() && parse_pull_payload(s@.skip(i as int))
                == Option::Some((p, s@.skip(j as int))),
            Err(_) => parse_pull_payload(s@.skip(i as int)) is None,
        },
{
    if i >= s.len() {
        return Err(FormatError);
    }
    if match_lit(s, i, &lit_null_vec()) {
        proof {
            assert(s@.skip(i as int).skip(4) =~= s@.skip(i as int + 4));
        }
        return Ok((Option::None, i + 4));
    }
    proof {
        assert(s@.skip(i as int)[0] == s@[i as int]);
    }
    match parse_qstring_at(s, i) {
        Ok((t, j)) => match classify_pull_vec(&t) {
            Option::Some(p) => Ok((Option::Some(p), j)),
            Option::None => Err(FormatError),
        },
        Err(_) => Err(FormatError),
    }
}

/// Reads an `Output` payload starting at `i`, mirroring `parse_level_payload`.
fn parse_level_payload_at(s: &[u8], i: usize) -> (r: Result<(Option<bool>, usize), FormatError>)
    requires
        i <= s@.len(),
    ensures
        match r {
            Ok((l, j)) => i <= j <= s@.len() && parse_level_payload(s@.skip(i as int))
                == Option::Some((l, s@.skip(j as int))),
            Err(_) => parse_level_payload(s@.skip(i as int)) is None,
        },
{
    if i >= s.len() {
        return Err(FormatError);
    }
    if match_lit(s, i, &lit_null_vec()) {
        proof {
            assert(s@.skip(i as int).skip(4) =~= s@.skip(i as int + 4));
        }
        return Ok((Option::None, i + 4));
    }
    if match_lit(s, i, &lit_true_vec()) {
        proof {
            assert(s@.skip(i as int).skip(4) =~= s@.skip(i as int + 4));
        }
        return Ok((Option::Some(true), i + 4));
    }
    if match_lit(s, i, &lit_false_vec()) {
        proof {
            assert(s@.skip(i as int).skip(5) =~= s@.skip(i as int + 5));
        }
        return Ok((Option::Some(false), i + 5));
    }
    Err(FormatError)
}

/// Reads one function encoding starting at `i`, mirroring `parse_function`.
fn parse_function_at(s: &[u8], i: usize) -> (r: Result<(PinFunction, usize), FormatError>)
    requires
        i <= s@.len(),
    ensures
        match r {
            Ok((f, j)) => i < j <= s@.len() && parse_function(s@.skip(i as int)) == Option::Some(
                (f, s@.skip(j as int)),
            ),
            Err(_) => parse_function(s@.skip(i as int)) is None,
        },
{
    if i >= s.len() {
        return Err(FormatError);
    }
    proof {
        assert(s@.skip(i as int)[0] == s@[i as int]);
    }
    let b = s[i];
    if b == QUOTE {
        match parse_qstring_at(s, i) {
            Ok((t, j)) => match classify_inert_vec(&t) {
                Option::Some(f) => Ok((f, j)),
                Option::None => Err(FormatError),
            },
            Err(_) => Err(FormatError),
        }
    } else if b == LBRACE {
        proof {
            assert(s@.skip(i as int).drop_first() =~= s@.skip(i as int + 1));
        }
        let i1 = skip_ws_at(s, i + 1);
        let (key, i2) = match parse_qstring_at(s, i1) {
            Ok(x) => x,
            Err(_) => {
                return Err(FormatError);
            },
        };
        let i3 = skip_ws_at(s, i2);
        if i3 >= s.len() || s[i3] != COLON {
            proof {
                if i3 < s@.len() {
                    assert(s@.skip(i3 as int)[0] == s@[i3 as int]);
                }
            }
            return Err(FormatError);
        }
        proof {
            assert(s@.skip(i3 as int)[0] == s@[i3 as int]);
            assert(s@.skip(i3 as int).drop_first() =~= s@.skip(i3 as int + 1));
        }
        let i4 = skip_ws_at(s, i3 + 1);
        let payload: Option<(PinFunction, usize)> = if bytes_eq(&key, &key_input_vec()) {
            match parse_pull_payload_at(s, i4) {
                Ok((p, i5)) => Option::Some((PinFunction::Input(p), i5)),
                Err(_) => {
                    return Err(FormatError);
                },
            }
        } else if bytes_eq(&key, &key_output_vec()) {
            match parse_level_payload_at(s, i4) {
                Ok((l, i5)) => Option::Some((PinFunction::Output(l), i5)),
                Err(_) => {
                    return Err(FormatError);
                },
            }
        } else {
            return Err(FormatError);
        };
        let (f, i5) = match payload {
            Option::Some(x) => x,
            Option::None => {
                return Err(FormatError);
            },
        };
        let i6 = skip_ws_at(s, i5);
        if i6 >= s.len() || s[i6] != RBRACE {
            proof {
                if i6 < s@.len() {
                    assert(s@.skip(i6 as int)[0] == s@[i6 as int]);
                }
            }
            return Err(FormatError);
        }
        proof {
            assert(s@.skip(i6 as int)[0] == s@[i6 as int]);
            assert(s@.skip(i6 as int).drop_first() =~= s@.skip(i6 as int + 1));
        }
        Ok((f, i6 + 1))
    } else {
        Err(FormatError)
    }
}

/// Reads one `[<channel>,<function>]` pair starting at `i`, mirroring
/// `parse_entry`.
fn parse_entry_at(s: &[u8], i: usize) -> (r: Result<((u8, PinFunction), usize), FormatError>)
    requires
        i <= s@.len(),
    ensures
        match r {
            Ok((e, j)) => i < j <= s@.len() && parse_entry(s@.skip(i as int)) == Option::Some(
                (e, s@.skip(j as int)),
            ),
            Err(_) => parse_entry(s@.skip(i as int)) is None,
        },
{
    if i >= s.len() || s[i] != LBRACK {
        proof {
            if i < s@.len() {
                assert(s@.skip(i as int)[0] == s@[i as int]);
            }
        }
        return Err(FormatError);
    }
    proof {
        assert(s@.skip(i as int)[0] == s@[i as int]);
        assert(s@.skip(i as int).drop_first() =~= s@.skip(i as int + 1));
    }
    let i1 = skip_ws_at(s, i + 1);
    let (n, i2) = match parse_u8_at(s, i1) {
        Ok(x) => x,
        Err(_) => {
            return Err(FormatError);
        },
    };
    let i3 = skip_ws_at(s, i2);
    if i3 >= s.len() || s[i3] != COMMA {
        proof {
            if i3 < s@.len() {
                assert(s@.skip(i3 as int)[0] == s@[i3 as int]);
            }
        }
        return Err(FormatError);
    }
    proof {
        assert(s@.skip(i3 as int)[0] == s@[i3 as int]);
        assert(s@.skip(i3 as int).drop_first() =~= s@.skip(i3 as int + 1));
    }
    let i4 = skip_ws_at(s, i3 + 1);
    let (f, i5) = match parse_function_at(s, i4) {
        Ok(x) => x,
        Err(_) => {
            return Err(FormatError);
        },
    };
    let i6 = skip_ws_at(s, i5);
    if i6 >= s.len() || s[i6] != RBRACK {
        proof {
            if i6 < s@.len() {
                assert(s@.skip(i6 as int)[0] == s@[i6 as int]);
            }
        }
        return Err(FormatError);
    }
    proof {
        assert(s@.skip(i6 as int)[0] == s@[i6 as int]);
        assert(s@.skip(i6 as int).drop_first() =~= s@.skip(i6 as int + 1));
    }
    Ok(((n, f), i6 + 1))
}

/// Reads a non-empty entry list starting at `i`, through the closing
/// bracket, mirroring `parse_entries`.
fn parse_entries_at(s: &[u8], i: usize) -> (r: Result<
    (Vec<(u8, PinFunction)>, usize),
    FormatError,
>)
    requires
        i <= s@.len(),
    ensures
        match r {
            Ok((es, j)) => i < j <= s@.len() && parse_entries(s@.skip(i as int)) == Option::Some(
                (es@, s@.skip(j as int)),
            ),
            Err(_) => parse_entries(s@.skip(i as int)) is None,
        },
{
    let mut entries: Vec<(u8, PinFunction)> = Vec::new();
    let mut cur = i;
    loop
        invariant
            i <= cur <= s@.len(),
            (match parse_entries(s@.skip(cur as int)) {
                Option::Some((es, r)) => parse_entries(s@.skip(i as int)) == Option::Some(
                    (entries@ + es, r),
                ),
                Option::None => parse_entries(s@.skip(i as int)) is None,
            }),
        decreases s@.len() - cur,
    {
        let ghost entries_prev = entries@;
        let (e, p1) = match parse_entry_at(s, cur) {
            Ok(x) => x,
            Err(_) => {
                return Err(FormatError);
            },
        };
        entries.push(e);
        proof {
            assert(entries@ =~= entries_prev + seq![e]);
        }
        let p2 = skip_ws_at(s, p1);
        if p2 >= s.len() {
            return Err(FormatError);
        }
        proof {
            assert(s@.skip(p2 as int)[0] == s@[p2 as int]);
        }
        let c = s[p2];
        if c == COMMA {
            proof {
                assert(s@.skip(p2 as int).drop_first() =~= s@.skip(p2 as int + 1));
            }
            let p3 = skip_ws_at(s, p2 + 1);
            proof {
                if let Option::Some((es2, rst)) = parse_entries(s@.skip(p3 as int)) {
                    assert(entries_prev + (seq![e] + es2) =~= (entries_prev + seq![e]) + es2);
                }
            }
            cur = p3;
        } else if c == RBRACK {
            proof {
                assert(s@.skip(p2 as int).drop_first() =~= s@.skip(p2 as int + 1));
                assert(parse_entries(s@.skip(cur as int)) == Option::Some(
                    (seq![e], s@.skip(p2 as int + 1)),
                ));
            }
            return Ok((entries, p2 + 1));
        } else {
            return Err(FormatError);
        }
    }
}

impl GPIOConfig {
    /// Deserializes a persisted document: the stored entry sequence
    /// exactly when `parse_config` accepts the bytes, a format error
    /// exactly when it rejects them.
    #[verifier::rlimit(100)]
    pub fn from_json(s: &[u8]) -> (r: Result<GPIOConfig, FormatError>)
        ensures
            match r {
                Ok(c) => parse_config(s@) == Option::Some(c@),
                Err(_) => parse_config(s@) is None,
            },
    {
        proof {
            assert(s@.skip(0) =~= s@);
        }
        let i1 = skip_ws_at(s, 0);
        if i1 >= s.len() || s[i1] != LBRACE {
            proof {
                if i1 < s@.len() {
                    assert(s@.skip(i1 as int)[0] == s@[i1 as int]);
                }
            }
            return Err(FormatError);
        }
        proof {
            assert(s@.skip(i1 as int)[0] == s@[i1 as int]);
            assert(s@.skip(i1 as int).drop_first() =~= s@.skip(i1 as int + 1));
        }
        let i2 = skip_ws_at(s, i1 + 1);
        let (key, i3) = match parse_qstring_at(s, i2) {
            Ok(x) => x,
            Err(_) => {
                return Err(FormatError);
            },
        };
        if !bytes_eq(&key, &key_configured_pins_vec()) {
            return Err(FormatError);
        }
        let i4 = skip_ws_at(s, i3);
        if i4 >= s.len() || s[i4] != COLON {
            proof {
                if i4 < s@.len() {
                    assert(s@.skip(i4 as int)[0] == s@[i4 as int]);
                }
            }
            return Err(FormatError);
        }
        proof {
            assert(s@.skip(i4 as int)[0] == s@[i4 as int]);
            assert(s@.skip(i4 as int).drop_first() =~= s@.skip(i4 as int + 1));
        }
        let i5 = skip_ws_at(s, i4 + 1);
        if i5 >= s.len() || s[i5] != LBRACK {
            proof {
                if i5 < s@.len() {
                    assert(s@.skip(i5 as int)[0] == s@[i5 as int]);
                }
            }
            return Err(FormatError);
        }
        proof {
            assert(s@.skip(i5 as int)[0] == s@[i5 as int]);
            assert(s@.skip(i5 as int).drop_first() =~= s@.skip(i5 as int + 1));
        }
        let i6 = skip_ws_at(s, i5 + 1);
        let mut entries: Vec<(u8, PinFunction)> = Vec::new();
        let j: usize;
        if i6 < s.len() && s[i6] == RBRACK {
            proof {
                assert(s@.skip(i6 as int)[0] == s@[i6 as int]);
                assert(s@.skip(i6 as int).drop_first() =~= s@.skip(i6 as int + 1));
            }
            j = i6 + 1;
        } else {
            proof {
                if i6 < s@.len() {
                    assert(s@.skip(i6 as int)[0] == s@[i6 as int]);
                }
            }
            let (es, j2) = match parse_entries_at(s, i6) {
                Ok(x) => x,
                Err(_) => {
                    return Err(FormatError);
                },
            };
            entries = es;
            j = j2;
        }
        let i7 = skip_ws_at(s, j);
        if i7 >= s.len() || s[i7] != RBRACE {
            proof {
                if i7 < s@.len() {
                    assert(s@.skip(i7 as int)[0] == s@[i7 as int]);
                }
            }
            return Err(FormatError);
        }
        proof {
            assert(s@.skip(i7 as int)[0] == s@[i7 as int]);
            assert(s@.skip(i7 as int).drop_first() =~= s@.skip(i7 as int + 1));
        }
        let i8 = skip_ws_at(s, i7 + 1);
        if i8 < s.len() {
            return Err(FormatError);
        }
        Ok(GPIOConfig { configured_pins: entries })
    }
}

/// Whitespace skipping leaves an input alone unless it starts with
/// whitespace.
proof fn lemma_skip_ws_id(s: Seq<u8>)
    requires
        s.len() == 0 || !is_ws(s[0]),
    ensures
        skip_ws(s) == s,
{
}

/// No tag or key stored by the encoder contains a quote byte.
proof fn lemma_func_tag_no_quote(f: PinFunction)
    ensures
        func_tag(f).len() > 0,
        forall|i: int| 0 <= i < func_tag(f).len() ==> func_tag(f)[i] != QUOTE,
{
}

/// Pull tags contain no quote byte either.
proof fn lemma_pull_tag_no_quote(p: InputPull)
    ensures
        pull_tag(p).len() > 0,
        forall|i: int| 0 <= i < pull_tag(p).len() ==> pull_tag(p)[i] != QUOTE,
{
}

/// The closing quote after a quote-free tag is the first quote found.
proof fn lemma_tag_end_concat(t: Seq<u8>, rest: Seq<u8>)
    requires
        forall|i: int| 0 <= i < t.len() ==> t[i] != QUOTE,
    ensures
        tag_end(t + seq![QUOTE] + rest) == Option::Some(t.len() as int),
    decreases t.len(),
{
    let s = t + seq![QUOTE] + rest;
    if t.len() == 0 {
        assert(s[0] == QUOTE);
    } else {
        assert(s[0] == t[0]);
        assert(s.drop_first() =~= t.drop_first() + seq![QUOTE] + rest);
        assert(forall|i: int|
            0 <= i < t.drop_first().len() ==> t.drop_first()[i] != QUOTE);
        lemma_tag_end_concat(t.drop_first(), rest);
    }
}

/// Reading a written quoted string yields the tag and the remainder.
proof fn lemma_parse_qstring_concat(t: Seq<u8>, rest: Seq<u8>)
    requires
        forall|i: int| 0 <= i < t.len() ==> t[i] != QUOTE,
    ensures
        parse_qstring(seq![QUOTE] + t + seq![QUOTE] + rest) == Option::Some((t, rest)),
{
    let s = seq![QUOTE] + t + seq![QUOTE] + rest;
    assert(s[0] == QUOTE);
    assert(s.drop_first() =~= t + seq![QUOTE] + rest);
    lemma_tag_end_concat(t, rest);
    assert(s.subrange(1, 1 + t.len() as int) =~= t);
    assert(s.skip(2 + t.len() as int) =~= rest);
}

/// Reading back a written `Input` payload yields the pull setting.
proof fn lemma_pull_payload_round(p: Option<InputPull>, rest: Seq<u8>)
    ensures
        parse_pull_payload(encode_pull_payload(p) + rest) == Option::Some((p, rest)),
{
    let s = encode_pull_payload(p) + rest;
    match p {
        Option::None => {
            assert(s.take(4) =~= lit_null());
            assert(s.skip(4) =~= rest);
        },
        Option::Some(pull) => {
            lemma_pull_tag_no_quote(pull);
            assert(s[0] == QUOTE);
            if starts_with(s, lit_null()) {
                assert(s.take(4)[0] == s[0]);
                assert(false);
            }
            assert(s =~= seq![QUOTE] + pull_tag(pull) + seq![QUOTE] + rest);
            lemma_parse_qstring_concat(pull_tag(pull), rest);
            assert(classify_pull(pull_tag(pull)) == Option::Some(pull));
        },
    }
}

/// Reading back a written `Output` payload yields the level.
proof fn lemma_level_payload_round(l: Option<bool>, rest: Seq<u8>)
    ensures
        parse_level_payload(encode_level_payload(l) + rest) == Option::Some((l, rest)),
{
    let s = encode_level_payload(l) + rest;
    match l {
        Option::None => {
            assert(s.take(4) =~= lit_null());
            assert(s.skip(4) =~= rest);
        },
        Option::Some(true) => {
            if starts_with(s, lit_null()) {
                assert(s.take(4)[0] == s[0]);
                assert(s[0] == lit_true()[0]);
                assert(false);
            }
            assert(s.take(4) =~= lit_true());
            assert(s.skip(4) =~= rest);
        },
        Option::Some(false) => {
            if starts_with(s, lit_null()) {
                assert(s.take(4)[0] == s[0]);
                assert(s[0] == lit_false()[0]);
                assert(false);
            }
            if starts_with(s, lit_true()) {
                assert(s.take(4)[0] == s[0]);
                assert(s[0] == lit_false()[0]);
                assert(false);
            }
            assert(s.take(5) =~= lit_false());
            assert(s.skip(5) =~= rest);
        },
    }
}

/// Reading back a written function encoding yields the function.
proof fn lemma_function_round(f: PinFunction, rest: Seq<u8>)
    ensures
        parse_function(encode_function(f) + rest) == Option::Some((f, rest)),
{
    let s = encode_function(f) + rest;
    match f {
        PinFunction::Input(p) => {
            let tail = seq![COLON] + encode_pull_payload(p) + seq![RBRACE] + rest;
            assert(s[0] == LBRACE);
            assert(s.drop_first() =~= seq![QUOTE] + key_input() + seq![QUOTE] + tail);
            lemma_skip_ws_id(s.drop_first());
            lemma_parse_qstring_concat(key_input(), tail);
            lemma_skip_ws_id(tail);
            assert(tail[0] == COLON);
            assert(tail.drop_first() =~= encode_pull_payload(p) + (seq![RBRACE] + rest));
            match p {
                Option::None => {
                    assert(tail.drop_first()[0] == lit_null()[0]);
                },
                Option::Some(pull) => {
                    assert(tail.drop_first()[0] == QUOTE);
                },
            }
            lemma_skip_ws_id(tail.drop_first());
            lemma_pull_payload_round(p, seq![RBRACE] + rest);
            let r = seq![RBRACE] + rest;
            lemma_skip_ws_id(r);
            assert(r[0] == RBRACE);
            assert(r.drop_first() =~= rest);
        },
        PinFunction::Output(l) => {
            let tail = seq![COLON] + encode_level_payload(l) + seq![RBRACE] + rest;
            assert(s[0] == LBRACE);
            assert(s.drop_first() =~= seq![QUOTE] + key_output() + seq![QUOTE] + tail);
            lemma_skip_ws_id(s.drop_first());
            lemma_parse_qstring_concat(key_output(), tail);
            lemma_skip_ws_id(tail);
            assert(tail[0] == COLON);
            assert(tail.drop_first() =~= encode_level_payload(l) + (seq![RBRACE] + rest));
            match l {
                Option::None => {
                    assert(tail.drop_first()[0] == lit_null()[0]);
                },
                Option::Some(true) => {
                    assert(tail.drop_first()[0] == lit_true()[0]);
                },
                Option::Some(false) => {
                    assert(tail.drop_first()[0] == lit_false()[0]);
                },
            }
            lemma_skip_ws_id(tail.drop_first());
            lemma_level_payload_round(l, seq![RBRACE] + rest);
            let r = seq![RBRACE] + rest;
            lemma_skip_ws_id(r);
            assert(r[0] == RBRACE);
            assert(r.drop_first() =~= rest);
        },
        _ => {
            lemma_func_tag_no_quote(f);
            assert(s[0] == QUOTE);
            assert(s =~= seq![QUOTE] + func_tag(f) + seq![QUOTE] + rest);
            lemma_parse_qstring_concat(func_tag(f), rest);
            lemma_classify_inert_round(f);
        },
    }
}

/// Decimal renderings consist of digits only.
proof fn lemma_dec_bytes_digits(n: nat)
    ensures
        dec_bytes(n).len() > 0,
        forall|i: int| 0 <= i < dec_bytes(n).len() ==> is_digit(dec_bytes(n)[i]),
    decreases n,
{
    if n >= 10 {
        lemma_dec_bytes_digits(n / 10);
    }
}

/// The decimal rendering of a value reads back as that value.
proof fn lemma_digits_val_of_dec(n: nat)
    ensures
        digits_val(dec_bytes(n)) == n,
    decreases n,
{
    if n < 10 {
        assert(dec_bytes(n) == seq![(48 + n) as u8]);
        assert(dec_bytes(n).drop_last() =~= Seq::<u8>::empty());
        assert(digits_val(Seq::<u8>::empty()) == 0);
        assert(dec_bytes(n).last() == (48 + n) as u8);
    } else {
        lemma_digits_val_of_dec(n / 10);
        assert(dec_bytes(n).drop_last() =~= dec_bytes(n / 10));
        assert(dec_bytes(n).last() == (48 + n % 10) as u8);
        vstd::arithmetic::div_mod::lemma_fundamental_div_mod(n as int, 10);
    }
}

/// A decimal rendering of a positive value has no leading zero.
proof fn lemma_dec_bytes_no_leading_zero(n: nat)
    ensures
        n >= 1 ==> dec_bytes(n)[0] != 48,
    decreases n,
{
    if n >= 10 {
        lemma_dec_bytes_no_leading_zero(n / 10);
        assert(dec_bytes(n)[0] == dec_bytes(n / 10)[0]);
    }
}

/// The digit prefix of digits followed by a non-digit is exactly the
/// digits.
proof fn lemma_digits_len_concat(a: Seq<u8>, b: Seq<u8>)
    requires
        forall|i: int| 0 <= i < a.len() ==> is_digit(a[i]),
        b.len() > 0,
        !is_digit(b[0]),
    ensures
        digits_len(a + b) == a.len(),
    decreases a.len(),
{
    let s = a + b;
    if a.len() == 0 {
        assert(s =~= b);
    } else {
        assert(s[0] == a[0]);
        assert(s.drop_first() =~= a.drop_first() + b);
        assert(forall|i: int|
            0 <= i < a.drop_first().len() ==> is_digit(a.drop_first()[i]));
        lemma_digits_len_concat(a.drop_first(), b);
    }
}

/// Reading back a written channel number yields that number.
proof fn lemma_parse_u8_round(n: u8, rest: Seq<u8>)
    requires
        rest.len() > 0,
        !is_digit(rest[0]),
    ensures
        parse_u8(dec_bytes(n as nat) + rest) == Option::Some((n, rest)),
{
    let d = dec_bytes(n as nat);
    let s = d + rest;
    lemma_dec_bytes_digits(n as nat);
    lemma_digits_len_concat(d, rest);
    assert(s[0] == d[0]);
    if n < 10 {
        assert(d.len() == 1);
    } else {
        lemma_dec_bytes_no_leading_zero(n as nat);
    }
    assert(s.take(d.len() as int) =~= d);
    lemma_digits_val_of_dec(n as nat);
    assert(s.skip(d.len() as int) =~= rest);
}

/// A function encoding starts with a quote or an opening brace.
proof fn lemma_encode_function_head(f: PinFunction)
    ensures
        encode_function(f).len() > 0,
        encode_function(f)[0] == QUOTE || encode_function(f)[0] == LBRACE,
{
    match f {
        PinFunction::Input(p) => {
            assert(encode_function(f)[0] == LBRACE);
        },
        PinFunction::Output(l) => {
            assert(encode_function(f)[0] == LBRACE);
        },
        _ => {
            lemma_func_tag_no_quote(f);
            assert(encode_function(f)[0] == QUOTE);
        },
    }
}

/// Reading back a written entry yields that entry.
proof fn lemma_entry_round(e: (u8, PinFunction), rest: Seq<u8>)
    ensures
        parse_entry(encode_entry(e) + rest) == Option::Some((e, rest)),
{
    let s = encode_entry(e) + rest;
    let mid = seq![COMMA] + encode_function(e.1) + seq![RBRACK] + rest;
    assert(s[0] == LBRACK);
    assert(s.drop_first() =~= dec_bytes(e.0 as nat) + mid);
    lemma_dec_bytes_digits(e.0 as nat);
    assert(s.drop_first()[0] == dec_bytes(e.0 as nat)[0]);
    lemma_skip_ws_id(s.drop_first());
    assert(mid[0] == COMMA);
    lemma_parse_u8_round(e.0, mid);
    lemma_skip_ws_id(mid);
    assert(mid.drop_first() =~= encode_function(e.1) + (seq![RBRACK] + rest));
    lemma_encode_function_head(e.1);
    assert(mid.drop_first()[0] == encode_function(e.1)[0]);
    lemma_skip_ws_id(mid.drop_first());
    lemma_function_round(e.1, seq![RBRACK] + rest);
    let r = seq![RBRACK] + rest;
    lemma_skip_ws_id(r);
    assert(r[0] == RBRACK);
    assert(r.drop_first() =~= rest);
}

/// Reading back a written non-empty entry list, through the closing
/// bracket, yields all its entries.
proof fn lemma_entries_round(es: Seq<(u8, PinFunction)>, rest: Seq<u8>)
    requires
        es.len() >= 1,
    ensures
        parse_entries(encode_entries(es) + seq![RBRACK] + rest) == Option::Some((es, rest)),
    decreases es.len(),
{
    let s = encode_entries(es) + seq![RBRACK] + rest;
    if es.len() == 1 {
        assert(s =~= encode_entry(es[0]) + (seq![RBRACK] + rest));
        lemma_entry_round(es[0], seq![RBRACK] + rest);
        let r = seq![RBRACK] + rest;
        lemma_skip_ws_id(r);
        assert(r[0] == RBRACK);
        assert(r.drop_first() =~= rest);
        assert(seq![es[0]] =~= es);
    } else {
        let tail = es.drop_first();
        let after = seq![COMMA] + encode_entries(tail) + seq![RBRACK] + rest;
        assert(s =~= encode_entry(es[0]) + after);
        lemma_entry_round(es[0], after);
        lemma_skip_ws_id(after);
        assert(after[0] == COMMA);
        assert(after.drop_first() =~= encode_entries(tail) + seq![RBRACK] + rest);
        assert(encode_entries(tail) == if tail.len() == 1 {
            encode_entry(tail[0])
        } else {
            encode_entry(tail[0]) + seq![COMMA] + encode_entries(tail.drop_first())
        });
        assert(after.drop_first()[0] == encode_entry(tail[0])[0]);
        assert(encode_entry(tail[0])[0] == LBRACK);
        lemma_skip_ws_id(after.drop_first());
        lemma_entries_round(tail, rest);
        assert(seq![es[0]] + tail =~= es);
    }
}

/// Round trip: a written configuration document reads back as exactly
/// the entry sequence it was written from. Together with the contracts
/// of `to_json` and `from_json` this shows
/// `GPIOConfig::from_json(&c.to_json())` returns a configuration equal
/// to `c`, for every configuration `c`. Only the persisted form round
/// trips; the human-readable rendering drops payloads by design.
pub proof fn lemma_round_trip(es: Seq<(u8, PinFunction)>)
    ensures
        parse_config(encode_config(es)) == Option::Some(es),
{
    let s = encode_config(es);
    let tail = seq![QUOTE, COLON, LBRACK] + encode_entries(es) + seq![RBRACK, RBRACE];
    lemma_skip_ws_id(s);
    assert(s[0] == LBRACE);
    assert(s.drop_first() =~= seq![QUOTE] + key_configured_pins() + seq![QUOTE] + (seq![COLON,
        LBRACK] + encode_entries(es) + seq![RBRACK, RBRACE]));
    lemma_skip_ws_id(s.drop_first());
    let after_key = seq![COLON, LBRACK] + encode_entries(es) + seq![RBRACK, RBRACE];
    lemma_parse_qstring_concat(key_configured_pins(), after_key);
    lemma_skip_ws_id(after_key);
    assert(after_key[0] == COLON);
    assert(after_key.drop_first() =~= seq![LBRACK] + encode_entries(es) + seq![RBRACK, RBRACE]);
    let s5 = seq![LBRACK] + encode_entries(es) + seq![RBRACK, RBRACE];
    lemma_skip_ws_id(s5);
    assert(s5[0] == LBRACK);
    let s6 = s5.drop_first();
    assert(s6 =~= encode_entries(es) + seq![RBRACK, RBRACE]);
    if es.len() == 0 {
        assert(s6 =~= seq![RBRACK, RBRACE]);
        lemma_skip_ws_id(s6);
        assert(s6[0] == RBRACK);
        let s7 = s6.drop_first();
        assert(s7 =~= seq![RBRACE]);
        lemma_skip_ws_id(s7);
        assert(s7[0] == RBRACE);
        assert(s7.drop_first() =~= Seq::<u8>::empty());
        assert(skip_ws(s7.drop_first()).len() == 0);
        assert(parse_config(s) == Option::Some(Seq::<(u8, PinFunction)>::empty()));
        assert(Seq::<(u8, PinFunction)>::empty() =~= es);
    } else {
        assert(s6 =~= encode_entries(es) + seq![RBRACK] + seq![RBRACE]);
        assert(encode_entries(es) == if es.len() == 1 {
            encode_entry(es[0])
        } else {
            encode_entry(es[0]) + seq![COMMA] + encode_entries(es.drop_first())
        });
        assert(s6[0] == encode_entry(es[0])[0]);
        assert(encode_entry(es[0])[0] == LBRACK);
        lemma_skip_ws_id(s6);
        lemma_entries_round(es, seq![RBRACE]);
        let s7 = seq![RBRACE];
        lemma_skip_ws_id(s7);
        assert(s7[0] == RBRACE);
        assert(s7.drop_first() =~= Seq::<u8>::empty());
        assert(skip_ws(s7.drop_first()).len() == 0);
    }
}

} // verus!
