//! Human-readable rendering of the pin model. Rendering is deliberately
//! lossy: a function renders as its tag name alone, payloads dropped,
//! while the persisted format keeps the full payload.

use vstd::prelude::*;
use vstd::string::StringExecFns;

use crate::pins::GPIOConfig;
use crate::pins::InputPull;
use crate::pins::PinDescription;
use crate::pins::PinFunction;

verus! {

/// The rendering of a pull setting.
pub open spec fn pull_text(p: InputPull) -> Seq<char> {
    match p {
        InputPull::PullUp => "Pull Up"@,
        InputPull::PullDown => "Pull Down"@,
        InputPull::NoPull => "None"@,
    }
}

impl InputPull {
    /// The human-readable form of this pull setting.
    pub fn render(&self) -> (r: String)
        ensures
            r@ == pull_text(*self),
    {
        match self {
            InputPull::PullUp => "Pull Up".to_owned(),
            InputPull::PullDown => "Pull Down".to_owned(),
            InputPull::NoPull => "None".to_owned(),
        }
    }
}

/// The display name of a function: the tag alone, payloads dropped.
pub open spec fn function_name_text(f: PinFunction) -> Seq<char> {
    match f {
        PinFunction::NoFunction => "None"@,
        PinFunction::Input(_) => "Input"@,
        PinFunction::Output(_) => "Output"@,
        PinFunction::Power3V3 => "Power3V3"@,
        PinFunction::Power5V => "Power5V"@,
        PinFunction::Ground => "Ground"@,
        PinFunction::GPCLK0 => "GPCLK0"@,
        PinFunction::GPCLK1 => "GPCLK1"@,
        PinFunction::GPCLK2 => "GPCLK2"@,
        PinFunction::I2C1_SDA => "I2C1_SDA"@,
        PinFunction::I2C1_SCL => "I2C1_SCL"@,
        PinFunction::I2C3_SDA => "I2C3_SDA"@,
        PinFunction::I2C3_SCL => "I2C3_SCL"@,
        PinFunction::I2C4_SDA => "I2C4_SDA"@,
        PinFunction::I2C4_SCL => "I2C4_SCL"@,
        PinFunction::I2C5_SDA => "I2C5_SDA"@,
        PinFunction::I2C5_SCL => "I2C5_SCL"@,
        PinFunction::I2C6_SDA => "I2C6_SDA"@,
        PinFunction::I2C6_SCL => "I2C6_SCL"@,
        PinFunction::SPI0_MOSI => "SPI0_MOSI"@,
        PinFunction::SPI0_MOMI => "SPI0_MOMI"@,
        PinFunction::SPI0_MISO => "SPI0_MISO"@,
        PinFunction::SPI0_SCLK => "SPI0_SCLK"@,
        PinFunction::SPI0_CE0_N => "SPI0_CE0_N"@,
        PinFunction::SPI0_CE1_N => "SPI0_CE1_N"@,
        PinFunction::SPI1_MOSI => "SPI1_MOSI"@,
        PinFunction::SPI1_MOMI => "SPI1_MOMI"@,
        PinFunction::SPI1_MISO => "SPI1_MISO"@,
        PinFunction::SPI1_SCLK => "SPI1_SCLK"@,
        PinFunction::SPI1_CE0_N => "SPI1_CE0_N"@,
        PinFunction::SPI1_CE1_N => "SPI1_CE1_N"@,
        PinFunction::SPI1_CE2_N => "SPI1_CE2_N"@,
        PinFunction::PWM0 => "PWM0"@,
        PinFunction::PWM1 => "PWM1"@,
        PinFunction::UART0_TXD => "UART0_TXD"@,
        PinFunction::UART0_RXD => "UART0_RXD"@,
        PinFunction::PCM_FS => "PCM_FS"@,
        PinFunction::PCM_DIN => "PCM_DIN"@,
        PinFunction::PCM_DOUT => "PCM_DOUT"@,
        PinFunction::PCM_CLK => "PCM_CLK"@,
        PinFunction::I2C_EEPROM_ID_SD => "I2C_EEPROM_ID_SD"@,
        PinFunction::I2C_EEPROM_ID_SC => "I2C_EEPROM_ID_SC"@,
    }
}

impl PinFunction {
    /// The human-readable name of this function: the tag alone, even
    /// for the payload-carrying `Input` and `Output` variants.
    pub fn render(&self) -> (r: String)
        ensures
            r@ == function_name_text(*self),
    {
        match self {
            PinFunction::NoFunction => "None".to_owned(),
            PinFunction::Input(_) => "Input".to_owned(),
            PinFunction::Output(_) => "Output".to_owned(),
            PinFunction::Power3V3 => "Power3V3".to_owned(),
            PinFunction::Power5V => "Power5V".to_owned(),
            PinFunction::Ground => "Ground".to_owned(),
            PinFunction::GPCLK0 => "GPCLK0".to_owned(),
            PinFunction::GPCLK1 => "GPCLK1".to_owned(),
            PinFunction::GPCLK2 => "GPCLK2".to_owned(),
            PinFunction::I2C1_SDA => "I2C1_SDA".to_owned(),
            PinFunction::I2C1_SCL => "I2C1_SCL".to_owned(),
            PinFunction::I2C3_SDA => "I2C3_SDA".to_owned(),
            PinFunction::I2C3_SCL => "I2C3_SCL".to_owned(),
            PinFunction::I2C4_SDA => "I2C4_SDA".to_owned(),
            PinFunction::I2C4_SCL => "I2C4_SCL".to_owned(),
            PinFunction::I2C5_SDA => "I2C5_SDA".to_owned(),
            PinFunction::I2C5_SCL => "I2C5_SCL".to_owned(),
            PinFunction::I2C6_SDA => "I2C6_SDA".to_owned(),
            PinFunction::I2C6_SCL => "I2C6_SCL".to_owned(),
            PinFunction::SPI0_MOSI => "SPI0_MOSI".to_owned(),
            PinFunction::SPI0_MOMI => "SPI0_MOMI".to_owned(),
            PinFunction::SPI0_MISO => "SPI0_MISO".to_owned(),
            PinFunction::SPI0_SCLK => "SPI0_SCLK".to_owned(),
            PinFunction::SPI0_CE0_N => "SPI0_CE0_N".to_owned(),
            PinFunction::SPI0_CE1_N => "SPI0_CE1_N".to_owned(),
            PinFunction::SPI1_MOSI => "SPI1_MOSI".to_owned(),
            PinFunction::SPI1_MOMI => "SPI1_MOMI".to_owned(),
            PinFunction::SPI1_MISO => "SPI1_MISO".to_owned(),
            PinFunction::SPI1_SCLK => "SPI1_SCLK".to_owned(),
            PinFunction::SPI1_CE0_N => "SPI1_CE0_N".to_owned(),
            PinFunction::SPI1_CE1_N => "SPI1_CE1_N".to_owned(),
            PinFunction::SPI1_CE2_N => "SPI1_CE2_N".to_owned(),
            PinFunction::PWM0 => "PWM0".to_owned(),
            PinFunction::PWM1 => "PWM1".to_owned(),
            PinFunction::UART0_TXD => "UART0_TXD".to_owned(),
            PinFunction::UART0_RXD => "UART0_RXD".to_owned(),
            PinFunction::PCM_FS => "PCM_FS".to_owned(),
            PinFunction::PCM_DIN => "PCM_DIN".to_owned(),
            PinFunction::PCM_DOUT => "PCM_DOUT".to_owned(),
            PinFunction::PCM_CLK => "PCM_CLK".to_owned(),
            PinFunction::I2C_EEPROM_ID_SD => "I2C_EEPROM_ID_SD".to_owned(),
            PinFunction::I2C_EEPROM_ID_SC => "I2C_EEPROM_ID_SC".to_owned(),
        }
    }
}

/// The decimal digit characters.
pub open spec fn digit_char(d: nat) -> char {
    if d == 0 {
        '0'
    } else if d == 1 {
        '1'
    } else if d == 2 {
        '2'
    } else if d == 3 {
        '3'
    } else if d == 4 {
        '4'
    } else if d == 5 {
        '5'
    } else if d == 6 {
        '6'
    } else if d == 7 {
        '7'
    } else if d == 8 {
        '8'
    } else {
        '9'
    }
}

/// The shortest decimal rendering of `n`, as characters.
pub open spec fn dec_text(n: nat) -> Seq<char>
    decreases n,
{
    if n < 10 {
        seq![digit_char(n)]
    } else {
        dec_text(n / 10) + seq![digit_char(n % 10)]
    }
}

/// Appends the character of the digit `d`.
fn push_digit(out: &mut String, d: u8)
    requires
        d < 10,
    ensures
        final(out)@ == old(out)@ + seq![digit_char(d as nat)],
{
    let c: &str = match d {
        0 => "0",
        1 => "1",
        2 => "2",
        3 => "3",
        4 => "4",
        5 => "5",
        6 => "6",
        7 => "7",
        8 => "8",
        _ => "9",
    };
    out.append(c);
    proof {
        reveal_strlit("0");
        reveal_strlit("1");
        reveal_strlit("2");
        reveal_strlit("3");
        reveal_strlit("4");
        reveal_strlit("5");
        reveal_strlit("6");
        reveal_strlit("7");
        reveal_strlit("8");
        reveal_strlit("9");
        assert(out@ =~= old(out)@ + seq![digit_char(d as nat)]);
    }
}

/// Appends the decimal rendering of `n`.
fn push_dec_chars(out: &mut String, n: u8)
    ensures
        final(out)@ == old(out)@ + dec_text(n as nat),
{
    proof {
        vstd::arithmetic::div_mod::lemma_div_denominator(n as int, 10, 10);
        reveal_with_fuel(dec_text, 4);
    }
    if n >= 100 {
        push_digit(out, n / 100);
    }
    if n >= 10 {
        push_digit(out, (n / 10) % 10);
    }
    push_digit(out, n % 10);
    proof {
        assert(out@ =~= old(out)@ + dec_text(n as nat));
    }
}

/// One rendered line per configured pin: the channel number and the
/// simplified function name.
pub open spec fn entry_line(e: (u8, PinFunction)) -> Seq<char> {
    "\tBCM Pin #: "@ + dec_text(e.0 as nat) + " - "@ + function_name_text(e.1) + "\n"@
}

/// The rendered lines of all entries, in insertion order.
pub open spec fn entries_text(es: Seq<(u8, PinFunction)>) -> Seq<char>
    decreases es.len(),
{
    if es.len() == 0 {
        Seq::empty()
    } else {
        entry_line(es[0]) + entries_text(es.drop_first())
    }
}

/// The rendering of a whole configuration: a fixed message when empty,
/// a heading plus one line per entry otherwise.
pub open spec fn config_text(es: Seq<(u8, PinFunction)>) -> Seq<char> {
    if es.len() == 0 {
        "No Pins are Configured\n"@
    } else {
        "Configured Pins:\n"@ + entries_text(es)
    }
}

/// Appending one entry extends the rendered lines by that entry's line.
proof fn lemma_entries_text_push(es: Seq<(u8, PinFunction)>, e: (u8, PinFunction))
    ensures
        entries_text(es.push(e)) == entries_text(es) + entry_line(e),
    decreases es.len(),
{
    if es.len() == 0 {
        assert(es.push(e) =~= seq![e]);
        assert(es.push(e).drop_first() =~= Seq::<(u8, PinFunction)>::empty());
        assert(entries_text(Seq::<(u8, PinFunction)>::empty()) =~= Seq::<char>::empty());
        assert(entries_text(es.push(e)) =~= entries_text(es) + entry_line(e));
    } else {
        lemma_entries_text_push(es.drop_first(), e);
        assert(es.push(e).drop_first() =~= es.drop_first().push(e));
        assert(es.push(e)[0] == es[0]);
        assert(entries_text(es.push(e)) =~= entries_text(es) + entry_line(e));
    }
}

impl GPIOConfig {
    /// Renders this configuration for human reading, one line per entry
    /// in insertion order, with the lossy tag-only function names.
    pub fn render(&self) -> (r: String)
        ensures
            r@ == config_text(self@),
    {
        if self.configured_pins.len() == 0 {
            return "No Pins are Configured\n".to_owned();
        }
        let mut out: String = "Configured Pins:\n".to_owned();
        let ghost hdr: Seq<char> = "Configured Pins:\n"@;
        let n = self.configured_pins.len();
        let mut i: usize = 0;
        while i < n
            invariant
                n == self.configured_pins@.len(),
                0 <= i <= n,
                out@ == hdr + entries_text(self.configured_pins@.take(i as int)),
                hdr == "Configured Pins:\n"@,
            decreases n - i,
        {
            let e = self.configured_pins[i];
            out.append("\tBCM Pin #: ");
            push_dec_chars(&mut out, e.0);
            out.append(" - ");
            let name = e.1.render();
            out.append(name.as_str());
            out.append("\n");
            proof {
                let ghost pre = self.configured_pins@.take(i as int);
                lemma_entries_text_push(pre, self.configured_pins@[i as int]);
                assert(pre.push(self.configured_pins@[i as int]) =~= self.configured_pins@.take(
                    i + 1 as int,
                ));
                assert(out@ =~= hdr + entries_text(self.configured_pins@.take(i + 1 as int)));
            }
            i += 1;
        }
        proof {
            assert(self.configured_pins@.take(n as int) =~= self.configured_pins@);
        }
        out
    }
}

/// The verbose rendering of an optional pull, as stored in a pin's
/// option list: the pull tag inside `Some(..)`, with the unset pull
/// written `None`.
pub open spec fn option_pull_debug(p: Option<InputPull>) -> Seq<char> {
    match p {
        Option::None => "None"@,
        Option::Some(InputPull::PullUp) => "Some(PullUp)"@,
        Option::Some(InputPull::PullDown) => "Some(PullDown)"@,
        Option::Some(InputPull::NoPull) => "Some(None)"@,
    }
}

/// The verbose rendering of an optional level.
pub open spec fn option_level_debug(l: Option<bool>) -> Seq<char> {
    match l {
        Option::None => "None"@,
        Option::Some(true) => "Some(true)"@,
        Option::Some(false) => "Some(false)"@,
    }
}

/// The verbose rendering of one function, payload included.
pub open spec fn function_debug_text(f: PinFunction) -> Seq<char> {
    match f {
        PinFunction::Input(p) => "Input("@ + option_pull_debug(p) + ")"@,
        PinFunction::Output(l) => "Output("@ + option_level_debug(l) + ")"@,
        _ => function_name_text(f),
    }
}

/// The verbose renderings of a function list, comma-separated.
pub open spec fn options_inner_text(os: Seq<PinFunction>) -> Seq<char>
    decreases os.len(),
{
    if os.len() == 0 {
        Seq::empty()
    } else if os.len() == 1 {
        function_debug_text(os[0])
    } else {
        function_debug_text(os[0]) + ", "@ + options_inner_text(os.drop_first())
    }
}

/// The verbose rendering of an optional channel number.
pub open spec fn option_u8_debug(o: Option<u8>) -> Seq<char> {
    match o {
        Option::None => "None"@,
        Option::Some(n) => "Some("@ + dec_text(n as nat) + ")"@,
    }
}

/// The four-line rendering of one physical pin's description.
pub open spec fn description_text(
    board: u8,
    bcm: Option<u8>,
    name: Seq<char>,
    options: Seq<PinFunction>,
) -> Seq<char> {
    "Board Pin #: "@ + dec_text(board as nat) + "\n\tBCM Pin #: "@ + option_u8_debug(bcm)
        + "\n\tName Pin #: "@ + name + "\n\tFunctions #: ["@ + options_inner_text(options)
        + "]\n"@
}

/// Appends the verbose rendering of one function.
fn push_function_debug(out: &mut String, f: &PinFunction)
    ensures
        final(out)@ == old(out)@ + function_debug_text(*f),
{
    match f {
        PinFunction::Input(p) => {
            out.append("Input(");
            match p {
                Option::None => out.append("None"),
                Option::Some(InputPull::PullUp) => out.append("Some(PullUp)"),
                Option::Some(InputPull::PullDown) => out.append("Some(PullDown)"),
                Option::Some(InputPull::NoPull) => out.append("Some(None)"),
            }
            out.append(")");
            proof {
                assert(out@ =~= old(out)@ + function_debug_text(*f));
            }
        },
        PinFunction::Output(l) => {
            out.append("Output(");
            match l {
                Option::None => out.append("None"),
                Option::Some(true) => out.append("Some(true)"),
                Option::Some(false) => out.append("Some(false)"),
            }
            out.append(")");
            proof {
                assert(out@ =~= old(out)@ + function_debug_text(*f));
            }
        },
        _ => {
            let name = f.render();
            out.append(name.as_str());
            proof {
                assert(out@ =~= old(out)@ + function_debug_text(*f));
            }
        },
    }
}

/// Appending one function extends the comma-separated list rendering.
proof fn lemma_options_inner_push(os: Seq<PinFunction>, f: PinFunction)
    ensures
        options_inner_text(os.push(f)) == if os.len() == 0 {
            function_debug_text(f)
        } else {
            options_inner_text(os) + ", "@ + function_debug_text(f)
        },
    decreases os.len(),
{
    if os.len() == 0 {
        assert(os.push(f) =~= seq![f]);
        assert(options_inner_text(seq![f]) == function_debug_text(f));
    } else {
        lemma_options_inner_push(os.drop_first(), f);
        assert(os.push(f).drop_first() =~= os.drop_first().push(f));
        assert(os.push(f)[0] == os[0]);
        if os.len() == 1 {
            assert(options_inner_text(os) == function_debug_text(os[0]));
            assert(options_inner_text(os.push(f)) =~= options_inner_text(os) + ", "@
                + function_debug_text(f));
        } else {
            assert(options_inner_text(os.push(f)) =~= options_inner_text(os) + ", "@
                + function_debug_text(f));
        }
    }
}

impl PinDescription {
    /// Renders this pin description as its four-line block: board
    /// position, optional channel, name, and the verbose list of the
    /// functions the pin may be given.
    pub fn render(&self) -> (r: String)
        ensures
            r@ == description_text(
                self.board_pin_number,
                self.bcm_pin_number,
                self.name@,
                self.options@,
            ),
    {
        let mut out: String = "Board Pin #: ".to_owned();
        push_dec_chars(&mut out, self.board_pin_number);
        out.append("\n\tBCM Pin #: ");
        match self.bcm_pin_number {
            Option::None => out.append("None"),
            Option::Some(n) => {
                out.append("Some(");
                push_dec_chars(&mut out, n);
                out.append(")");
            },
        }
        out.append("\n\tName Pin #: ");
        out.append(self.name);
        out.append("\n\tFunctions #: [");
        let ghost hdr: Seq<char> = out@;
        let n = self.options.len();
        let mut i: usize = 0;
        while i < n
            invariant
                n == self.options@.len(),
                0 <= i <= n,
                out@ == hdr + options_inner_text(self.options@.take(i as int)),
            decreases n - i,
        {
            if i > 0 {
                out.append(", ");
            }
            let f = self.options[i];
            push_function_debug(&mut out, &f);
            proof {
                let ghost pre = self.options@.take(i as int);
                lemma_options_inner_push(pre, self.options@[i as int]);
                assert(pre.push(self.options@[i as int]) =~= self.options@.take(i + 1 as int));
                assert(out@ =~= hdr + options_inner_text(self.options@.take(i + 1 as int)));
            }
            i += 1;
        }
        out.append("]\n");
        proof {
            assert(self.options@.take(n as int) =~= self.options@);
            assert(out@ =~= description_text(
                self.board_pin_number,
                self.bcm_pin_number,
                self.name@,
                self.options@,
            ));
        }
        out
    }
}

} // verus!
