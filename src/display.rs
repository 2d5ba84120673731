//! What the external numeric displays are sent: three balances and the pot,
//! four characters each, framed for the serial line.

use vstd::prelude::*;

verus! {

/// Line feed: clears the previous message.
pub const LF: u8 = 0x0A;

/// Start of text.
pub const STX: u8 = 0x02;

/// End of text.
pub const ETX: u8 = 0x03;

/// Baud rate of a display that has not been configured.
pub const DEFAULT_BAUD_RATE: u32 = 9600;

/// How the displays are reached.
#[derive(Debug, Clone)]
pub struct DisplayConfig {
    pub port_name: String,
    pub baud_rate: u32,
    pub enabled: bool,
}

impl Default for DisplayConfig {
    fn default() -> (c: DisplayConfig)
        ensures
            c.port_name@.len() == 0,
            c.baud_rate == DEFAULT_BAUD_RATE,
            !c.enabled,
    {
        DisplayConfig { port_name: String::new(), baud_rate: DEFAULT_BAUD_RATE, enabled: false }
    }
}

/// What to do with the displays.
#[derive(Debug, Clone)]
pub enum DisplayStep {
    /// The displays are disabled: do nothing.
    Skip,
    /// Write these bytes to the port.
    Send(Vec<u8>),
    /// The displays are enabled but no port is open.
    NotConnected,
}

/// The ASCII byte of decimal digit `d`.
pub open spec fn digit_byte(d: int) -> u8 {
    (48 + d) as u8
}

/// A value as a display field: zero-padded to four digits from 0 to 9999,
/// "9999" from 10000 on, and below 0 right-justified with its sign, clamped at
/// -999.
pub open spec fn display_field(v: int) -> Seq<u8> {
    if v >= 10000 {
        seq![57u8, 57u8, 57u8, 57u8]
    } else if v >= 0 {
        seq![digit_byte(v / 1000), digit_byte(v / 100 % 10), digit_byte(v / 10 % 10), digit_byte(v % 10)]
    } else {
        let m = if v < -999 {
            999
        } else {
            -v
        };
        if m < 10 {
            seq![32u8, 32u8, 45u8, digit_byte(m)]
        } else if m < 100 {
            seq![32u8, 45u8, digit_byte(m / 10), digit_byte(m % 10)]
        } else {
            seq![45u8, digit_byte(m / 100), digit_byte(m / 10 % 10), digit_byte(m % 10)]
        }
    }
}

/// The message that shows three balances and the pot.
pub open spec fn display_frame(p1: int, p2: int, p3: int, pot: int) -> Seq<u8> {
    seq![LF, STX] + display_field(p1) + display_field(p2) + display_field(p3) + display_field(pot) + seq![
        ETX,
    ]
}

/// The message that blanks every display.
pub open spec fn blank_frame() -> Seq<u8> {
    seq![LF, STX] + Seq::new(16, |i: int| 32u8) + seq![ETX]
}

fn push_digit(out: &mut Vec<u8>, d: i32)
    requires
        0 <= d <= 9,
    ensures
        final(out)@ == old(out)@.push(digit_byte(d as int)),
{
    out.push(48u8 + d as u8);
}

/// `value` as a four-character display field.
pub fn format_display_value(value: i32) -> (r: Vec<u8>)
    ensures
        r@ == display_field(value as int),
{
    let mut out: Vec<u8> = Vec::new();
    if value >= 10000 {
        out.push(57u8);
        out.push(57u8);
        out.push(57u8);
        out.push(57u8);
    } else if value >= 0 {
        push_digit(&mut out, value / 1000);
        push_digit(&mut out, value / 100 % 10);
        push_digit(&mut out, value / 10 % 10);
        push_digit(&mut out, value % 10);
    } else {
        let m: i32 = if value < -999 {
            999
        } else {
            -value
        };
        if m < 10 {
            out.push(32u8);
            out.push(32u8);
            out.push(45u8);
            push_digit(&mut out, m);
        } else if m < 100 {
            out.push(32u8);
            out.push(45u8);
            push_digit(&mut out, m / 10);
            push_digit(&mut out, m % 10);
        } else {
            out.push(45u8);
            push_digit(&mut out, m / 100);
            push_digit(&mut out, m / 10 % 10);
            push_digit(&mut out, m % 10);
        }
    }
    assert(out@ =~= display_field(value as int));
    out
}

/// The message that shows three balances and the pot: LF, STX, the four
/// fields, ETX.
pub fn display_message(p1: i32, p2: i32, p3: i32, pot: i32) -> (r: Vec<u8>)
    ensures
        r@ == display_frame(p1 as int, p2 as int, p3 as int, pot as int),
{
    let mut out: Vec<u8> = Vec::new();
    out.push(LF);
    out.push(STX);
    let mut f1 = format_display_value(p1);
    let mut f2 = format_display_value(p2);
    let mut f3 = format_display_value(p3);
    let mut f4 = format_display_value(pot);
    out.append(&mut f1);
    out.append(&mut f2);
    out.append(&mut f3);
    out.append(&mut f4);
    out.push(ETX);
    assert(out@ =~= display_frame(p1 as int, p2 as int, p3 as int, pot as int));
    out
}

/// The message that blanks every display: LF, STX, sixteen spaces, ETX.
pub fn blank_message() -> (r: Vec<u8>)
    ensures
        r@ == blank_frame(),
{
    let mut out: Vec<u8> = Vec::new();
    out.push(LF);
    out.push(STX);
    let mut i: usize = 0;
    while i < 16
        invariant
            i <= 16,
            out@ == seq![LF, STX] + Seq::new(i as nat, |k: int| 32u8),
        decreases 16 - i,
    {
        out.push(32u8);
        i = i + 1;
        assert(out@ =~= seq![LF, STX] + Seq::new(i as nat, |k: int| 32u8));
    }
    out.push(ETX);
    assert(out@ =~= blank_frame());
    out
}

/// Whether configuring with `config` opens a port: only an enabled display
/// with a port name does.
pub fn opens_port(config: &DisplayConfig) -> (r: bool)
    ensures
        r == (config.enabled && config.port_name@.len() > 0),
{
    config.enabled && !config.port_name.as_str().is_empty()
}

/// What showing three balances and the pot takes: nothing when the displays
/// are disabled, an error when no port is open, else the message to send.
pub fn update_step(config: &DisplayConfig, connected: bool, p1: i32, p2: i32, p3: i32, pot: i32) -> (r: DisplayStep)
    ensures
        !config.enabled ==> r is Skip,
        config.enabled && !connected ==> r is NotConnected,
        config.enabled && connected ==> (r matches DisplayStep::Send(m) && m@ == display_frame(
            p1 as int,
            p2 as int,
            p3 as int,
            pot as int,
        )),
{
    if !config.enabled {
        DisplayStep::Skip
    } else if !connected {
        DisplayStep::NotConnected
    } else {
        DisplayStep::Send(display_message(p1, p2, p3, pot))
    }
}

/// What blanking the displays takes: nothing when they are disabled, an error
/// when no port is open, else the blanking message.
pub fn clear_step(config: &DisplayConfig, connected: bool) -> (r: DisplayStep)
    ensures
        !config.enabled ==> r is Skip,
        config.enabled && !connected ==> r is NotConnected,
        config.enabled && connected ==> (r matches DisplayStep::Send(m) && m@ == blank_frame()),
{
    if !config.enabled {
        DisplayStep::Skip
    } else if !connected {
        DisplayStep::NotConnected
    } else {
        DisplayStep::Send(blank_message())
    }
}

} // verus!
