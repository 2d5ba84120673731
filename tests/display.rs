use mhmot::display::{
    blank_message, clear_step, display_message, format_display_value, opens_port, update_step,
};
use mhmot::{DisplayConfig, DisplayStep};

fn field(v: i32) -> String {
    String::from_utf8(format_display_value(v)).unwrap()
}

#[test]
fn display_fields_are_zero_padded() {
    assert_eq!(field(750), "0750");
    assert_eq!(field(0), "0000");
    assert_eq!(field(7), "0007");
    assert_eq!(field(9999), "9999");
}

#[test]
fn display_fields_clamp_large_values() {
    assert_eq!(field(10000), "9999");
    assert_eq!(field(12345), "9999");
    assert_eq!(field(i32::MAX), "9999");
}

#[test]
fn display_fields_right_justify_negatives() {
    assert_eq!(field(-5), "  -5");
    assert_eq!(field(-42), " -42");
    assert_eq!(field(-999), "-999");
    assert_eq!(field(-1000), "-999");
    assert_eq!(field(i32::MIN), "-999");
}

#[test]
fn display_message_is_framed() {
    let m = display_message(750, 740, -5, 30);
    assert_eq!(m.len(), 19);
    assert_eq!(m[0], 0x0A);
    assert_eq!(m[1], 0x02);
    assert_eq!(&m[2..18], b"07500740  -50030");
    assert_eq!(m[18], 0x03);
}

#[test]
fn blank_message_is_sixteen_spaces() {
    let m = blank_message();
    assert_eq!(m.len(), 19);
    assert_eq!(&m[..2], &[0x0A, 0x02]);
    assert_eq!(&m[2..18], b"                ");
    assert_eq!(m[18], 0x03);
}

#[test]
fn display_config_default() {
    let c = DisplayConfig::default();
    assert_eq!(c.port_name, "");
    assert_eq!(c.baud_rate, 9600);
    assert!(!c.enabled);
    assert!(!opens_port(&c));
}

#[test]
fn display_port_opens_only_when_enabled_and_named() {
    let mut c = DisplayConfig::default();
    c.enabled = true;
    assert!(!opens_port(&c));
    c.port_name = "/dev/ttyUSB0".to_string();
    assert!(opens_port(&c));
    c.enabled = false;
    assert!(!opens_port(&c));
}

#[test]
fn display_steps() {
    let mut c = DisplayConfig::default();
    assert!(matches!(update_step(&c, true, 1, 2, 3, 4), DisplayStep::Skip));
    assert!(matches!(clear_step(&c, false), DisplayStep::Skip));
    c.enabled = true;
    assert!(matches!(update_step(&c, false, 1, 2, 3, 4), DisplayStep::NotConnected));
    assert!(matches!(clear_step(&c, false), DisplayStep::NotConnected));
    match update_step(&c, true, 8888, 7777, 6666, 5555) {
        DisplayStep::Send(m) => assert_eq!(&m[2..18], b"8888777766665555"),
        _ => panic!("expected a message"),
    }
    match clear_step(&c, true) {
        DisplayStep::Send(m) => assert_eq!(m, blank_message()),
        _ => panic!("expected a message"),
    }
}
