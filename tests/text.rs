use passworus::decimal::parse_u8;
use passworus::usage::usage_message;

#[test]
fn parse_u8_reads_decimal_bytes() {
    assert_eq!(parse_u8("0"), Some(0));
    assert_eq!(parse_u8("42"), Some(42));
    assert_eq!(parse_u8("255"), Some(255));
    assert_eq!(parse_u8("+9"), Some(9));
    assert_eq!(parse_u8("0000255"), Some(255));
    assert_eq!(parse_u8("256"), None);
    assert_eq!(parse_u8("99999999999"), None);
    assert_eq!(parse_u8(""), None);
    assert_eq!(parse_u8("+"), None);
    assert_eq!(parse_u8("-1"), None);
    assert_eq!(parse_u8("1a"), None);
    assert_eq!(parse_u8("++1"), None);
    assert_eq!(parse_u8("٣"), None);
}

#[test]
fn parse_u8_agrees_with_std() {
    for s in ["7", "+07", "300", "x", "", "12 ", "254", "+256", "0x1"] {
        assert_eq!(parse_u8(s), s.parse::<u8>().ok(), "{}", s);
    }
}

const OPTIONS: &str = "\n\nOptions:\n\t-l <length>   length of the generated passwords (default: 10)\n\t-c <length>   number of passwords to generate (default: 1)\n\t-t [nul]      type of the passwords, any of:\n\t              l - lowercase\n\t              u - uppercase\n\t              n - number\n\t              (default: lun - all options)\n";

#[test]
fn usage_for_help_has_no_error_line() {
    let text = usage_message("passworus", None);
    assert_eq!(text, format!("\nUsage:\n\tpassworus{}", OPTIONS));
}

#[test]
fn usage_for_error_starts_with_message() {
    let text = usage_message("pw", Some("wrong argument (-z)".to_string()));
    assert_eq!(text, format!("ERROR: wrong argument (-z)\n\nUsage:\n\tpw{}", OPTIONS));
}
