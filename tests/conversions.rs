use chordata::base::{
    detect_base, is_token_shaped, parse_base_from_prefix, parse_lowered_token,
    parse_u32_from_string, Base, BaseChoice, DEFAULT_BASE,
};
use chordata::digits::{char_to_digit, digit_of, format_radix, parse_digits, token_to_digits};
use chordata::errors::{ConfusingBaseError, Error};

fn choice(bin: bool, dec: bool, hex: bool, oct: bool) -> BaseChoice {
    BaseChoice { bin, dec, hex, oct }
}

fn confusing_reason(c: BaseChoice) -> String {
    match c.validate() {
        Err(e) => e.to_string(),
        Ok(()) => panic!("expected the choice to be refused"),
    }
}

#[test]
fn each_base_resolves_to_its_radix() {
    assert_eq!(Base::Bin.to_choice().to_radix().unwrap(), 2);
    assert_eq!(Base::Dec.to_choice().to_radix().unwrap(), 10);
    assert_eq!(Base::Hex.to_choice().to_radix().unwrap(), 16);
    assert_eq!(Base::Oct.to_choice().to_radix().unwrap(), 8);
}

#[test]
fn to_choice_sets_one_flag() {
    assert_eq!(Base::Hex.to_choice(), choice(false, false, true, false));
    assert_eq!(Base::Oct.to_choice(), choice(false, false, false, true));
}

#[test]
fn no_flag_means_decimal() {
    assert_eq!(choice(false, false, false, false).to_radix().unwrap(), DEFAULT_BASE);
    assert_eq!(DEFAULT_BASE, 10);
    assert!(choice(false, false, false, false).validate().is_ok());
}

#[test]
fn several_flags_are_refused_with_their_names() {
    assert_eq!(
        confusing_reason(choice(true, true, false, false)),
        "only one choice is allowed, but got multiple: bin, dec"
    );
    assert_eq!(
        confusing_reason(choice(false, true, true, true)),
        "only one choice is allowed, but got multiple: dec, hex, oct"
    );
    assert_eq!(
        confusing_reason(choice(true, true, true, true)),
        "only one choice is allowed, but got multiple: bin, dec, hex, oct"
    );
    match choice(true, false, false, true).to_radix() {
        Err(Error::ConfusingBaseError(e)) => {
            assert_eq!(e.to_string(), "only one choice is allowed, but got multiple: bin, oct")
        }
        _ => panic!("expected a confusing base error"),
    }
}

#[test]
fn error_text_names_the_kind() {
    let e = choice(false, false, true, true).to_radix().unwrap_err();
    assert_eq!(
        e.to_string(),
        "ConfusingBaseError: only one choice is allowed, but got multiple: hex, oct"
    );
    let e = Error::DataConversionError("bad".to_string());
    assert_eq!(e.to_string(), "DataConversionError: bad");
    let e = Error::RegexCaptureError("odd".to_string());
    assert_eq!(e.to_string(), "RegexCaptureError: odd");
    let e = Error::from(std::io::Error::new(std::io::ErrorKind::NotFound, "gone"));
    assert!(matches!(e, Error::IOError(_)));
    assert!(e.to_string().starts_with("IOError: "));
    let c = ConfusingBaseError::new("why".to_string());
    assert_eq!(c.to_string(), "why");
    assert!(matches!(Error::from(c), Error::ConfusingBaseError(_)));
}

#[test]
fn choice_text_lists_flags_in_order() {
    assert_eq!(choice(false, false, false, false).to_string(), "");
    assert_eq!(choice(false, false, true, false).to_string(), "hex");
    assert_eq!(choice(true, false, true, true).to_string(), "bin, hex, oct");
}

#[test]
fn chr_maps_code_points() {
    assert_eq!(Base::Hex.to_choice().chr(0x41).unwrap(), 'A');
    assert_eq!(Base::Dec.to_choice().chr(0x10FFFF).unwrap(), '\u{10FFFF}');
    match Base::Dec.to_choice().chr(0xD800) {
        Err(Error::DataConversionError(m)) => assert_eq!(m, "could not convert 55296 to char"),
        _ => panic!("expected a conversion error"),
    }
    assert!(Base::Dec.to_choice().chr(0x110000).is_err());
}

#[test]
fn prefixes_select_bases() {
    assert_eq!(parse_base_from_prefix("55".to_string()), Base::Dec);
    assert_eq!(parse_base_from_prefix("0B11".to_string()), Base::Bin);
    assert_eq!(parse_base_from_prefix("0X1".to_string()), Base::Hex);
    assert_eq!(parse_base_from_prefix("".to_string()), Base::Dec);
    assert_eq!(detect_base("0o7"), Base::Oct);
    assert_eq!(detect_base("0"), Base::Dec);
}

#[test]
fn tokens_read_with_their_base() {
    assert_eq!(parse_u32_from_string("0b100".to_string()).unwrap(), (Base::Bin, 4));
    assert_eq!(parse_u32_from_string("0o71".to_string()).unwrap(), (Base::Oct, 57));
    assert_eq!(parse_u32_from_string("0x3f".to_string()).unwrap(), (Base::Hex, 63));
    assert_eq!(parse_u32_from_string("55".to_string()).unwrap(), (Base::Dec, 55));
    assert_eq!(parse_u32_from_string("0".to_string()).unwrap(), (Base::Dec, 0));
}

#[test]
fn upper_case_tokens_are_lowered_first() {
    assert_eq!(parse_u32_from_string("0X3F".to_string()).unwrap(), (Base::Hex, 63));
    assert_eq!(parse_u32_from_string("0B101".to_string()).unwrap(), (Base::Bin, 5));
}

#[test]
fn bare_prefix_is_rejected() {
    match parse_u32_from_string("0x".to_string()) {
        Err(Error::DataConversionError(m)) => assert_eq!(m, "could not read  in base 16"),
        _ => panic!("expected a conversion error"),
    }
    assert!(matches!(parse_lowered_token("0b"), Err(Error::DataConversionError(_))));
    assert!(matches!(parse_lowered_token("0o"), Err(Error::DataConversionError(_))));
}

#[test]
fn malformed_tokens_are_rejected() {
    match parse_u32_from_string("0x-1".to_string()) {
        Err(Error::RegexCaptureError(m)) => assert_eq!(
            m,
            "expected an optional 0b, 0o or 0x prefix followed by letters and digits, got 0x-1"
        ),
        _ => panic!("expected a shape error"),
    }
    assert!(matches!(parse_lowered_token(""), Err(Error::RegexCaptureError(_))));
    assert!(matches!(parse_lowered_token("1 2"), Err(Error::RegexCaptureError(_))));
    assert!(is_token_shaped("0xff"));
    assert!(!is_token_shaped("ff!"));
}

#[test]
fn bad_digits_and_overflow_are_rejected() {
    match parse_u32_from_string("0b102".to_string()) {
        Err(Error::DataConversionError(m)) => assert_eq!(m, "could not read 102 in base 2"),
        _ => panic!("expected a conversion error"),
    }
    assert!(parse_u32_from_string("12a".to_string()).is_err());
    assert_eq!(parse_u32_from_string("4294967295".to_string()).unwrap().1, u32::MAX);
    assert!(parse_u32_from_string("4294967296".to_string()).is_err());
    assert_eq!(parse_u32_from_string("0xffffffff".to_string()).unwrap().1, u32::MAX);
    assert!(parse_u32_from_string("0x100000000".to_string()).is_err());
}

#[test]
fn values_round_trip_through_their_digits() {
    for &(base, radix, prefix) in &[
        (Base::Bin, 2u32, "0b"),
        (Base::Oct, 8, "0o"),
        (Base::Hex, 16, "0x"),
        (Base::Dec, 10, ""),
    ] {
        for &v in &[0u32, 1, 7, 63, 255, 1000, u32::MAX] {
            let token = format!("{}{}", prefix, format_radix(v, radix));
            assert_eq!(parse_u32_from_string(token).unwrap(), (base, v));
        }
    }
}

#[test]
fn digits_are_written_in_radix() {
    assert_eq!(format_radix(0, 2), "0");
    assert_eq!(format_radix(4, 2), "100");
    assert_eq!(format_radix(57, 8), "71");
    assert_eq!(format_radix(255, 16), "ff");
    assert_eq!(format_radix(4294967295, 10), "4294967295");
    assert_eq!(parse_digits("ff", 16).unwrap(), 255);
    assert_eq!(parse_digits("FF", 16).unwrap(), 255);
    assert!(parse_digits("", 10).is_err());
}

#[test]
fn ord_converts_characters_to_digits() {
    assert_eq!(char_to_digit('f', 16).unwrap(), 15);
    match char_to_digit('g', 16) {
        Err(Error::DataConversionError(m)) => {
            assert_eq!(m, "cannot convert g to number of base 16")
        }
        _ => panic!("expected a conversion error"),
    }
    assert_eq!(digit_of('7', 8), Some(7));
    assert_eq!(digit_of('8', 8), None);
    assert_eq!(digit_of('Z', 36), Some(35));
    assert_eq!(token_to_digits("1f", 16).unwrap(), vec![1, 15]);
    assert_eq!(token_to_digits("", 10).unwrap(), Vec::<u32>::new());
    assert!(token_to_digits("12", 2).is_err());
}
