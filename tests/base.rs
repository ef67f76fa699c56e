use chordata::base::{parse_base_from_prefix, parse_u32_from_string, Base, BaseChoice};
use chordata::errors::Error;

#[test]
fn test_chr() -> Result<(), Error> {
    assert_eq!(Base::Dec.to_choice().chr(71)?, 'G');
    Ok(())
}

#[test]
fn test_to_vec() {
    assert_eq!(
        BaseChoice {
            bin: true,
            dec: false,
            hex: false,
            oct: false,
        }
        .to_vec(),
        vec![true, false, false, false],
    );
}

#[test]
fn test_to_radix_success_2() -> Result<(), Error> {
    assert_eq!(
        BaseChoice {
            bin: true,
            dec: false,
            hex: false,
            oct: false,
        }
        .to_radix()?,
        2,
    );
    Ok(())
}

#[test]
fn test_to_radix_success_10() -> Result<(), Error> {
    assert_eq!(
        BaseChoice {
            bin: false,
            dec: true,
            hex: false,
            oct: false,
        }
        .to_radix()?,
        10,
    );
    Ok(())
}

#[test]
fn test_to_radix_success_16() -> Result<(), Error> {
    assert_eq!(
        BaseChoice {
            bin: false,
            dec: false,
            hex: true,
            oct: false,
        }
        .to_radix()?,
        16,
    );
    Ok(())
}

#[test]
fn test_to_radix_success_8() -> Result<(), Error> {
    assert_eq!(
        BaseChoice {
            bin: false,
            dec: false,
            hex: false,
            oct: true,
        }
        .to_radix()?,
        8,
    );
    Ok(())
}

#[test]
fn test_to_radix_fail_multiple_choices_bd() {
    match (BaseChoice {
        bin: true,
        dec: true,
        hex: false,
        oct: false,
    })
    .to_radix()
    {
        Ok(_) => (),
        Err(e) => {
            assert!(e.to_string().contains("got multiple: bin, dec"));
        }
    }
}

#[test]
fn test_to_radix_fail_multiple_choices_ho() {
    match (BaseChoice {
        bin: false,
        dec: false,
        hex: true,
        oct: true,
    })
    .to_radix()
    {
        Ok(_) => (),
        Err(e) => {
            assert!(e.to_string().contains("got multiple: hex, oct"));
        }
    }
}

#[test]
fn test_parse_base_from_prefix() {
    assert_eq!(parse_base_from_prefix("0b100".to_string()), Base::Bin);
    assert_eq!(parse_base_from_prefix("0o71".to_string()), Base::Oct);
    assert_eq!(parse_base_from_prefix("0x3f".to_string()), Base::Hex);
    assert_eq!(parse_base_from_prefix("0".to_string()), Base::Dec);
}

#[test]
fn test_parse_u32_from_string_hex() -> Result<(), Error> {
    assert_eq!(parse_u32_from_string("0b100".to_string())?.1, 4);
    assert_eq!(parse_u32_from_string("0o71".to_string())?.1, 57);
    assert_eq!(parse_u32_from_string("0x3f".to_string())?.1, 63);
    assert_eq!(parse_u32_from_string("55".to_string())?.1, 55);
    Ok(())
}
