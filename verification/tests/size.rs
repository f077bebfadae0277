use ivshmem::size::SizeError;
use ivshmem::text::NumberError;
use ivshmem::Size;

#[test]
fn size_without_unit_is_bytes() {
    assert_eq!(Size::parse("4096"), Ok(Size(4096)));
    assert_eq!("4096".parse::<Size>(), Ok(Size(4096)));
}

#[test]
fn size_units_scale_by_powers_of_1024() {
    assert_eq!(Size::parse("4K"), Ok(Size(4 * 1024)));
    assert_eq!(Size::parse("4M"), Ok(Size(4 * 1024 * 1024)));
    assert_eq!(Size::parse("1G"), Ok(Size(1024 * 1024 * 1024)));
    assert_eq!("4M".parse::<Size>(), Ok(Size(4194304)));
}

#[test]
fn size_rejects_malformed_text() {
    assert_eq!(Size::parse(""), Err(SizeError::Number(NumberError::Empty)));
    assert_eq!(Size::parse("K"), Err(SizeError::Number(NumberError::Empty)));
    assert_eq!(Size::parse("+"), Err(SizeError::Number(NumberError::InvalidDigit)));
    assert_eq!(Size::parse("12x"), Err(SizeError::Number(NumberError::InvalidDigit)));
    assert_eq!(Size::parse("4k"), Err(SizeError::Number(NumberError::InvalidDigit)));
    assert_eq!(Size::parse("-1"), Err(SizeError::Number(NumberError::InvalidDigit)));
    assert_eq!(Size::parse(" 4M"), Err(SizeError::Number(NumberError::InvalidDigit)));
}

#[test]
fn size_accepts_plus_sign_and_leading_zeros() {
    assert_eq!(Size::parse("+8"), Ok(Size(8)));
    assert_eq!(Size::parse("0008K"), Ok(Size(8192)));
}

#[test]
fn size_rejects_what_the_machine_cannot_hold() {
    assert_eq!(
        Size::parse("99999999999999999999999999"),
        Err(SizeError::Number(NumberError::Overflow))
    );
    assert_eq!(
        Size::parse("99999999999999999999999999x"),
        Err(SizeError::Number(NumberError::Overflow))
    );
    let max = usize::MAX.to_string();
    assert_eq!(Size::parse(&max), Ok(Size(usize::MAX)));
    let too_large = format!("{}K", max);
    assert_eq!(Size::parse(&too_large), Err(SizeError::TooLarge));
}
