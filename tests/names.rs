use ir::fd::{get_fd_name, get_oflags, parse_fd, parse_int, Access, OpenFlags, ParseFdError};
use ir::spec::OpenFlag;

#[test]
fn parse_fd_names() {
    assert_eq!(parse_fd("stdin"), Ok(0));
    assert_eq!(parse_fd("stdout"), Ok(1));
    assert_eq!(parse_fd("stderr"), Ok(2));
    assert_eq!(parse_fd("42"), Ok(42));
    assert_eq!(parse_fd("+7"), Ok(7));
    assert_eq!(parse_fd("-1"), Ok(-1));
    assert_eq!(parse_fd("stdio"), Err(ParseFdError::InvalidDigit));
}

#[test]
fn parse_fd_errors() {
    assert_eq!(parse_fd(""), Err(ParseFdError::Empty));
    assert_eq!(parse_fd("+"), Err(ParseFdError::InvalidDigit));
    assert_eq!(parse_fd("-"), Err(ParseFdError::InvalidDigit));
    assert_eq!(parse_fd("12x"), Err(ParseFdError::InvalidDigit));
    assert_eq!(parse_fd("2147483648"), Err(ParseFdError::PosOverflow));
    assert_eq!(parse_fd("-2147483649"), Err(ParseFdError::NegOverflow));
    assert_eq!(parse_fd("99999999999x"), Err(ParseFdError::PosOverflow));
}

#[test]
fn parse_int_matches_std() {
    for s in ["0", "007", "2147483647", "-2147483648", "+0", "1 ", " 1", "1_000", "٣", "-0"] {
        assert_eq!(parse_int(s).ok(), s.parse::<i32>().ok(), "{}", s);
    }
    assert_eq!(parse_int("2147483647"), Ok(i32::MAX));
    assert_eq!(parse_int("-2147483648"), Ok(i32::MIN));
}

#[test]
fn parse_error_messages() {
    assert_eq!(ParseFdError::Empty.message(), "".parse::<i32>().unwrap_err().to_string());
    assert_eq!(ParseFdError::InvalidDigit.message(), "x".parse::<i32>().unwrap_err().to_string());
    assert_eq!(ParseFdError::PosOverflow.message(), "9999999999".parse::<i32>().unwrap_err().to_string());
    assert_eq!(ParseFdError::NegOverflow.message(), "-9999999999".parse::<i32>().unwrap_err().to_string());
}

#[test]
fn fd_names() {
    assert_eq!(get_fd_name(0), "stdin");
    assert_eq!(get_fd_name(1), "stdout");
    assert_eq!(get_fd_name(2), "stderr");
    assert_eq!(get_fd_name(3), "3");
    assert_eq!(get_fd_name(-5), "-5");
    assert_eq!(get_fd_name(1024), "1024");
}

fn fl(access: Access, create: bool, truncate: bool, exclusive: bool, append: bool) -> OpenFlags {
    OpenFlags { access, create, truncate, exclusive, append }
}

#[test]
fn default_flags_depend_on_descriptor() {
    assert_eq!(get_oflags(&OpenFlag::Default, 0), fl(Access::ReadOnly, false, false, false, false));
    assert_eq!(get_oflags(&OpenFlag::Default, 1), fl(Access::WriteOnly, true, true, false, false));
    assert_eq!(get_oflags(&OpenFlag::Default, 2), fl(Access::WriteOnly, true, true, false, false));
    assert_eq!(get_oflags(&OpenFlag::Default, 3), fl(Access::ReadWrite, true, true, false, false));
}

#[test]
fn explicit_flags_override() {
    assert_eq!(get_oflags(&OpenFlag::Read, 1), fl(Access::ReadOnly, false, false, false, false));
    assert_eq!(get_oflags(&OpenFlag::Write, 0), fl(Access::WriteOnly, true, true, false, false));
    assert_eq!(get_oflags(&OpenFlag::Create, 5), fl(Access::WriteOnly, true, false, true, false));
    assert_eq!(get_oflags(&OpenFlag::Replace, 5), fl(Access::WriteOnly, false, true, false, false));
    assert_eq!(get_oflags(&OpenFlag::Append, 5), fl(Access::WriteOnly, false, false, false, true));
    assert_eq!(get_oflags(&OpenFlag::CreateAppend, 5), fl(Access::WriteOnly, true, false, false, true));
    assert_eq!(get_oflags(&OpenFlag::ReadWrite, 0), fl(Access::ReadWrite, true, true, false, false));
}
