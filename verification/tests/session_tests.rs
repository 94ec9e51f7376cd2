use star_catalog::decimal::Decimal;
use star_catalog::error::Failure;
use star_catalog::session::{read_command, Command};

#[test]
fn the_letter_q_quits() {
    assert_eq!(read_command("q"), Ok(Command::Quit));
    assert_eq!(read_command("q\n"), Ok(Command::Quit));
    assert_eq!(read_command("  q \r\n"), Ok(Command::Quit));
    assert_eq!(read_command("\u{a0}q\u{2009}\n"), Ok(Command::Quit));
}

#[test]
fn a_distance_asks_for_the_stars_within_it() {
    assert_eq!(read_command("10\n"), Ok(Command::Show(Decimal { mantissa: 10, scale: 0 })));
    assert_eq!(read_command(" 12.5 "), Ok(Command::Show(Decimal { mantissa: 125, scale: 1 })));
    assert_eq!(
        read_command("\u{3000}12.5\u{85}\n"),
        Ok(Command::Show(Decimal { mantissa: 125, scale: 1 }))
    );
    assert_eq!(read_command("-3.25"), Ok(Command::Show(Decimal { mantissa: -325, scale: 2 })));
    assert_eq!(read_command("0"), Ok(Command::Show(Decimal { mantissa: 0, scale: 0 })));
    assert_eq!(read_command("1e3"), Ok(Command::Show(Decimal { mantissa: 1000, scale: 0 })));
}

#[test]
fn any_other_line_is_refused() {
    assert_eq!(read_command(""), Err(Failure::InvalidUserInput));
    assert_eq!(read_command("\n"), Err(Failure::InvalidUserInput));
    assert_eq!(read_command("Q"), Err(Failure::InvalidUserInput));
    assert_eq!(read_command("qq"), Err(Failure::InvalidUserInput));
    assert_eq!(read_command("quit"), Err(Failure::InvalidUserInput));
    assert_eq!(read_command("ten"), Err(Failure::InvalidUserInput));
    assert_eq!(read_command("10 ly"), Err(Failure::InvalidUserInput));
    assert_eq!(read_command("1e"), Err(Failure::InvalidUserInput));
    assert_eq!(read_command("q 10"), Err(Failure::InvalidUserInput));
    assert_eq!(read_command("１０"), Err(Failure::InvalidUserInput));
}
