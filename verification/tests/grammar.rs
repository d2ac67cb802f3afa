use port_hawk::args::parser::{parse_port_range, PortRange};

fn parse(text: &str) -> Result<PortRange, String> {
    parse_port_range(text.to_string())
}

fn ranges(list: &[(u16, u16)]) -> Result<PortRange, String> {
    Ok(PortRange::Range(list.to_vec()))
}

fn error(message: &str) -> Result<PortRange, String> {
    Err(message.to_string())
}

#[test]
fn every_port_number_parses_to_itself() {
    for port in 0..=u16::MAX {
        assert_eq!(parse(&port.to_string()), Ok(PortRange::Single(port)));
    }
}

#[test]
fn single_port_bounds() {
    assert_eq!(parse("0"), Ok(PortRange::Single(0)));
    assert_eq!(parse("65535"), Ok(PortRange::Single(65535)));
    assert_eq!(parse("65536"), error("Invalid port: 65536"));
    assert_eq!(parse("99999999999999999999"), error("Invalid port: 99999999999999999999"));
}

#[test]
fn single_port_sign_and_leading_zeros() {
    assert_eq!(parse("+80"), Ok(PortRange::Single(80)));
    assert_eq!(parse("00080"), Ok(PortRange::Single(80)));
    assert_eq!(parse("+00000000000000000000065535"), Ok(PortRange::Single(65535)));
    assert_eq!(parse("+"), error("Invalid port: +"));
    assert_eq!(parse("++80"), error("Invalid port: ++80"));
    assert_eq!(parse("8+0"), error("Invalid port: 8+0"));
}

#[test]
fn empty_text_is_an_invalid_port() {
    assert_eq!(parse(""), error("Invalid port: "));
}

#[test]
fn lone_token_is_not_trimmed() {
    assert_eq!(parse(" 80"), error("Invalid port:  80"));
    assert_eq!(parse("80 "), error("Invalid port: 80 "));
    assert_eq!(parse("80\n"), error("Invalid port: 80\n"));
}

#[test]
fn lone_token_that_is_no_number() {
    for text in ["abc", "12a", "a12", "8 0", "0x50", "80.0", "\u{663}", "८०"] {
        assert_eq!(parse(text), Err(format!("Invalid port: {}", text)));
    }
}

#[test]
fn one_range_is_still_a_list() {
    assert_eq!(parse("80-80"), ranges(&[(80, 80)]));
    assert_eq!(parse("0-65535"), ranges(&[(0, 65535)]));
    assert_eq!(parse("1-1024"), ranges(&[(1, 1024)]));
}

#[test]
fn ranges_keep_order_duplicates_and_overlaps() {
    assert_eq!(
        parse("9000-9090,8000-8080,8000-8080,8050-9050"),
        ranges(&[(9000, 9090), (8000, 8080), (8000, 8080), (8050, 9050)])
    );
}

#[test]
fn whitespace_around_numbers_in_a_range_is_ignored() {
    assert_eq!(parse(" 8000 - 8080 "), ranges(&[(8000, 8080)]));
    assert_eq!(parse("1-2, 3-4 ,\t5 -\n6"), ranges(&[(1, 2), (3, 4), (5, 6)]));
    assert_eq!(parse("\u{a0}1\u{3000}-\u{2003}2\u{85}"), ranges(&[(1, 2)]));
}

#[test]
fn whitespace_inside_a_number_is_not_ignored() {
    assert_eq!(parse("8 0-90"), error("Invalid start port: 8 0"));
    assert_eq!(parse("80-9 0"), error("Invalid end port: 9 0"));
}

#[test]
fn part_errors_cite_the_part_as_written() {
    assert_eq!(parse(" a -5"), error("Invalid start port:  a "));
    assert_eq!(parse("5- b "), error("Invalid end port:  b "));
    assert_eq!(parse("1-2, x-4"), error("Invalid start port:  x"));
}

#[test]
fn order_error_cites_the_range_as_written() {
    assert_eq!(
        parse("1-2, 9 - 3 ,5-6"),
        error("Start port is greater than end port:  9 - 3 ")
    );
}

#[test]
fn range_bounds_are_sixteen_bit() {
    assert_eq!(parse("65536-70000"), error("Invalid start port: 65536"));
    assert_eq!(parse("1-65536"), error("Invalid end port: 65536"));
    assert_eq!(parse("+1-+2"), ranges(&[(1, 2)]));
    assert_eq!(parse("001-0002"), ranges(&[(1, 2)]));
}

#[test]
fn empty_parts_and_segments() {
    assert_eq!(parse("-"), error("Invalid start port: "));
    assert_eq!(parse("80-"), error("Invalid end port: "));
    assert_eq!(parse("-80"), error("Invalid start port: "));
    assert_eq!(parse(","), error("Invalid port range: "));
    assert_eq!(parse("1-2,"), error("Invalid port range: "));
    assert_eq!(parse(",1-2"), error("Invalid port range: "));
    assert_eq!(parse("1-2,,3-4"), error("Invalid port range: "));
}

#[test]
fn wrong_number_of_parts() {
    assert_eq!(parse("80,90"), error("Invalid port range: 80"));
    assert_eq!(parse("1-2,90"), error("Invalid port range: 90"));
    assert_eq!(parse("1--2"), error("Invalid port range: 1--2"));
    assert_eq!(parse("1-2-"), error("Invalid port range: 1-2-"));
    assert_eq!(parse("1-2-3-4"), error("Invalid port range: 1-2-3-4"));
}

#[test]
fn first_range_at_fault_decides() {
    assert_eq!(parse("5-1,a-b"), error("Start port is greater than end port: 5-1"));
    assert_eq!(parse("1-5,a-b,9-1"), error("Invalid start port: a"));
    assert_eq!(parse("1-5,2-b,x"), error("Invalid end port: b"));
}

#[test]
fn text_outside_ascii_is_cited_whole() {
    assert_eq!(parse("é-1"), error("Invalid start port: é"));
    assert_eq!(parse("1-日本"), error("Invalid end port: 日本"));
    assert_eq!(parse("日-本-語"), error("Invalid port range: 日-本-語"));
    assert_eq!(parse("2-1,日本"), error("Start port is greater than end port: 2-1"));
    assert_eq!(parse("1-2,日本"), error("Invalid port range: 日本"));
}

#[test]
fn trimmed_characters_are_those_of_std_in_the_basic_plane() {
    for code in 0..=0xFFFFu32 {
        let c = match char::from_u32(code) {
            Some(c) => c,
            None => continue,
        };
        if c == '-' || c == ',' || c == '+' || c.is_ascii_digit() {
            continue;
        }
        let expected = if c.is_whitespace() {
            ranges(&[(1, 2)])
        } else {
            Err(format!("Invalid start port: {}1", c))
        };
        assert_eq!(parse(&format!("{}1-2", c)), expected);
        let expected = if c.is_whitespace() {
            ranges(&[(1, 2)])
        } else {
            Err(format!("Invalid end port: 2{}", c))
        };
        assert_eq!(parse(&format!("1-2{}", c)), expected);
    }
}

#[test]
fn no_character_beyond_the_basic_plane_is_trimmed() {
    let mut code: u32 = 0x10000;
    while code <= 0x10FFFF {
        let c = char::from_u32(code).unwrap();
        assert!(!c.is_whitespace());
        assert_eq!(
            parse(&format!("{}1-2", c)),
            Err(format!("Invalid start port: {}1", c))
        );
        code += 37;
    }
}

#[test]
fn numbers_are_read_as_std_reads_them() {
    let mut corpus: Vec<String> = Vec::new();
    for n in 0..=70000u32 {
        corpus.push(n.to_string());
    }
    for n in (0..=70000u32).step_by(97) {
        corpus.push(format!("+{}", n));
        corpus.push(format!("000{}", n));
        corpus.push(format!("{}x", n));
        corpus.push(format!("{} ", n));
        corpus.push(format!("\t{}", n));
        corpus.push(format!("{}+", n));
        corpus.push(format!("{}_0", n));
    }
    for text in ["", " ", "+", "+ 1", "+a", "1e3", "0x10", "١٢", "4294967296", "18446744073709551616"] {
        corpus.push(text.to_string());
    }
    for text in corpus {
        let expected = match text.trim().parse::<u16>() {
            Ok(end) => ranges(&[(0, end)]),
            Err(_) => Err(format!("Invalid end port: {}", text)),
        };
        assert_eq!(parse(&format!("0-{}", text)), expected);
    }
}
