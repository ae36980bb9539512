use zknn_circuit::text::{parse_line_values, parse_trimmed_line, parse_u8_range, values_from_lines, whole_line_values};

fn chars(s: &str) -> Vec<char> {
    s.chars().collect()
}

fn parse(s: &str) -> Option<u8> {
    let c = chars(s);
    parse_u8_range(&c, 0, c.len())
}

#[test]
fn parse_u8_agrees_with_std() {
    for s in ["0", "7", "255", "256", "+12", "+", "", "-0", "-5", "0001", "1a", "++1", "99999999999", " 1", "١"] {
        assert_eq!(parse(s), s.parse::<u8>().ok(), "token {:?}", s);
    }
    for v in 0u32..=300 {
        let s = v.to_string();
        assert_eq!(parse(&s), s.parse::<u8>().ok());
    }
}

#[test]
fn parse_range_reads_only_its_range() {
    let c = chars("x123y");
    assert_eq!(parse_u8_range(&c, 1, 4), Some(123));
    assert_eq!(parse_u8_range(&c, 0, 4), None);
    assert_eq!(parse_u8_range(&c, 2, 2), None);
}

#[test]
fn line_values_agree_with_split_whitespace() {
    let samples = [
        "1 2 3",
        "  10\t20 \r",
        "a 1 b 2 256 3",
        "4\u{a0}5\u{2003}6\u{3000}7\u{85}8",
        "",
        "   ",
        "+9 -9 09",
    ];
    for s in samples {
        let expected: Vec<u8> = s.split_whitespace().filter_map(|t| t.parse::<u8>().ok()).collect();
        assert_eq!(parse_line_values(&chars(s)), expected, "line {:?}", s);
    }
}

#[test]
fn trimmed_lines_agree_with_std() {
    for s in ["  5  ", "5", "\u{2028}17\t", "1 2", "", "   ", "+200", "256", "x"] {
        assert_eq!(parse_trimmed_line(&chars(s)), s.trim().parse::<u8>().ok(), "line {:?}", s);
    }
}

#[test]
fn values_and_surplus_lines() {
    let lines: Vec<Vec<char>> = vec![chars("1 2"), chars(""), chars("3 4 5"), chars("junk"), chars("6")];
    let (values, surplus) = values_from_lines(&lines, 3);
    assert_eq!(values, vec![1u8, 2, 3, 4, 5, 6]);
    assert_eq!(surplus, 2);
    let (_, none) = values_from_lines(&lines, 6);
    assert_eq!(none, 0);
    assert_eq!(whole_line_values(&lines), vec![6u8]);
}

#[test]
fn rendered_values_read_back() {
    let all: Vec<u8> = (0u8..=255).collect();
    let line = all.iter().map(|v| v.to_string()).collect::<Vec<String>>().join(" ");
    assert_eq!(parse_line_values(&chars(&line)), all);
    let lines: Vec<Vec<char>> = all.iter().map(|v| chars(&v.to_string())).collect();
    assert_eq!(whole_line_values(&lines), all);
    assert_eq!(parse_line_values(&chars("")), Vec::<u8>::new());
}
