use rollping::hosts::{core_span, host_token, hosts_from_lines, trim};

fn lines(text: &[&str]) -> Vec<String> {
    text.iter().map(|line| line.to_string()).collect()
}

#[test]
fn trim_removes_white_space_at_both_ends() {
    assert_eq!(trim("  10.0.0.1  "), "10.0.0.1");
    assert_eq!(trim("\thost.example\r\n"), "host.example");
    assert_eq!(trim("host"), "host");
    assert_eq!(trim(" a b "), "a b");
    assert_eq!(trim("x "), "x");
    assert_eq!(trim(" x"), "x");
}

#[test]
fn trim_of_blank_text_is_empty() {
    assert_eq!(trim(""), "");
    assert_eq!(trim(" "), "");
    assert_eq!(trim(" \t\r\n "), "");
}

#[test]
fn trim_knows_white_space_beyond_ascii() {
    assert_eq!(trim("\u{3000}h\u{e9}te\u{a0}"), "h\u{e9}te");
    assert_eq!(trim("\u{2003}\u{1680}x\u{2028}"), "x");
    assert_eq!(trim("\u{200b}x"), "\u{200b}x");
    assert_eq!(trim("_x_"), "_x_");
}

#[test]
fn trim_agrees_with_the_standard_library() {
    let samples = [
        "",
        " ",
        "a",
        " a",
        "a ",
        "  a  b  ",
        "\n\n",
        "\u{85}z\u{85}",
        "\u{feff}z",
        "caf\u{e9} \u{3000}",
        "\u{1f600} ",
    ];
    for sample in samples {
        assert_eq!(trim(sample), sample.trim());
    }
}

#[test]
fn a_blank_line_names_no_host() {
    assert_eq!(host_token(""), None);
    assert_eq!(host_token("   "), None);
    assert_eq!(host_token("\t"), None);
    assert_eq!(host_token(" example.org "), Some("example.org".to_string()));
}

#[test]
fn hosts_are_the_trimmed_lines_that_are_not_blank() {
    let input = lines(&["10.0.0.1", "", "  unreachable.invalid\t", "   ", "10.0.0.2 ", "\r"]);
    assert_eq!(
        hosts_from_lines(&input),
        lines(&["10.0.0.1", "unreachable.invalid", "10.0.0.2"])
    );
}

#[test]
fn hosts_are_not_normalized() {
    let input = lines(&["Example.ORG", "a b", "10.0.0.1", "10.0.0.1"]);
    assert_eq!(hosts_from_lines(&input), input);
}

#[test]
fn no_lines_give_no_hosts() {
    assert_eq!(hosts_from_lines(&[]), Vec::<String>::new());
    assert_eq!(hosts_from_lines(&lines(&["", " ", "\t\t"])), Vec::<String>::new());
}

#[test]
fn core_span_lies_between_the_white_margins() {
    assert_eq!(core_span(&[true, false, false, true]), (1, 3));
    assert_eq!(core_span(&[false, true, true, false]), (0, 4));
    assert_eq!(core_span(&[true, true, false]), (2, 3));
    assert_eq!(core_span(&[false, true, true]), (0, 1));
    assert_eq!(core_span(&[false]), (0, 1));
    assert_eq!(core_span(&[true, false, true, false, true, true]), (1, 4));
}

#[test]
fn core_span_of_a_white_line_is_empty() {
    assert_eq!(core_span(&[]), (0, 0));
    assert_eq!(core_span(&[true]), (0, 0));
    assert_eq!(core_span(&[true, true, true]), (0, 0));
}

#[test]
fn trim_handles_long_margins() {
    let mut line = " ".repeat(100_000);
    line.push_str("host");
    line.push_str(&"\t".repeat(100_000));
    assert_eq!(trim(&line), "host");
    assert_eq!(trim(&" ".repeat(200_000)), "");
}
