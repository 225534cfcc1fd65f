use riptables::error::{RIPTAnalysisError, RIPTError};
use riptables::iptparser::{
    iptables_version, parse_line, parse_number, parse_rules, split_quoted, IPTRTup,
};
use riptables::rule::{Archive, Extension, RIPTInterface};

fn words(items: &[&str]) -> Vec<String> {
    items.iter().map(|item| item.to_string()).collect()
}

#[test]
fn split_double_quoted_comment() {
    assert_eq!(
        split_quoted("-m comment --comment \"double quoted comment\" -j ACCEPT"),
        words(&["-m", "comment", "--comment", "double quoted comment", "-j", "ACCEPT"])
    );
}

#[test]
fn split_single_quoted_comment() {
    assert_eq!(
        split_quoted("-m comment --comment 'single-quoted comment' -j ACCEPT"),
        words(&["-m", "comment", "--comment", "single-quoted comment", "-j", "ACCEPT"])
    );
}

#[test]
fn split_keeps_other_quote_inside_region() {
    assert_eq!(split_quoted("\"it's fine\""), words(&["it's fine"]));
    assert_eq!(split_quoted("'say \"hi\" now'"), words(&["say \"hi\" now"]));
    assert_eq!(split_quoted("it's \"fine\""), words(&["its \"fine\""]));
}

#[test]
fn split_plain_words() {
    assert_eq!(split_quoted("-j ACCEPT"), words(&["-j", "ACCEPT"]));
    assert_eq!(split_quoted(""), Vec::<String>::new());
    assert_eq!(split_quoted("one"), words(&["one"]));
}

#[test]
fn split_tolerates_open_quote() {
    assert_eq!(split_quoted("-j \"ACC EPT"), words(&["-j", "ACC EPT"]));
}

#[test]
fn split_quotes_alone_give_no_word() {
    assert_eq!(split_quoted("\"\""), Vec::<String>::new());
    assert_eq!(split_quoted("''\"\""), Vec::<String>::new());
}

#[test]
fn split_space_closes_even_an_empty_word() {
    assert_eq!(split_quoted("a  b"), words(&["a", "", "b"]));
    assert_eq!(split_quoted("a "), words(&["a"]));
    assert_eq!(split_quoted(" a"), words(&["", "a"]));
}

#[test]
fn number_forms() {
    assert_eq!(parse_number("0"), Some(0));
    assert_eq!(parse_number("007"), Some(7));
    assert_eq!(parse_number("+12"), Some(12));
    assert_eq!(parse_number("-12"), Some(-12));
    assert_eq!(parse_number("2147483647"), Some(i32::MAX));
    assert_eq!(parse_number("2147483648"), None);
    assert_eq!(parse_number("-2147483648"), Some(i32::MIN));
    assert_eq!(parse_number("-2147483649"), None);
    assert_eq!(parse_number("99999999999999999999999"), None);
    assert_eq!(parse_number(""), None);
    assert_eq!(parse_number("-"), None);
    assert_eq!(parse_number("+"), None);
    assert_eq!(parse_number("1a"), None);
    assert_eq!(parse_number(" 1"), None);
    assert_eq!(parse_number("1_0"), None);
}

#[test]
fn number_agrees_with_std() {
    for text in ["0", "-0", "+0", "12", "-7", "+", "", "x", "12x", "2147483647", "2147483648"] {
        assert_eq!(parse_number(text), text.parse::<i32>().ok());
    }
}

#[test]
fn version_of_legacy_banner() {
    assert_eq!(iptables_version("iptables v1.8.4 (legacy)".to_string()), Ok((1, 8, 4)));
}

#[test]
fn version_at_end_of_banner() {
    assert_eq!(iptables_version("iptables v1.4.10".to_string()), Ok((1, 4, 10)));
    assert_eq!(iptables_version("ip6tables v1.6.0\n".to_string()).is_err(), true);
}

#[test]
fn version_with_more_fields_is_refused() {
    assert_eq!(
        iptables_version("iptables v1.8.4.2".to_string()),
        Err(RIPTError::Parse("iptables v1.8.4.2".to_string()))
    );
    assert_eq!(iptables_version("v1.8.4.2".to_string()), Err(RIPTError::Parse("v1.8.4.2".to_string())));
    assert_eq!(iptables_version("v1.8.4.".to_string()), Err(RIPTError::Parse("v1.8.4.".to_string())));
    assert_eq!(
        iptables_version("v1.8.4.x".to_string()),
        Err(RIPTError::Parse("v1.8.4.x".to_string()))
    );
    assert_eq!(iptables_version("v1.8.4 .2".to_string()), Ok((1, 8, 4)));
}

#[test]
fn version_with_too_few_fields() {
    assert_eq!(iptables_version("iptables v1.8".to_string()), Err(RIPTError::Parse("iptables v1.8".to_string())));
    assert_eq!(iptables_version("v1".to_string()), Err(RIPTError::Parse("v1".to_string())));
}

#[test]
fn version_without_marker() {
    assert_eq!(iptables_version("1.8.4".to_string()), Err(RIPTError::Parse("1.8.4".to_string())));
    assert_eq!(iptables_version("".to_string()), Err(RIPTError::Parse("".to_string())));
}

#[test]
fn version_with_bad_field() {
    assert_eq!(
        iptables_version("iptables v1.x.4".to_string()),
        Err(RIPTError::Parse("iptables v1.x.4".to_string()))
    );
    assert_eq!(
        iptables_version("iptables v1..4".to_string()),
        Err(RIPTError::Parse("iptables v1..4".to_string()))
    );
}

#[test]
fn tuple_new_and_clear() {
    let mut tup = IPTRTup::new();
    assert_eq!(tup.arg, "");
    assert!(tup.value.is_empty());
    assert!(!tup.negate);
    tup.arg = "i".to_string();
    tup.value.push("eth0".to_string());
    tup.negate = true;
    let copy = tup.clone();
    assert_eq!(copy.arg, "i");
    assert_eq!(copy.value, words(&["eth0"]));
    assert!(copy.negate);
    let cleared = tup.clear();
    assert_eq!(cleared.arg, "");
    assert!(cleared.value.is_empty());
    assert!(!cleared.negate);
}

#[test]
fn line_policy() {
    let rule = parse_line("filter".to_string(), "-P INPUT ACCEPT".to_string()).unwrap();
    assert_eq!(rule.archive, Archive::Policy);
    assert_eq!(rule.chain, "INPUT");
    assert_eq!(rule.jump, "ACCEPT");
    assert_eq!(rule.table, "filter");
    assert_eq!(rule.origin, "-P INPUT ACCEPT");
    assert_eq!(rule.input, None);
    assert_eq!(rule.output, None);
    assert_eq!(rule.protocol, "");
    assert_eq!(rule.sport, "");
    assert_eq!(rule.dport, "");
    assert!(rule.extensions.is_empty());
}

#[test]
fn line_new_chain() {
    let rule = parse_line("nat".to_string(), "-N TESTNAT".to_string()).unwrap();
    assert_eq!(rule.archive, Archive::NewChain);
    assert_eq!(rule.chain, "TESTNAT");
    assert_eq!(rule.jump, "");
    assert_eq!(rule.origin, "-N TESTNAT");
}

#[test]
fn line_append_with_negated_interface() {
    let rule = parse_line("filter".to_string(), "-A FORWARD ! -i eth0 -j DROP".to_string()).unwrap();
    assert_eq!(rule.archive, Archive::Append);
    assert_eq!(rule.chain, "FORWARD");
    assert_eq!(rule.input, Some(RIPTInterface { negate: true, value: "eth0".to_string() }));
    assert_eq!(rule.output, None);
    assert_eq!(rule.jump, "DROP");
    assert!(rule.extensions.is_empty());
}

#[test]
fn line_quoted_comment() {
    let rule = parse_line(
        "nat".to_string(),
        "-A X -m comment --comment \"double quoted comment\" -j ACCEPT".to_string(),
    )
    .unwrap();
    assert_eq!(rule.archive, Archive::Append);
    assert_eq!(rule.chain, "X");
    assert_eq!(rule.jump, "ACCEPT");
    assert_eq!(
        rule.extensions,
        vec![
            Extension { name: "m".to_string(), values: words(&["comment"]), negate: false },
            Extension {
                name: "comment".to_string(),
                values: words(&["double quoted comment"]),
                negate: false,
            },
        ]
    );
}

#[test]
fn line_known_flags() {
    let rule = parse_line(
        "filter".to_string(),
        "-A INPUT -i eth0 ! -o eth1 -p tcp -m tcp --sport 1024 --dport 22 -j ACCEPT".to_string(),
    )
    .unwrap();
    assert_eq!(rule.input, Some(RIPTInterface { negate: false, value: "eth0".to_string() }));
    assert_eq!(rule.output, Some(RIPTInterface { negate: true, value: "eth1".to_string() }));
    assert_eq!(rule.protocol, "tcp");
    assert_eq!(rule.sport, "1024");
    assert_eq!(rule.dport, "22");
    assert_eq!(rule.jump, "ACCEPT");
    assert_eq!(
        rule.extensions,
        vec![Extension { name: "m".to_string(), values: words(&["tcp"]), negate: false }]
    );
}

#[test]
fn line_negated_double_dash_flag() {
    let rule = parse_line(
        "filter".to_string(),
        "-A INPUT -p tcp ! --syn -j DROP".to_string(),
    )
    .unwrap();
    assert_eq!(
        rule.extensions,
        vec![Extension { name: "syn".to_string(), values: words(&["-j", "DROP"]), negate: true }]
    );
    assert_eq!(rule.jump, "");
}

#[test]
fn line_dash_in_first_word_is_kept() {
    let rule = parse_line(
        "filter".to_string(),
        "-A INPUT -j REJECT --with icmp-port-unreachable".to_string(),
    )
    .unwrap();
    assert_eq!(rule.jump, "REJECT");
    assert_eq!(
        rule.extensions,
        vec![Extension {
            name: "with".to_string(),
            values: words(&["icmp-port-unreachable"]),
            negate: false
        }]
    );
}

#[test]
fn line_dash_in_name_starts_a_group() {
    let rule = parse_line(
        "nat".to_string(),
        "-A PREROUTING -j DNAT --to-destination 10.0.0.1:80".to_string(),
    )
    .unwrap();
    assert_eq!(
        rule.extensions,
        vec![
            Extension { name: "to".to_string(), values: vec![], negate: false },
            Extension {
                name: "destination".to_string(),
                values: words(&["10.0.0.1:80"]),
                negate: false
            },
        ]
    );
}

#[test]
fn line_runs_of_spaces_are_one_delimiter() {
    let spaced = parse_line("filter".to_string(), "  -A   INPUT    -j    DROP   ".to_string()).unwrap();
    assert_eq!(spaced.archive, Archive::Append);
    assert_eq!(spaced.chain, "INPUT");
    assert_eq!(spaced.jump, "DROP");
    assert!(spaced.extensions.is_empty());
}

#[test]
fn line_later_words_of_a_group() {
    let rule = parse_line(
        "filter".to_string(),
        "-A INPUT -p tcp --tcp-flags SYN,RST SYN -j DROP".to_string(),
    );
    let rule = rule.unwrap();
    assert_eq!(rule.jump, "DROP");
    assert_eq!(
        rule.extensions,
        vec![
            Extension { name: "tcp".to_string(), values: vec![], negate: false },
            Extension { name: "flags".to_string(), values: words(&["SYN,RST", "SYN"]), negate: false },
        ]
    );
}

#[test]
fn line_last_of_repeated_flags_wins() {
    let rule = parse_line("filter".to_string(), "-A INPUT -j DROP -j ACCEPT".to_string()).unwrap();
    assert_eq!(rule.jump, "ACCEPT");
    let rule = parse_line("filter".to_string(), "-A ONE -N TWO".to_string()).unwrap();
    assert_eq!(rule.archive, Archive::Append);
    assert_eq!(rule.chain, "TWO");
}

#[test]
fn line_empty_quoted_first_word() {
    let rule = parse_line(
        "filter".to_string(),
        "-A INPUT -m comment --comment \"\" -j DROP".to_string(),
    )
    .unwrap();
    assert_eq!(rule.jump, "DROP");
    assert_eq!(
        rule.extensions[1],
        Extension { name: "comment".to_string(), values: words(&[""]), negate: false }
    );
}

#[test]
fn line_without_leading_directive_is_refused() {
    for text in ["", " ", "-j DROP", "INPUT -A X", "-X CHAIN", "--", "!", "x -A X"] {
        assert_eq!(
            parse_line("filter".to_string(), text.to_string()),
            Err(RIPTAnalysisError::UnexpectedOutput(text.to_string()))
        );
    }
}

#[test]
fn line_with_missing_words_is_refused() {
    for text in ["-A", "-A ", "-P INPUT", "-N", "-A X -j", "-A X -j ", "-A X -i -j DROP -p"] {
        assert_eq!(
            parse_line("filter".to_string(), text.to_string()),
            Err(RIPTAnalysisError::UnexpectedOutput(text.to_string())),
            "{:?}", text
        );
    }
}

#[test]
fn line_ending_in_a_dash_or_space_ends() {
    for text in ["-A X -", "-A X --", "-A X -- "] {
        let rule = parse_line("filter".to_string(), text.to_string()).unwrap();
        assert_eq!(rule.chain, "X");
        assert_eq!(
            rule.extensions,
            vec![Extension { name: "".to_string(), values: vec![], negate: false }]
        );
    }
    let rule = parse_line("filter".to_string(), "-A X -f ".to_string()).unwrap();
    assert_eq!(
        rule.extensions,
        vec![Extension { name: "f".to_string(), values: vec![], negate: false }]
    );
}

#[test]
fn dump_with_trailing_line_break() {
    let rules = parse_rules("filter".to_string(), "-P INPUT ACCEPT\n-A INPUT -j DROP\n".to_string()).unwrap();
    assert_eq!(rules.len(), 2);
    assert_eq!(rules[0].archive, Archive::Policy);
    assert_eq!(rules[0].origin, "-P INPUT ACCEPT");
    assert_eq!(rules[1].archive, Archive::Append);
    assert_eq!(rules[1].origin, "-A INPUT -j DROP");
    assert_eq!(rules[1].table, "filter");
}

#[test]
fn dump_without_trailing_line_break() {
    let rules = parse_rules("nat".to_string(), "-N TESTNAT\n-A TESTNAT -j ACCEPT".to_string()).unwrap();
    assert_eq!(rules.len(), 2);
    assert_eq!(rules[0].archive, Archive::NewChain);
    assert_eq!(rules[1].chain, "TESTNAT");
    assert_eq!(rules[1].jump, "ACCEPT");
}

#[test]
fn dump_empty() {
    assert_eq!(parse_rules("filter".to_string(), "".to_string()), Ok(vec![]));
}

#[test]
fn dump_with_blank_line_inside_is_refused() {
    assert_eq!(
        parse_rules("filter".to_string(), "-P INPUT ACCEPT\n\n-A INPUT -j DROP".to_string()),
        Err(RIPTAnalysisError::UnexpectedOutput("".to_string()))
    );
    assert_eq!(
        parse_rules("filter".to_string(), "\n".to_string()),
        Err(RIPTAnalysisError::UnexpectedOutput("".to_string()))
    );
}

#[test]
fn dump_reports_first_bad_line() {
    assert_eq!(
        parse_rules("filter".to_string(), "-P INPUT ACCEPT\n-X one\n-Y two\n".to_string()),
        Err(RIPTAnalysisError::UnexpectedOutput("-X one".to_string()))
    );
    assert_eq!(
        parse_rules("filter".to_string(), "-P INPUT ACCEPT\n-P INPUT".to_string()),
        Err(RIPTAnalysisError::UnexpectedOutput("-P INPUT".to_string()))
    );
}

#[test]
fn split_joined_segments_gives_them_back() {
    let segments = [("-m", ""), ("it's", "\""), ("say \"no\"", "'"), ("", "\""), ("a b  c", "'"), ("x", "")];
    let mut text = String::new();
    let mut expected = Vec::new();
    for (index, (word, quote)) in segments.iter().enumerate() {
        if index > 0 {
            text.push(' ');
        }
        text.push_str(quote);
        text.push_str(word);
        text.push_str(quote);
        expected.push(word.to_string());
    }
    assert_eq!(split_quoted(&text), expected);
}

#[test]
fn line_extensions_keep_order_and_copies() {
    let rule = parse_line(
        "filter".to_string(),
        "-A INPUT -m tcp -m tcp -j DROP -m state".to_string(),
    )
    .unwrap();
    assert_eq!(
        rule.extensions,
        vec![
            Extension { name: "m".to_string(), values: words(&["tcp"]), negate: false },
            Extension { name: "m".to_string(), values: words(&["tcp"]), negate: false },
            Extension { name: "m".to_string(), values: words(&["state"]), negate: false },
        ]
    );
}

#[test]
fn line_one_dash_or_two() {
    let one = parse_line("filter".to_string(), "-A INPUT -dport 22 -x".to_string()).unwrap();
    let two = parse_line("filter".to_string(), "--A INPUT --dport 22 --x".to_string()).unwrap();
    assert_eq!(one.archive, two.archive);
    assert_eq!(one.chain, two.chain);
    assert_eq!(one.dport, "22");
    assert_eq!(two.dport, "22");
    assert_eq!(one.extensions, two.extensions);
}

#[test]
fn line_negation_is_used_once() {
    let rule = parse_line("filter".to_string(), "-A INPUT ! -i eth0 -o eth1 ! -x y -z".to_string()).unwrap();
    assert_eq!(rule.input, Some(RIPTInterface { negate: true, value: "eth0".to_string() }));
    assert_eq!(rule.output, Some(RIPTInterface { negate: false, value: "eth1".to_string() }));
    assert_eq!(
        rule.extensions,
        vec![
            Extension { name: "x".to_string(), values: words(&["y"]), negate: true },
            Extension { name: "z".to_string(), values: vec![], negate: false },
        ]
    );
}

#[test]
fn line_marks_in_first_word_are_kept() {
    let rule = parse_line(
        "filter".to_string(),
        "-A INPUT -m comment --comment \"no - not now!\" -s !10.0.0.1 -j DROP".to_string(),
    )
    .unwrap();
    assert_eq!(rule.jump, "DROP");
    assert_eq!(
        rule.extensions,
        vec![
            Extension { name: "m".to_string(), values: words(&["comment"]), negate: false },
            Extension { name: "comment".to_string(), values: words(&["no - not now!"]), negate: false },
            Extension { name: "s".to_string(), values: words(&["!10.0.0.1"]), negate: false },
        ]
    );
}

#[test]
fn version_written_in_any_banner_is_read_back() {
    let versions = [(1, 8, 4), (0, 0, 0), (12, 345, 6789), (-1, 2, -3), (i32::MAX, i32::MIN, 7)];
    let befores = ["", "iptables ", "ip6tables  ", "..  1.2.3 "];
    let afters = ["", " (legacy)", " ", " v9.9.9", "  .5"];
    for (major, minor, patch) in versions {
        for before in befores {
            for after in afters {
                let banner = format!("{}v{}.{}.{}{}", before, major, minor, patch, after);
                assert_eq!(iptables_version(banner.clone()), Ok((major, minor, patch)), "{:?}", banner);
            }
        }
    }
}

#[test]
fn line_written_in_order_is_read_back() {
    // each group: negated, two dashes, name, words with their quoting
    let groups: Vec<(bool, bool, &str, Vec<(&str, bool)>)> = vec![
        (false, false, "A", vec![("INPUT", false)]),
        (true, false, "s", vec![("10.0.0.0/8", false)]),
        (false, false, "m", vec![("comment", false)]),
        (false, true, "comment", vec![("a - b ! c", true)]),
        (false, true, "empty", vec![("", true), ("more", false), ("and more", true)]),
        (true, true, "x", vec![("-dashed-", false), ("y", false)]),
        (false, false, "last", vec![]),
    ];
    let mut line = String::new();
    let mut expected = Vec::new();
    for (index, (negate, double, name, group_words)) in groups.iter().enumerate() {
        if index > 0 {
            line.push(' ');
        }
        if *negate {
            line.push_str("! ");
        }
        line.push_str(if *double { "--" } else { "-" });
        line.push_str(name);
        let mut values = Vec::new();
        for (text, quoted) in group_words {
            line.push(' ');
            if *quoted {
                line.push('"');
            }
            line.push_str(text);
            if *quoted {
                line.push('"');
            }
            values.push(text.to_string());
        }
        if index > 0 {
            expected.push(Extension { name: name.to_string(), values, negate: *negate });
        }
    }
    let rule = parse_line("filter".to_string(), line.clone()).unwrap();
    assert_eq!(rule.archive, Archive::Append);
    assert_eq!(rule.chain, "INPUT");
    assert_eq!(rule.origin, line);
    assert_eq!(rule.extensions, expected);
}
