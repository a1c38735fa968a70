use charliberty::{block_ranges, format_line, get_block_ranges, insert_liberty, LineParser};

fn strip_spaces(s: &str) -> String {
    s.chars().filter(|c| *c != ' ').collect()
}

#[test]
fn test_content_preserved() {
    let cases = [
        "秦时moon汉时关，  万里长征人no还",
        "do you know how much i like life?i had never killed myself",
        "```秦时`moon汉《时》关， 万里长征人$no$还",
        "秦-时moon 汉时%关 ，  万里`长征人no 还",
        "1 + 1 is a hard problem",
        "",
    ];
    for case in cases.iter() {
        let got = insert_liberty(case).unwrap();
        assert_eq!(strip_spaces(&got), strip_spaces(case));
    }
}

#[test]
fn test_idempotent() {
    let cases = [
        "秦时moon汉时关，  万里长征人no还",
        "do you know how much i like life?i had never killed myself",
        "**秦时**moon汉时关， _万里_**长**征人no 还",
        "秦时 moon汉时关，  万里$长\\$征$人no 还",
        "1+1 is a hard problem",
        "",
    ];
    for case in cases.iter() {
        let once = insert_liberty(case).unwrap();
        let twice = insert_liberty(&once).unwrap();
        assert_eq!(twice, once);
    }
}

#[test]
fn test_no_space_before_punct() {
    // A space never lands in front of half-width or full-width
    // punctuation, except inside a multi-space run kept verbatim.
    let cases = [
        "他人笑我太疯癫 ,我笑他人不够high",
        "秦时 moon汉时关， 万里长征人no 还",
        "a . m",
    ];
    for case in cases.iter() {
        let got = insert_liberty(case).unwrap();
        let chars: Vec<char> = got.chars().collect();
        for w in chars.windows(2) {
            if w[0] == ' ' {
                assert!(
                    w[1] != '，' && w[1] != ',' && w[1] != '.' && w[1] != '?',
                    "space before punctuation in {:?}",
                    got
                );
            }
        }
    }
}

#[test]
fn test_doclink_spacing() {
    // A dotted name is one protected token; its trailing period is
    // ordinary punctuation again.
    assert_eq!(insert_liberty("时间是a.m.哦").unwrap(), "时间是 a.m. 哦");
    let (sp, em) = block_ranges("时间是a.m.哦", 100);
    assert_eq!(sp, vec![3, 5]);
    assert_eq!(em, vec![]);
}

#[test]
fn test_full_width_punct_never_spaced() {
    assert_eq!(insert_liberty("汉《时》关").unwrap(), "汉《时》关");
    assert_eq!(insert_liberty("汉 《时》 关").unwrap(), "汉《时》关");
    // A kept multi-space run is the one thing that may still stand
    // before punctuation.
    assert_eq!(insert_liberty("万里  ，还").unwrap(), "万里  ，还");
}

#[test]
fn test_format_line_matches_insert_liberty() {
    let line = "秦时moon汉时关，  万里长征人no还";
    assert_eq!(format_line(line).unwrap(), insert_liberty(line).unwrap());
}

#[test]
fn test_unterminated_code_fails_format_only() {
    // An unterminated inline-code delimiter next to an unmatched math
    // delimiter cannot be tokenized: formatting fails, while the locator
    // degrades to empty lists instead of failing.
    let line = "起点 `终 $12";
    assert!(format_line(line).is_err());
    assert!(insert_liberty(line).is_err());
    let blocks = get_block_ranges(line, 100);
    assert_eq!(blocks.special(), vec![]);
    assert_eq!(blocks.emphasis(), vec![]);
    let (sp, em) = block_ranges(line, 100);
    assert_eq!(sp, vec![]);
    assert_eq!(em, vec![]);
}

#[test]
fn test_lone_math_and_marker_fail() {
    assert!(insert_liberty("价格是$12").is_err());
    assert!(insert_liberty("a * b").is_err());
    assert!(insert_liberty("_斜体没有关上").is_err());
}

#[test]
fn test_lone_backtick_is_other() {
    // A backtick that opens no code span falls into the catch-all class
    // and survives untouched.
    assert_eq!(insert_liberty("万里`长征").unwrap(), "万里`长征");
}

#[test]
fn test_cursor_monotone() {
    let text = "起点 `终` at `12` a.m. ignore `another block`";
    let mut prev: Vec<usize> = vec![];
    for cursor in 0..60 {
        let (sp, _) = block_ranges(text, cursor);
        assert!(sp.len() % 2 == 0);
        assert!(sp.starts_with(&prev), "cursor {} lost a pair", cursor);
        for w in sp.windows(2) {
            assert!(w[0] < w[1]);
        }
        prev = sp;
    }
}

#[test]
fn test_parse_tokens_cover_line() {
    let line = "起点 `终` at `12` a.m.";
    let toks = LineParser::parse(line).unwrap();
    let n = line.chars().count();
    let last = toks.last().unwrap();
    assert_eq!(last.start, n);
    assert_eq!(last.end, n);
    let mut pos = 0;
    for t in toks.iter() {
        assert!(t.start == pos || t.start == pos + 1);
        assert!(t.start <= t.end);
        pos = t.end;
    }
}

#[test]
fn test_getters_match_fields() {
    let text = "起点 `终` at `12` a.m. ignore `another block`";
    let blocks = get_block_ranges(text, 100);
    assert_eq!(blocks.special(), blocks.special);
    assert_eq!(blocks.emphasis(), blocks.emphasis);
    assert_eq!(blocks.special(), vec![3, 5, 10, 13, 15, 17, 27, 41]);
}
