use charliberty::{block_ranges, insert_liberty};

fn run_cases(name: &str, cases: Vec<(&str, &str)>) {
    for (i, (case, want)) in cases.iter().enumerate() {
        let got = insert_liberty(case).unwrap();
        assert_eq!(
            &got.as_str(),
            want,
            "\nbad case is Group {:?} number {} case, left is got, right is want \n",
            name,
            i + 1
        );
    }
}

#[test]
fn test_is_in_block() {
    let text = "起点 `终` at `12` a.m. ignore `another block`";
    assert_eq!(block_ranges(text, 3).0, []);
    assert_eq!(block_ranges(text, 4).0, [3, 5]); // before 终
    assert_eq!(block_ranges(text, 11).0, [3, 5, 10, 13]); // before 12
    assert_eq!(block_ranges(text, 100).0, [3, 5, 10, 13, 15, 17, 27, 41]); // show all special blocks
    assert_eq!(
        block_ranges("`新的曙光.mz` 我的朋友`觉.z`", 20).0,
        [0, 8, 14, 18]
    );

    let text = "起点 **`终` at `12`** a.m. ignore `another block`";
    assert_eq!(block_ranges(text, 3), (vec![], vec![]));
    assert_eq!(block_ranges(text, 4), (vec![], vec![3, 17]));
    assert_eq!(block_ranges(text, 5), (vec![], vec![3, 17]));
    assert_eq!(block_ranges(text, 6), (vec![], vec![3, 17])); // before 终
    assert_eq!(block_ranges(text, 13), (vec![], vec![3, 17])); // before 12
    assert_eq!(block_ranges(text, 100), (vec![19, 21, 31, 45], vec![3, 17]));
    // show all
}

#[test]
fn test_basic_eng_cn() {
    run_cases(
        "eng_cn",
        vec![
            ("", ""),
            (
                "秦时moon汉时关，  万里长征人no还",
                "秦时 moon 汉时关，  万里长征人 no 还",
            ),
            (
                "秦时 moon 汉时关，   万里长征人 no 还",
                "秦时 moon 汉时关，   万里长征人 no 还",
            ),
            (
                "秦时 moon汉时关， 万里长征人no 还",
                "秦时 moon 汉时关，万里长征人 no 还",
            ),
            (
                "他人笑我太疯癫,我笑他人不够high",
                "他人笑我太疯癫, 我笑他人不够 high",
            ),
            (
                "do you know how much i like life?i had never killed myself",
                "do you know how much i like life? i had never killed myself",
            ),
        ],
    );
}

#[test]
fn test_basic_inline_block() {
    run_cases(
        "inline block",
        vec![
            (
                "```秦时`moon汉《时》关， 万里长征人$no$还",
                "`` `秦时` moon 汉《时》关，万里长征人 $no$ 还",
            ),
            (
                "秦时moon 汉时`关，  万里`长征人 no 还",
                "秦时 moon 汉时 `关，  万里` 长征人 no 还",
            ),
            (
                "秦时 moon汉时关，  万里$长\\$征$人no 还",
                "秦时 moon 汉时关，  万里 $长\\$征$ 人 no 还",
            ),
            (
                "**秦**时moon汉时关，万里___长*_*征___ 人no 还",
                "**秦** 时 moon 汉时关，万里 ___长*_*征___ 人 no 还",
            ),
        ],
    );
}

#[test]
fn test_basic_other() {
    run_cases(
        "other block",
        vec![
            (
                "**秦时**moon汉时关， _万里_**长**征人no 还",
                "**秦时** moon 汉时关，_万里_ **长** 征人 no 还",
            ),
            (
                "秦-时moon 汉时%关 ，  万里`长征人no 还",
                "秦-时 moon 汉时%关，  万里`长征人 no 还",
            ),
            ("1 + 1 is a hard problem", "1 + 1 is a hard problem"),
            ("1+1 is a hard problem", "1+1 is a hard problem"),
        ],
    );
}
