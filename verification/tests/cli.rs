use shogi_mate_solver::cli::{
    checkmate_reply, engine_farewell, engine_script, is_nomate, is_problem_page, is_web_address,
    parse_args, position_with_moves, problem_url, MoveFormat, Output,
};
use shogi_mate_solver::text::{find_text, has_prefix, is_space, text_is, to_chars, trim_range};

fn args(list: &[&str]) -> Vec<String> {
    list.iter().map(|s| s.to_string()).collect()
}

#[test]
fn no_arguments_give_the_defaults() {
    let opts = parse_args(&args(&["mate_solver"])).unwrap();
    assert!(!opts.verbose);
    assert_eq!(opts.output, Output::Text);
    assert_eq!(opts.move_format, MoveFormat::Traditional);
    assert_eq!(opts.engine_path, None);
    let opts = parse_args(&args(&[])).unwrap();
    assert_eq!(opts.move_format, MoveFormat::Traditional);
}

#[test]
fn every_flag_is_read() {
    let opts = parse_args(&args(&[
        "mate_solver",
        "--verbose",
        "--output=json",
        "--move-format=usi",
        "--engine-path=../engine/run me",
    ]))
    .unwrap();
    assert!(opts.verbose);
    assert_eq!(opts.output, Output::Json);
    assert_eq!(opts.move_format, MoveFormat::Usi);
    assert_eq!(opts.engine_path, Some("../engine/run me".to_string()));
}

#[test]
fn move_formats_by_name() {
    let cases = [
        ("kif", MoveFormat::Kif),
        ("usi", MoveFormat::Usi),
        ("csa", MoveFormat::Csa),
        ("official", MoveFormat::Official),
        ("traditional", MoveFormat::Traditional),
    ];
    for (name, expected) in cases {
        let opts = parse_args(&args(&[&format!("--move-format={}", name)])).unwrap();
        assert_eq!(opts.move_format, expected);
    }
    assert!(parse_args(&args(&["--move-format=western"])).is_none());
    assert!(parse_args(&args(&["--move-format="])).is_none());
    assert!(parse_args(&args(&["--move-format=usi", "--move-format=x", "--verbose"])).is_none());
}

#[test]
fn the_later_argument_counts_and_others_are_passed_over() {
    let opts = parse_args(&args(&[
        "--move-format=usi",
        "--output=text",
        "--verbose=1",
        "--move-format=official",
        "--engine-path=a",
        "--engine-path=",
    ]))
    .unwrap();
    assert!(!opts.verbose);
    assert_eq!(opts.output, Output::Text);
    assert_eq!(opts.move_format, MoveFormat::Official);
    assert_eq!(opts.engine_path, Some(String::new()));
}

#[test]
fn engine_script_holds_the_position() {
    assert_eq!(
        engine_script("7kl/9/6G1p/9/9/9/9/9/9 b S 1"),
        "setoption name USI_Hash value 128\nisready\nusinewgame\nposition sfen 7kl/9/6G1p/9/9/9/9/9/9 b S 1\ngo\n"
    );
    assert_eq!(engine_farewell(), "quit\n");
}

#[test]
fn checkmate_lines_are_read() {
    assert_eq!(
        checkmate_reply("checkmate S*3b 2a1b 3c2c\n"),
        Some("S*3b 2a1b 3c2c".to_string())
    );
    assert_eq!(checkmate_reply("checkmate nomate\r\n"), Some("nomate".to_string()));
    assert_eq!(checkmate_reply("checkmate   \n"), Some(String::new()));
    assert_eq!(checkmate_reply("info depth 3\n"), None);
    assert_eq!(checkmate_reply("checkmate"), None);
    assert_eq!(checkmate_reply(" checkmate x"), None);
    assert!(is_nomate("nomate"));
    assert!(!is_nomate("nomate "));
    assert!(!is_nomate("S*3b"));
}

#[test]
fn position_with_moves_is_one_text() {
    assert_eq!(
        position_with_moves(" 7kl/9/6G1p/9/9/9/9/9/9 b S 1\n", "S*3b 2a1b 3c2c"),
        "sfen 7kl/9/6G1p/9/9/9/9/9/9 b S 1 moves S*3b 2a1b 3c2c"
    );
}

#[test]
fn pages_and_addresses() {
    assert!(is_problem_page("https://www.shogi.or.jp/tsume_shogi/everyday/202205181.html"));
    assert!(!is_problem_page("https://www.shogi.or.jp/tsume_shogi/data/1.kif"));
    assert!(!is_problem_page("https://example.com/tsume_shogi/1.html"));
    assert!(!is_problem_page(".html"));
    assert!(is_web_address("http://a"));
    assert!(is_web_address("https://a"));
    assert!(!is_web_address("ftp://a"));
    assert!(!is_web_address("problem.kif"));
    let page = "<a href=\"https://www.shogi.or.jp/tsume_shogi/data/2022/05/18.kif\">x</a> y.kif";
    assert_eq!(
        problem_url(page),
        Some("https://www.shogi.or.jp/tsume_shogi/data/2022/05/18.kif".to_string())
    );
    assert_eq!(problem_url("https://www.shogi.or.jp/tsume_shogi/data/1.html"), None);
    assert_eq!(problem_url("a.kif"), None);
}

#[test]
fn text_helpers() {
    let chars = to_chars("\u{5148}\u{624b} ab\tcd \n");
    assert_eq!(chars.len(), 10);
    assert!(has_prefix(&chars, 0, 10, "\u{5148}\u{624b}"));
    assert!(has_prefix(&chars, 3, 10, "ab"));
    assert!(!has_prefix(&chars, 3, 4, "ab"));
    assert!(has_prefix(&chars, 3, 3, ""));
    assert!(text_is(&chars, 3, 5, "ab"));
    assert!(!text_is(&chars, 3, 6, "ab"));
    assert_eq!(find_text(&chars, 0, "cd"), Some(6));
    assert_eq!(find_text(&chars, 7, "cd"), None);
    assert_eq!(find_text(&chars, 0, ""), Some(0));
    assert_eq!(find_text(&chars, 10, ""), Some(10));
    assert_eq!(trim_range(&chars, 2, 10), (3, 8));
    assert_eq!(trim_range(&chars, 8, 10), (10, 10));
    assert!(is_space('\u{3000}'));
    assert!(is_space('\n'));
    assert!(!is_space('a'));
    for c in ['\u{9}', '\u{a}', '\u{b}', '\u{c}', '\u{d}', ' ', '\u{85}', '\u{a0}', '\u{1680}', '\u{2000}', '\u{200a}', '\u{2028}', '\u{2029}', '\u{202f}', '\u{205f}', '\u{3000}', '\u{200b}', '\u{8}', 'x', '\u{feff}'] {
        assert_eq!(is_space(c), c.is_whitespace());
    }
}
