use text_art::text::transform::cw::{render, transform, MAX_LEN, MIN_LEN};
use text_art::text::transform::TransformError;

#[test]
fn ok() {
    let transformed = transform("rurust").unwrap();
    let lines: Vec<&str> = transformed.lines().skip(7).collect();
    assert_eq!(
        lines,
        vec![
            "          U         S",
            "          R         U",
            "          U         R",
            "          S         U",
            "R U R U S T         R",
        ]
    );

    let lines: Vec<&str> = transformed.lines().take(5).collect();
    assert_eq!(
        lines,
        vec![
            "R         T S U R U R ",
            "U         S",
            "R         U",
            "U         R",
            "S         U",
        ]
    );

    assert_eq!(
        transformed.lines().skip(6).next().unwrap(),
        "T S U R U R U R U S T",
    );
}

#[test]
fn err() {
    let expected = String::from("Text must contain from 3 up to 100 characters");

    let err = transform("").unwrap_err();
    assert_eq!(err.to_string(), expected);

    let err = transform("aa").unwrap_err();
    assert_eq!(err.to_string(), expected);

    let err = transform(&"a".repeat(101)).unwrap_err();
    assert_eq!(err.to_string(), expected);

    assert_eq!(transform(&"a".repeat(3)).is_ok(), true);
    assert_eq!(transform(&"a".repeat(100)).is_ok(), true);
}

#[test]
fn bounds_are_three_and_one_hundred() {
    assert_eq!(MIN_LEN, 3);
    assert_eq!(MAX_LEN, 100);
}

#[test]
fn too_short_or_too_long_carries_bounds_and_count() {
    assert_eq!(
        transform(""),
        Err(TransformError::InvalidLength { min: 3, max: 100, actual: 0 })
    );
    assert_eq!(
        transform("a"),
        Err(TransformError::InvalidLength { min: 3, max: 100, actual: 1 })
    );
    assert_eq!(
        transform("ab"),
        Err(TransformError::InvalidLength { min: 3, max: 100, actual: 2 })
    );
    assert_eq!(
        transform(&"a".repeat(101)),
        Err(TransformError::InvalidLength { min: 3, max: 100, actual: 101 })
    );
    assert_eq!(
        transform(&"a".repeat(250)),
        Err(TransformError::InvalidLength { min: 3, max: 100, actual: 250 })
    );
}

#[test]
fn whole_pattern_of_three_letters() {
    let art = transform("abc").unwrap();
    assert_eq!(
        art,
        "A   C B A \nB   B\nC   A\nC B A B C\n    B   B\nA B C   A\n"
    );
}

#[test]
fn whole_pattern_of_four_letters() {
    let art = transform("rust").unwrap();
    let expected = [
        "R     T S U R ",
        "U     S",
        "S     U",
        "T     R",
        "T S U R U S T",
        "      U     S",
        "      S     U",
        "R U S T     R",
    ];
    let lines: Vec<&str> = art.lines().collect();
    assert_eq!(lines, expected);
    assert!(art.ends_with('\n'));
}

#[test]
fn six_letters_give_twelve_lines() {
    let art = transform("rurust").unwrap();
    let lines: Vec<&str> = art.lines().collect();
    assert_eq!(lines.len(), 12);
    assert_eq!(lines[5], "T         R");
    assert_eq!(art.chars().filter(|c| *c == '\n').count(), 12);
    assert!(art.ends_with('\n'));
}

#[test]
fn line_count_is_twice_the_length() {
    for n in [3usize, 4, 5, 17, 64, 99, 100] {
        let art = transform(&"x".repeat(n)).unwrap();
        assert_eq!(art.lines().count(), 2 * n);
    }
}

#[test]
fn row_widths_follow_from_the_length() {
    for n in [3usize, 7, 100] {
        let art = transform(&"y".repeat(n)).unwrap();
        let lines: Vec<&str> = art.lines().collect();
        assert_eq!(lines[0].chars().count(), 4 * n - 2);
        for r in 1..n {
            assert_eq!(lines[r].chars().count(), 2 * n - 1);
        }
        for r in n..2 * n {
            assert_eq!(lines[r].chars().count(), 4 * n - 3);
        }
    }
}

#[test]
fn shortest_and_longest_inputs_render() {
    let short = transform("abc").unwrap();
    assert_eq!(short.lines().count(), 6);
    let word: String = ('a'..='z').cycle().take(100).collect();
    let long = transform(&word).unwrap();
    let lines: Vec<&str> = long.lines().collect();
    assert_eq!(lines.len(), 200);
    assert_eq!(lines[0].len(), 398);
    assert_eq!(lines[199].len(), 397);
    assert!(lines[199].starts_with("A B C D "));
    assert!(lines[199].ends_with(" A"));
}

#[test]
fn upper_and_lower_case_render_alike() {
    assert_eq!(transform("rurust"), transform("RURUST"));
    assert_eq!(transform("RuRuSt"), transform("RURUST"));
    assert_eq!(transform("ab"), transform("AB"));
}

#[test]
fn same_input_same_output() {
    let first = transform("ferris");
    let second = transform("ferris");
    assert_eq!(first, second);
    assert_eq!(first.unwrap().into_bytes(), second.unwrap().into_bytes());
}

#[test]
fn edges_spell_the_word() {
    let word = "pattern";
    let upper: Vec<char> = "PATTERN".chars().collect();
    let n = upper.len();
    let art = transform(word).unwrap();
    let lines: Vec<Vec<char>> = art.lines().map(|l| l.chars().collect()).collect();
    for a in 0..n {
        assert_eq!(lines[a][0], upper[a]);
        assert_eq!(lines[2 * n - 1][2 * a], upper[a]);
        assert_eq!(lines[0][2 * n - 2 + 2 * (n - 1 - a)], upper[a]);
    }
    let last: String = lines[2 * n - 1][..2 * n].iter().collect();
    assert_eq!(last, "P A T T E R N ");
    let first: String = lines[0][2 * n - 2..].iter().collect();
    assert_eq!(first, "N R E T T A P ");
}

#[test]
fn length_counts_characters_not_bytes() {
    let art = transform("при").unwrap();
    assert_eq!(
        art,
        "П   И Р П \nР   Р\nИ   П\nИ Р П Р И\n    Р   Р\nП Р И   П\n"
    );
    assert_eq!(
        transform("é"),
        Err(TransformError::InvalidLength { min: 3, max: 100, actual: 1 })
    );
    assert!(transform(&"é".repeat(100)).is_ok());
    assert_eq!(
        transform(&"é".repeat(101)),
        Err(TransformError::InvalidLength { min: 3, max: 100, actual: 101 })
    );
}

#[test]
fn character_without_single_uppercase_stays() {
    let art = transform("aßb").unwrap();
    let lines: Vec<&str> = art.lines().collect();
    assert_eq!(lines[0], "A   B ß A ");
    assert_eq!(lines[1], "ß   ß");
    assert_eq!(lines[3], "B ß A ß B");
}

#[test]
fn digits_and_signs_pass_through() {
    let art = transform("a1!").unwrap();
    assert_eq!(art.lines().next().unwrap(), "A   ! 1 A ");
}

#[test]
fn line_break_in_the_word_adds_lines() {
    let art = transform("a\nb").unwrap();
    assert!(art.lines().count() > 6);
}

#[test]
fn render_lays_out_given_characters() {
    let chars = vec!['x', 'Y', 'z'];
    let art = render(&chars);
    assert_eq!(
        art,
        "x   z Y x \nY   Y\nz   x\nz Y x Y z\n    Y   Y\nx Y z   x\n"
    );
}
