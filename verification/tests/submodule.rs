use giputils::submodule::is_space;
use giputils::submodule::uninitialized;

fn paths(report: &str) -> Vec<String> {
    let chars: Vec<char> = report.chars().collect();
    uninitialized(&chars)
        .into_iter()
        .map(|p| p.into_iter().collect())
        .collect()
}

fn by_std(report: &str) -> Vec<String> {
    report
        .lines()
        .filter_map(|line| {
            line.strip_prefix('-')?;
            line.split_whitespace().nth(1).map(str::to_owned)
        })
        .collect()
}

#[test]
fn paths_of_the_lines_that_begin_with_a_dash() {
    let report = " 1a2b3c4 deps/one (v1.0)\n-5d6e7f8 deps/two\n+9a0b1c2 deps/three (heads/main)\n-3d4e5f6 deps/four\n";
    assert_eq!(paths(report), vec!["deps/two", "deps/four"]);
}

#[test]
fn lines_without_a_path_give_nothing() {
    assert_eq!(paths(""), Vec::<String>::new());
    assert_eq!(paths("\n\n"), Vec::<String>::new());
    assert_eq!(paths("-"), Vec::<String>::new());
    assert_eq!(paths("-abc\n-   \n- \t\n"), Vec::<String>::new());
    assert_eq!(paths("x -abc def\n"), Vec::<String>::new());
    assert_eq!(paths("-abc def"), vec!["def"]);
    assert_eq!(paths("- abc def"), vec!["abc"]);
    assert_eq!(paths("-abc\tdef ghi\r\n-j  k\r\n"), vec!["def", "k"]);
}

#[test]
fn agrees_with_the_standard_library() {
    let reports = [
        "-a b\n-c d e\n f g\n",
        "-a\u{a0}b\u{2003}c\n-\u{3000}x\u{85}y\n",
        "\n-\n--\n- -\n-- --\n",
        "-a b\r\n\r\n-c\u{b}d\u{c}e\n-f\u{1680}g\u{2028}h\n-i\u{205f}j\u{202f}k",
        "-no-newline path",
        "-\u{feff}a \u{200b}b\n",
    ];
    for report in reports {
        assert_eq!(paths(report), by_std(report));
    }
}

#[test]
fn white_space_is_what_the_standard_library_says() {
    for n in 0..0x11000u32 {
        if let Some(c) = char::from_u32(n) {
            assert_eq!(is_space(c), c.is_whitespace());
        }
    }
}
