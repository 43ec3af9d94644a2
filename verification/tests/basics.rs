use asaborake::arith::floor_quotient;
use asaborake::arith::nearest_quotient;
use asaborake::arith::round_even;
use asaborake::arith::square_root;
use asaborake::order::sort;
use asaborake::order::stable_order;
use asaborake::paths::extension;
use asaborake::paths::file_name;
use asaborake::paths::file_stem;
use asaborake::paths::join;
use asaborake::paths::parent;
use asaborake::paths::with_extension;
use asaborake::paths::with_file_name;
use asaborake::text::parse_decimal;
use asaborake::text::parse_signed;
use asaborake::text::parse_unsigned;
use asaborake::text::push_one_place;
use asaborake::text::push_signed_three_places;
use asaborake::text::push_two_places;
use asaborake::text::word;
use std::path::Path;

const PATHS: [&str; 12] = [
    "/recordings/News.mp4",
    "/recordings/Drama.ep1.mkv",
    "/recordings/News",
    "News.mp4",
    ".hidden",
    "/recordings/.hidden.ts",
    "/recordings/",
    "/",
    "",
    "a/b/..",
    "trailing.",
    "dir.d/file",
];

#[test]
fn paths_are_taken_apart_as_the_standard_library_does() {
    for path in PATHS {
        let plain = Path::new(path);
        let file_name_text = plain.file_name().map(|text| text.to_string_lossy().into_owned());
        assert_eq!(file_name(path), file_name_text, "{path}");
        let file_stem_text = plain.file_stem().map(|text| text.to_string_lossy().into_owned());
        assert_eq!(file_stem(path), file_stem_text, "{path}");
        let extension_text = plain.extension().map(|text| text.to_string_lossy().into_owned());
        assert_eq!(extension(path), extension_text, "{path}");
    }
    for path in ["/recordings/News.mp4", "News.mp4", "/a/b/c", "/"] {
        let plain = Path::new(path).parent().map(|parent| parent.to_string_lossy().into_owned());
        assert_eq!(parent(path), plain, "{path}");
    }
}

#[test]
fn paths_are_put_together_as_the_standard_library_does() {
    for (directory, path) in [("/a", "b"), ("/a/", "b"), ("/a", "/b"), ("", "b"), ("a", "b/c")] {
        let plain = Path::new(directory).join(path).to_string_lossy().into_owned();
        assert_eq!(join(directory, path), plain, "{directory} and {path}");
    }
    for path in ["/recordings/News.mp4", "/recordings/Drama.ep1.mkv", "News"] {
        let plain = Path::new(path);
        assert_eq!(
            with_file_name(path, "x.ts"),
            plain.with_file_name("x.ts").to_string_lossy(),
            "{path}"
        );
        assert_eq!(
            with_extension(path, "srt"),
            plain.with_extension("srt").to_string_lossy(),
            "{path}"
        );
    }
}

fn chars(text: &str) -> Vec<char> {
    text.chars().collect()
}

#[test]
fn numbers_are_read_as_the_standard_library_reads_them() {
    for text in ["0", "42", "+7", "-7", "", "+", "4294967295", "4294967296", "1x", " 1", "007"] {
        assert_eq!(
            parse_unsigned(&chars(text), u64::from(u32::MAX)).map(|n| n as u32),
            text.parse::<u32>().ok(),
            "{text:?}"
        );
        assert_eq!(parse_signed(&chars(text)), text.parse::<i64>().ok(), "{text:?}");
    }
    assert_eq!(parse_decimal(&chars("1800.5")), Some(1_800_500_000));
    assert_eq!(parse_decimal(&chars("1.5e3")), Some(1_500_000_000));
    assert_eq!(parse_decimal(&chars("-0.25")), Some(-250_000));
    assert_eq!(parse_decimal(&chars("N/A")), None);
    assert_eq!(parse_decimal(&chars("0.33333333333333333333333")), Some(333_333));
    assert_eq!(parse_decimal(&chars("0.66666666666666666666666")), Some(666_667));
    assert_eq!(parse_decimal(&chars("12500000000000000000000e-19")), Some(1_250_000_000));
    assert_eq!(parse_decimal(&chars("1e-400")), Some(0));
    assert_eq!(parse_decimal(&chars("0e99999999999999999999999999999")), Some(0));
    assert_eq!(parse_decimal(&chars("1e+003")), Some(1_000_000_000));
    assert_eq!(parse_decimal(&chars("1e400")), None);
    assert_eq!(parse_decimal(&chars("1.e2")), Some(100_000_000));
    assert_eq!(parse_decimal(&chars(".5")), Some(500_000));
    assert_eq!(parse_decimal(&chars(".")), None);
}

fn written(push: impl Fn(&mut String)) -> String {
    let mut text = String::new();
    push(&mut text);
    text
}

#[test]
fn numbers_are_written_as_the_standard_library_writes_them() {
    // Halves agree where the float holds the decimal exactly.
    for millionths in [0i64, 6_000, 125_000, 375_000, 999_999, 1_234_567, 62_500, 187_500] {
        let value = millionths as f64 / 1e6;
        assert_eq!(written(|t| push_two_places(t, millionths)), format!("{value:.2}"));
        assert_eq!(written(|t| push_signed_three_places(t, millionths)), format!("{value:.3}"));
        assert_eq!(written(|t| push_one_place(t, millionths as u128)), format!("{value:.1}"));
    }
    assert_eq!(written(|t| push_signed_three_places(t, -1_500)), "-0.002");
    // A half that no float holds exactly still goes to the even digit.
    assert_eq!(written(|t| push_two_places(t, 5_000)), "0.00");
    assert_eq!(written(|t| push_two_places(t, 15_000)), "0.02");
    assert_eq!(written(|t| push_signed_three_places(t, i64::MIN)), "-9223372036854.776");
}

#[test]
fn quotients_round_as_they_are_said_to() {
    assert_eq!(floor_quotient(-7, 2), -4);
    assert_eq!(nearest_quotient(7, 2), 4);
    assert_eq!(nearest_quotient(-7, 2), -3);
    assert_eq!(round_even(5, 2), 2);
    assert_eq!(round_even(7, 2), 4);
    assert_eq!(round_even(8, 3), 3);
    assert_eq!(square_root(99), 9);
    assert_eq!(square_root(100), 10);
}

#[test]
fn order_is_stable() {
    assert_eq!(stable_order(&[3, 1, 2, 1]), [1, 3, 2, 0]);
    assert_eq!(sort(&[3, 1, 2, 1]), [1, 1, 2, 3]);
    assert!(stable_order(&[]).is_empty());
}

#[test]
fn words_are_counted_from_zero() {
    let line = chars("  /dev/sda1\t1 2   3 ");
    assert_eq!(word(&line, 0), Some(chars("/dev/sda1")));
    assert_eq!(word(&line, 3), Some(chars("3")));
    assert_eq!(word(&line, 4), None);
}
