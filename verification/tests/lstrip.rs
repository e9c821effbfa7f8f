use lstrip::trim::lstrip_lines;
use lstrip::DEFAULT_LEADING_CHARS;

fn run(leading: &str, text: &str, strip_ws: bool) -> String {
    lstrip_lines(&String::from(leading), &String::from(text), strip_ws)
}

#[test]
fn test_lstrip_lines_no_lstrip_ws() {
    let leading_chars = "#";
    let text = "\n        # foo\n        # bar\n        # echo hello world";
    let expected = "\n foo\n bar\n echo hello world";
    let output = lstrip_lines(&leading_chars.to_string(), &text.to_string(), false);
    assert_eq!(output, expected);
}

#[test]
fn test_lstrip_lines_lstrip_ws() {
    let leading_chars = "#";
    let text = "\n        # foo\n        # bar\n        # echo hello world";
    let expected = "\nfoo\nbar\necho hello world";
    let output = lstrip_lines(&leading_chars.to_string(), &text.to_string(), true);
    assert_eq!(output, expected);
}

#[test]
fn test_lstrip_lines_mixed_lines_no_strip_ws() {
    let leading_chars = "#";
    let text = "\n        # foo\n        bar\n        # echo hello world";
    let expected = "\n foo\n        bar\n echo hello world";
    let output = lstrip_lines(&leading_chars.to_string(), &text.to_string(), false);
    assert_eq!(output, expected);
}

#[test]
fn test_lstrip_lines_mixed_lines_strip_ws() {
    let leading_chars = "#";
    let text = "\n        # foo\n        bar\n        # echo hello world";
    let expected = "\nfoo\nbar\necho hello world";
    let output = lstrip_lines(&leading_chars.to_string(), &text.to_string(), true);
    assert_eq!(output, expected);
}

#[test]
fn test_lstrip_lines_other_prefix_chars() {
    let leading_chars = "//";
    let text = "\n        // foo\n        bar\n        # echo hello world";
    let expected = "\n foo\n        bar\n        # echo hello world";
    let output = lstrip_lines(&leading_chars.to_string(), &text.to_string(), false);
    assert_eq!(output, expected);
}

#[test]
fn test_lstrip_lines_other_prefix_chars_strip_ws() {
    let leading_chars = "//";
    let text = "\n        // foo\n        bar\n        # echo hello world";
    let expected = "\nfoo\nbar\n# echo hello world";
    let output = lstrip_lines(&leading_chars.to_string(), &text.to_string(), true);
    assert_eq!(output, expected);
}

// The command-line form prints the trimmed text and one final newline; these
// mirror its four scenarios on the computed part, with the default marker.

#[test]
fn test_cli_output_1arg_no_ltrim_ws() {
    let output = run(DEFAULT_LEADING_CHARS, "# abc\n  123\n", false);
    assert_eq!(format!("{}\n", output), " abc\n  123\n");
}

#[test]
fn test_cli_output_1arg_no_ltrim_ws_extra_leading_ws() {
    let output = run(DEFAULT_LEADING_CHARS, "    # abc\n  123", false);
    assert_eq!(format!("{}\n", output), " abc\n  123\n");
}

#[test]
fn test_cli_output_1arg_ltrim_ws() {
    let output = run(DEFAULT_LEADING_CHARS, "# abc\n123\n", true);
    assert_eq!(format!("{}\n", output), "abc\n123\n");
}

#[test]
fn test_cli_output_1arg_ltrim_ws_extra_leading_ws() {
    let output = run(DEFAULT_LEADING_CHARS, "    # abc\n  123", true);
    assert_eq!(format!("{}\n", output), "abc\n123\n");
}

// A line without the marker stays byte-identical when the flag is off, even
// if it is nothing but whitespace.

#[test]
fn test_no_marker_lines_untouched() {
    assert_eq!(run("#", "   \nplain text\n\t tabbed", false), "   \nplain text\n\t tabbed");
}

#[test]
fn test_empty_input() {
    assert_eq!(run("#", "", false), "");
    assert_eq!(run("#", "", true), "");
}

#[test]
fn test_line_count_kept() {
    let out = run("#", "# a\nb\n# c", false);
    assert_eq!(out.lines().count(), 3);
    assert_eq!(out, " a\nb\n c");
}

// Splitting understands \r\n and bare \r; the output joins with \n only.

#[test]
fn test_universal_newlines() {
    assert_eq!(run("#", "a\r\nb\rc\nd", false), "a\nb\nc\nd");
    assert_eq!(run("#", "# a\r\n# b\r# c", false), " a\n b\n c");
}

#[test]
fn test_trailing_newline_closes_last_line() {
    assert_eq!(run("#", "# x\n", false), " x");
    assert_eq!(run("#", "\n", false), "");
}

// Only one occurrence of the marker is removed from the front.

#[test]
fn test_single_occurrence_removed() {
    assert_eq!(run("#", "##x", false), "#x");
    assert_eq!(run("#", "  ## x", true), "# x");
}

// A marker somewhere in the middle still strips the leading whitespace, but
// the marker itself stays where it is.

#[test]
fn test_marker_in_middle_strips_whitespace_only() {
    assert_eq!(run("#", "   say # this", false), "say # this");
    assert_eq!(run("//", "  x // y", false), "x // y");
}

#[test]
fn test_whitespace_prefix_tolerated() {
    assert_eq!(run("#", "# a", false), " a");
    assert_eq!(run("#", " # a", false), " a");
    assert_eq!(run("#", "\t        # a", false), " a");
    assert_eq!(run("#", "\t        # a", true), "a");
}

#[test]
fn test_multichar_marker() {
    assert_eq!(run("***", "  *** note", false), " note");
    assert_eq!(run("***", "  ** note", false), "  ** note");
}

#[test]
fn test_marker_without_whitespace_after() {
    assert_eq!(run("#", "#comment", false), "comment");
    assert_eq!(run("#", "#  comment", true), "comment");
}
