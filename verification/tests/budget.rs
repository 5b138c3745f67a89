use sshctx::budget::{paginate, Page, DEFAULT_LINES, DEFAULT_TOKEN_BUDGET, MAX_LINES};

#[test]
fn continuation_is_one_based_and_stable() {
    assert_eq!(
        paginate("a\nb\nc", &Page { offset: Some(2), limit: Some(1) }),
        "b\n(Partial: lines 2-2 shown. Continue with offset=3.)"
    );
}

#[test]
fn complete_output_names_all_lines() {
    let text: Vec<String> = (1..=27).map(|n| format!("line {n}")).collect();
    let shown = paginate(&text.join("\n"), &Page::default());
    assert!(shown.ends_with("line 27\n(Complete: all 27 lines shown.)"));
    assert!(shown.starts_with("line 1\n"));
}

#[test]
fn long_output_is_cut_at_the_usual_length() {
    let text: Vec<String> = (1..=450).map(|n| n.to_string()).collect();
    let shown = paginate(&text.join("\n"), &Page::default());
    assert!(shown.ends_with("\n200\n(Partial: lines 1-200 shown. Continue with offset=201.)"));
    assert_eq!(DEFAULT_LINES, 200);
    assert_eq!(DEFAULT_TOKEN_BUDGET, 8_500);
}

#[test]
fn limits_are_clamped() {
    let text: Vec<String> = (1..=3000).map(|n| n.to_string()).collect();
    let text = text.join("\n");
    let none = paginate(&text, &Page { offset: Some(5), limit: Some(0) });
    assert_eq!(none, "5\n(Partial: lines 5-5 shown. Continue with offset=6.)");
    let many = paginate(&text, &Page { offset: None, limit: Some(100_000) });
    assert!(many.ends_with("\n2000\n(Partial: lines 1-2000 shown. Continue with offset=2001.)"));
    assert_eq!(MAX_LINES, 2_000);
}

#[test]
fn offset_zero_is_the_first_line() {
    let shown = paginate("a\nb", &Page { offset: Some(0), limit: Some(1) });
    assert_eq!(shown, "a\n(Partial: lines 1-1 shown. Continue with offset=2.)");
}

#[test]
fn empty_output_and_offsets_behind_the_end() {
    assert_eq!(paginate("", &Page::default()), "(Complete: all 0 lines shown.)");
    assert_eq!(paginate("a\nb", &Page { offset: Some(9), limit: None }), "(Complete: all 2 lines shown.)");
    assert_eq!(paginate("\n", &Page::default()), "(Complete: all 1 lines shown.)");
}

#[test]
fn line_endings_are_no_part_of_a_line() {
    assert_eq!(paginate("a\r\nb\r\n", &Page::default()), "a\nb\n(Complete: all 2 lines shown.)");
    assert_eq!(paginate("a\rb\r", &Page::default()), "a\rb\r\n(Complete: all 1 lines shown.)");
}

#[test]
fn lines_are_those_of_the_standard_library() {
    for text in ["", "\n", "a", "a\n", "a\r\n\r\nb", "\r", "\n\n\n", "é\nß\r\n漢", "x\r\r\ny"] {
        let expected: Vec<&str> = text.lines().collect();
        let shown = paginate(text, &Page { offset: None, limit: Some(2000) });
        assert!(shown.ends_with(&format!("(Complete: all {} lines shown.)", expected.len())));
        let body = expected.join("\n");
        assert!(shown.starts_with(&body));
    }
}

#[test]
fn continuations_show_every_line_once() {
    let all: Vec<String> = (1..=23).map(|n| format!("l{n}")).collect();
    let text = all.join("\n");
    let mut seen: Vec<String> = Vec::new();
    let mut offset = 1;
    loop {
        let shown = paginate(&text, &Page { offset: Some(offset), limit: Some(5) });
        let mut lines: Vec<&str> = shown.lines().collect();
        let trailer = lines.pop().unwrap().to_string();
        seen.extend(lines.iter().map(|l| l.to_string()));
        match trailer.strip_prefix("(Partial: ") {
            Some(rest) => {
                let at = rest.find("offset=").unwrap() + "offset=".len();
                offset = rest[at..].trim_end_matches(".)").parse().unwrap();
            }
            None => break,
        }
    }
    assert_eq!(seen, all);
}

#[test]
fn pages_that_cannot_end_are_told_apart() {
    assert!(Page::default().is_in_range());
    assert!(!Page { offset: Some(usize::MAX), limit: Some(10) }.is_in_range());
    assert!(Page { offset: Some(usize::MAX), limit: Some(1) }.is_in_range());
}
