use jhp::{blocks_to_js, CodeBlock, Parser};

fn summaries(input: &str) -> Vec<(char, usize, usize, String, usize)> {
    let mut p = Parser::new(input);
    p.parse()
        .blocks
        .into_iter()
        .map(|b| match *b {
            CodeBlock::Html(c) => ('H', c.lineno, c.colno, c.content, c.level),
            CodeBlock::Javascript(c) => ('J', c.lineno, c.colno, c.content, c.level),
            CodeBlock::Expression(c) => ('E', c.lineno, c.colno, c.content, c.level),
        })
        .collect()
}

#[test]
fn quotes_in_html_are_escaped() {
    let s = summaries("It's \"q\" `b`");
    assert_eq!(s.len(), 1);
    assert_eq!(s[0].3, "It&#39;s &quot;q&quot; &#96;b&#96;");
}

#[test]
fn quotes_in_scripts_are_kept() {
    let s = summaries("<? echo('a\"`'); ?>");
    assert_eq!(s[0].3, " echo('a\"`'); ");
}

#[test]
fn unterminated_script_runs_to_the_end() {
    let s = summaries("x<? let a = 1;");
    assert_eq!(s.len(), 2);
    assert_eq!(s[1].0, 'J');
    assert_eq!(s[1].3, " let a = 1;");
}

#[test]
fn empty_input_has_no_blocks() {
    assert!(summaries("").is_empty());
}

#[test]
fn lone_fence_characters_stay_text() {
    let s = summaries("a < b ? c : d >");
    assert_eq!(s.len(), 1);
    assert_eq!(s[0].3, "a < b ? c : d >");
}

#[test]
fn expression_column_points_at_expression() {
    let s = summaries("A<?= 1 + 2 ?>B");
    assert_eq!(s[1].0, 'E');
    assert_eq!((s[1].1, s[1].2), (1, 6));
    assert_eq!(s[1].3, "1 + 2");
    assert_eq!((s[2].1, s[2].2), (1, 14));
}

#[test]
fn columns_count_characters_not_bytes() {
    let s = summaries("\u{e9}\u{e9}<? x ?>");
    assert_eq!(s[1].0, 'J');
    assert_eq!(s[1].2, 5);
}

#[test]
fn columns_increase_along_a_line() {
    let s = summaries("a<? b ?>c<?= d ?>e\nf<? g ?>");
    let line1: Vec<usize> = s.iter().filter(|b| b.1 == 1).map(|b| b.2).collect();
    assert_eq!(line1, vec![1, 4, 9, 14, 18]);
    let line2: Vec<usize> = s.iter().filter(|b| b.1 == 2).map(|b| b.2).collect();
    assert_eq!(line2, vec![4]);
}

#[test]
fn closing_brace_saturates_at_zero() {
    let s = summaries("<? } ?><? } { ?>x");
    assert_eq!(s[0].4, 0);
    assert_eq!(s[1].4, 0);
    assert_eq!(s[2].4, 1);
}

#[test]
fn reconstructs_source_from_blocks() {
    let input = "<p>\n<? let a = 1; ?>\n<?= a ?></p>";
    let s = summaries(input);
    let mut out = String::new();
    for b in &s {
        match b.0 {
            'H' => out.push_str(&b.3),
            'J' => {
                out.push_str("<?");
                out.push_str(&b.3);
                out.push_str("?>");
            }
            _ => {
                out.push_str("<?= ");
                out.push_str(&b.3);
                out.push_str(" ?>");
            }
        }
    }
    assert_eq!(out, input);
}

#[test]
fn script_lines_are_trimmed_in_emitted_code() {
    let mut p = Parser::new("<?\n  run();\n?>x");
    let js = blocks_to_js(p.parse().blocks);
    assert_eq!(js, "run();\necho(`x`);");
}

#[test]
fn emitted_code_for_empty_document_is_empty() {
    assert_eq!(blocks_to_js(Vec::new()), "");
}

#[test]
fn expression_after_a_line_break_reports_its_own_line() {
    let s = summaries("<?\n= x ?>");
    assert_eq!(s[0].0, 'E');
    assert_eq!((s[0].1, s[0].2), (2, 3));
    assert_eq!(s[0].3, "x");
}
