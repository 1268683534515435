use jhp::render::ErrorLocation;
use jhp::{format_exception, BlockAction, Parser, Renderer};

/// Drives a render the way an executor does; `engine` stands for the script
/// engine: it gets each script source and the renderer, may echo, and reports
/// the outcome.
fn render_with<F>(doc: &str, resource: &str, mut engine: F) -> String
where
    F: FnMut(&str, i32, i32, &mut Renderer) -> Result<(), String>,
{
    let mut p = Parser::new(doc);
    let res = p.parse();
    let mut r = Renderer::new(res.blocks, resource.to_string());
    loop {
        match r.next_action() {
            BlockAction::Run { source, line_offset, column_offset } => {
                let outcome = engine(&source, line_offset, column_offset, &mut r);
                r.finish_block(outcome);
            }
            BlockAction::Finished => break,
        }
    }
    r.into_output()
}

#[test]
fn pure_html_renders_verbatim() {
    let body = render_with("<h1>Hi</h1>", "p.jhp", |_, _, _, _| panic!("no script to run"));
    assert_eq!(body, "<h1>Hi</h1>");
}

#[test]
fn expression_block_is_echoed_in_place() {
    let mut seen = Vec::new();
    let body = render_with("A<?= 1 + 2 ?>B", "e.jhp", |src, line, col, r| {
        seen.push((src.to_string(), line, col));
        r.echo("3");
        Ok(())
    });
    assert_eq!(body, "A3B");
    // the expression starts at column 6; the origin column is 6 - 1 - 12
    assert_eq!(seen, vec![("echo(String(1 + 2));".to_string(), 0, -7)]);
}

#[test]
fn script_echo_calls_are_kept_in_order() {
    let body = render_with("<? for (let i=0;i<3;i++) echo(i); ?>", "s.jhp", |src, line, col, r| {
        assert_eq!(src, " for (let i=0;i<3;i++) echo(i); ");
        assert_eq!((line, col), (0, 2));
        r.echo("0");
        r.echo("1");
        r.echo("2");
        Ok(())
    });
    assert_eq!(body, "012");
}

#[test]
fn declaration_then_expression_share_the_render() {
    let mut x: Option<String> = None;
    let body = render_with("<? let x = \"ok\"; ?><?= x ?>", "m.jhp", |src, _, _, r| {
        if src.contains("let x") {
            x = Some("ok".to_string());
        } else {
            assert_eq!(src, "echo(String(x));");
            let v = x.clone().unwrap();
            r.echo(&v);
        }
        Ok(())
    });
    assert_eq!(body, "ok");
}

#[test]
fn runtime_error_appends_trailer_and_stops() {
    let mut runs = 0;
    let body = render_with("<? throw new Error(\"boom\"); ?>after<? echo(1); ?>", "err.jhp", |_, _, _, r| {
        runs += 1;
        let diag = format_exception(
            Some("Error: boom".to_string()),
            Some(ErrorLocation { resource: Some(r.resource_name().to_string()), line: Some(1), column: 3 }),
            Some("Error: boom\n    at err.jhp:1:9".to_string()),
            r.resource_name(),
        );
        Err(diag)
    });
    assert_eq!(runs, 1);
    assert!(body.contains("<!-- ERROR -->"));
    assert!(body.contains("err.jhp:1:"));
    assert!(body.contains("boom"));
    assert!(!body.contains("after"));
    assert_eq!(body, "\n<!-- ERROR -->\nerr.jhp:1:3\nError: boom\n    at err.jhp:1:9\n");
}

#[test]
fn partial_output_survives_an_error() {
    let body = render_with("a<? echo('x'); oops ?>b", "e.jhp", |_, _, _, r| {
        r.echo("x");
        Err("e.jhp:1:15\nReferenceError: oops is not defined".to_string())
    });
    assert_eq!(body, "ax\n<!-- ERROR -->\ne.jhp:1:15\nReferenceError: oops is not defined\n");
}

#[test]
fn echo_outside_a_block_writes_nothing() {
    let mut p = Parser::new("x");
    let res = p.parse();
    let mut r = Renderer::new(res.blocks, "x.jhp".to_string());
    r.echo("lost");
    assert_eq!(r.output(), "");
    assert!(matches!(r.next_action(), BlockAction::Finished));
    assert_eq!(r.into_output(), "x");
}

#[test]
fn origin_offsets_follow_block_position() {
    let mut seen = Vec::new();
    render_with("line one\n  <? a(); ?>\n<?=   b ?>", "o.jhp", |src, line, col, _| {
        seen.push((src.to_string(), line, col));
        Ok(())
    });
    assert_eq!(
        seen,
        vec![
            (" a(); ".to_string(), 1, 4),
            ("echo(String(b));".to_string(), 2, -6),
        ]
    );
}

#[test]
fn exception_message_is_not_repeated_before_its_stack() {
    let d = format_exception(
        Some("Error: boom".to_string()),
        Some(ErrorLocation { resource: None, line: None, column: 7 }),
        Some("  Error: boom\n    at x  ".to_string()),
        "fallback.jhp",
    );
    assert_eq!(d, "fallback.jhp:0:7\nError: boom\n    at x");
}

#[test]
fn exception_without_details_uses_defaults() {
    let d = format_exception(None, None, None, "r.jhp");
    assert_eq!(d, "r.jhp:0:0\nUncaught exception");
}

#[test]
fn exception_stack_not_starting_with_message() {
    let d = format_exception(
        Some("SyntaxError: bad".to_string()),
        Some(ErrorLocation { resource: Some("a.jhp".to_string()), line: Some(12), column: 40 }),
        Some("at a.jhp:12:40".to_string()),
        "b.jhp",
    );
    assert_eq!(d, "a.jhp:12:40\nSyntaxError: bad\nat a.jhp:12:40");
}
