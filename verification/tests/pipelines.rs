use csv_render::pipeline::{
    export_all, export_row, export_rows, preview, render_rows, Artifact, PipelineError,
    BODY_TEMPLATE, DEFAULT_FILENAME_SOURCE, DEFAULT_PREVIEW_ROWS, FILENAME_TEMPLATE,
};
use csv_render::row::{Field, Row};
use csv_render::table::ParseError;
use csv_render::template::{compile, PARTIAL_REFUSED};

const EXAMPLE: &str = "foo,bar\n1,tiggers\n24,winnie";
const BODY: &str = "# {{bar}}'s adventures";

fn artifact(filename: &str, content: &str) -> Artifact {
    Artifact { filename: filename.to_string(), content: content.to_string() }
}

fn row_of(pairs: &[(&str, &str)]) -> Row {
    let mut row = Row::new();
    for (key, value) in pairs {
        row.insert(key, Field::Text(value.to_string()));
    }
    row
}

#[test]
fn defaults_are_as_documented() {
    assert_eq!(BODY_TEMPLATE, "template");
    assert_eq!(FILENAME_TEMPLATE, "filename");
    assert_eq!(DEFAULT_FILENAME_SOURCE, "{{filename}}-{{i}}.md");
    assert_eq!(DEFAULT_PREVIEW_ROWS, 5);
}

#[test]
fn preview_renders_each_row_with_the_body_template() {
    let outcomes = preview(EXAMPLE, BODY, DEFAULT_PREVIEW_ROWS).unwrap();
    assert_eq!(
        outcomes,
        vec![
            Ok("# tiggers's adventures".to_string()),
            Ok("# winnie's adventures".to_string()),
        ]
    );
}

#[test]
fn preview_shows_at_most_the_given_number_of_rows() {
    let csv = "n\n1\n2\n3\n4\n5\n6\n7\n";
    let outcomes = preview(csv, "{{n}}", DEFAULT_PREVIEW_ROWS).unwrap();
    let expected: Vec<Result<String, _>> =
        vec!["1", "2", "3", "4", "5"].into_iter().map(|n| Ok(n.to_string())).collect();
    assert_eq!(outcomes, expected);
    assert_eq!(preview(csv, "{{n}}", 2).unwrap().len(), 2);
    assert!(preview(csv, "{{n}}", 0).unwrap().is_empty());
}

#[test]
fn preview_is_idempotent() {
    let first = preview(EXAMPLE, BODY, 5);
    let second = preview(EXAMPLE, BODY, 5);
    assert_eq!(first, second);
    let failing_first = preview("a,b\n1\n", "{{#if}}", 5);
    let failing_second = preview("a,b\n1\n", "{{#if}}", 5);
    assert_eq!(failing_first, failing_second);
}

#[test]
fn preview_round_trips_quoted_cells() {
    let csv = "foo,bar\n\"a,b\",\"line\nbreak\"\n";
    let outcomes = preview(csv, "{{foo}}-{{bar}}", 5).unwrap();
    assert_eq!(outcomes, vec![Ok("a,b-line\nbreak".to_string())]);
}

#[test]
fn preview_round_trips_cells_with_quotes_and_markup() {
    let csv = "foo,bar\n\"say \"\"hi\"\", ok\",Tom & Jerry <b>\n x ,it's\n";
    let outcomes = preview(csv, "{{foo}}-{{bar}}", 5).unwrap();
    assert_eq!(
        outcomes,
        vec![
            Ok("say \"hi\", ok-Tom & Jerry <b>".to_string()),
            Ok(" x -it's".to_string()),
        ]
    );
}

#[test]
fn preview_renders_an_undefined_column_as_empty() {
    let outcomes = preview(EXAMPLE, "{{foo}}:{{nothing}}:", 5).unwrap();
    assert_eq!(outcomes, vec![Ok("1::".to_string()), Ok("24::".to_string())]);
}

#[test]
fn preview_does_not_add_the_derived_fields() {
    let outcomes = preview(EXAMPLE, "[{{filename}}][{{i}}]", 5).unwrap();
    assert_eq!(outcomes, vec![Ok("[][]".to_string()), Ok("[][]".to_string())]);
}

#[test]
fn preview_fails_as_a_whole_on_malformed_csv() {
    match preview("a,b\n1,2\n3\n", "{{a}}", 5) {
        Err(PipelineError::Parse(ParseError::Record { record, .. })) => assert_eq!(record, 2),
        other => panic!("unexpected: {:?}", other),
    }
}

#[test]
fn an_open_quote_fails_preview_and_export_alike() {
    let csv = "foo,bar\n1,tiggers\n24,\"winnie";
    let failure = Err(PipelineError::Parse(ParseError::OpenQuote { line: 3 }));
    assert_eq!(preview(csv, "{{bar}}", 5), failure);
    assert_eq!(preview(csv, "{{bar}}", 1), failure);
    assert_eq!(
        export_all(csv, "s", "{{bar}}", "{{i}}"),
        Err(PipelineError::Parse(ParseError::OpenQuote { line: 3 }))
    );
}

#[test]
fn a_leading_byte_order_mark_does_not_change_preview_or_export() {
    let csv = "\u{feff}\"foo,\",bar\n1,tiggers\n24,winnie";
    assert_eq!(
        preview(csv, "{{bar}}", 5).unwrap(),
        vec![Ok("tiggers".to_string()), Ok("winnie".to_string())]
    );
    assert_eq!(
        export_all(csv, "s", "{{bar}}", "{{i}}").unwrap(),
        vec![artifact("1", "tiggers"), artifact("2", "winnie")]
    );
}

#[test]
fn previews_agree_on_which_rows_fail_when_two_arguments_fail() {
    let body = "{{#if a}}{{eq 1 1 x=(missing_one a) y=(missing_two a)}}{{else}}-{{/if}}";
    let csv = "a\n1\n\"\"\n2\n";
    let shape = |outcomes: Vec<Result<String, _>>| -> Vec<Option<String>> {
        outcomes.into_iter().map(|outcome: Result<String, csv_render::template::RenderError>| outcome.ok()).collect()
    };
    let first = shape(preview(csv, body, 5).unwrap());
    let second = shape(preview(csv, body, 5).unwrap());
    assert_eq!(first, vec![None, Some("-".to_string()), None]);
    assert_eq!(first, second);
}

#[test]
fn a_template_with_a_partial_fails_preview_and_export() {
    let body = "{{#if foo}}{{> template}}{{/if}}";
    match preview(EXAMPLE, body, 5) {
        Err(PipelineError::Template(error)) => assert_eq!(error.message, PARTIAL_REFUSED),
        other => panic!("unexpected: {:?}", other),
    }
    match export_all(EXAMPLE, "s", "{{foo}}", "{{> filename}}") {
        Err(PipelineError::Template(error)) => {
            assert_eq!(error.template, "filename");
            assert_eq!(error.message, PARTIAL_REFUSED);
        }
        other => panic!("unexpected: {:?}", other),
    }
}

#[test]
fn preview_fails_as_a_whole_on_a_template_with_a_syntax_error() {
    match preview(EXAMPLE, "{{#if}}", 5) {
        Err(PipelineError::Template(error)) => assert_eq!(error.template, "template"),
        other => panic!("unexpected: {:?}", other),
    }
}

#[test]
fn preview_reports_the_parse_failure_before_the_template() {
    match preview("a,b\n1\n", "{{#if}}", 5) {
        Err(PipelineError::Parse(ParseError::Record { record, .. })) => assert_eq!(record, 1),
        other => panic!("unexpected: {:?}", other),
    }
}

#[test]
fn preview_keeps_a_row_failure_in_its_place() {
    let csv = "a\n\n1\n\"\"\n2\n";
    let outcomes = preview(csv, "{{#if a}}{{a}}{{else}}{{unknown a}}{{/if}}", 5).unwrap();
    assert_eq!(outcomes.len(), 3);
    assert_eq!(outcomes[0], Ok("1".to_string()));
    assert!(outcomes[1].is_err());
    assert_eq!(outcomes[2], Ok("2".to_string()));
}

#[test]
fn export_emits_one_artifact_for_each_row() {
    let artifacts =
        export_all(EXAMPLE, "example", BODY, "{{filename}}-{{foo}}-{{i}}.md").unwrap();
    assert_eq!(
        artifacts,
        vec![
            artifact("example-1-1.md", "# tiggers's adventures"),
            artifact("example-24-2.md", "# winnie's adventures"),
        ]
    );
}

#[test]
fn export_with_the_default_filename_template() {
    let artifacts = export_all(EXAMPLE, "example", BODY, DEFAULT_FILENAME_SOURCE).unwrap();
    let names: Vec<&str> = artifacts.iter().map(|a| a.filename.as_str()).collect();
    assert_eq!(names, vec!["example-1.md", "example-2.md"]);
}

#[test]
fn export_reads_every_row() {
    let csv = "n\n1\n2\n3\n4\n5\n6\n7\n";
    let artifacts = export_all(csv, "s", "{{n}}", "{{i}}").unwrap();
    assert_eq!(artifacts.len(), 7);
    assert_eq!(artifacts[6], artifact("7", "7"));
}

#[test]
fn export_does_not_inject_the_derived_fields_into_the_body() {
    let artifacts = export_all(EXAMPLE, "example", "[{{filename}}{{i}}]", "{{i}}").unwrap();
    assert_eq!(artifacts, vec![artifact("1", "[]"), artifact("2", "[]")]);
}

#[test]
fn export_prefers_the_columns_of_the_table_over_the_derived_fields() {
    let csv = "filename,i\nchapter,one\n";
    let artifacts = export_all(csv, "example", "x", "{{filename}}-{{i}}.md").unwrap();
    assert_eq!(artifacts, vec![artifact("chapter-one.md", "x")]);
}

#[test]
fn export_skips_a_row_whose_body_fails_and_keeps_the_positions() {
    let csv = "a\n1\n\"\"\n3\n";
    let body = "{{#if a}}{{a}}{{else}}{{unknown a}}{{/if}}";
    let artifacts = export_all(csv, "s", body, "{{filename}}-{{i}}").unwrap();
    assert_eq!(artifacts, vec![artifact("s-1", "1"), artifact("s-3", "3")]);
}

#[test]
fn export_skips_a_row_whose_filename_fails() {
    let csv = "a\n1\n\"\"\n3\n";
    let naming = "{{#if a}}{{i}}{{else}}{{unknown a}}{{/if}}";
    let artifacts = export_all(csv, "s", "{{a}}", naming).unwrap();
    assert_eq!(artifacts, vec![artifact("1", "1"), artifact("3", "3")]);
}

#[test]
fn export_fails_as_a_whole_on_malformed_csv() {
    match export_all("a,b\n1,2\n3\n", "s", "{{a}}", "{{i}}") {
        Err(PipelineError::Parse(ParseError::Record { record, .. })) => assert_eq!(record, 2),
        other => panic!("unexpected: {:?}", other),
    }
}

#[test]
fn malformed_csv_fails_preview_and_export_alike() {
    let csv = "a,b\n1\n";
    let previewed = preview(csv, "{{a}}", 5).unwrap_err();
    let exported = export_all(csv, "s", "{{a}}", "{{i}}").unwrap_err();
    assert_eq!(previewed, exported);
}

#[test]
fn export_fails_on_a_body_template_with_a_syntax_error() {
    match export_all(EXAMPLE, "s", "{{#if}}", "{{i}}") {
        Err(PipelineError::Template(error)) => assert_eq!(error.template, "template"),
        other => panic!("unexpected: {:?}", other),
    }
}

#[test]
fn export_fails_on_a_filename_template_with_a_syntax_error() {
    match export_all(EXAMPLE, "s", "{{foo}}", "{{#if}}") {
        Err(PipelineError::Template(error)) => assert_eq!(error.template, "filename"),
        other => panic!("unexpected: {:?}", other),
    }
}

#[test]
fn export_reports_the_body_template_before_the_filename_template() {
    match export_all(EXAMPLE, "s", "{{#if}}", "{{#each}}") {
        Err(PipelineError::Template(error)) => assert_eq!(error.template, "template"),
        other => panic!("unexpected: {:?}", other),
    }
}

#[test]
fn export_of_a_table_without_rows_emits_nothing() {
    assert_eq!(export_all("a,b\n", "s", "{{a}}", "{{i}}").unwrap(), vec![]);
}

#[test]
fn render_rows_gives_one_outcome_for_each_row() {
    let template = compile("template", "{{a}}").unwrap();
    let rows = vec![row_of(&[("a", "x")]), Row::new(), row_of(&[("a", "z")])];
    let outcomes = render_rows(&template, &rows);
    assert_eq!(
        outcomes,
        vec![Ok("x".to_string()), Ok("".to_string()), Ok("z".to_string())]
    );
}

#[test]
fn export_row_renders_the_filename_against_the_context() {
    let body = compile("template", "{{a}}").unwrap();
    let naming = compile("filename", "{{filename}}-{{i}}").unwrap();
    let row = row_of(&[("a", "x")]);
    assert_eq!(export_row(&body, &naming, "stem", &row, 4), Some(artifact("stem-4", "x")));
}

#[test]
fn export_row_gives_nothing_when_a_rendering_fails() {
    let good = compile("template", "{{a}}").unwrap();
    let bad = compile("filename", "{{unknown a}}").unwrap();
    let row = row_of(&[("a", "x")]);
    assert_eq!(export_row(&bad, &good, "stem", &row, 1), None);
    assert_eq!(export_row(&good, &bad, "stem", &row, 1), None);
}

#[test]
fn export_rows_numbers_the_rows_from_one() {
    let body = compile("template", "{{a}}").unwrap();
    let naming = compile("filename", "{{i}}").unwrap();
    let rows = vec![row_of(&[("a", "x")]), row_of(&[("a", "y")])];
    assert_eq!(
        export_rows(&body, &naming, "stem", &rows),
        vec![artifact("1", "x"), artifact("2", "y")]
    );
}
