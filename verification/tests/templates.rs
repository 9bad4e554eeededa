use csv_render::row::{Field, Row};
use csv_render::template::{compile, has_partial_tag, PARTIAL_REFUSED};

fn row_of(pairs: &[(&str, &str)]) -> Row {
    let mut row = Row::new();
    for (key, value) in pairs {
        row.insert(key, Field::Text(value.to_string()));
    }
    row
}

#[test]
fn compile_binds_the_source_to_the_name() {
    let template = compile("template", "# {{bar}}").unwrap();
    assert_eq!(template.name(), "template");
    assert_eq!(template.source(), "# {{bar}}");
}

#[test]
fn compile_rejects_an_unterminated_block() {
    let error = match compile("template", "{{#if}}") {
        Ok(_) => panic!("the template compiled"),
        Err(error) => error,
    };
    assert_eq!(error.template, "template");
    assert!(!error.message.is_empty());
}

#[test]
fn render_interpolates_the_fields() {
    let template = compile("template", "# {{bar}}'s adventures").unwrap();
    let row = row_of(&[("foo", "1"), ("bar", "tiggers")]);
    assert_eq!(template.render(&row).unwrap(), "# tiggers's adventures");
}

#[test]
fn render_gives_an_undefined_column_as_empty() {
    let template = compile("template", "[{{missing}}]{{foo}}").unwrap();
    let row = row_of(&[("foo", "1")]);
    assert_eq!(template.render(&row).unwrap(), "[]1");
}

#[test]
fn render_reads_a_number_field() {
    let template = compile("filename", "{{i}}.md").unwrap();
    let mut row = Row::new();
    row.insert("i", Field::Number(12));
    assert_eq!(template.render(&row).unwrap(), "12.md");
}

#[test]
fn render_reproduces_the_cells_verbatim() {
    let template = compile("template", "{{foo}}-{{bar}}").unwrap();
    let row = row_of(&[("foo", "a,b"), ("bar", " c d ")]);
    assert_eq!(template.render(&row).unwrap(), "a,b- c d ");
}

#[test]
fn render_does_not_escape_the_cells() {
    let template = compile("template", "{{foo}}-{{bar}}").unwrap();
    let row = row_of(&[("foo", "Tom & Jerry <b>\"x\"</b>"), ("bar", "it's `a`=b")]);
    assert_eq!(template.render(&row).unwrap(), "Tom & Jerry <b>\"x\"</b>-it's `a`=b");
}

#[test]
fn render_failure_concerns_one_row_only() {
    let template = compile("template", "{{#if foo}}{{unknown foo}}{{else}}plain{{/if}}").unwrap();
    let failing = row_of(&[("foo", "1")]);
    let error = template.render(&failing).unwrap_err();
    assert!(error.message.contains("unknown"));
    let passing = Row::new();
    assert_eq!(template.render(&passing).unwrap(), "plain");
}

#[test]
fn render_fails_whichever_of_two_failing_arguments_the_engine_names() {
    let source = "{{eq 1 1 x=(missing_one foo) y=(missing_two foo)}}";
    let row = row_of(&[("foo", "1")]);
    for _ in 0..8 {
        let template = compile("template", source).unwrap();
        let error = template.render(&row).unwrap_err();
        assert!(
            error.message.contains("missing_one") || error.message.contains("missing_two"),
            "unexpected reason: {}",
            error.message
        );
    }
}

#[test]
fn compile_refuses_a_partial_tag_that_is_only_shown() {
    for source in ["{{!-- {{> other}} --}}", "{{{{raw}}}}{{> other}}{{{{/raw}}}}", "\\{{> other}}"] {
        match compile("template", source) {
            Ok(_) => panic!("{:?} compiled", source),
            Err(error) => assert_eq!(error.message, PARTIAL_REFUSED),
        }
    }
}

#[test]
fn compile_refuses_a_template_that_includes_a_partial() {
    let sources = [
        "{{> other}}",
        "{{#if a}}{{> template}}{{/if}}",
        "{{~> other}}",
        "{{#> layout}}x{{/layout}}",
        "{{ > other}}",
        "{{~ #\n> other}}x{{/other}}",
        "{{#*inline \"x\"}}{{> x}}{{/inline}}",
    ];
    for source in sources {
        match compile("template", source) {
            Ok(_) => panic!("{:?} compiled", source),
            Err(error) => {
                assert_eq!(error.template, "template");
                assert_eq!(error.message, PARTIAL_REFUSED, "for {:?}", source);
            }
        }
    }
}

#[test]
fn has_partial_tag_finds_every_form_of_the_tag() {
    assert!(has_partial_tag("{{>a}}"));
    assert!(has_partial_tag("x{{~>a}}"));
    assert!(has_partial_tag("{{#>a}}{{/a}}"));
    assert!(has_partial_tag("{{ \t\r\n~ # >a}}"));
    assert!(has_partial_tag("{{{>a}}"));
    assert!(has_partial_tag("é{{>a}}"));
}

#[test]
fn has_partial_tag_passes_other_templates() {
    assert!(!has_partial_tag(""));
    assert!(!has_partial_tag("# {{bar}}'s adventures"));
    assert!(!has_partial_tag("{{#if a}}>{{/if}}"));
    assert!(!has_partial_tag("{{a}} > {{b}}"));
    assert!(!has_partial_tag("{ {>a}}"));
    assert!(!has_partial_tag("{>a}"));
    assert!(!has_partial_tag("{{a>b}}"));
    assert!(!has_partial_tag("{{#each a}}{{this}}{{/each}} -> x"));
}

#[test]
fn compile_accepts_a_greater_than_sign_in_the_text() {
    let template = compile("template", "{{foo}} > {{bar}}").unwrap();
    assert_eq!(template.render(&row_of(&[("foo", "2"), ("bar", "1")])).unwrap(), "2 > 1");
}

#[test]
fn render_twice_gives_the_same_text() {
    let template = compile("template", "{{foo}}!").unwrap();
    let row = row_of(&[("foo", "1")]);
    assert_eq!(template.render(&row), template.render(&row));
}
