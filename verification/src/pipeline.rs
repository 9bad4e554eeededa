//! The pipeline: from CSV text and template sources to rendered text.
//!
//! `preview` renders the first rows of a table for display. `export_all`
//! renders every row into an artifact: a file name and the content of the
//! file. Both start from the text each time and keep nothing between calls.

use vstd::prelude::*;
use crate::context::{augment, augmented};
use crate::row::{Fields, Row};
use crate::table::{parse, parsed, Failure, ParseError};
use crate::template::{
    compile,
    compiled,
    render_view,
    rendered,
    CompileFailure,
    CompiledTemplate,
    RenderError,
    TemplateCompileError,
    TemplateView,
    TextOutcome,
};

verus! {

/// The name that the body template is compiled under.
pub const BODY_TEMPLATE: &'static str = "template";

/// The name that the file name template is compiled under.
pub const FILENAME_TEMPLATE: &'static str = "filename";

/// The file name template that is used where none is given.
pub const DEFAULT_FILENAME_SOURCE: &'static str = "{{filename}}-{{i}}.md";

/// The number of rows that a preview shows where none is given.
pub const DEFAULT_PREVIEW_ROWS: usize = 5;

/// Why a pipeline produced nothing.
#[derive(Debug, PartialEq, Eq)]
pub enum PipelineError {
    /// The text is not well-formed CSV.
    Parse(ParseError),
    /// A template did not compile.
    Template(TemplateCompileError),
}

/// A pipeline's failure as the contracts see it.
pub enum PipelineFailure {
    Parse(Failure),
    Template(CompileFailure),
}

impl View for PipelineError {
    type V = PipelineFailure;

    open spec fn view(&self) -> PipelineFailure {
        match self {
            PipelineError::Parse(error) => PipelineFailure::Parse(error@),
            PipelineError::Template(error) => PipelineFailure::Template(error@),
        }
    }
}

/// One rendered row: the content of a file, and the name to store it under.
#[derive(Debug, PartialEq, Eq)]
pub struct Artifact {
    pub filename: String,
    pub content: String,
}

/// An artifact as the contracts see it.
pub struct ArtifactView {
    pub filename: Seq<char>,
    pub content: Seq<char>,
}

impl View for Artifact {
    type V = ArtifactView;

    open spec fn view(&self) -> ArtifactView {
        ArtifactView { filename: self.filename@, content: self.content@ }
    }
}

/// What a preview shows, as the contracts see it: for each row its text, or
/// nothing where the row could not be rendered.
pub open spec fn renderings_view(outcomes: Seq<Result<String, RenderError>>) -> Seq<TextOutcome> {
    Seq::new(outcomes.len(), |at: int| render_view(outcomes[at]))
}

/// Artifacts as the contracts see them.
pub open spec fn artifacts_view(artifacts: Seq<Artifact>) -> Seq<ArtifactView> {
    Seq::new(artifacts.len(), |at: int| artifacts[at]@)
}

/// What the preview of `csv` under the body template `body` shows: a
/// failure of the whole, where the text does not parse under the limit of
/// `max_rows` rows or, after that, where the template does not compile;
/// else one outcome for each of those rows, in the order of the text.
pub open spec fn previewed(csv: Seq<char>, body: Seq<char>, max_rows: usize) -> Result<
    Seq<TextOutcome>,
    PipelineFailure,
> {
    match parsed(csv, Some(max_rows)) {
        Err(failure) => Err(PipelineFailure::Parse(failure)),
        Ok(table) => match compiled(BODY_TEMPLATE@, body) {
            Err(failure) => Err(PipelineFailure::Template(failure)),
            Ok(template) => Ok(
                Seq::new(
                    table.rows.len(),
                    |at: int| rendered(template.name, template.source, table.rows[at]),
                ),
            ),
        },
    }
}

/// What `preview` gave back, as the contracts see it.
pub open spec fn preview_view(
    result: Result<Vec<Result<String, RenderError>>, PipelineError>,
) -> Result<Seq<TextOutcome>, PipelineFailure> {
    match result {
        Ok(outcomes) => Ok(renderings_view(outcomes@)),
        Err(error) => Err(error@),
    }
}

/// Renders `template` against each of `rows`, in order. A row that fails to
/// render gives its error in its place, with the engine's reason, and the
/// rows after it are rendered all the same.
pub fn render_rows(template: &CompiledTemplate, rows: &Vec<Row>) -> (outcomes: Vec<
    Result<String, RenderError>,
>)
    ensures
        outcomes.len() == rows.len(),
        forall|at: int|
            0 <= at < rows.len() ==> render_view(#[trigger] outcomes[at]) == rendered(
                template@.name,
                template@.source,
                rows[at]@,
            ),
{
    let mut outcomes: Vec<Result<String, RenderError>> = Vec::new();
    let mut at: usize = 0;
    while at < rows.len()
        invariant
            at <= rows.len(),
            outcomes.len() == at,
            forall|before: int|
                0 <= before < at ==> render_view(#[trigger] outcomes[before]) == rendered(
                    template@.name,
                    template@.source,
                    rows[before]@,
                ),
        decreases rows.len() - at,
    {
        let outcome = template.render(&rows[at]);
        outcomes.push(outcome);
        at += 1;
    }
    outcomes
}

/// Renders the first `max_rows` rows of `csv_text` with the body template,
/// for display. A text that does not parse, or a template that does not
/// compile, fails the preview as a whole; a row that does not render fails
/// alone.
pub fn preview(csv_text: &str, body_source: &str, max_rows: usize) -> (result: Result<
    Vec<Result<String, RenderError>>,
    PipelineError,
>)
    ensures
        preview_view(result) == previewed(csv_text@, body_source@, max_rows),
{
    let table = match parse(csv_text, Some(max_rows)) {
        Ok(table) => table,
        Err(error) => {
            return Err(PipelineError::Parse(error));
        },
    };
    let template = match compile(BODY_TEMPLATE, body_source) {
        Ok(template) => template,
        Err(error) => {
            return Err(PipelineError::Template(error));
        },
    };
    let outcomes = render_rows(&template, &table.rows);
    proof {
        assert(renderings_view(outcomes@) =~= previewed(csv_text@, body_source@, max_rows)->Ok_0);
    }
    Ok(outcomes)
}

/// A preview depends on its three inputs and on nothing else: what two
/// calls on the same inputs give is the same, failure for failure and text
/// for text. Only the reason that the engine words for a row that does not
/// render is outside this: it is no part of what the contracts see.
pub proof fn lemma_preview_repeats(
    csv: Seq<char>,
    body: Seq<char>,
    max_rows: usize,
    first: Result<Seq<TextOutcome>, PipelineFailure>,
    second: Result<Seq<TextOutcome>, PipelineFailure>,
)
    requires
        first == previewed(csv, body, max_rows),
        second == previewed(csv, body, max_rows),
    ensures
        first == second,
{
}

/// The artifact that a row gives, if it gives one. The body is rendered
/// against the row as the table holds it, the file name against the row's
/// context. A row whose body or whose file name does not render gives none.
pub open spec fn artifact_of(
    body: TemplateView,
    naming: TemplateView,
    stem: Seq<char>,
    fields: Fields,
    index: usize,
) -> Option<ArtifactView> {
    match rendered(body.name, body.source, fields) {
        None => None,
        Some(content) => match rendered(
            naming.name,
            naming.source,
            augmented(fields, stem, index),
        ) {
            None => None,
            Some(filename) => Some(ArtifactView { filename, content }),
        },
    }
}

/// The artifacts that the first `count` of `rows` give, in the order of the
/// rows. The index of a row is its position among all rows, from 1, whether
/// or not the rows before it gave an artifact.
pub open spec fn emitted(
    body: TemplateView,
    naming: TemplateView,
    stem: Seq<char>,
    rows: Seq<Fields>,
    count: nat,
) -> Seq<ArtifactView>
    decreases count,
{
    if count == 0 {
        Seq::empty()
    } else {
        let before = emitted(body, naming, stem, rows, (count - 1) as nat);
        match artifact_of(body, naming, stem, rows[count - 1], count as usize) {
            Some(artifact) => before.push(artifact),
            None => before,
        }
    }
}

/// The artifacts keep the order of the rows: what the first rows give stays
/// in front when more rows are taken, and no row gives more than one.
pub proof fn lemma_emitted_grows(
    body: TemplateView,
    naming: TemplateView,
    stem: Seq<char>,
    rows: Seq<Fields>,
    fewer: nat,
    more: nat,
)
    requires
        fewer <= more,
    ensures
        emitted(body, naming, stem, rows, fewer).len() <= fewer,
        emitted(body, naming, stem, rows, fewer).is_prefix_of(
            emitted(body, naming, stem, rows, more),
        ),
        emitted(body, naming, stem, rows, more).len() - emitted(
            body,
            naming,
            stem,
            rows,
            fewer,
        ).len() <= more - fewer,
    decreases more,
{
    if fewer < more {
        lemma_emitted_grows(body, naming, stem, rows, fewer, (more - 1) as nat);
    } else if fewer > 0 {
        lemma_emitted_grows(body, naming, stem, rows, (fewer - 1) as nat, (fewer - 1) as nat);
    }
}

/// Where every one of the first `count` rows renders, each gives its
/// artifact, in its place, under its own position.
pub proof fn lemma_emitted_complete(
    body: TemplateView,
    naming: TemplateView,
    stem: Seq<char>,
    rows: Seq<Fields>,
    count: nat,
)
    requires
        count <= usize::MAX,
        forall|at: int|
            0 <= at < count ==> (#[trigger] artifact_of(
                body,
                naming,
                stem,
                rows[at],
                (at + 1) as usize,
            )) is Some,
    ensures
        emitted(body, naming, stem, rows, count).len() == count,
        forall|at: int|
            0 <= at < count ==> Some(#[trigger] emitted(body, naming, stem, rows, count)[at])
                == artifact_of(body, naming, stem, rows[at], (at + 1) as usize),
    decreases count,
{
    if count > 0 {
        let before = (count - 1) as nat;
        lemma_emitted_complete(body, naming, stem, rows, before);
        assert(artifact_of(body, naming, stem, rows[count - 1], (count - 1 + 1) as usize) is Some);
    }
}

/// What the export of `csv` gives: a failure of the whole, where the text
/// does not parse or, after that, where the body template or, after that,
/// the file name template does not compile; else the artifacts of the rows.
pub open spec fn exported(
    csv: Seq<char>,
    stem: Seq<char>,
    body: Seq<char>,
    naming: Seq<char>,
) -> Result<Seq<ArtifactView>, PipelineFailure> {
    match parsed(csv, None) {
        Err(failure) => Err(PipelineFailure::Parse(failure)),
        Ok(table) => match compiled(BODY_TEMPLATE@, body) {
            Err(failure) => Err(PipelineFailure::Template(failure)),
            Ok(body_template) => match compiled(FILENAME_TEMPLATE@, naming) {
                Err(failure) => Err(PipelineFailure::Template(failure)),
                Ok(naming_template) => Ok(
                    emitted(body_template, naming_template, stem, table.rows, table.rows.len()),
                ),
            },
        },
    }
}

/// What `export_all` gave back, as the contracts see it.
pub open spec fn export_view(result: Result<Vec<Artifact>, PipelineError>) -> Result<
    Seq<ArtifactView>,
    PipelineFailure,
> {
    match result {
        Ok(artifacts) => Ok(artifacts_view(artifacts@)),
        Err(error) => Err(error@),
    }
}

/// What `export_row` gave back, as the contracts see it.
pub open spec fn artifact_view(artifact: Option<Artifact>) -> Option<ArtifactView> {
    match artifact {
        Some(artifact) => Some(artifact@),
        None => None,
    }
}

/// Renders one row into its artifact. `index` is the position of the row in
/// its table, from 1. A row whose body does not render is passed over, and
/// its file name is not rendered; so is a row whose file name does not
/// render.
pub fn export_row(
    body: &CompiledTemplate,
    naming: &CompiledTemplate,
    stem: &str,
    row: &Row,
    index: usize,
) -> (artifact: Option<Artifact>)
    ensures
        artifact_view(artifact) == artifact_of(body@, naming@, stem@, row@, index),
{
    let content = match body.render(row) {
        Ok(content) => content,
        Err(_) => {
            return None;
        },
    };
    let context = augment(row, stem, index);
    match naming.render(&context) {
        Ok(filename) => Some(Artifact { filename, content }),
        Err(_) => None,
    }
}

/// Renders each of `rows` into its artifact, in order. A row that does not
/// render is passed over; the rows after it keep their positions.
pub fn export_rows(
    body: &CompiledTemplate,
    naming: &CompiledTemplate,
    stem: &str,
    rows: &Vec<Row>,
) -> (artifacts: Vec<Artifact>)
    ensures
        artifacts_view(artifacts@) == emitted(
            body@,
            naming@,
            stem@,
            Seq::new(rows.len() as nat, |at: int| rows[at]@),
            rows.len() as nat,
        ),
{
    let ghost fields = Seq::new(rows.len() as nat, |at: int| rows[at]@);
    let mut artifacts: Vec<Artifact> = Vec::new();
    let mut at: usize = 0;
    while at < rows.len()
        invariant
            at <= rows.len(),
            fields == Seq::new(rows.len() as nat, |at: int| rows[at]@),
            artifacts_view(artifacts@) == emitted(body@, naming@, stem@, fields, at as nat),
        decreases rows.len() - at,
    {
        let ghost before = artifacts@;
        match export_row(body, naming, stem, &rows[at], at + 1) {
            Some(artifact) => {
                artifacts.push(artifact);
                proof {
                    assert(artifacts_view(artifacts@) =~= artifacts_view(before).push(artifact@));
                }
            },
            None => {},
        }
        at += 1;
    }
    artifacts
}

/// Renders every row of `csv_text` into an artifact, the body with the body
/// template and the file name with the file name template. A text that does
/// not parse, or a template that does not compile, fails the export before
/// any row is rendered; a row that does not render is passed over.
pub fn export_all(
    csv_text: &str,
    file_name_stem: &str,
    body_source: &str,
    filename_source: &str,
) -> (result: Result<Vec<Artifact>, PipelineError>)
    ensures
        export_view(result) == exported(
            csv_text@,
            file_name_stem@,
            body_source@,
            filename_source@,
        ),
{
    let table = match parse(csv_text, None) {
        Ok(table) => table,
        Err(error) => {
            return Err(PipelineError::Parse(error));
        },
    };
    let body = match compile(BODY_TEMPLATE, body_source) {
        Ok(template) => template,
        Err(error) => {
            return Err(PipelineError::Template(error));
        },
    };
    let naming = match compile(FILENAME_TEMPLATE, filename_source) {
        Ok(template) => template,
        Err(error) => {
            return Err(PipelineError::Template(error));
        },
    };
    let artifacts = export_rows(&body, &naming, file_name_stem, &table.rows);
    proof {
        assert(Seq::new(table.rows.len() as nat, |at: int| table.rows[at]@) =~= table@.rows);
    }
    Ok(artifacts)
}

} // verus!
