//! Templates: compiling a Handlebars source and rendering it against a row.
//!
//! The engine itself is not verified. What it answers is named here, as a
//! value that depends on the template and on the row alone, and the
//! contracts of `compile` and `render` say which of those values comes back.
//! Of a rendering that fails only the failure is fixed: the engine's reason
//! is for a reader, and where a template fails in two places the engine may
//! name either.
//!
//! Two things are this module's own. A template may not include a partial:
//! an inclusion can go round in a circle, and the engine would then never
//! finish rendering. And a value is written into the text as it is, without
//! HTML escaping: the text is a file of its own, not a part of a page.

use vstd::prelude::*;
use vstd::string::StringSliceAdditionalSpecFns;
use vstd::utf8::{encode_scalar, encode_utf8};
use crate::row::{object_fields, Fields, Row};
use crate::scan::{all_high, is_ascii_mark, lemma_encode_scalar_marks, lemma_encode_utf8_push};

verus! {

/// `handlebars::Handlebars`, the engine's registry of compiled templates.
#[verifier::external_type_specification]
#[verifier::external_body]
pub struct ExHandlebars<'reg>(handlebars::Handlebars<'reg>);

/// The templates of a registry: each name with the source bound to it.
pub type Templates = Map<Seq<char>, Seq<char>>;

/// A rendered text, or nothing where the rendering failed.
pub type TextOutcome = Option<Seq<char>>;

/// The templates that a registry made by this module holds.
pub uninterp spec fn registered(registry: handlebars::Handlebars<'static>) -> Templates;

/// What the engine answers when it is asked to compile `source` under
/// `name`: `None` where it accepts the source, else its diagnostic.
pub uninterp spec fn compile_diagnostic(name: Seq<char>, source: Seq<char>) -> Option<Seq<char>>;

/// Whether a registry made by this module writes every value as it is,
/// without escaping.
pub uninterp spec fn writes_plain(registry: handlebars::Handlebars<'static>) -> bool;

/// What a registry that writes values as they are renders for the template
/// `name` of `templates` against `fields`: the text, or nothing where the
/// rendering fails.
pub uninterp spec fn render_text(
    templates: Templates,
    name: Seq<char>,
    fields: Fields,
) -> TextOutcome;

/// Calls `Handlebars::new`, which makes a registry with the engine's default
/// settings and built-in helpers, and without templates. By default the
/// engine escapes the values it writes, as for HTML.
#[verifier::external_body]
fn registry_new() -> (registry: handlebars::Handlebars<'static>)
    ensures
        registered(registry) == Templates::empty(),
{
    handlebars::Handlebars::new()
}

/// Calls `Handlebars::register_escape_fn` with the engine's `no_escape`.
/// The registry then writes every value as it is; its templates stay.
#[verifier::external_body]
fn registry_write_plain(registry: &mut handlebars::Handlebars<'static>)
    ensures
        writes_plain(*final(registry)),
        registered(*final(registry)) == registered(*old(registry)),
{
    registry.register_escape_fn(handlebars::no_escape);
}

/// Calls `Handlebars::register_template_string`. The engine compiles
/// `source`; where it accepts it, the registry binds it to `name`, in place
/// of what `name` had before, and `None` comes back. Where it does not, the
/// registry stays as it was and the engine's diagnostic comes back.
#[verifier::external_body]
fn registry_register(
    registry: &mut handlebars::Handlebars<'static>,
    name: &str,
    source: &str,
) -> (diagnostic: Option<String>)
    ensures
        diagnostic.deep_view() == compile_diagnostic(name@, source@),
        diagnostic.is_none() ==> registered(*final(registry)) == registered(*old(registry)).insert(
            name@,
            source@,
        ),
        diagnostic.is_some() ==> registered(*final(registry)) == registered(*old(registry)),
        writes_plain(*final(registry)) == writes_plain(*old(registry)),
{
    match registry.register_template_string(name, source) {
        Ok(()) => None,
        Err(error) => Some(error.to_string()),
    }
}

/// Calls `Handlebars::render` with a row's JSON object as the data. The
/// result is the rendered text, or the reason that the engine gives for its
/// failure. Whether the rendering fails, and the text where it does not,
/// depend on the templates, the name and the data alone. The reason does
/// not: where two arguments of a helper call fail, the engine names the one
/// that it comes to first, in an order that it does not fix. Nothing is
/// said of the reason.
///
/// No template of the registry may include a partial: the engine does not
/// bound the depth of inclusions, and a template that includes itself from
/// inside a block would keep it rendering without end. The registry must
/// write values as they are, since `render_text` is the name of what such
/// a registry renders.
#[verifier::external_body]
fn registry_render(
    registry: &handlebars::Handlebars<'static>,
    name: &str,
    object: &serde_json::Map<String, serde_json::Value>,
) -> (outcome: Result<String, String>)
    requires
        partial_free(registered(*registry)),
        writes_plain(*registry),
    ensures
        outcome matches Ok(text) ==> render_text(
            registered(*registry),
            name@,
            object_fields(*object),
        ) == Some(text@),
        outcome is Err ==> render_text(
            registered(*registry),
            name@,
            object_fields(*object),
        ) is None,
{
    match registry.render(name, object) {
        Ok(text) => Ok(text),
        Err(error) => Err(error.reason().to_string()),
    }
}

/// Where a scan of a template source stands with respect to partial tags.
#[derive(Clone, Copy, Debug)]
pub enum TagState {
    /// Outside the opening of a tag.
    Text,
    /// After one opening brace.
    Brace,
    /// After two opening braces, with nothing since but what may stand
    /// before the `>` of a partial tag.
    Opening,
    /// A partial tag was found.
    Partial,
}

/// Whether a character may stand between the two opening braces of a tag
/// and the `>` that makes it a partial tag: a blank, a line end, `~`, `#`.
pub open spec fn precedes_partial_mark(mark: char) -> bool {
    ||| mark == ' '
    ||| mark == '\t'
    ||| mark == '\n'
    ||| mark == '\r'
    ||| mark == '~'
    ||| mark == '#'
}

/// The state after `mark` is read in `state`.
pub open spec fn tag_step(state: TagState, mark: char) -> TagState {
    match state {
        TagState::Partial => TagState::Partial,
        TagState::Text => if mark == '{' {
            TagState::Brace
        } else {
            TagState::Text
        },
        TagState::Brace => if mark == '{' {
            TagState::Opening
        } else {
            TagState::Text
        },
        TagState::Opening => if mark == '>' {
            TagState::Partial
        } else if mark == '{' || precedes_partial_mark(mark) {
            TagState::Opening
        } else {
            TagState::Text
        },
    }
}

/// The state after all of `source` is read.
pub open spec fn tag_state(source: Seq<char>) -> TagState
    decreases source.len(),
{
    if source.len() == 0 {
        TagState::Text
    } else {
        tag_step(tag_state(source.drop_last()), source.last())
    }
}

/// Whether a source holds what may be a partial tag: two opening braces and
/// then, after nothing but blanks, line ends, `~`, `#` and further opening
/// braces, a `>`. Every inclusion of a partial (`{{> name}}`,
/// `{{~> name}}`, `{{#> name}}`) has this form. So has such a tag where the
/// engine would take it for text, as in a comment or a raw block: the scan
/// does not tell these apart, and a source that holds one is refused too.
pub open spec fn includes_partial(source: Seq<char>) -> bool {
    tag_state(source) is Partial
}

/// No template includes a partial.
pub open spec fn partial_free(templates: Templates) -> bool {
    forall|name: Seq<char>| #[trigger]
        templates.contains_key(name) ==> !includes_partial(templates[name])
}

/// `tag_step` on the bytes of a source. A byte of 0x80 or above is part of
/// a character that is no mark.
spec fn tag_byte_step(state: TagState, byte: u8) -> TagState {
    if byte == 0x7b {
        tag_step(state, '{')
    } else if byte == 0x3e {
        tag_step(state, '>')
    } else if byte == 0x20 || byte == 0x09 || byte == 0x0a || byte == 0x0d || byte == 0x7e || byte
        == 0x23 {
        tag_step(state, ' ')
    } else {
        tag_step(state, 'x')
    }
}

/// `tag_state` on the bytes of a source.
spec fn tag_byte_state(bytes: Seq<u8>) -> TagState
    decreases bytes.len(),
{
    if bytes.len() == 0 {
        TagState::Text
    } else {
        tag_byte_step(tag_byte_state(bytes.drop_last()), bytes.last())
    }
}

/// The bytes of a character that is no ASCII character move the scan as
/// one character that is no mark.
proof fn lemma_tag_high_bytes(bytes: Seq<u8>, high: Seq<u8>)
    requires
        high.len() >= 1,
        all_high(high),
    ensures
        tag_byte_state(bytes + high) == tag_step(tag_byte_state(bytes), 'x'),
    decreases high.len(),
{
    let whole = bytes + high;
    assert(whole.last() == high.last());
    if high.len() == 1 {
        assert(whole.drop_last() =~= bytes);
    } else {
        assert(whole.drop_last() =~= bytes + high.drop_last());
        assert(all_high(high.drop_last())) by {
            assert forall|at: int| 0 <= at < high.drop_last().len() implies #[trigger] high
                .drop_last()[at] >= 0x80 by {
                assert(high[at] >= 0x80);
            }
        }
        lemma_tag_high_bytes(bytes, high.drop_last());
    }
}

/// The byte of an ASCII character moves the scan as the character does.
proof fn lemma_tag_ascii_step(state: TagState, mark: char)
    requires
        is_ascii_mark(mark),
    ensures
        tag_byte_step(state, mark as u8) == tag_step(state, mark),
{
    assert(mark == '{' <==> (mark as u8) == 0x7bu8);
    assert(mark == '>' <==> (mark as u8) == 0x3eu8);
    assert(mark == ' ' <==> (mark as u8) == 0x20u8);
    assert(mark == '\t' <==> (mark as u8) == 0x09u8);
    assert(mark == '\n' <==> (mark as u8) == 0x0au8);
    assert(mark == '\r' <==> (mark as u8) == 0x0du8);
    assert(mark == '~' <==> (mark as u8) == 0x7eu8);
    assert(mark == '#' <==> (mark as u8) == 0x23u8);
}

/// The scan of the bytes of a source ends in the state of the source.
proof fn lemma_tag_bytes(source: Seq<char>)
    ensures
        tag_byte_state(encode_utf8(source)) == tag_state(source),
    decreases source.len(),
{
    if source.len() == 0 {
        assert(encode_utf8(source) =~= Seq::<u8>::empty());
    } else {
        let front = source.drop_last();
        let last = source.last();
        assert(source =~= front.push(last));
        lemma_encode_utf8_push(front, last);
        lemma_encode_scalar_marks(last);
        lemma_tag_bytes(front);
        let bytes = encode_utf8(front);
        let tail = encode_scalar(last as u32);
        if is_ascii_mark(last) {
            assert((bytes + tail).drop_last() =~= bytes);
            assert((bytes + tail).last() == last as u8);
            lemma_tag_ascii_step(tag_state(front), last);
        } else {
            lemma_tag_high_bytes(bytes, tail);
        }
    }
}

/// The state after `byte` is read in `state`.
fn step_tag(state: TagState, byte: u8) -> (next: TagState)
    ensures
        next == tag_byte_step(state, byte),
{
    match state {
        TagState::Partial => TagState::Partial,
        TagState::Text => if byte == 0x7b {
            TagState::Brace
        } else {
            TagState::Text
        },
        TagState::Brace => if byte == 0x7b {
            TagState::Opening
        } else {
            TagState::Text
        },
        TagState::Opening => if byte == 0x3e {
            TagState::Partial
        } else if byte == 0x7b || byte == 0x20 || byte == 0x09 || byte == 0x0a || byte == 0x0d
            || byte == 0x7e || byte == 0x23 {
            TagState::Opening
        } else {
            TagState::Text
        },
    }
}

/// Whether `source` holds what may be a partial tag.
pub fn has_partial_tag(source: &str) -> (found: bool)
    ensures
        found == includes_partial(source@),
{
    let bytes = source.as_bytes();
    let mut state = TagState::Text;
    let mut at: usize = 0;
    while at < bytes.len()
        invariant
            at <= bytes.len(),
            bytes@ == source.spec_bytes(),
            state == tag_byte_state(bytes@.take(at as int)),
        decreases bytes.len() - at,
    {
        proof {
            assert(bytes@.take(at + 1).drop_last() =~= bytes@.take(at as int));
        }
        state = step_tag(state, bytes[at]);
        at += 1;
    }
    proof {
        assert(bytes@.take(at as int) =~= bytes@);
        lemma_tag_bytes(source@);
    }
    match state {
        TagState::Partial => true,
        _ => false,
    }
}

/// The diagnostic for a source that includes a partial.
pub const PARTIAL_REFUSED: &'static str = "partials are not supported: the template holds a partial tag";

/// What rendering the template `source`, compiled under `name`, against
/// `fields` gives: the text, or nothing where the rendering fails.
pub open spec fn rendered(name: Seq<char>, source: Seq<char>, fields: Fields) -> TextOutcome {
    render_text(Templates::empty().insert(name, source), name, fields)
}

/// A template that the engine did not accept.
#[derive(Debug, PartialEq, Eq)]
pub struct TemplateCompileError {
    /// The name that the template was to be compiled under.
    pub template: String,
    /// The engine's diagnostic: where in the source it stopped, and why.
    pub message: String,
}

/// A row that a compiled template could not be rendered against.
#[derive(Debug, PartialEq, Eq)]
pub struct RenderError {
    /// The reason that the engine gives, for a reader. Where a template
    /// fails in more than one place, the engine may give the reason of any
    /// of them; no contract speaks of this text.
    pub message: String,
}

/// A refused template as the contracts see it.
pub struct CompileFailure {
    pub template: Seq<char>,
    pub message: Seq<char>,
}

impl View for TemplateCompileError {
    type V = CompileFailure;

    open spec fn view(&self) -> CompileFailure {
        CompileFailure { template: self.template@, message: self.message@ }
    }
}

/// What one rendering gives back, as the contracts see it: the text, or
/// nothing for a failure, whatever its reason.
pub open spec fn render_view(result: Result<String, RenderError>) -> TextOutcome {
    match result {
        Ok(text) => Some(text@),
        Err(_) => None,
    }
}

/// A compiled template as the contracts see it.
pub struct TemplateView {
    pub name: Seq<char>,
    pub source: Seq<char>,
}

/// What compiling `source` under `name` gives. A source that holds a
/// partial tag is refused, with `PARTIAL_REFUSED` as the diagnostic. Any
/// other gives the template, where the engine accepts the source, else the
/// engine's diagnostic.
pub open spec fn compiled(name: Seq<char>, source: Seq<char>) -> Result<
    TemplateView,
    CompileFailure,
> {
    if includes_partial(source) {
        Err(CompileFailure { template: name, message: PARTIAL_REFUSED@ })
    } else {
        match compile_diagnostic(name, source) {
            None => Ok(TemplateView { name, source }),
            Some(message) => Err(CompileFailure { template: name, message }),
        }
    }
}

/// What `compile` gave back, as the contracts see it.
pub open spec fn compile_view(result: Result<CompiledTemplate, TemplateCompileError>) -> Result<
    TemplateView,
    CompileFailure,
> {
    match result {
        Ok(template) => Ok(template@),
        Err(error) => Err(error@),
    }
}

/// A template that the engine accepted, bound to a name. It owns its
/// compiled form: nothing else can rebind the name.
pub struct CompiledTemplate {
    registry: handlebars::Handlebars<'static>,
    name: String,
    source: String,
}

impl View for CompiledTemplate {
    type V = TemplateView;

    closed spec fn view(&self) -> TemplateView {
        TemplateView { name: self.name@, source: self.source@ }
    }
}

impl CompiledTemplate {
    /// The registry holds this template under its name, and nothing else;
    /// the template includes no partial; and the registry writes values as
    /// they are.
    #[verifier::type_invariant]
    spec fn bound(self) -> bool {
        &&& registered(self.registry) == Templates::empty().insert(self.name@, self.source@)
        &&& !includes_partial(self.source@)
        &&& writes_plain(self.registry)
    }

    /// The name that the template is bound to.
    pub fn name(&self) -> (name: &str)
        ensures
            name@ == self@.name,
    {
        self.name.as_str()
    }

    /// The source that the template was compiled from.
    pub fn source(&self) -> (source: &str)
        ensures
            source@ == self@.source,
    {
        self.source.as_str()
    }

    /// Renders the template against `context`. Every value is written as
    /// it is, without escaping. A failure concerns this context only: the
    /// template can be rendered against others after it.
    pub fn render(&self, context: &Row) -> (result: Result<String, RenderError>)
        ensures
            render_view(result) == rendered(self@.name, self@.source, context@),
    {
        proof {
            use_type_invariant(self);
        }
        match registry_render(&self.registry, self.name.as_str(), context.as_object()) {
            Ok(text) => Ok(text),
            Err(message) => Err(RenderError { message }),
        }
    }
}

/// Compiles `source` and binds it to `name`. A source that holds a partial
/// tag is refused. For any other the engine decides whether it is a
/// template; its diagnostic is returned, never raised.
pub fn compile(name: &str, source: &str) -> (result: Result<
    CompiledTemplate,
    TemplateCompileError,
>)
    ensures
        compile_view(result) == compiled(name@, source@),
{
    if has_partial_tag(source) {
        return Err(
            TemplateCompileError { template: name.to_owned(), message: PARTIAL_REFUSED.to_owned() },
        );
    }
    let mut registry = registry_new();
    registry_write_plain(&mut registry);
    match registry_register(&mut registry, name, source) {
        None => Ok(CompiledTemplate { registry, name: name.to_owned(), source: source.to_owned() }),
        Some(message) => Err(TemplateCompileError { template: name.to_owned(), message }),
    }
}

} // verus!
