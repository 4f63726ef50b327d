//! The calls into `erl_pp`, the Erlang preprocessor state machine, and the
//! plain values read off its events.
use crate::lex::{erl_scan, TokValue};
use crate::span::Span;
use erl_pp::{BranchBoundary as BB, Conditional as C, Event as E, IncludeKind as IK, Origin as O, PreprocessError as PE};
use self::EventClass::{
    AwaitingElif, AwaitingIf, AwaitingIfdef, AwaitingIfndef, AwaitingInclude, AwaitingIncludeLib, AwaitingMacroExpansion,
    Complete, Diagnostic, Else, Endif, MacroDefined, MacroUndefined, PreprocessError, Token,
};
use self::PpErrorKind::{
    ArityMismatch, CircularExpansion, DoubleElse, DuplicateParameter, ElifAfterElse, InvalidStringificationTarget,
    LeadingEmptyArgument, ParseUnexpectedEof, ParseUnexpectedToken, StrayElif, StrayElse, StrayEndif, TrailingEmptyArgument,
    UnclosedArgument, UnclosedConditional,
};
use erl_tokenize::TokenValue as V;
use vstd::prelude::*;

verus! {

#[verifier::external_type_specification]
#[verifier::external_body]
pub struct ExPreprocessor(erl_pp::Preprocessor);

#[verifier::external_type_specification]
#[verifier::external_body]
pub struct ExEvent(erl_pp::Event);

/// What kind of event the preprocessor reported: one variant per
/// `erl_pp::Event` variant, the include and conditional ones split by
/// their `IncludeKind` and `Conditional` variants.
#[derive(Debug, Clone, Copy, PartialEq, Eq, Structural)]
pub enum EventClass {
    /// A lexical token of the preprocessed stream.
    Token,
    /// A `-define` was applied.
    MacroDefined,
    /// A `-undef` was applied.
    MacroUndefined,
    /// Waiting for a file of an `-include` to be resolved.
    AwaitingInclude,
    /// Waiting for a file of an `-include_lib` to be resolved.
    AwaitingIncludeLib,
    /// Waiting for the decision of an `-ifdef`.
    AwaitingIfdef,
    /// Waiting for the decision of an `-ifndef`.
    AwaitingIfndef,
    /// Waiting for the decision of an `-if`.
    AwaitingIf,
    /// Waiting for the decision of an `-elif`.
    AwaitingElif,
    /// Waiting for an unknown macro to be expanded.
    AwaitingMacroExpansion,
    /// The scanner crossed a `-else`.
    Else,
    /// The scanner crossed a `-endif`.
    Endif,
    /// An `-error` / `-warning` directive.
    Diagnostic,
    /// An input-derived preprocessing error.
    PreprocessError,
    /// The whole input has been processed.
    Complete,
}

/// The variants of `erl_pp::PreprocessError`.
#[derive(Debug, Clone, Copy, PartialEq, Eq, Structural)]
pub enum PpErrorKind {
    ParseUnexpectedToken,
    ParseUnexpectedEof,
    DuplicateParameter,
    ArityMismatch,
    UnclosedArgument,
    LeadingEmptyArgument,
    TrailingEmptyArgument,
    InvalidStringificationTarget,
    CircularExpansion,
    StrayElse,
    StrayEndif,
    DoubleElse,
    UnclosedConditional,
    StrayElif,
    ElifAfterElse,
}

/// One input a driver gives the preprocessor: a step, or the response to
/// what it awaits (an empty included file named by the text, a conditional
/// arm, a macro's replacement: the source's name and its text).
pub enum PpInput {
    Step,
    SkipInclude(Seq<char>),
    Resume(bool),
    Expand(Seq<char>, Seq<char>),
}

/// An event of the preprocessor as plain values: its kind, the token it
/// carries (spelling, value, range in the source it was read from) and the
/// origin sites of that token, the directive's range, and the error's kind,
/// text field and range.
pub struct PpEventView {
    pub class: EventClass,
    pub token: Option<(Seq<char>, TokValue, Span)>,
    pub sites: Seq<Span>,
    pub directive: Option<Span>,
    pub error_kind: Option<PpErrorKind>,
    pub error_detail: Seq<char>,
    pub error_span: Option<Span>,
}

/// The event `erl_pp::Preprocessor::step` reports for the last input of
/// `inputs`, a step, when a preprocessor built over `text` with the display
/// name `path` has been given `inputs` in order; `None` when it reports a
/// protocol error. The machine is deterministic: nothing but these values
/// decides it.
pub uninterp spec fn pp_event(path: Seq<char>, text: Seq<char>, inputs: Seq<PpInput>) -> Option<PpEventView>;

/// Whether `erl_pp::Preprocessor::resume_include` accepts the last input
/// of `inputs` after the ones before it; see [`pp_event`].
pub uninterp spec fn pp_accepts_include(path: Seq<char>, text: Seq<char>, inputs: Seq<PpInput>) -> bool;

/// Whether `erl_pp::Preprocessor::resume_conditional` accepts the last
/// input of `inputs` after the ones before it; see [`pp_event`].
pub uninterp spec fn pp_accepts_branch(path: Seq<char>, text: Seq<char>, inputs: Seq<PpInput>) -> bool;

/// Whether `erl_pp::Preprocessor::resume_macro_expansion` accepts the last
/// input of `inputs` after the ones before it; see [`pp_event`].
pub uninterp spec fn pp_accepts_macro(path: Seq<char>, text: Seq<char>, inputs: Seq<PpInput>) -> bool;

/// A preprocessor with the inputs it has been given. Only the functions of
/// this module make or change one, so its inputs are always those that
/// brought the machine to its state.
pub struct PpMachine {
    pp: erl_pp::Preprocessor,
    last: Option<erl_pp::Event>,
    path: Ghost<Seq<char>>,
    text: Ghost<Seq<char>>,
    inputs: Ghost<Seq<PpInput>>,
}

impl PpMachine {
    /// The display name the machine was built with.
    pub closed spec fn path(&self) -> Seq<char> {
        self.path@
    }

    /// The text the machine was built over.
    pub closed spec fn text(&self) -> Seq<char> {
        self.text@
    }

    /// The inputs given so far, in order.
    pub closed spec fn inputs(&self) -> Seq<PpInput> {
        self.inputs@
    }

    /// Whether the last input was a step that reported an event.
    pub open spec fn stepped(&self) -> bool {
        &&& self.inputs().len() > 0
        &&& self.inputs().last() == PpInput::Step
        &&& pp_event(self.path(), self.text(), self.inputs()) is Some
    }

    /// The event of the last step.
    pub open spec fn event(&self) -> PpEventView {
        pp_event(self.path(), self.text(), self.inputs())->Some_0
    }
}

/// Builds a preprocessor over `text`, with `erl_pp::Source::from_text`
/// and `erl_pp::Preprocessor::new`.
///
/// Trusted: `from_text` scans with the same `erl_tokenize::scan_token` loop
/// as `scan_tokens`, so it fails only where [`erl_scan`] fails; otherwise a
/// preprocessor that has been given no input is returned.
#[verifier::external_body]
pub(crate) fn pp_new(path: &str, text: &str) -> (p: Option<PpMachine>)
    ensures
        erl_scan(text@) is Ok ==> p is Some,
        p matches Some(m) ==> m.path() == path@ && m.text() == text@ && m.inputs() == Seq::<PpInput>::empty(),
{
    let source = erl_pp::Source::from_text(path, text).ok()?;
    let pp = erl_pp::Preprocessor::new([source]);
    Some(PpMachine { pp, last: None, path: Ghost(path@), text: Ghost(text@), inputs: Ghost(Seq::empty()) })
}

/// `erl_pp::Preprocessor::clone` (and `Event::clone` of the last event): an
/// independent fork of the machine, which has had the same inputs.
#[verifier::external_body]
pub(crate) fn pp_clone(m: &PpMachine) -> (c: PpMachine)
    ensures
        c.path() == m.path() && c.text() == m.text() && c.inputs() == m.inputs(),
{
    PpMachine { pp: m.pp.clone(), last: m.last.clone(), path: m.path, text: m.text, inputs: m.inputs }
}

/// `erl_pp::Preprocessor::step`: the step is recorded, and it gives an
/// event exactly when [`pp_event`] names one (`false` on a protocol error).
#[verifier::external_body]
pub(crate) fn pp_step(m: &mut PpMachine) -> (ok: bool)
    ensures
        final(m).path() == old(m).path() && final(m).text() == old(m).text(),
        final(m).inputs() == old(m).inputs().push(PpInput::Step),
        ok == pp_event(old(m).path(), old(m).text(), final(m).inputs()) is Some,
{
    m.inputs = Ghost(m.inputs@.push(PpInput::Step));
    m.last = m.pp.step().ok();
    m.last.is_some()
}

/// `erl_pp::Preprocessor::resume_include` with an empty source named
/// `name`, which skips the included file; `false` on a protocol error.
#[verifier::external_body]
pub(crate) fn pp_skip_include(m: &mut PpMachine, name: &str) -> (ok: bool)
    ensures
        final(m).path() == old(m).path() && final(m).text() == old(m).text(),
        final(m).inputs() == old(m).inputs().push(PpInput::SkipInclude(name@)),
        ok == pp_accepts_include(old(m).path(), old(m).text(), final(m).inputs()),
{
    m.inputs = Ghost(m.inputs@.push(PpInput::SkipInclude(name@)));
    m.pp.resume_include(erl_pp::Source::new(name, "", Vec::new())).is_ok()
}

/// `erl_pp::Preprocessor::resume_conditional` with `Branch::Then` when
/// `then` holds and `Branch::Else` otherwise; `false` on a protocol error.
#[verifier::external_body]
pub(crate) fn pp_resume_conditional(m: &mut PpMachine, then: bool) -> (ok: bool)
    ensures
        final(m).path() == old(m).path() && final(m).text() == old(m).text(),
        final(m).inputs() == old(m).inputs().push(PpInput::Resume(then)),
        ok == pp_accepts_branch(old(m).path(), old(m).text(), final(m).inputs()),
{
    m.inputs = Ghost(m.inputs@.push(PpInput::Resume(then)));
    let branch = if then { erl_pp::Branch::Then } else { erl_pp::Branch::Else };
    m.pp.resume_conditional(branch).is_ok()
}

/// `erl_pp::Preprocessor::resume_macro_expansion` with a source named
/// `name` holding `text`, scanned by `erl_pp::Source::from_text`; `false`
/// when the text does not scan or on a protocol error.
#[verifier::external_body]
pub(crate) fn pp_expand_macro(m: &mut PpMachine, name: &str, text: &str) -> (ok: bool)
    ensures
        final(m).path() == old(m).path() && final(m).text() == old(m).text(),
        final(m).inputs() == old(m).inputs().push(PpInput::Expand(name@, text@)),
        ok == pp_accepts_macro(old(m).path(), old(m).text(), final(m).inputs()),
{
    m.inputs = Ghost(m.inputs@.push(PpInput::Expand(name@, text@)));
    match erl_pp::Source::from_text(name, text) {
        Ok(source) => m.pp.resume_macro_expansion(source).is_ok(),
        Err(_) => false,
    }
}

/// The kind of the last event: the variants of `erl_pp::Event` told apart,
/// one arm each, those of its `IncludeDirective` kind and its `Conditional`
/// included.
#[verifier::external_body]
pub(crate) fn event_class(m: &PpMachine) -> (c: EventClass)
    requires
        m.stepped(),
    ensures
        c == m.event().class,
{
    match m.last.as_ref().unwrap() {
        E::Token(_) => Token, E::MacroDefined(_) => MacroDefined, E::MacroUndefined(_) => MacroUndefined,
        E::AwaitingInclude(d) => match d.kind { IK::Include => AwaitingInclude, IK::IncludeLib => AwaitingIncludeLib },
        E::AwaitingConditional(c) => match c {
            C::Ifdef(_) => AwaitingIfdef, C::Ifndef(_) => AwaitingIfndef, C::If(_) => AwaitingIf, C::Elif(_) => AwaitingElif,
        },
        E::AwaitingMacroExpansion(_) => AwaitingMacroExpansion,
        E::BranchBoundary(BB::Else { .. }) => Else, E::BranchBoundary(BB::Endif { .. }) => Endif,
        E::Diagnostic(_) => Diagnostic, E::PreprocessError(_) => PreprocessError, E::Complete => Complete,
    }
}

/// The token of the last event, when it is a `Token` event: its spelling
/// (`SourceToken::text`), its decoded value (`SourceToken::value`, one arm
/// per variant read) and its range in the source it was read from
/// (`SourceToken::source_span`).
#[verifier::external_body]
pub(crate) fn event_token(m: &PpMachine) -> (r: Option<(String, TokValue, Span)>)
    requires
        m.stepped(),
    ensures
        match r {
            Some((s, v, sp)) => m.event().token == Some((s@, v, sp)),
            None => m.event().token is None,
        },
{
    let Some(E::Token(st)) = m.last.as_ref() else { return None };
    let value = match st.value() {
        V::Atom(a) => TokValue::Atom(a.into_owned()), V::Integer(n) => TokValue::Integer(n),
        V::String(s) => TokValue::Str(s.into_owned()), V::Variable(_) => TokValue::Var, _ => TokValue::Other,
    };
    let span = Span { start: st.source_span().start.offset(), end: st.source_span().end.offset() };
    Some((st.text().to_string(), value, span))
}

/// The sites that lead from the token of the last event back to the
/// original file: for each link of its `erl_pp::Origin` chain, up to
/// `Origin::Source`, the site of the file inclusion or the macro call
/// recorded there (none for another event).
#[verifier::external_body]
pub(crate) fn event_token_sites(m: &PpMachine) -> (sites: Vec<Span>)
    requires
        m.stepped(),
    ensures
        sites@ == m.event().sites,
{
    let (mut sites, mut origin) = (Vec::new(), match m.last.as_ref() { Some(E::Token(st)) => st.origin(), _ => &O::Source });
    loop {
        let (parent, site) = match origin {
            O::Source => return sites,
            O::Include { parent, include_site, .. } => (parent, include_site),
            O::MacroBody { parent, call_site, .. } | O::MacroArgument { parent, call_site, .. } | O::Stringification { parent, call_site, .. } | O::SourceInfo { parent, call_site, .. } | O::CallerExpansion { parent, call_site, .. } => (parent, call_site),
        };
        sites.push(Span { start: site.start.offset(), end: site.end.offset() });
        origin = parent;
    }
}

/// The byte range of the directive of the last event, when it is an
/// `AwaitingInclude` or `MacroDefined` event (`directive_span`), in the
/// source it was read from.
#[verifier::external_body]
pub(crate) fn event_directive_span(m: &PpMachine) -> (s: Option<Span>)
    requires
        m.stepped(),
    ensures
        s == m.event().directive,
{
    let span = match m.last.as_ref() { Some(E::AwaitingInclude(d)) => d.directive_span, Some(E::MacroDefined(d)) => d.directive_span, _ => return None };
    Some(Span { start: span.start.offset(), end: span.end.offset() })
}

/// The variant of the `erl_pp::PreprocessError` of the last event, when it
/// is a `PreprocessError` event, one arm each.
#[verifier::external_body]
pub(crate) fn event_error_kind(m: &PpMachine) -> (k: Option<PpErrorKind>)
    requires
        m.stepped(),
    ensures
        k == m.event().error_kind,
{
    let Some(E::PreprocessError(e)) = m.last.as_ref() else { return None };
    Some(match e {
        PE::ParseUnexpectedToken { .. } => ParseUnexpectedToken, PE::ParseUnexpectedEof { .. } => ParseUnexpectedEof,
        PE::DuplicateParameter { .. } => DuplicateParameter, PE::ArityMismatch { .. } => ArityMismatch,
        PE::UnclosedArgument { .. } => UnclosedArgument, PE::LeadingEmptyArgument { .. } => LeadingEmptyArgument,
        PE::TrailingEmptyArgument { .. } => TrailingEmptyArgument, PE::InvalidStringificationTarget { .. } => InvalidStringificationTarget,
        PE::CircularExpansion { .. } => CircularExpansion, PE::StrayElse { .. } => StrayElse,
        PE::StrayEndif { .. } => StrayEndif, PE::DoubleElse { .. } => DoubleElse,
        PE::UnclosedConditional { .. } => UnclosedConditional, PE::StrayElif { .. } => StrayElif,
        PE::ElifAfterElse { .. } => ElifAfterElse,
    })
}

/// The text field of the `erl_pp::PreprocessError` of the last event:
/// `expected` of the two parse errors, the macro name of
/// `DuplicateParameter`, `ArityMismatch` and `CircularExpansion`, and the
/// empty string otherwise.
#[verifier::external_body]
pub(crate) fn event_error_detail(m: &PpMachine) -> (d: String)
    requires
        m.stepped(),
    ensures
        d@ == m.event().error_detail,
{
    match m.last.as_ref() {
        Some(E::PreprocessError(PE::ParseUnexpectedToken { expected, .. } | PE::ParseUnexpectedEof { expected, .. })) => expected.clone(),
        Some(E::PreprocessError(PE::DuplicateParameter { name, .. } | PE::ArityMismatch { name, .. })) => name.as_str().to_string(),
        Some(E::PreprocessError(PE::CircularExpansion { name, .. })) => name.clone(),
        _ => String::new(),
    }
}

/// The byte range of the `erl_pp::PreprocessError` of the last event, when
/// it is a `PreprocessError` event (`PreprocessError::span`), in the source
/// it lies in.
#[verifier::external_body]
pub(crate) fn event_error_span(m: &PpMachine) -> (s: Option<Span>)
    requires
        m.stepped(),
    ensures
        s == m.event().error_span,
{
    let Some(E::PreprocessError(e)) = m.last.as_ref() else { return None };
    Some(Span { start: e.span().start.offset(), end: e.span().end.offset() })
}

} // verus!
