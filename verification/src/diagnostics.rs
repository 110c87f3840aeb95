//! A small internal diagnostics abstraction, so engine/search code can
//! report what it's doing without knowing anything about UCI text
//! formatting or how (or whether) a diagnostic ends up visible.
//!
//! No UCI strings may appear below the UCI adapter -- that includes
//! diagnostics. Core/search code emits through `Diagnostics::emit`; only
//! `crate::uci` decides whether and how an emitted diagnostic becomes an
//! `info string ...` line (gated on `debug on`/`off`).
//!
//! This is deliberately not a general logging/tracing framework: no
//! per-node search logging belongs here, and normal search progress (depth,
//! score, nodes, PV) belongs in real UCI `info` fields.

use vstd::prelude::*;

verus! {

/// How significant a diagnostic is. All emitted diagnostics are equally
/// visible when debug mode is on, but call sites should still pick the level
/// that actually describes the message.
#[derive(Debug, Clone, Copy, PartialEq, Eq, PartialOrd, Ord, Hash, Structural)]
pub enum DiagnosticLevel {
    Debug,
    Info,
    Warn,
    Error,
}

/// One emitted diagnostic.
#[derive(Debug, Clone, PartialEq, Eq)]
pub struct Diagnostic {
    pub level: DiagnosticLevel,
    pub message: String,
}

/// What a diagnostic says.
pub struct DiagnosticView {
    pub level: DiagnosticLevel,
    pub message: Seq<char>,
}

impl View for Diagnostic {
    type V = DiagnosticView;

    open spec fn view(&self) -> DiagnosticView {
        DiagnosticView { level: self.level, message: self.message@ }
    }
}

/// What several diagnostics say.
pub open spec fn diagnostic_views(diagnostics: Seq<Diagnostic>) -> Seq<DiagnosticView> {
    Seq::new(diagnostics.len(), |i: int| diagnostics[i]@)
}

/// Something that can receive diagnostics from engine/search code.
///
/// Use this for occasional, human-readable status messages: "position
/// set to startpos", "ignored unknown command: foo", "search
/// cancelled". Do **not** use it for per-node search progress, and do
/// not use it as a substitute for real UCI `info` fields.
pub trait Diagnostics {
    /// The diagnostics received and not yet taken out, in emission order.
    spec fn received(&self) -> Seq<DiagnosticView>;

    fn emit<M: Into<String>>(&mut self, level: DiagnosticLevel, message: M)
        ensures
            exists|text: String|
                #[trigger] call_ensures(<M as Into<String>>::into, (message,), text)
                    && final(self).received() == old(self).received().push(
                    DiagnosticView { level, message: text@ },
                ),
    ;
}

/// A `Diagnostics` implementation that buffers emitted diagnostics in
/// memory until something drains them. Buffering rather than emitting
/// immediately keeps whoever emits from needing to know whether debug mode is
/// on, or what a UCI adapter even is.
#[derive(Debug)]
pub struct DiagnosticBuffer {
    diagnostics: Vec<Diagnostic>,
}

impl View for DiagnosticBuffer {
    type V = Seq<DiagnosticView>;

    closed spec fn view(&self) -> Seq<DiagnosticView> {
        diagnostic_views(self.diagnostics@)
    }
}

impl DiagnosticBuffer {
    /// An empty buffer.
    #[must_use]
    pub fn new() -> (buffer: DiagnosticBuffer)
        ensures
            buffer@ == Seq::<DiagnosticView>::empty(),
    {
        let buffer = DiagnosticBuffer { diagnostics: Vec::new() };
        assert(buffer@ =~= Seq::<DiagnosticView>::empty());
        buffer
    }

    /// Adds a diagnostic with the given text.
    pub fn push(&mut self, level: DiagnosticLevel, message: String)
        ensures
            final(self)@ == old(self)@.push(DiagnosticView { level, message: message@ }),
    {
        let diagnostic = Diagnostic { level, message };
        proof {
            assert(diagnostic_views(self.diagnostics@.push(diagnostic)) =~= diagnostic_views(
                self.diagnostics@,
            ).push(diagnostic@));
        }
        self.diagnostics.push(diagnostic);
    }

    /// Removes and returns every diagnostic emitted since the last
    /// drain, in emission order.
    pub fn drain(&mut self) -> (diagnostics: Vec<Diagnostic>)
        ensures
            diagnostic_views(diagnostics@) == old(self)@,
            final(self)@ == Seq::<DiagnosticView>::empty(),
    {
        let mut taken: Vec<Diagnostic> = Vec::new();
        std::mem::swap(&mut self.diagnostics, &mut taken);
        assert(self@ =~= Seq::<DiagnosticView>::empty());
        taken
    }
}

impl Default for DiagnosticBuffer {
    fn default() -> (buffer: DiagnosticBuffer)
        ensures
            buffer@ == Seq::<DiagnosticView>::empty(),
    {
        DiagnosticBuffer::new()
    }
}

impl Diagnostics for DiagnosticBuffer {
    open spec fn received(&self) -> Seq<DiagnosticView> {
        self@
    }

    fn emit<M: Into<String>>(&mut self, level: DiagnosticLevel, message: M) {
        let text: String = message.into();
        assert(call_ensures(<M as Into<String>>::into, (message,), text));
        self.push(level, text);
    }
}

} // verus!
