//! What a macro gives back: generated code, and errors to report.

use proc_macro2::TokenStream;
use vstd::prelude::*;

use crate::tokens::{tokens, Token};

verus! {

/// An error to report to the user of a macro.
#[derive(Debug)]
pub struct Diagnostic {
    /// The tokens that the error is about.
    pub at: TokenStream,
    /// What is wrong.
    pub message: String,
}

/// What a [`Diagnostic`] is.
pub struct DiagnosticView {
    pub at: Seq<Token>,
    pub message: Seq<char>,
}

impl View for Diagnostic {
    type V = DiagnosticView;

    open spec fn view(&self) -> DiagnosticView {
        DiagnosticView { at: tokens(self.at), message: self.message@ }
    }
}

/// What diagnostics are, in order.
pub open spec fn reports(diagnostics: Seq<Diagnostic>) -> Seq<DiagnosticView> {
    diagnostics.map_values(|diagnostic: Diagnostic| diagnostic@)
}

/// What a macro gives back.
#[derive(Debug)]
pub struct Expansion {
    /// The code that takes the place of the macro call, or is put behind the
    /// item that the macro derives from.
    pub tokens: TokenStream,
    /// The errors to report, in order.
    pub diagnostics: Vec<Diagnostic>,
}

/// What an [`Expansion`] is.
pub struct ExpansionView {
    pub tokens: Seq<Token>,
    pub diagnostics: Seq<DiagnosticView>,
}

impl View for Expansion {
    type V = ExpansionView;

    open spec fn view(&self) -> ExpansionView {
        ExpansionView { tokens: tokens(self.tokens), diagnostics: reports(self.diagnostics@) }
    }
}

} // verus!
