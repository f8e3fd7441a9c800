//! Function registrations and the table of defined functions.

use vstd::prelude::*;

use crate::source::{SourceInfo, SourcePosition};
use crate::text;

verus! {

/// A registered shell function: where its definition starts, the source it came from,
/// and its attributes.
#[derive(Debug)]
pub struct Registration {
    definition_start: Option<SourcePosition>,
    source_info: SourceInfo,
    exported: bool,
    readonly: bool,
    traced: bool,
}

/// The model of a registration.
pub struct RegistrationView {
    /// Where the definition starts in its source, if known.
    pub definition_start: Option<SourcePosition>,
    /// The source's name.
    pub source: Seq<char>,
    /// The source's start position.
    pub source_start: Option<SourcePosition>,
    /// Whether the function is exported.
    pub exported: bool,
    /// Whether the function is readonly.
    pub readonly: bool,
    /// Whether the function is traced.
    pub traced: bool,
}

impl Registration {
    /// The model of this registration.
    pub closed spec fn view(&self) -> RegistrationView {
        RegistrationView {
            definition_start: self.definition_start,
            source: self.source_info.source@,
            source_start: self.source_info.start,
            exported: self.exported,
            readonly: self.readonly,
            traced: self.traced,
        }
    }

    /// Registers a function whose definition starts at `definition_start` (if known), from
    /// the given source, with no attributes.
    pub fn new(definition_start: Option<SourcePosition>, source_info: &SourceInfo) -> (r: Self)
        ensures
            r@ == (RegistrationView {
                definition_start,
                source: source_info.source@,
                source_start: source_info.start,
                exported: false,
                readonly: false,
                traced: false,
            }),
    {
        Registration {
            definition_start,
            source_info: source_info.duplicate(),
            exported: false,
            readonly: false,
            traced: false,
        }
    }

    /// Where the definition starts in its source, if known.
    pub fn definition_start(&self) -> (r: Option<SourcePosition>)
        ensures
            r == self@.definition_start,
    {
        self.definition_start
    }

    /// The source the function came from.
    pub fn source(&self) -> (r: &SourceInfo)
        ensures
            r.source@ == self@.source,
            r.start == self@.source_start,
    {
        &self.source_info
    }

    /// Returns a copy of this registration.
    pub fn duplicate(&self) -> (r: Self)
        ensures
            r@ == self@,
    {
        Registration {
            definition_start: self.definition_start,
            source_info: self.source_info.duplicate(),
            exported: self.exported,
            readonly: self.readonly,
            traced: self.traced,
        }
    }

    /// Marks the function as exported.
    pub fn export(&mut self)
        ensures
            final(self)@ == (RegistrationView { exported: true, ..old(self)@ }),
    {
        self.exported = true;
    }

    /// Unmarks the function as exported.
    pub fn unexport(&mut self)
        ensures
            final(self)@ == (RegistrationView { exported: false, ..old(self)@ }),
    {
        self.exported = false;
    }

    /// Returns whether the function is exported.
    pub fn is_exported(&self) -> (r: bool)
        ensures
            r == self@.exported,
    {
        self.exported
    }

    /// Marks the function as readonly.
    pub fn set_readonly(&mut self)
        ensures
            final(self)@ == (RegistrationView { readonly: true, ..old(self)@ }),
    {
        self.readonly = true;
    }

    /// Returns whether the function is readonly.
    pub fn is_readonly(&self) -> (r: bool)
        ensures
            r == self@.readonly,
    {
        self.readonly
    }

    /// Enables tracing of the function.
    pub fn enable_trace(&mut self)
        ensures
            final(self)@ == (RegistrationView { traced: true, ..old(self)@ }),
    {
        self.traced = true;
    }

    /// Disables tracing of the function.
    pub fn disable_trace(&mut self)
        ensures
            final(self)@ == (RegistrationView { traced: false, ..old(self)@ }),
    {
        self.traced = false;
    }

    /// Returns whether the function is traced.
    pub fn is_trace_enabled(&self) -> (r: bool)
        ensures
            r == self@.traced,
    {
        self.traced
    }

    /// The function's attribute flags: `f`, then `r` if readonly, `t` if traced, `x` if
    /// exported.
    pub fn attribute_flags(&self) -> (r: String)
        ensures
            r@ == seq!['f'] + (if self@.readonly { seq!['r'] } else { Seq::empty() }) + (if self@.traced {
                seq!['t']
            } else {
                Seq::empty()
            }) + (if self@.exported { seq!['x'] } else { Seq::empty() }),
    {
        let mut flags = String::new();
        text::push_char(&mut flags, 'f');
        if self.readonly {
            text::push_char(&mut flags, 'r');
        }
        if self.traced {
            text::push_char(&mut flags, 't');
        }
        if self.exported {
            text::push_char(&mut flags, 'x');
        }
        proof {
            assert(flags@ =~= seq!['f'] + (if self@.readonly { seq!['r'] } else { Seq::empty() }) + (if self@.traced {
                seq!['t']
            } else {
                Seq::empty()
            }) + (if self@.exported { seq!['x'] } else { Seq::empty() }));
        }
        flags
    }
}

} // verus!
