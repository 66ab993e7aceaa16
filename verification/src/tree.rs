//! The preprocessor's own model of parsed source: each file is a flat
//! stream of events over its directive tree, in document order, holding
//! plain values only. An outside parser produces the directive tree; an
//! adapter flattens it into this form before the driver runs, resolving
//! every inclusion directive eagerly to the index of its loaded unit (or
//! to the failure that loading it produced, surfaced only if the
//! inclusion is ever executed).

use vstd::prelude::*;

verus! {

/// A failure of preprocessing.
#[derive(Debug)]
pub enum PpError {
    /// The file named by an inclusion directive exists but could not be
    /// read.
    Io { path: Vec<u8> },
    /// A source file could not be parsed into a directive tree.
    Parse { path: Vec<u8> },
    /// No candidate for the named file exists under the current directory
    /// or any search root.
    FileNotFound { filename: Vec<u8> },
    /// Inclusions nest deeper than the loader's cap, as with a cyclic
    /// inclusion.
    TooDeep { path: Vec<u8> },
}

/// Model of a failure: the same cases over byte strings.
pub enum ErrorModel {
    Io { path: Seq<u8> },
    Parse { path: Seq<u8> },
    FileNotFound { filename: Seq<u8> },
    TooDeep { path: Seq<u8> },
}

impl View for PpError {
    type V = ErrorModel;

    open spec fn view(&self) -> ErrorModel {
        match self {
            PpError::Io { path } => ErrorModel::Io { path: path@ },
            PpError::Parse { path } => ErrorModel::Parse { path: path@ },
            PpError::FileNotFound { filename } => ErrorModel::FileNotFound { filename: filename@ },
            PpError::TooDeep { path } => ErrorModel::TooDeep { path: path@ },
        }
    }
}

/// An independent copy of a failure value.
pub fn clone_error(e: &PpError) -> (r: PpError)
    ensures
        r@ == e@,
{
    match e {
        PpError::Io { path } => PpError::Io { path: crate::text::clone_bytes(path) },
        PpError::Parse { path } => PpError::Parse { path: crate::text::clone_bytes(path) },
        PpError::FileNotFound { filename } => PpError::FileNotFound {
            filename: crate::text::clone_bytes(filename),
        },
        PpError::TooDeep { path } => PpError::TooDeep { path: crate::text::clone_bytes(path) },
    }
}

/// One `elsif` arm of a conditional chain: test `id`; the arm's group of
/// lines carries the label `body`.
#[derive(Debug)]
pub struct ElsifArm {
    pub id: Vec<u8>,
    pub body: u32,
}

/// One event of a file's directive stream.
#[derive(Debug)]
pub enum Event {
    /// Raw source text at `[begin, end)` of the unit's bytes, emitted
    /// verbatim when not skipped.
    SourceText { begin: usize, end: usize },
    /// `resetall`: forget every defined name.
    ResetAll,
    /// `undefineall`: forget every defined name.
    UndefineAll,
    /// Undefine one name; a no-op if it is not defined.
    Undefine { name: Vec<u8> },
    /// Record one name as defined. The definition body is opaque to the
    /// preprocessor and is not carried here.
    Define { name: Vec<u8> },
    /// A whole `ifdef`/`ifndef` chain, evaluated in full on entry against
    /// the macro table of that moment. `inverted` is true for `ifndef`.
    /// Each not-taken group of lines has its label scheduled for skipping.
    Cond {
        inverted: bool,
        first_id: Vec<u8>,
        first_body: u32,
        elsifs: Vec<ElsifArm>,
        else_body: Option<u32>,
    },
    /// Entering the group of lines labelled `body`.
    BodyEnter { body: u32 },
    /// Leaving the group of lines labelled `body`.
    BodyLeave { body: u32 },
    /// An inclusion directive: the index of the eagerly loaded unit, or
    /// the failure its loading produced. The failure surfaces only if the
    /// directive is executed unskipped, as a lazy loader would surface it.
    Inclusion { filename: Vec<u8>, loaded: Result<usize, PpError> },
}

/// One parsed source file: its path as handed to the preprocessor, its
/// raw bytes, and its directive event stream.
#[derive(Debug)]
pub struct SourceUnit {
    pub path: Vec<u8>,
    pub src: Vec<u8>,
    pub events: Vec<Event>,
}

/// A whole compilation unit: the root file and every file reachable from
/// it through inclusion directives, each parsed once per inclusion site.
/// Loaded units are ordered so that an inclusion in `units[i]` always
/// names a strictly later unit; inclusion chains therefore cannot cycle.
#[derive(Debug)]
pub struct CompilationUnit {
    pub units: Vec<SourceUnit>,
    pub root: usize,
}

/// Well-formedness of one event of the unit at index `self_idx`: source
/// spans lie within the unit's bytes, and a loaded inclusion names a
/// strictly later unit.
pub open spec fn event_wf(e: Event, src_len: int, self_idx: int, n_units: int) -> bool {
    match e {
        Event::SourceText { begin, end } => begin <= end <= src_len,
        Event::Inclusion { filename: _, loaded } => match loaded {
            Result::Ok(j) => self_idx < j < n_units,
            Result::Err(_) => true,
        },
        _ => true,
    }
}

pub open spec fn unit_wf(u: SourceUnit, self_idx: int, n_units: int) -> bool {
    forall|k: int|
        0 <= k < u.events@.len() ==> event_wf(
            #[trigger] u.events@[k],
            u.src@.len() as int,
            self_idx,
            n_units,
        )
}

pub open spec fn cu_wf(cu: CompilationUnit) -> bool {
    &&& cu.root < cu.units@.len()
    &&& forall|i: int|
        0 <= i < cu.units@.len() ==> unit_wf(
            #[trigger] cu.units@[i],
            i,
            cu.units@.len() as int,
        )
}

} // verus!
