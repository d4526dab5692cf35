//! The single fatal-error taxonomy of the build pipeline.

use vstd::prelude::*;

verus! {

/// Mathematical model of a build error: the view of [`BuildError`].
pub enum ErrorV {
    DuplicateNoteId { id: Seq<char> },
    MissingIdentifierMetadata { path: Seq<char> },
    EmptyCorpus,
    MissingRequiredElement { element: Seq<char>, path: Seq<char> },
    MissingRequiredAttribute { tag: Seq<char>, path: Seq<char> },
    UnknownReferenceTarget { source: Seq<char>, target: Seq<char> },
    TransclusionCycle { chain: Seq<Seq<char>> },
    InternalInvariant { detail: Seq<char> },
    FilesystemFailure { path: Seq<char>, detail: Seq<char> },
}

/// A fatal build error. Every failure of the pipeline is one of these; the
/// build stops at the first one.
#[derive(Debug)]
pub enum BuildError {
    /// Two loaded documents declare the same note id.
    DuplicateNoteId { id: String },
    /// A document's head has no identifier meta tag.
    MissingIdentifierMetadata { path: String },
    /// No documents were given at all.
    EmptyCorpus,
    /// A required element (`head` or `body`) is absent from a document.
    MissingRequiredElement { element: String, path: String },
    /// A custom element lacks its required `target` attribute.
    MissingRequiredAttribute { tag: String, path: String },
    /// A transclusion, internal link or citation names a note id that does
    /// not exist; `source` names the referencing note or path.
    UnknownReferenceTarget { source: String, target: String },
    /// The transclusion graph is not acyclic; the chain lists the ids of one
    /// cycle, first id repeated at the end.
    TransclusionCycle { chain: Vec<String> },
    /// An internal consistency rule was broken; indicates a programming
    /// error, not a data error.
    InternalInvariant { detail: String },
    /// An I/O failure, tagged with the failing path.
    FilesystemFailure { path: String, detail: String },
}

impl View for BuildError {
    type V = ErrorV;

    open spec fn view(&self) -> ErrorV {
        match self {
            BuildError::DuplicateNoteId { id } => ErrorV::DuplicateNoteId { id: id@ },
            BuildError::MissingIdentifierMetadata { path } => ErrorV::MissingIdentifierMetadata {
                path: path@,
            },
            BuildError::EmptyCorpus => ErrorV::EmptyCorpus,
            BuildError::MissingRequiredElement { element, path } => ErrorV::MissingRequiredElement {
                element: element@,
                path: path@,
            },
            BuildError::MissingRequiredAttribute { tag, path } => ErrorV::MissingRequiredAttribute {
                tag: tag@,
                path: path@,
            },
            BuildError::UnknownReferenceTarget { source, target } => ErrorV::UnknownReferenceTarget {
                source: source@,
                target: target@,
            },
            BuildError::TransclusionCycle { chain } => ErrorV::TransclusionCycle {
                chain: chain.deep_view(),
            },
            BuildError::InternalInvariant { detail } => ErrorV::InternalInvariant {
                detail: detail@,
            },
            BuildError::FilesystemFailure { path, detail } => ErrorV::FilesystemFailure {
                path: path@,
                detail: detail@,
            },
        }
    }
}

/// The ids of `chain` joined with `sep` between them.
pub open spec fn join_spec(chain: Seq<Seq<char>>, sep: Seq<char>) -> Seq<char>
    decreases chain.len(),
{
    if chain.len() == 0 {
        Seq::empty()
    } else if chain.len() == 1 {
        chain[0]
    } else {
        join_spec(chain.drop_last(), sep) + sep + chain.last()
    }
}

/// Join a list of ids into one string with `sep` between them.
pub fn join_ids(chain: &Vec<String>, sep: &str) -> (r: String)
    ensures
        r@ == join_spec(chain.deep_view(), sep@),
{
    let mut out = String::new();
    let mut i: usize = 0;
    while i < chain.len()
        invariant
            0 <= i <= chain@.len(),
            out@ == join_spec(chain.deep_view().subrange(0, i as int), sep@),
        decreases chain@.len() - i,
    {
        if i > 0 {
            out.append(sep);
        }
        out.append(chain[i].as_str());
        proof {
            let dv = chain.deep_view();
            assert(dv.subrange(0, i + 1).drop_last() =~= dv.subrange(0, i as int));
            assert(dv.subrange(0, i + 1).last() == dv[i as int]);
            assert(dv[i as int] == chain[i as int]@);
        }
        i = i + 1;
    }
    proof {
        assert(chain.deep_view().subrange(0, chain@.len() as int) =~= chain.deep_view());
    }
    out
}

/// The human-readable description of an error.
pub open spec fn message_spec(e: ErrorV) -> Seq<char> {
    match e {
        ErrorV::DuplicateNoteId { id } => "duplicate note id "@ + id,
        ErrorV::MissingIdentifierMetadata { path } => "missing identifier meta tag in "@ + path,
        ErrorV::EmptyCorpus => "no note documents were given"@,
        ErrorV::MissingRequiredElement { element, path } => "missing <"@ + element + "> in "@
            + path,
        ErrorV::MissingRequiredAttribute { tag, path } => tag
            + " missing required attribute target in "@ + path,
        ErrorV::UnknownReferenceTarget { source, target } => "reference target "@ + target
            + " named by "@ + source + " does not exist"@,
        ErrorV::TransclusionCycle { chain } => "transclusion cycle detected: "@ + join_spec(
            chain,
            " -> "@,
        ),
        ErrorV::InternalInvariant { detail } => "internal consistency violation: "@ + detail,
        ErrorV::FilesystemFailure { path, detail } => "filesystem failure at "@ + path + ": "@
            + detail,
    }
}

impl BuildError {
    /// Render the error as one human-readable line.
    pub fn message(&self) -> (r: String)
        ensures
            r@ == message_spec(self@),
    {
        match self {
            BuildError::DuplicateNoteId { id } => {
                let mut out = String::from_str("duplicate note id ");
                out.append(id.as_str());
                out
            },
            BuildError::MissingIdentifierMetadata { path } => {
                let mut out = String::from_str("missing identifier meta tag in ");
                out.append(path.as_str());
                out
            },
            BuildError::EmptyCorpus => String::from_str("no note documents were given"),
            BuildError::MissingRequiredElement { element, path } => {
                let mut out = String::from_str("missing <");
                out.append(element.as_str());
                out.append("> in ");
                out.append(path.as_str());
                out
            },
            BuildError::MissingRequiredAttribute { tag, path } => {
                let mut out = String::from_str(tag.as_str());
                out.append(" missing required attribute target in ");
                out.append(path.as_str());
                out
            },
            BuildError::UnknownReferenceTarget { source, target } => {
                let mut out = String::from_str("reference target ");
                out.append(target.as_str());
                out.append(" named by ");
                out.append(source.as_str());
                out.append(" does not exist");
                out
            },
            BuildError::TransclusionCycle { chain } => {
                let mut out = String::from_str("transclusion cycle detected: ");
                let joined = join_ids(chain, " -> ");
                out.append(joined.as_str());
                out
            },
            BuildError::InternalInvariant { detail } => {
                let mut out = String::from_str("internal consistency violation: ");
                out.append(detail.as_str());
                out
            },
            BuildError::FilesystemFailure { path, detail } => {
                let mut out = String::from_str("filesystem failure at ");
                out.append(path.as_str());
                out.append(": ");
                out.append(detail.as_str());
                out
            },
        }
    }
}

/// The view of a string-or-error result.
pub open spec fn res_view(r: Result<String, BuildError>) -> Result<Seq<char>, ErrorV> {
    match r {
        Result::Ok(s) => Result::Ok(s@),
        Result::Err(e) => Result::Err(e@),
    }
}

} // verus!
