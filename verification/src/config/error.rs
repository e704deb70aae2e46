//! What can be wrong with a configuration.
//!
//! Callers act differently on each: a missing preset reference falls back to raw passthrough
//! and warns, an unreadable file is fatal at startup but recoverable on reload.

use crate::text::{decimal, number, owned};
use vstd::prelude::*;
use vstd::string::*;

verus! {

#[derive(Debug)]
pub enum Error {
    Read { path: String, source: String },
    Write { path: String, source: String },
    Parse { path: String, message: String },
    SchemaTooNew { path: String, found: u32, max: u32 },
    NoMigration { path: String, from: u32 },
    /// A mode with a missing preset refuses to activate and falls back to raw passthrough
    /// rather than silently substituting something else.
    DanglingPreset { profile: String, mode: usize, preset: String },
    BadSlug { what: String, name: String },
    BadOverrideKey { key: String },
}

/// The view of an [`Error`].
pub enum ErrorView {
    Read { path: Seq<char>, source: Seq<char> },
    Write { path: Seq<char>, source: Seq<char> },
    Parse { path: Seq<char>, message: Seq<char> },
    SchemaTooNew { path: Seq<char>, found: u32, max: u32 },
    NoMigration { path: Seq<char>, from: u32 },
    DanglingPreset { profile: Seq<char>, mode: int, preset: Seq<char> },
    BadSlug { what: Seq<char>, name: Seq<char> },
    BadOverrideKey { key: Seq<char> },
}

impl View for Error {
    type V = ErrorView;

    open spec fn view(&self) -> ErrorView {
        match *self {
            Error::Read { path, source } => ErrorView::Read { path: path@, source: source@ },
            Error::Write { path, source } => ErrorView::Write { path: path@, source: source@ },
            Error::Parse { path, message } => ErrorView::Parse { path: path@, message: message@ },
            Error::SchemaTooNew { path, found, max } => ErrorView::SchemaTooNew {
                path: path@,
                found,
                max,
            },
            Error::NoMigration { path, from } => ErrorView::NoMigration { path: path@, from },
            Error::DanglingPreset { profile, mode, preset } => ErrorView::DanglingPreset {
                profile: profile@,
                mode: mode as int,
                preset: preset@,
            },
            Error::BadSlug { what, name } => ErrorView::BadSlug { what: what@, name: name@ },
            Error::BadOverrideKey { key } => ErrorView::BadOverrideKey { key: key@ },
        }
    }
}

/// The views of a list of errors.
pub open spec fn error_views(list: Seq<Error>) -> Seq<ErrorView> {
    list.map_values(|e: Error| e@)
}

/// The sentence that names an error.
pub open spec fn error_text(e: ErrorView) -> Seq<char> {
    match e {
        ErrorView::Read { path, source } => "reading "@ + path + ": "@ + source,
        ErrorView::Write { path, source } => "writing "@ + path + ": "@ + source,
        ErrorView::Parse { path, message } => path + ": "@ + message,
        ErrorView::SchemaTooNew { path, found, max } => path + ": schema version "@ + decimal(
            found as nat,
        ) + " is newer than this build understands ("@ + decimal(max as nat) + ")"@,
        ErrorView::NoMigration { path, from } => path + ": no migration path from schema version "@
            + decimal(from as nat),
        ErrorView::DanglingPreset { profile, mode, preset } => "profile '"@ + profile + "' mode "@
            + decimal(mode as nat) + " references preset '"@ + preset
            + "', which does not exist"@,
        ErrorView::BadSlug { what, name } => what + " '"@ + name
            + "' is not a valid slug (expect kebab-case, filesystem-safe)"@,
        ErrorView::BadOverrideKey { key } => "override key '"@ + key
            + "' is malformed; expected <preset>.<stage>.<param>"@,
    }
}

impl Error {
    /// The error as a sentence.
    pub fn message(&self) -> (s: String)
        ensures
            s@ == error_text(self@),
    {
        match self {
            Error::Read { path, source } => owned("reading ").concat(path.as_str()).concat(
                ": ",
            ).concat(source.as_str()),
            Error::Write { path, source } => owned("writing ").concat(path.as_str()).concat(
                ": ",
            ).concat(source.as_str()),
            Error::Parse { path, message } => owned(path.as_str()).concat(": ").concat(
                message.as_str(),
            ),
            Error::SchemaTooNew { path, found, max } => owned(path.as_str()).concat(
                ": schema version ",
            ).concat(number(*found as u64).as_str()).concat(
                " is newer than this build understands (",
            ).concat(number(*max as u64).as_str()).concat(")"),
            Error::NoMigration { path, from } => owned(path.as_str()).concat(
                ": no migration path from schema version ",
            ).concat(number(*from as u64).as_str()),
            Error::DanglingPreset { profile, mode, preset } => owned("profile '").concat(
                profile.as_str(),
            ).concat("' mode ").concat(number(*mode as u64).as_str()).concat(
                " references preset '",
            ).concat(preset.as_str()).concat("', which does not exist"),
            Error::BadSlug { what, name } => owned(what.as_str()).concat(" '").concat(
                name.as_str(),
            ).concat("' is not a valid slug (expect kebab-case, filesystem-safe)"),
            Error::BadOverrideKey { key } => owned("override key '").concat(key.as_str()).concat(
                "' is malformed; expected <preset>.<stage>.<param>",
            ),
        }
    }
}

/// Every error about a file names the file, and says what is wrong with it.
pub proof fn law_an_error_names_its_file(path: Seq<char>, why: Seq<char>, n: u32)
    ensures
        error_text(ErrorView::Read { path, source: why }) == "reading "@ + path + ": "@ + why,
        error_text(ErrorView::Write { path, source: why }) == "writing "@ + path + ": "@ + why,
        error_text(ErrorView::Parse { path, message: why }) == path + ": "@ + why,
        path.is_prefix_of(error_text(ErrorView::SchemaTooNew { path, found: n, max: 1 })),
        path.is_prefix_of(error_text(ErrorView::NoMigration { path, from: n })),
        error_text(ErrorView::Read { path, source: why }) != error_text(
            ErrorView::Write { path, source: why },
        ),
{
    reveal_strlit("reading ");
    reveal_strlit("writing ");
    let a = error_text(ErrorView::Read { path, source: why });
    let b = error_text(ErrorView::Write { path, source: why });
    assert(a[0] == 'r' && b[0] == 'w');
    let c = error_text(ErrorView::SchemaTooNew { path, found: n, max: 1 });
    assert(c.take(path.len() as int) =~= path);
    let d = error_text(ErrorView::NoMigration { path, from: n });
    assert(d.take(path.len() as int) =~= path);
}

} // verus!
