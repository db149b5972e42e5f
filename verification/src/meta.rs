//! Splitting a fully-qualified package identifier `"<name>@<version>"` into
//! its parts, and the package-naming grammar.

use vstd::prelude::*;
use crate::chars::{find_char, spec_find};
use crate::errors::{ErrorModel, LoadError};

verus! {

/// Ghost mirror of [`Metadata`].
pub struct MetadataModel {
    pub name: Seq<char>,
    pub version: Seq<char>,
}

/// The identity of a loaded package.
#[derive(Debug, Clone, PartialEq, Eq)]
pub struct Metadata {
    pub name: String,
    pub version: String,
}

impl View for Metadata {
    type V = MetadataModel;

    open spec fn view(&self) -> MetadataModel {
        MetadataModel { name: self.name@, version: self.version@ }
    }
}

/// A character the package-naming grammar accepts: ASCII lower-case letters,
/// digits, `-` and `_`.
pub open spec fn spec_name_char(c: char) -> bool {
    ('a' <= c && c <= 'z') || ('0' <= c && c <= '9') || c == '-' || c == '_'
}

/// The package-naming grammar: non-empty, every character accepted.
pub open spec fn spec_valid_package_name(s: Seq<char>) -> bool {
    s.len() > 0 && forall|i: int| 0 <= i < s.len() ==> spec_name_char(s[i])
}

/// Whether `name` satisfies the package-naming grammar.
pub fn valid_package_name(name: &str) -> (r: bool)
    ensures
        r == spec_valid_package_name(name@),
{
    let n = name.unicode_len();
    if n == 0 {
        return false;
    }
    let mut i: usize = 0;
    while i < n
        invariant
            i <= n,
            n == name@.len(),
            forall|j: int| 0 <= j < i ==> spec_name_char(name@[j]),
        decreases n - i,
    {
        let c = name.get_char(i);
        let ok = ('a' <= c && c <= 'z') || ('0' <= c && c <= '9') || c == '-' || c == '_';
        if !ok {
            assert(!spec_name_char(name@[i as int]));
            return false;
        }
        i = i + 1;
    }
    true
}

/// What metadata extraction yields: the identifier is split on its first
/// `@`; an identifier without `@` breaks a structural guarantee of the
/// container format, and an invalid name part breaks the naming grammar.
pub open spec fn spec_extract_metadata(fq: Seq<char>) -> Result<MetadataModel, ErrorModel> {
    match spec_find(fq, '@') {
        Option::None => Result::Err(ErrorModel::InternalInvariant { context: fq }),
        Option::Some(i) => {
            let name = fq.take(i);
            let version = fq.skip(i + 1);
            if spec_valid_package_name(name) {
                Result::Ok(MetadataModel { name, version })
            } else {
                Result::Err(ErrorModel::InvalidPackageName { name })
            }
        },
    }
}

/// Splits a fully-qualified package identifier into name and version at the
/// first `@` and validates the name grammar.  Fails loudly when no `@` is
/// present rather than defaulting.
pub fn extract_metadata(fq: &str) -> (r: Result<Metadata, LoadError>)
    ensures
        match spec_extract_metadata(fq@) {
            Result::Ok(m) => r is Ok && r->Ok_0@ == m,
            Result::Err(e) => r is Err && r->Err_0@ == e,
        },
{
    let n = fq.unicode_len();
    match find_char(fq, '@') {
        Option::None => Result::Err(
            LoadError::InternalInvariant { context: fq.to_owned() },
        ),
        Option::Some(i) => {
            proof {
                crate::chars::lemma_spec_find(fq@, '@');
            }
            let name = fq.substring_char(0, i).to_owned();
            let version = fq.substring_char(i + 1, n).to_owned();
            proof {
                assert(fq@.subrange(0, i as int) =~= fq@.take(i as int));
                assert(fq@.subrange(i as int + 1, n as int) =~= fq@.skip(i as int + 1));
            }
            if valid_package_name(name.as_str()) {
                Result::Ok(Metadata { name, version })
            } else {
                Result::Err(LoadError::InvalidPackageName { name })
            }
        },
    }
}

} // verus!
