//! Resolution of `"volume://relative_path"` references to byte slices inside
//! a parsed container, including the fallback for a legacy path-encoding
//! defect: historical packers emitted a single flat file entry whose name
//! contains separator characters instead of true nested directory entries.
//! The canonical lookup demands the directory chain; the fallback accepts the
//! literal, unsplit path as a flat file name, and is attempted only after the
//! canonical lookup fails.

use vstd::prelude::*;
use crate::chars::str_eq;
use crate::container::{container_wf, Container, EntryModel, VolumeModel};
use crate::errors::{ErrorModel, LoadError};

verus! {

/// First index at which the scheme separator `://` occurs, if any.
pub open spec fn spec_find_scheme(s: Seq<char>) -> Option<int>
    decreases s.len(),
{
    if s.len() < 3 {
        Option::None
    } else if s[0] == ':' && s[1] == '/' && s[2] == '/' {
        Option::Some(0)
    } else {
        match spec_find_scheme(s.drop_first()) {
            Option::Some(i) => Option::Some(i + 1),
            Option::None => Option::None,
        }
    }
}

pub proof fn lemma_spec_find_scheme(s: Seq<char>)
    ensures
        match spec_find_scheme(s) {
            Option::Some(i) => 0 <= i && i + 3 <= s.len() && s[i] == ':' && s[i + 1] == '/' && s[i
                + 2] == '/',
            Option::None => true,
        },
    decreases s.len(),
{
    if s.len() >= 3 && !(s[0] == ':' && s[1] == '/' && s[2] == '/') {
        lemma_spec_find_scheme(s.drop_first());
        assert(forall|j: int| 1 <= j < s.len() ==> #[trigger] s[j] == s.drop_first()[j - 1]);
    }
}

fn find_scheme(s: &str) -> (r: Option<usize>)
    ensures
        match r {
            Option::Some(i) => spec_find_scheme(s@) == Option::Some(i as int),
            Option::None => spec_find_scheme(s@) is None,
        },
{
    let n = s.unicode_len();
    if n < 3 {
        proof {
            lemma_scheme_none_short(s@);
        }
        return Option::None;
    }
    let mut i: usize = 0;
    while i <= n - 3
        invariant
            i <= n - 2,
            n == s@.len(),
            n >= 3,
            forall|j: int|
                0 <= j < i && j + 3 <= n ==> !((#[trigger] s@[j]) == ':' && s@[j + 1] == '/'
                    && s@[j + 2] == '/'),
        decreases n - i,
    {
        if s.get_char(i) == ':' && s.get_char(i + 1) == '/' && s.get_char(i + 2) == '/' {
            proof {
                lemma_scheme_first(s@, i as int);
            }
            return Option::Some(i);
        }
        i = i + 1;
    }
    proof {
        lemma_scheme_none(s@, i as int);
    }
    Option::None
}

proof fn lemma_scheme_none_short(s: Seq<char>)
    requires
        s.len() < 3,
    ensures
        spec_find_scheme(s) is None,
{
}

/// If no occurrence starts before `i` and one starts at `i`, then `i` is the
/// first occurrence.
proof fn lemma_scheme_first(s: Seq<char>, i: int)
    requires
        0 <= i,
        i + 3 <= s.len(),
        s[i] == ':' && s[i + 1] == '/' && s[i + 2] == '/',
        forall|j: int|
            0 <= j < i && j + 3 <= s.len() ==> !((#[trigger] s[j]) == ':' && s[j + 1] == '/'
                && s[j + 2] == '/'),
    ensures
        spec_find_scheme(s) == Option::Some(i),
    decreases s.len(),
{
    if i == 0 {
    } else {
        let d = s.drop_first();
        assert forall|j: int|
            0 <= j < i - 1 && j + 3 <= d.len() implies !((#[trigger] d[j]) == ':' && d[j + 1]
            == '/' && d[j + 2] == '/') by {
            assert(d[j] == s[j + 1]);
            assert(d[j + 1] == s[j + 2]);
            assert(d[j + 2] == s[j + 3]);
            assert(!(s[j + 1] == ':' && s[j + 2] == '/' && s[j + 3] == '/'));
        }
        lemma_scheme_first(d, i - 1);
    }
}

/// If no occurrence starts before `bound` and fewer than 3 characters remain
/// from `bound` on, there is no occurrence at all.
proof fn lemma_scheme_none(s: Seq<char>, bound: int)
    requires
        0 <= bound,
        bound + 3 > s.len(),
        forall|j: int|
            0 <= j < bound && j + 3 <= s.len() ==> !((#[trigger] s[j]) == ':' && s[j + 1] == '/'
                && s[j + 2] == '/'),
    ensures
        spec_find_scheme(s) is None,
    decreases s.len(),
{
    if s.len() < 3 {
    } else {
        assert(!(s[0] == ':' && s[1] == '/' && s[2] == '/'));
        let d = s.drop_first();
        let nb = if bound == 0 { 0 } else { bound - 1 };
        assert forall|j: int|
            0 <= j < nb && j + 3 <= d.len() implies !((#[trigger] d[j]) == ':' && d[j + 1] == '/'
            && d[j + 2] == '/') by {
            assert(d[j] == s[j + 1]);
            assert(d[j + 1] == s[j + 2]);
            assert(d[j + 2] == s[j + 3]);
            assert(!(s[j + 1] == ':' && s[j + 2] == '/' && s[j + 3] == '/'));
        }
        lemma_scheme_none(d, nb);
    }
}

/// The volume a name resolves to: the last volume of that name, so that a
/// repeated name shadows earlier ones, the explicit policy for duplicate
/// declarations throughout this crate.
pub open spec fn find_volume(vs: Seq<VolumeModel>, name: Seq<char>) -> Option<VolumeModel>
    decreases vs.len(),
{
    if vs.len() == 0 {
        Option::None
    } else if vs.last().name == name {
        Option::Some(vs.last())
    } else {
        find_volume(vs.drop_last(), name)
    }
}

/// The file entry a path resolves to within a volume: the last file entry
/// keyed by exactly that path.  Directory markers never match.
pub open spec fn find_file(es: Seq<EntryModel>, path: Seq<char>) -> Option<EntryModel>
    decreases es.len(),
{
    if es.len() == 0 {
        Option::None
    } else if !es.last().is_dir && es.last().path == path {
        Option::Some(es.last())
    } else {
        find_file(es.drop_last(), path)
    }
}

/// Whether the volume holds a directory marker at exactly `path`.
pub open spec fn has_dir(es: Seq<EntryModel>, path: Seq<char>) -> bool
    decreases es.len(),
{
    if es.len() == 0 {
        false
    } else if es.last().is_dir && es.last().path == path {
        true
    } else {
        has_dir(es.drop_last(), path)
    }
}

/// Whether every directory prefix of `path` (each prefix ending just before a
/// `/`) is present as a directory marker: the canonical nested encoding.
pub open spec fn spec_ancestors_present(es: Seq<EntryModel>, path: Seq<char>) -> bool {
    forall|j: int| 0 <= j < path.len() && path[j] == '/' ==> has_dir(es, path.take(j))
}

/// What resolving a reference against a container yields.  The reference is
/// split on its first `://`; the named volume must belong to the given
/// package; the relative path must name a file entry, reachable either as a
/// canonical nested path or as a legacy flat name — by construction the two
/// lookups return the same entry, so the result does not depend on which
/// succeeded.  The three failures are distinct: a reference without `://`, a
/// missing volume, and a volume missing the file.
pub open spec fn spec_resolve(
    c: crate::container::ContainerModel,
    fq: Seq<char>,
    reference: Seq<char>,
) -> Result<Seq<u8>, ErrorModel> {
    match spec_find_scheme(reference) {
        Option::None => Result::Err(ErrorModel::MalformedReference { reference }),
        Option::Some(i) => {
            let volume = reference.take(i);
            let rel = reference.skip(i + 3);
            if fq != c.manifest.fq_name {
                Result::Err(ErrorModel::MissingVolume { volume })
            } else {
                match find_volume(c.volumes, volume) {
                    Option::None => Result::Err(ErrorModel::MissingVolume { volume }),
                    Option::Some(v) => match find_file(v.entries, rel) {
                        Option::None => Result::Err(ErrorModel::MissingFileInVolume { path: rel }),
                        Option::Some(e) => Result::Ok(
                            v.data.subrange(e.start as int, e.end as int),
                        ),
                    },
                }
            }
        },
    }
}

/// Every file entry `find_file` returns is an element of the entry sequence,
/// so a well-formed volume bounds its byte range.
proof fn lemma_find_file_member(es: Seq<EntryModel>, path: Seq<char>)
    ensures
        match find_file(es, path) {
            Option::Some(e) => !e.is_dir && e.path == path && exists|i: int|
                0 <= i < es.len() && es[i] == e,
            Option::None => true,
        },
    decreases es.len(),
{
    if es.len() > 0 && !(!es.last().is_dir && es.last().path == path) {
        lemma_find_file_member(es.drop_last(), path);
        if find_file(es.drop_last(), path) is Some {
            let e = find_file(es.drop_last(), path)->0;
            let i = choose|i: int| 0 <= i < es.drop_last().len() && es.drop_last()[i] == e;
            assert(es[i] == e);
        }
    }
}

fn find_volume_exec<'a>(vs: &'a Vec<crate::container::Volume>, name: &str) -> (r: Option<
    &'a crate::container::Volume,
>)
    ensures
        match find_volume(vs.deep_view(), name@) {
            Option::Some(vm) => r is Some && r->0@ == vm,
            Option::None => r is None,
        },
{
    let n = vs.len();
    let mut i: usize = n;
    proof {
        assert(vs.deep_view().take(n as int) =~= vs.deep_view());
    }
    while i > 0
        invariant
            i <= n,
            n == vs@.len(),
            vs.deep_view().len() == n,
            find_volume(vs.deep_view(), name@) == find_volume(vs.deep_view().take(i as int), name@),
        decreases i,
    {
        i = i - 1;
        assert(vs.deep_view()[i as int] == vs@[i as int]@);
        if str_eq(vs[i].name.as_str(), name) {
            proof {
                assert(vs.deep_view().take(i as int + 1).last() == vs.deep_view()[i as int]);
            }
            return Option::Some(&vs[i]);
        }
        proof {
            assert(vs.deep_view().take(i as int + 1).last() == vs.deep_view()[i as int]);
            assert(vs.deep_view().take(i as int + 1).drop_last() =~= vs.deep_view().take(i as int));
        }
    }
    proof {
        assert(vs.deep_view().take(0) =~= Seq::<VolumeModel>::empty());
    }
    Option::None
}

fn find_file_exec<'a>(es: &'a Vec<crate::container::VolumeEntry>, path: &str) -> (r: Option<
    &'a crate::container::VolumeEntry,
>)
    ensures
        match find_file(es.deep_view(), path@) {
            Option::Some(em) => r is Some && r->0@ == em,
            Option::None => r is None,
        },
{
    let n = es.len();
    let mut i: usize = n;
    proof {
        assert(es.deep_view().take(n as int) =~= es.deep_view());
    }
    while i > 0
        invariant
            i <= n,
            n == es@.len(),
            es.deep_view().len() == n,
            find_file(es.deep_view(), path@) == find_file(es.deep_view().take(i as int), path@),
        decreases i,
    {
        i = i - 1;
        assert(es.deep_view()[i as int] == es@[i as int]@);
        if !es[i].is_dir && str_eq(es[i].path.as_str(), path) {
            proof {
                assert(es.deep_view().take(i as int + 1).last() == es.deep_view()[i as int]);
            }
            return Option::Some(&es[i]);
        }
        proof {
            assert(es.deep_view().take(i as int + 1).last() == es.deep_view()[i as int]);
            assert(es.deep_view().take(i as int + 1).drop_last() =~= es.deep_view().take(i as int));
        }
    }
    proof {
        assert(es.deep_view().take(0) =~= Seq::<EntryModel>::empty());
    }
    Option::None
}

fn has_dir_exec(es: &Vec<crate::container::VolumeEntry>, path: &str) -> (r: bool)
    ensures
        r == has_dir(es.deep_view(), path@),
{
    let n = es.len();
    let mut i: usize = n;
    proof {
        assert(es.deep_view().take(n as int) =~= es.deep_view());
    }
    while i > 0
        invariant
            i <= n,
            n == es@.len(),
            es.deep_view().len() == n,
            has_dir(es.deep_view(), path@) == has_dir(es.deep_view().take(i as int), path@),
        decreases i,
    {
        i = i - 1;
        assert(es.deep_view()[i as int] == es@[i as int]@);
        if es[i].is_dir && str_eq(es[i].path.as_str(), path) {
            proof {
                assert(es.deep_view().take(i as int + 1).last() == es.deep_view()[i as int]);
            }
            return true;
        }
        proof {
            assert(es.deep_view().take(i as int + 1).last() == es.deep_view()[i as int]);
            assert(es.deep_view().take(i as int + 1).drop_last() =~= es.deep_view().take(i as int));
        }
    }
    proof {
        assert(es.deep_view().take(0) =~= Seq::<EntryModel>::empty());
    }
    false
}

/// Whether every directory prefix of `path` is present as a directory marker.
fn ancestors_present(es: &Vec<crate::container::VolumeEntry>, path: &str) -> (r: bool)
    ensures
        r == spec_ancestors_present(es.deep_view(), path@),
{
    let n = path.unicode_len();
    let mut j: usize = 0;
    while j < n
        invariant
            j <= n,
            n == path@.len(),
            forall|l: int|
                0 <= l < j && path@[l] == '/' ==> has_dir(es.deep_view(), path@.take(l)),
        decreases n - j,
    {
        if path.get_char(j) == '/' {
            let prefix = path.substring_char(0, j);
            proof {
                assert(prefix@ =~= path@.take(j as int));
            }
            if !has_dir_exec(es, prefix) {
                assert(!spec_ancestors_present(es.deep_view(), path@));
                return false;
            }
        }
        j = j + 1;
    }
    true
}

/// Resolves a `"volume://relative_path"` reference to an owned copy of the
/// referenced byte slice, scoped to the package named `fq`.
///
/// Resolution is a two-step strategy: the canonical lookup demands the
/// directory chain of a nested path; when it fails, the legacy fallback looks
/// the literal, unsplit path up as a flat file name, compensating for a
/// known-defective historical packer.  Both lookups select the same entry
/// whenever both succeed, so the returned bytes never depend on the step.
pub fn resolve(c: &Container, fq: &str, reference: &str) -> (r: Result<Vec<u8>, LoadError>)
    requires
        container_wf(c@),
    ensures
        match spec_resolve(c@, fq@, reference@) {
            Result::Ok(d) => r is Ok && r->Ok_0@ == d,
            Result::Err(e) => r is Err && r->Err_0@ == e,
        },
{
    let n = reference.unicode_len();
    match find_scheme(reference) {
        Option::None => Result::Err(
            LoadError::MalformedReference { reference: reference.to_owned() },
        ),
        Option::Some(i) => {
            proof {
                lemma_spec_find_scheme(reference@);
            }
            let volume_name = reference.substring_char(0, i);
            let rel = reference.substring_char(i + 3, n);
            proof {
                assert(volume_name@ =~= reference@.take(i as int));
                assert(rel@ =~= reference@.skip(i as int + 3));
            }
            if !str_eq(fq, c.manifest.fq_name.as_str()) {
                return Result::Err(
                    LoadError::MissingVolume { volume: volume_name.to_owned() },
                );
            }
            match find_volume_exec(&c.volumes, volume_name) {
                Option::None => Result::Err(
                    LoadError::MissingVolume { volume: volume_name.to_owned() },
                ),
                Option::Some(v) => {
                    proof {
                        lemma_find_volume_member(c@.volumes, volume_name@);
                        let vm = find_volume(c@.volumes, volume_name@)->0;
                        let vi = choose|vi: int|
                            0 <= vi < c@.volumes.len() && c@.volumes[vi] == vm;
                        assert(crate::container::volume_wf(c@.volumes[vi]));
                    }
                    // Canonical nested lookup: the file entry together with
                    // its directory chain.
                    let mut found = if ancestors_present(&v.entries, rel) {
                        find_file_exec(&v.entries, rel)
                    } else {
                        Option::None
                    };
                    // Legacy fallback: the literal path as a flat file name.
                    if found.is_none() {
                        found = find_file_exec(&v.entries, rel);
                    }
                    match found {
                        Option::None => Result::Err(
                            LoadError::MissingFileInVolume { path: rel.to_owned() },
                        ),
                        Option::Some(e) => {
                            proof {
                                lemma_find_file_member(v@.entries, rel@);
                                let em = find_file(v@.entries, rel@)->0;
                                let wi = choose|wi: int|
                                    0 <= wi < v@.entries.len() && v@.entries[wi] == em;
                                assert(crate::container::entry_wf(
                                    v@.entries[wi],
                                    v@.data.len() as int,
                                ));
                            }
                            let d = crate::codec::copy_range(
                                &v.data,
                                e.start as usize,
                                e.end as usize,
                            );
                            Result::Ok(d)
                        },
                    }
                },
            }
        },
    }
}

/// Every volume `find_volume` returns is an element of the volume sequence,
/// so well-formedness of the container carries to it.
proof fn lemma_find_volume_member(vs: Seq<VolumeModel>, name: Seq<char>)
    ensures
        match find_volume(vs, name) {
            Option::Some(v) => exists|i: int| 0 <= i < vs.len() && vs[i] == v,
            Option::None => true,
        },
    decreases vs.len(),
{
    if vs.len() > 0 && !(vs.last().name == name) {
        lemma_find_volume_member(vs.drop_last(), name);
        if find_volume(vs.drop_last(), name) is Some {
            let v = find_volume(vs.drop_last(), name)->0;
            let i = choose|i: int| 0 <= i < vs.drop_last().len() && vs.drop_last()[i] == v;
            assert(vs[i] == v);
        }
    }
}

} // verus!
