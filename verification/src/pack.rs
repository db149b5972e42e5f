//! Packing a directory mapping into container bytes, and classifying input
//! paths.
//!
//! A raw source directory is handed over as a mapping from relative path to
//! content (directory markers carry empty content).  It must hold a
//! top-level package descriptor, a line-oriented text file: the first line
//! `package <name>@<version>`, then any of `command <name> <atom>`,
//! `atom <atom> <path>`, `binding <exports> <module>`, and
//! `binding-imports <exports> <module> <import>...`, with blank lines
//! ignored.  Every file and directory of the mapping lands in one volume,
//! each atom's bytes come from the mapping entry its declaration names, and
//! the whole is encoded into container bytes.

use vstd::prelude::*;
use vstd::utf8::{decode_utf8, valid_utf8};
use crate::chars::{ends_with, spec_ends_with, spec_split, split_str, str_eq};
use crate::codec::{encode_container, spec_encode};
use crate::container::{
    blob_ok, container_wf, str_ok, Atom, AtomModel, BindingModel, BindingRec, Container,
    ContainerModel, EntryModel, Manifest, ManifestModel, Volume, VolumeEntry, VolumeModel,
    WasiEntry, WasiModel, BINDING_KIND_PLAIN, BINDING_KIND_WITH_IMPORTS,
};
use crate::errors::{err_like, ErrorModel, LoadError};
use crate::trusted::utf8_to_string;

verus! {

/// Ghost mirror of [`FileEntry`].
pub struct FileModel {
    pub is_dir: bool,
    pub path: Seq<char>,
    pub content: Seq<u8>,
}

/// One entry of a directory mapping: a relative path, a marker kind, and the
/// file content (empty for a directory marker).
#[derive(Debug, Clone, PartialEq, Eq)]
pub struct FileEntry {
    pub is_dir: bool,
    pub path: String,
    pub content: Vec<u8>,
}

impl View for FileEntry {
    type V = FileModel;

    open spec fn view(&self) -> FileModel {
        FileModel { is_dir: self.is_dir, path: self.path@, content: self.content@ }
    }
}

impl DeepView for FileEntry {
    type V = FileModel;

    open spec fn deep_view(&self) -> FileModel {
        self.view()
    }
}

/// Ghost mirror of [`AtomSource`].
pub struct AtomSourceModel {
    pub name: Seq<char>,
    pub path: Seq<char>,
}

/// One `atom` declaration of the descriptor: the atom's name and the mapping
/// path its bytes come from.
#[derive(Debug, Clone, PartialEq, Eq)]
pub struct AtomSource {
    pub name: String,
    pub path: String,
}

impl View for AtomSource {
    type V = AtomSourceModel;

    open spec fn view(&self) -> AtomSourceModel {
        AtomSourceModel { name: self.name@, path: self.path@ }
    }
}

impl DeepView for AtomSource {
    type V = AtomSourceModel;

    open spec fn deep_view(&self) -> AtomSourceModel {
        self.view()
    }
}

/// Ghost mirror of [`Descriptor`].
pub struct DescriptorModel {
    pub fq_name: Seq<char>,
    pub commands: Seq<WasiModel>,
    pub atoms: Seq<AtomSourceModel>,
    pub bindings: Seq<BindingModel>,
}

/// The parsed package descriptor.
#[derive(Debug, Clone, PartialEq, Eq)]
pub struct Descriptor {
    pub fq_name: String,
    pub commands: Vec<WasiEntry>,
    pub atoms: Vec<AtomSource>,
    pub bindings: Vec<BindingRec>,
}

impl View for Descriptor {
    type V = DescriptorModel;

    open spec fn view(&self) -> DescriptorModel {
        DescriptorModel {
            fq_name: self.fq_name@,
            commands: self.commands.deep_view(),
            atoms: self.atoms.deep_view(),
            bindings: self.bindings.deep_view(),
        }
    }
}

/// The file a mapping path resolves to: the last non-directory entry keyed
/// by exactly that path.
pub open spec fn find_src_file(files: Seq<FileModel>, path: Seq<char>) -> Option<FileModel>
    decreases files.len(),
{
    if files.len() == 0 {
        Option::None
    } else if !files.last().is_dir && files.last().path == path {
        Option::Some(files.last())
    } else {
        find_src_file(files.drop_last(), path)
    }
}

fn find_src_file_exec<'a>(files: &'a Vec<FileEntry>, path: &str) -> (r: Option<&'a FileEntry>)
    ensures
        match find_src_file(files.deep_view(), path@) {
            Option::Some(f) => r is Some && r->0@ == f,
            Option::None => r is None,
        },
{
    let n = files.len();
    let mut i: usize = n;
    proof {
        assert(files.deep_view().take(n as int) =~= files.deep_view());
    }
    while i > 0
        invariant
            i <= n,
            n == files@.len(),
            files.deep_view().len() == n,
            find_src_file(files.deep_view(), path@) == find_src_file(
                files.deep_view().take(i as int),
                path@,
            ),
        decreases i,
    {
        i = i - 1;
        assert(files.deep_view()[i as int] == files@[i as int]@);
        proof {
            assert(files.deep_view().take(i as int + 1).last() == files.deep_view()[i as int]);
            assert(files.deep_view().take(i as int + 1).drop_last() =~= files.deep_view().take(
                i as int,
            ));
        }
        if !files[i].is_dir && str_eq(files[i].path.as_str(), path) {
            return Option::Some(&files[i]);
        }
    }
    proof {
        assert(files.deep_view().take(0) =~= Seq::<FileModel>::empty());
    }
    Option::None
}

/// What the descriptor lines after the first yield: command, atom and
/// binding declarations in order, or nothing when a line is malformed.
pub open spec fn spec_desc_lines(lines: Seq<Seq<char>>) -> Option<
    (Seq<WasiModel>, Seq<AtomSourceModel>, Seq<BindingModel>),
>
    decreases lines.len(),
{
    if lines.len() == 0 {
        Option::Some((Seq::empty(), Seq::empty(), Seq::empty()))
    } else {
        let rest = spec_desc_lines(lines.drop_first());
        let line = lines[0];
        if line.len() == 0 {
            rest
        } else {
            let toks = spec_split(line, ' ');
            if toks.len() == 3 && toks[0] == "command"@ {
                match rest {
                    Option::None => Option::None,
                    Option::Some(t) => Option::Some(
                        (seq![WasiModel { command: toks[1], atom: toks[2] }] + t.0, t.1, t.2),
                    ),
                }
            } else if toks.len() == 3 && toks[0] == "atom"@ {
                match rest {
                    Option::None => Option::None,
                    Option::Some(t) => Option::Some(
                        (t.0, seq![AtomSourceModel { name: toks[1], path: toks[2] }] + t.1, t.2),
                    ),
                }
            } else if toks.len() == 3 && toks[0] == "binding"@ {
                match rest {
                    Option::None => Option::None,
                    Option::Some(t) => Option::Some(
                        (
                            t.0,
                            t.1,
                            seq![
                                BindingModel {
                                    kind: BINDING_KIND_PLAIN,
                                    exports: toks[1],
                                    module: toks[2],
                                    imports: Seq::empty(),
                                },
                            ] + t.2,
                        ),
                    ),
                }
            } else if toks.len() >= 3 && toks[0] == "binding-imports"@ {
                match rest {
                    Option::None => Option::None,
                    Option::Some(t) => Option::Some(
                        (
                            t.0,
                            t.1,
                            seq![
                                BindingModel {
                                    kind: BINDING_KIND_WITH_IMPORTS,
                                    exports: toks[1],
                                    module: toks[2],
                                    imports: toks.skip(3),
                                },
                            ] + t.2,
                        ),
                    ),
                }
            } else {
                Option::None
            }
        }
    }
}

/// What parsing descriptor text yields: the first line must declare the
/// package identifier, the remaining lines its commands, atoms and bindings.
pub open spec fn spec_parse_descriptor(text: Seq<char>) -> Option<DescriptorModel> {
    let lines = spec_split(text, '\n');
    let toks = spec_split(lines[0], ' ');
    if toks.len() == 2 && toks[0] == "package"@ {
        match spec_desc_lines(lines.drop_first()) {
            Option::None => Option::None,
            Option::Some(t) => Option::Some(
                DescriptorModel { fq_name: toks[1], commands: t.0, atoms: t.1, bindings: t.2 },
            ),
        }
    } else {
        Option::None
    }
}

/// Parses descriptor text.
#[verifier::loop_isolation(false)]
pub fn parse_descriptor(text: &str) -> (r: Option<Descriptor>)
    ensures
        match spec_parse_descriptor(text@) {
            Option::Some(d) => r is Some && r->0@ == d,
            Option::None => r is None,
        },
{
    let lines = split_str(text, '\n');
    proof {
        crate::chars::lemma_spec_split_len(text@, '\n');
        assert(lines.deep_view()[0] == lines@[0]@);
    }
    let head_toks = split_str(lines[0].as_str(), ' ');
    if !(head_toks.len() == 2 && str_eq(head_toks[0].as_str(), "package")) {
        proof {
            assert(head_toks.deep_view()[0] == head_toks@[0]@);
        }
        return Option::None;
    }
    proof {
        assert(head_toks.deep_view()[0] == head_toks@[0]@);
        assert(head_toks.deep_view()[1] == head_toks@[1]@);
    }
    let fq_name = head_toks[1].clone();
    let n = lines.len();
    let mut commands: Vec<WasiEntry> = Vec::new();
    let mut atoms: Vec<AtomSource> = Vec::new();
    let mut bindings: Vec<BindingRec> = Vec::new();
    let mut k: usize = 1;
    proof {
        assert(lines.deep_view().drop_first() =~= lines.deep_view().skip(1));
    }
    while k < n
        invariant
            1 <= k <= n,
            n == lines@.len(),
            lines.deep_view().len() == n,
            spec_desc_lines(lines.deep_view().drop_first()) == (match spec_desc_lines(
                lines.deep_view().skip(k as int),
            ) {
                Option::Some(t) => Option::Some(
                    (
                        commands.deep_view() + t.0,
                        atoms.deep_view() + t.1,
                        bindings.deep_view() + t.2,
                    ),
                ),
                Option::None => Option::None::<
                    (Seq<WasiModel>, Seq<AtomSourceModel>, Seq<BindingModel>),
                >,
            }),
        decreases n - k,
    {
        let ghost remaining = lines.deep_view().skip(k as int);
        proof {
            assert(remaining[0] == lines.deep_view()[k as int]);
            assert(remaining.drop_first() =~= lines.deep_view().skip(k as int + 1));
            assert(lines.deep_view()[k as int] == lines@[k as int]@);
        }
        let line = &lines[k];
        if line.as_str().unicode_len() == 0 {
            k = k + 1;
            continue;
        }
        let toks = split_str(line.as_str(), ' ');
        let ghost toks_dv = toks.deep_view();
        proof {
            assert(toks_dv =~= spec_split(lines.deep_view()[k as int], ' '));
        }
        let tn = toks.len();
        proof {
            if tn >= 1 {
                assert(toks_dv[0] == toks@[0]@);
            }
            if tn >= 2 {
                assert(toks_dv[1] == toks@[1]@);
            }
            if tn >= 3 {
                assert(toks_dv[2] == toks@[2]@);
            }
        }
        if tn == 3 && str_eq(toks[0].as_str(), "command") {
            let ghost old_cs = commands.deep_view();
            commands.push(WasiEntry { command: toks[1].clone(), atom: toks[2].clone() });
            proof {
                assert(commands.deep_view() =~= old_cs.push(
                    WasiModel { command: toks_dv[1], atom: toks_dv[2] },
                ));
                let rest = spec_desc_lines(lines.deep_view().skip(k as int + 1));
                if rest is Some {
                    let t = rest->0;
                    let w = WasiModel { command: toks_dv[1], atom: toks_dv[2] };
                    assert(old_cs + (seq![w] + t.0) =~= (old_cs + seq![w]) + t.0);
                    assert(old_cs + seq![w] =~= commands.deep_view());
                }
            }
        } else if tn == 3 && str_eq(toks[0].as_str(), "atom") {
            let ghost old_as = atoms.deep_view();
            atoms.push(AtomSource { name: toks[1].clone(), path: toks[2].clone() });
            proof {
                assert(atoms.deep_view() =~= old_as.push(
                    AtomSourceModel { name: toks_dv[1], path: toks_dv[2] },
                ));
                let rest = spec_desc_lines(lines.deep_view().skip(k as int + 1));
                if rest is Some {
                    let t = rest->0;
                    let a = AtomSourceModel { name: toks_dv[1], path: toks_dv[2] };
                    assert(old_as + (seq![a] + t.1) =~= (old_as + seq![a]) + t.1);
                    assert(old_as + seq![a] =~= atoms.deep_view());
                }
            }
        } else if tn == 3 && str_eq(toks[0].as_str(), "binding") {
            let ghost old_bs = bindings.deep_view();
            let empty_imports: Vec<String> = Vec::new();
            proof {
                assert(empty_imports.deep_view() =~= Seq::<Seq<char>>::empty());
            }
            bindings.push(
                BindingRec {
                    kind: BINDING_KIND_PLAIN,
                    exports: toks[1].clone(),
                    module: toks[2].clone(),
                    imports: empty_imports,
                },
            );
            proof {
                let bm = BindingModel {
                    kind: BINDING_KIND_PLAIN,
                    exports: toks_dv[1],
                    module: toks_dv[2],
                    imports: Seq::empty(),
                };
                assert(bindings.deep_view() =~= old_bs.push(bm));
                let rest = spec_desc_lines(lines.deep_view().skip(k as int + 1));
                if rest is Some {
                    let t = rest->0;
                    assert(old_bs + (seq![bm] + t.2) =~= (old_bs + seq![bm]) + t.2);
                    assert(old_bs + seq![bm] =~= bindings.deep_view());
                }
            }
        } else if tn >= 3 && str_eq(toks[0].as_str(), "binding-imports") {
            let mut imports: Vec<String> = Vec::new();
            let mut j: usize = 3;
            while j < tn
                invariant
                    3 <= j <= tn,
                    tn == toks@.len(),
                    toks_dv == toks.deep_view(),
                    toks_dv.len() == tn,
                    imports.deep_view() =~= toks_dv.subrange(3, j as int),
                decreases tn - j,
            {
                let ghost old_imps = imports.deep_view();
                assert(toks_dv[j as int] == toks@[j as int]@);
                imports.push(toks[j].clone());
                proof {
                    assert(imports.deep_view() =~= old_imps.push(toks_dv[j as int]));
                    assert(toks_dv.subrange(3, j as int + 1) =~= toks_dv.subrange(3, j as int).push(
                        toks_dv[j as int],
                    ));
                }
                j = j + 1;
            }
            proof {
                assert(imports.deep_view() =~= toks_dv.skip(3));
            }
            let ghost old_bs = bindings.deep_view();
            bindings.push(
                BindingRec {
                    kind: BINDING_KIND_WITH_IMPORTS,
                    exports: toks[1].clone(),
                    module: toks[2].clone(),
                    imports,
                },
            );
            proof {
                let bm = BindingModel {
                    kind: BINDING_KIND_WITH_IMPORTS,
                    exports: toks_dv[1],
                    module: toks_dv[2],
                    imports: toks_dv.skip(3),
                };
                assert(bindings.deep_view() =~= old_bs.push(bm));
                let rest = spec_desc_lines(lines.deep_view().skip(k as int + 1));
                if rest is Some {
                    let t = rest->0;
                    assert(old_bs + (seq![bm] + t.2) =~= (old_bs + seq![bm]) + t.2);
                    assert(old_bs + seq![bm] =~= bindings.deep_view());
                }
            }
        } else {
            return Option::None;
        }
        k = k + 1;
    }
    proof {
        assert(lines.deep_view().skip(n as int) =~= Seq::<Seq<char>>::empty());
        assert(commands.deep_view() + Seq::<WasiModel>::empty() =~= commands.deep_view());
        assert(atoms.deep_view() + Seq::<AtomSourceModel>::empty() =~= atoms.deep_view());
        assert(bindings.deep_view() + Seq::<BindingModel>::empty() =~= bindings.deep_view());
    }
    Option::Some(Descriptor { fq_name, commands, atoms, bindings })
}

// ---------------------------------------------------------------------------
// Building the volume and the atoms
// ---------------------------------------------------------------------------

/// The backing buffer of the packed volume: every file's content in mapping
/// order; directory markers contribute nothing.
pub open spec fn spec_vol_data(files: Seq<FileModel>) -> Seq<u8>
    decreases files.len(),
{
    if files.len() == 0 {
        Seq::empty()
    } else {
        spec_vol_data(files.drop_last()) + (if files.last().is_dir {
            Seq::<u8>::empty()
        } else {
            files.last().content
        })
    }
}

/// The entries of the packed volume: one marker per mapping entry, file
/// markers recording where their content lies in the backing buffer.
pub open spec fn spec_vol_entries(files: Seq<FileModel>) -> Seq<EntryModel>
    decreases files.len(),
{
    if files.len() == 0 {
        Seq::empty()
    } else {
        spec_vol_entries(files.drop_last()).push(
            EntryModel {
                is_dir: files.last().is_dir,
                path: files.last().path,
                start: if files.last().is_dir {
                    0u32
                } else {
                    spec_vol_data(files.drop_last()).len() as u32
                },
                end: if files.last().is_dir {
                    0u32
                } else {
                    (spec_vol_data(files.drop_last()).len() + files.last().content.len()) as u32
                },
            },
        )
    }
}

/// Builds the packed volume's entries and backing buffer from a directory
/// mapping.
#[verifier::loop_isolation(false)]
fn build_volume(files: &Vec<FileEntry>) -> (r: (Vec<VolumeEntry>, Vec<u8>))
    ensures
        r.0.deep_view() == spec_vol_entries(files.deep_view()),
        r.1@ == spec_vol_data(files.deep_view()),
{
    let n = files.len();
    let mut entries: Vec<VolumeEntry> = Vec::new();
    let mut data: Vec<u8> = Vec::new();
    let mut k: usize = 0;
    proof {
        assert(files.deep_view().take(0) =~= Seq::<FileModel>::empty());
    }
    while k < n
        invariant
            k <= n,
            n == files@.len(),
            entries.deep_view() == spec_vol_entries(files.deep_view().take(k as int)),
            data@ == spec_vol_data(files.deep_view().take(k as int)),
        decreases n - k,
    {
        let ghost old_entries = entries.deep_view();
        let ghost old_data = data@;
        proof {
            assert(files.deep_view()[k as int] == files@[k as int]@);
            assert(files.deep_view().take(k as int + 1).drop_last() =~= files.deep_view().take(
                k as int,
            ));
            assert(files.deep_view().take(k as int + 1).last() == files.deep_view()[k as int]);
        }
        let f = &files[k];
        if f.is_dir {
            entries.push(VolumeEntry { is_dir: true, path: f.path.clone(), start: 0, end: 0 });
            proof {
                assert(old_data + Seq::<u8>::empty() =~= old_data);
                assert(entries.deep_view() =~= spec_vol_entries(
                    files.deep_view().take(k as int + 1),
                ));
            }
        } else {
            let start = data.len();
            crate::codec::put_bytes(&mut data, &f.content);
            let endpos = data.len();
            entries.push(
                VolumeEntry {
                    is_dir: false,
                    path: f.path.clone(),
                    start: #[verifier::truncate] (start as u32),
                    end: #[verifier::truncate] (endpos as u32),
                },
            );
            proof {
                assert(entries.deep_view() =~= spec_vol_entries(
                    files.deep_view().take(k as int + 1),
                ));
            }
        }
        k = k + 1;
    }
    proof {
        assert(files.deep_view().take(n as int) =~= files.deep_view());
    }
    (entries, data)
}

/// What resolving the descriptor's atom declarations against the mapping
/// yields: each atom's bytes come from the mapping entry it names; a
/// declaration naming a missing entry fails the pack.
pub open spec fn spec_build_atoms(decls: Seq<AtomSourceModel>, files: Seq<FileModel>) -> Result<
    Seq<AtomModel>,
    ErrorModel,
>
    decreases decls.len(),
{
    if decls.len() == 0 {
        Result::Ok(Seq::empty())
    } else {
        match find_src_file(files, decls[0].path) {
            Option::None => Result::Err(ErrorModel::PackError { context: decls[0].path }),
            Option::Some(f) => match spec_build_atoms(decls.drop_first(), files) {
                Result::Err(e) => Result::Err(e),
                Result::Ok(rest) => Result::Ok(
                    seq![AtomModel { name: decls[0].name, data: f.content }] + rest,
                ),
            },
        }
    }
}

#[verifier::loop_isolation(false)]
fn build_atoms(decls: &Vec<AtomSource>, files: &Vec<FileEntry>) -> (r: Result<
    Vec<Atom>,
    LoadError,
>)
    ensures
        match spec_build_atoms(decls.deep_view(), files.deep_view()) {
            Result::Ok(out) => r is Ok && r->Ok_0.deep_view() == out,
            Result::Err(e) => r is Err && r->Err_0@ == e,
        },
{
    let n = decls.len();
    let mut acc: Vec<Atom> = Vec::new();
    let mut k: usize = 0;
    proof {
        assert(decls.deep_view().skip(0) =~= decls.deep_view());
    }
    while k < n
        invariant
            k <= n,
            n == decls@.len(),
            spec_build_atoms(decls.deep_view(), files.deep_view()) == (match spec_build_atoms(
                decls.deep_view().skip(k as int),
                files.deep_view(),
            ) {
                Result::Ok(rest) => Result::<Seq<AtomModel>, ErrorModel>::Ok(
                    acc.deep_view() + rest,
                ),
                Result::Err(e) => Result::<Seq<AtomModel>, ErrorModel>::Err(e),
            }),
        decreases n - k,
    {
        let ghost remaining = decls.deep_view().skip(k as int);
        proof {
            assert(remaining[0] == decls.deep_view()[k as int]);
            assert(remaining.drop_first() =~= decls.deep_view().skip(k as int + 1));
            assert(decls.deep_view()[k as int] == decls@[k as int]@);
        }
        let d = &decls[k];
        match find_src_file_exec(files, d.path.as_str()) {
            Option::None => {
                return Result::Err(LoadError::PackError { context: d.path.clone() });
            },
            Option::Some(f) => {
                let bytes = crate::codec::copy_range(&f.content, 0, f.content.len());
                proof {
                    assert(f@.content.subrange(0, f@.content.len() as int) =~= f@.content);
                }
                let ghost old_acc = acc.deep_view();
                let atom = Atom { name: d.name.clone(), data: bytes };
                let ghost am = atom@;
                acc.push(atom);
                proof {
                    assert(acc.deep_view() =~= old_acc.push(am));
                    let rest = spec_build_atoms(
                        decls.deep_view().skip(k as int + 1),
                        files.deep_view(),
                    );
                    if rest is Ok {
                        let out = rest->Ok_0;
                        assert(old_acc + (seq![am] + out) =~= (old_acc + seq![am]) + out);
                        assert(old_acc + seq![am] =~= acc.deep_view());
                    }
                }
                k = k + 1;
            },
        }
    }
    proof {
        assert(decls.deep_view().skip(n as int) =~= Seq::<AtomSourceModel>::empty());
        assert(acc.deep_view() + Seq::<AtomModel>::empty() =~= acc.deep_view());
    }
    Result::Ok(acc)
}

// ---------------------------------------------------------------------------
// Well-formedness checking
// ---------------------------------------------------------------------------

fn str_fits(s: &String) -> (r: bool)
    ensures
        r == str_ok(s@),
{
    let bytes = s.as_str().as_bytes_vec();
    bytes.len() <= (u32::MAX as usize)
}

#[verifier::loop_isolation(false)]
fn all_strs_fit(v: &Vec<String>) -> (r: bool)
    ensures
        r == (forall|i: int| 0 <= i < v.deep_view().len() ==> str_ok(#[trigger] v.deep_view()[i])),
{
    let n = v.len();
    let mut i: usize = 0;
    while i < n
        invariant
            i <= n,
            n == v@.len(),
            forall|j: int| 0 <= j < i ==> str_ok(#[trigger] v.deep_view()[j]),
        decreases n - i,
    {
        assert(v.deep_view()[i as int] == v@[i as int]@);
        if !str_fits(&v[i]) {
            return false;
        }
        i = i + 1;
    }
    true
}

#[verifier::loop_isolation(false)]
fn all_wasis_fit(v: &Vec<WasiEntry>) -> (r: bool)
    ensures
        r == (forall|i: int|
            0 <= i < v.deep_view().len() ==> crate::container::wasi_wf(
                #[trigger] v.deep_view()[i],
            )),
{
    let n = v.len();
    let mut i: usize = 0;
    while i < n
        invariant
            i <= n,
            n == v@.len(),
            forall|j: int|
                0 <= j < i ==> crate::container::wasi_wf(#[trigger] v.deep_view()[j]),
        decreases n - i,
    {
        assert(v.deep_view()[i as int] == v@[i as int]@);
        if !(str_fits(&v[i].command) && str_fits(&v[i].atom)) {
            return false;
        }
        i = i + 1;
    }
    true
}

#[verifier::loop_isolation(false)]
fn all_bindings_fit(v: &Vec<BindingRec>) -> (r: bool)
    ensures
        r == (forall|i: int|
            0 <= i < v.deep_view().len() ==> crate::container::binding_wf(
                #[trigger] v.deep_view()[i],
            )),
{
    let n = v.len();
    let mut i: usize = 0;
    while i < n
        invariant
            i <= n,
            n == v@.len(),
            forall|j: int|
                0 <= j < i ==> crate::container::binding_wf(#[trigger] v.deep_view()[j]),
        decreases n - i,
    {
        assert(v.deep_view()[i as int] == v@[i as int]@);
        let b = &v[i];
        let ok = str_fits(&b.exports) && str_fits(&b.module) && b.imports.len() <= (
        u32::MAX as usize) && all_strs_fit(&b.imports);
        if !ok {
            return false;
        }
        i = i + 1;
    }
    true
}

#[verifier::loop_isolation(false)]
fn all_atoms_fit(v: &Vec<Atom>) -> (r: bool)
    ensures
        r == (forall|i: int|
            0 <= i < v.deep_view().len() ==> crate::container::atom_wf(
                #[trigger] v.deep_view()[i],
            )),
{
    let n = v.len();
    let mut i: usize = 0;
    while i < n
        invariant
            i <= n,
            n == v@.len(),
            forall|j: int|
                0 <= j < i ==> crate::container::atom_wf(#[trigger] v.deep_view()[j]),
        decreases n - i,
    {
        assert(v.deep_view()[i as int] == v@[i as int]@);
        if !(str_fits(&v[i].name) && v[i].data.len() <= (u32::MAX as usize)) {
            return false;
        }
        i = i + 1;
    }
    true
}

#[verifier::loop_isolation(false)]
fn volume_fits(v: &Volume) -> (r: bool)
    ensures
        r == crate::container::volume_wf(v@),
{
    if !(str_fits(&v.name) && v.data.len() <= (u32::MAX as usize) && v.entries.len() <= (
    u32::MAX as usize)) {
        return false;
    }
    let n = v.entries.len();
    let dl = v.data.len();
    let mut i: usize = 0;
    while i < n
        invariant
            i <= n,
            n == v.entries@.len(),
            dl == v.data@.len(),
            forall|j: int|
                0 <= j < i ==> crate::container::entry_wf(
                    #[trigger] v.entries.deep_view()[j],
                    v@.data.len() as int,
                ),
        decreases n - i,
    {
        assert(v.entries.deep_view()[i as int] == v.entries@[i as int]@);
        let e = &v.entries[i];
        let range_ok = e.is_dir || (e.start <= e.end && (e.end as usize) <= dl);
        if !(str_fits(&e.path) && range_ok) {
            return false;
        }
        i = i + 1;
    }
    true
}

#[verifier::loop_isolation(false)]
fn all_volumes_fit(v: &Vec<Volume>) -> (r: bool)
    ensures
        r == (forall|i: int|
            0 <= i < v.deep_view().len() ==> crate::container::volume_wf(
                #[trigger] v.deep_view()[i],
            )),
{
    let n = v.len();
    let mut i: usize = 0;
    while i < n
        invariant
            i <= n,
            n == v@.len(),
            forall|j: int|
                0 <= j < i ==> crate::container::volume_wf(#[trigger] v.deep_view()[j]),
        decreases n - i,
    {
        assert(v.deep_view()[i as int] == v@[i as int]@);
        if !volume_fits(&v[i]) {
            return false;
        }
        i = i + 1;
    }
    true
}

/// Decides the container well-formedness invariant.
pub fn check_wf(c: &Container) -> (r: bool)
    ensures
        r == container_wf(c@),
{
    let m = &c.manifest;
    let manifest_ok = str_fits(&m.fq_name) && m.commands.len() <= (u32::MAX as usize)
        && m.wasi.len() <= (u32::MAX as usize) && m.bindings.len() <= (u32::MAX as usize)
        && all_strs_fit(&m.commands) && all_wasis_fit(&m.wasi) && all_bindings_fit(&m.bindings);
    manifest_ok && c.atoms.len() <= (u32::MAX as usize) && c.volumes.len() <= (u32::MAX as usize)
        && all_atoms_fit(&c.atoms) && all_volumes_fit(&c.volumes)
}

// ---------------------------------------------------------------------------
// Packing
// ---------------------------------------------------------------------------

/// The container model a directory mapping packs into, before the size
/// check: the descriptor's identity, commands and bindings as its manifest,
/// the resolved atoms, and one volume holding every mapping entry.
pub open spec fn spec_built_container(d: DescriptorModel, files: Seq<FileModel>) -> ContainerModel {
    ContainerModel {
        manifest: ManifestModel {
            fq_name: d.fq_name,
            commands: d.commands.map_values(|w: WasiModel| w.command),
            wasi: d.commands,
            bindings: d.bindings,
        },
        atoms: match spec_build_atoms(d.atoms, files) {
            Result::Ok(ats) => ats,
            Result::Err(_) => Seq::empty(),
        },
        volumes: seq![
            VolumeModel {
                name: "files"@,
                entries: spec_vol_entries(files),
                data: spec_vol_data(files),
            },
        ],
    }
}

/// What packing a directory mapping yields: the mapping must hold the
/// descriptor, the descriptor must parse, every declared atom must resolve,
/// and everything must fit the container format's 32-bit length prefixes;
/// then the result is the byte encoding of the built container.
pub open spec fn spec_pack(files: Seq<FileModel>) -> Result<Seq<u8>, ErrorModel> {
    match find_src_file(files, "package.desc"@) {
        Option::None => Result::Err(ErrorModel::MissingDescriptor),
        Option::Some(f) => if !valid_utf8(f.content) {
            Result::Err(ErrorModel::PackError { context: Seq::empty() })
        } else {
            match spec_parse_descriptor(decode_utf8(f.content)) {
                Option::None => Result::Err(ErrorModel::PackError { context: Seq::empty() }),
                Option::Some(d) => match spec_build_atoms(d.atoms, files) {
                    Result::Err(e) => Result::Err(e),
                    Result::Ok(_) => {
                        let cm = spec_built_container(d, files);
                        if container_wf(cm) {
                            Result::Ok(spec_encode(cm))
                        } else {
                            Result::Err(ErrorModel::PackError { context: Seq::empty() })
                        }
                    },
                },
            }
        },
    }
}

/// Packs a directory mapping into container bytes.  The mapping must hold
/// the top-level package descriptor `package.desc`; every entry of the
/// mapping lands in the container's single volume, and each declared atom's
/// bytes are taken from the mapping entry it names.
#[verifier::loop_isolation(false)]
pub fn pack_directory(files: &Vec<FileEntry>) -> (r: Result<Vec<u8>, LoadError>)
    ensures
        match spec_pack(files.deep_view()) {
            Result::Ok(bytes) => r is Ok && r->Ok_0@ == bytes,
            Result::Err(e) => r is Err && err_like(r->Err_0@, e),
        },
{
    let desc_file = match find_src_file_exec(files, "package.desc") {
        Option::None => {
            return Result::Err(LoadError::MissingDescriptor);
        },
        Option::Some(f) => f,
    };
    let desc_bytes = crate::codec::copy_range(&desc_file.content, 0, desc_file.content.len());
    proof {
        assert(desc_file@.content.subrange(0, desc_file@.content.len() as int)
            =~= desc_file@.content);
    }
    let text = match utf8_to_string(desc_bytes) {
        Option::None => {
            return Result::Err(
                LoadError::PackError {
                    context: String::from_str("package descriptor is not valid UTF-8"),
                },
            );
        },
        Option::Some(t) => t,
    };
    let desc = match parse_descriptor(text.as_str()) {
        Option::None => {
            return Result::Err(
                LoadError::PackError { context: String::from_str("malformed package descriptor") },
            );
        },
        Option::Some(d) => d,
    };
    let atoms = match build_atoms(&desc.atoms, files) {
        Result::Err(e) => {
            return Result::Err(e);
        },
        Result::Ok(a) => a,
    };
    let (entries, data) = build_volume(files);
    let mut command_names: Vec<String> = Vec::new();
    let nc = desc.commands.len();
    let mut k: usize = 0;
    proof {
        assert(command_names.deep_view() =~= desc@.commands.map_values(
            |w: WasiModel| w.command,
        ).take(0));
    }
    while k < nc
        invariant
            k <= nc,
            nc == desc.commands@.len(),
            command_names.deep_view() == desc@.commands.map_values(|w: WasiModel| w.command).take(
                k as int,
            ),
        decreases nc - k,
    {
        let ghost old_names = command_names.deep_view();
        proof {
            assert(desc@.commands[k as int] == desc.commands@[k as int]@);
        }
        command_names.push(desc.commands[k].command.clone());
        proof {
            let mapped = desc@.commands.map_values(|w: WasiModel| w.command);
            assert(command_names.deep_view() =~= old_names.push(mapped[k as int]));
            assert(mapped.take(k as int + 1) =~= mapped.take(k as int).push(mapped[k as int]));
        }
        k = k + 1;
    }
    proof {
        let mapped = desc@.commands.map_values(|w: WasiModel| w.command);
        assert(mapped.take(nc as int) =~= mapped);
    }
    let container = Container {
        manifest: Manifest {
            fq_name: desc.fq_name,
            commands: command_names,
            wasi: desc.commands,
            bindings: desc.bindings,
        },
        atoms,
        volumes: vec![Volume { name: String::from_str("files"), entries, data }],
    };
    proof {
        assert(container.volumes.deep_view() =~= seq![
            VolumeModel {
                name: "files"@,
                entries: spec_vol_entries(files.deep_view()),
                data: spec_vol_data(files.deep_view()),
            },
        ]);
        assert(container@ == spec_built_container(desc@, files.deep_view()));
    }
    if !check_wf(&container) {
        return Result::Err(
            LoadError::PackError {
                context: String::from_str("package too large for the container format"),
            },
        );
    }
    Result::Ok(encode_container(&container))
}

// ---------------------------------------------------------------------------
// Input classification
// ---------------------------------------------------------------------------

/// The three input forms the loader accepts.
#[derive(Debug, Clone, Copy, PartialEq, Eq, Structural)]
pub enum InputKind {
    /// A raw source directory: pack it first.
    Directory,
    /// An already-packed container file: read it verbatim.
    PackedFile,
    /// Anything else: a compressed archive to unpack and repack.
    Archive,
}

/// How an input path is treated: a directory is packed, a path with the
/// packed-container extension is read verbatim, anything else is taken for
/// an archive.
pub open spec fn spec_classify_input(is_dir: bool, path: Seq<char>) -> InputKind {
    if is_dir {
        InputKind::Directory
    } else if spec_ends_with(path, ".wpak"@) {
        InputKind::PackedFile
    } else {
        InputKind::Archive
    }
}

/// Classifies an input path; the caller reports whether it is a directory.
pub fn classify_input(is_dir: bool, path: &str) -> (r: InputKind)
    ensures
        r == spec_classify_input(is_dir, path@),
{
    if is_dir {
        InputKind::Directory
    } else if ends_with(path, ".wpak") {
        InputKind::PackedFile
    } else {
        InputKind::Archive
    }
}

} // verus!
