//! Extraction of manifest-declared commands and library bindings from a
//! parsed container into owned [`Command`] and [`Library`] values.

use vstd::prelude::*;
use vstd::utf8::{decode_utf8, valid_utf8};
use crate::chars::{rfind_char, spec_rfind, spec_starts_with, starts_with, str_eq};
use crate::container::{
    container_wf, AtomModel, BindingModel, Container, ContainerModel, WasiEntry, WasiModel,
    BINDING_KIND_PLAIN, BINDING_KIND_WITH_IMPORTS,
};
use crate::errors::{ErrorModel, LoadError};
use crate::package::{Command, CommandModel, Library, LibraryModel, Module, ModuleModel};
use crate::resolve::{resolve, spec_resolve};
use crate::sniff::{classify_abi, spec_classify};
use crate::trusted::{parse_interface, utf8_to_string, wai_parse};

verus! {

/// The atom name the `wasi` namespace map ties to a command: the last entry
/// for that command, so a repeated declaration shadows earlier ones.
pub open spec fn find_wasi(ws: Seq<WasiModel>, command: Seq<char>) -> Option<Seq<char>>
    decreases ws.len(),
{
    if ws.len() == 0 {
        Option::None
    } else if ws.last().command == command {
        Option::Some(ws.last().atom)
    } else {
        find_wasi(ws.drop_last(), command)
    }
}

/// The atom a name resolves to: the last atom of that name.
pub open spec fn find_atom(ats: Seq<AtomModel>, name: Seq<char>) -> Option<AtomModel>
    decreases ats.len(),
{
    if ats.len() == 0 {
        Option::None
    } else if ats.last().name == name {
        Option::Some(ats.last())
    } else {
        find_atom(ats.drop_last(), name)
    }
}

/// The atom byte store scoped to a package: a container holds exactly one
/// package, so another package has no atoms here.
pub open spec fn spec_get_atom(c: ContainerModel, fq: Seq<char>, name: Seq<char>) -> Option<
    AtomModel,
> {
    if fq == c.manifest.fq_name {
        find_atom(c.atoms, name)
    } else {
        Option::None
    }
}

fn find_wasi_exec<'a>(ws: &'a Vec<WasiEntry>, command: &str) -> (r: Option<&'a String>)
    ensures
        match find_wasi(ws.deep_view(), command@) {
            Option::Some(a) => r is Some && r->0@ == a,
            Option::None => r is None,
        },
{
    let n = ws.len();
    let mut i: usize = n;
    proof {
        assert(ws.deep_view().take(n as int) =~= ws.deep_view());
    }
    while i > 0
        invariant
            i <= n,
            n == ws@.len(),
            ws.deep_view().len() == n,
            find_wasi(ws.deep_view(), command@) == find_wasi(
                ws.deep_view().take(i as int),
                command@,
            ),
        decreases i,
    {
        i = i - 1;
        assert(ws.deep_view()[i as int] == ws@[i as int]@);
        proof {
            assert(ws.deep_view().take(i as int + 1).last() == ws.deep_view()[i as int]);
            assert(ws.deep_view().take(i as int + 1).drop_last() =~= ws.deep_view().take(i as int));
        }
        if str_eq(ws[i].command.as_str(), command) {
            return Option::Some(&ws[i].atom);
        }
    }
    proof {
        assert(ws.deep_view().take(0) =~= Seq::<WasiModel>::empty());
    }
    Option::None
}

fn find_atom_exec<'a>(ats: &'a Vec<crate::container::Atom>, name: &str) -> (r: Option<
    &'a crate::container::Atom,
>)
    ensures
        match find_atom(ats.deep_view(), name@) {
            Option::Some(a) => r is Some && r->0@ == a,
            Option::None => r is None,
        },
{
    let n = ats.len();
    let mut i: usize = n;
    proof {
        assert(ats.deep_view().take(n as int) =~= ats.deep_view());
    }
    while i > 0
        invariant
            i <= n,
            n == ats@.len(),
            ats.deep_view().len() == n,
            find_atom(ats.deep_view(), name@) == find_atom(ats.deep_view().take(i as int), name@),
        decreases i,
    {
        i = i - 1;
        assert(ats.deep_view()[i as int] == ats@[i as int]@);
        proof {
            assert(ats.deep_view().take(i as int + 1).last() == ats.deep_view()[i as int]);
            assert(ats.deep_view().take(i as int + 1).drop_last() =~= ats.deep_view().take(
                i as int,
            ));
        }
        if str_eq(ats[i].name.as_str(), name) {
            return Option::Some(&ats[i]);
        }
    }
    proof {
        assert(ats.deep_view().take(0) =~= Seq::<AtomModel>::empty());
    }
    Option::None
}

#[verifier::loop_isolation(false)]
fn get_atom_exec<'a>(c: &'a Container, fq: &str, name: &str) -> (r: Option<
    &'a crate::container::Atom,
>)
    ensures
        match spec_get_atom(c@, fq@, name@) {
            Option::Some(a) => r is Some && r->0@ == a,
            Option::None => r is None,
        },
{
    if str_eq(fq, c.manifest.fq_name.as_str()) {
        find_atom_exec(&c.atoms, name)
    } else {
        Option::None
    }
}

// ---------------------------------------------------------------------------
// Commands
// ---------------------------------------------------------------------------

/// What extracting the remaining command names yields: for each name, the
/// `wasi` namespace map must tie it to an atom, and the atom must be in the
/// container; the first failure wins.
pub open spec fn spec_commands_rec(
    c: ContainerModel,
    fq: Seq<char>,
    cmds: Seq<Seq<char>>,
) -> Result<Seq<CommandModel>, ErrorModel>
    decreases cmds.len(),
{
    if cmds.len() == 0 {
        Result::Ok(Seq::empty())
    } else {
        let name = cmds[0];
        match find_wasi(c.manifest.wasi, name) {
            Option::None => Result::Err(ErrorModel::UnresolvedCommandAtom { command: name }),
            Option::Some(atom_name) => match spec_get_atom(c, fq, atom_name) {
                Option::None => Result::Err(ErrorModel::MissingAtom { atom: atom_name }),
                Option::Some(a) => match spec_commands_rec(c, fq, cmds.drop_first()) {
                    Result::Err(e) => Result::Err(e),
                    Result::Ok(rest) => Result::Ok(
                        seq![CommandModel { name, wasm: a.data }] + rest,
                    ),
                },
            },
        }
    }
}

/// What command extraction yields for a whole container, in manifest
/// declaration order.
pub open spec fn spec_extract_commands(c: ContainerModel, fq: Seq<char>) -> Result<
    Seq<CommandModel>,
    ErrorModel,
> {
    spec_commands_rec(c, fq, c.manifest.commands)
}

/// Command extraction preserves manifest declaration order: the result holds
/// one command per manifest declaration, by name, in the same order.
pub proof fn lemma_commands_order(c: ContainerModel, fq: Seq<char>, cmds: Seq<Seq<char>>)
    ensures
        match spec_commands_rec(c, fq, cmds) {
            Result::Ok(out) => out.len() == cmds.len() && forall|i: int|
                0 <= i < out.len() ==> (#[trigger] out[i]).name == cmds[i],
            Result::Err(_) => true,
        },
    decreases cmds.len(),
{
    if cmds.len() > 0 {
        lemma_commands_order(c, fq, cmds.drop_first());
    }
}

/// Extracts every manifest-declared command, resolving each through the
/// `wasi` namespace map to an owned copy of its atom bytes, in manifest
/// declaration order.
#[verifier::loop_isolation(false)]
pub fn extract_commands(c: &Container, fq: &str) -> (r: Result<Vec<Command>, LoadError>)
    requires
        container_wf(c@),
    ensures
        match spec_extract_commands(c@, fq@) {
            Result::Ok(out) => r is Ok && r->Ok_0.deep_view() == out,
            Result::Err(e) => r is Err && r->Err_0@ == e,
        },
{
    let n = c.manifest.commands.len();
    let mut acc: Vec<Command> = Vec::new();
    let mut k: usize = 0;
    proof {
        assert(c@.manifest.commands.skip(0) =~= c@.manifest.commands);
    }
    while k < n
        invariant
            k <= n,
            n == c@.manifest.commands.len(),
            spec_extract_commands(c@, fq@) == (match spec_commands_rec(
                c@,
                fq@,
                c@.manifest.commands.skip(k as int),
            ) {
                Result::Ok(rest) => Result::<Seq<CommandModel>, ErrorModel>::Ok(
                    acc.deep_view() + rest,
                ),
                Result::Err(e) => Result::<Seq<CommandModel>, ErrorModel>::Err(e),
            }),
        decreases n - k,
    {
        let ghost remaining = c@.manifest.commands.skip(k as int);
        proof {
            assert(remaining[0] == c@.manifest.commands[k as int]);
            assert(remaining.drop_first() =~= c@.manifest.commands.skip(k as int + 1));
            assert(c.manifest.commands.deep_view()[k as int] == c.manifest.commands@[k as int]@);
        }
        let name = &c.manifest.commands[k];
        match find_wasi_exec(&c.manifest.wasi, name.as_str()) {
            Option::None => {
                return Result::Err(
                    LoadError::UnresolvedCommandAtom { command: name.clone() },
                );
            },
            Option::Some(atom_name) => {
                match get_atom_exec(c, fq, atom_name.as_str()) {
                    Option::None => {
                        return Result::Err(LoadError::MissingAtom { atom: atom_name.clone() });
                    },
                    Option::Some(a) => {
                        let wasm = crate::codec::copy_range(&a.data, 0, a.data.len());
                        proof {
                            assert(a@.data.subrange(0, a@.data.len() as int) =~= a@.data);
                        }
                        let ghost old_acc = acc.deep_view();
                        let cmd = Command { name: name.clone(), wasm };
                        let ghost cm = cmd@;
                        acc.push(cmd);
                        proof {
                            assert(acc.deep_view() =~= old_acc.push(cm));
                            let rest = spec_commands_rec(
                                c@,
                                fq@,
                                c@.manifest.commands.skip(k as int + 1),
                            );
                            if rest is Ok {
                                let out = rest->Ok_0;
                                assert(old_acc + (seq![cm] + out) =~= (old_acc + seq![cm]) + out);
                                assert(old_acc + seq![cm] =~= acc.deep_view());
                            }
                        }
                        k = k + 1;
                    },
                }
            },
        }
    }
    proof {
        assert(c@.manifest.commands.skip(n as int) =~= Seq::<Seq<char>>::empty());
        assert(acc.deep_view() + Seq::<CommandModel>::empty() =~= acc.deep_view());
    }
    Result::Ok(acc)
}

// ---------------------------------------------------------------------------
// Libraries
// ---------------------------------------------------------------------------

/// The module name derived from an atom path: the final `/`-separated
/// segment, without its extension; a path whose final segment is empty has
/// no stem.  A leading dot alone, as in a hidden file, is not an extension
/// separator.
pub open spec fn spec_module_stem(path: Seq<char>) -> Option<Seq<char>> {
    let seg = match spec_rfind(path, '/') {
        Option::None => path,
        Option::Some(i) => path.skip(i + 1),
    };
    if seg.len() == 0 {
        Option::None
    } else {
        match spec_rfind(seg, '.') {
            Option::Some(j) => if j > 0 {
                Option::Some(seg.take(j))
            } else {
                Option::Some(seg)
            },
            Option::None => Option::Some(seg),
        }
    }
}

/// Derives the module name from an atom path.
pub fn module_stem(path: &str) -> (r: Option<String>)
    ensures
        match spec_module_stem(path@) {
            Option::Some(s) => r is Some && r->0@ == s,
            Option::None => r is None,
        },
{
    let n = path.unicode_len();
    let seg_start: usize = match rfind_char(path, '/') {
        Option::None => 0,
        Option::Some(i) => {
            proof {
                crate::chars::lemma_spec_rfind(path@, '/');
            }
            i + 1
        },
    };
    let seg = path.substring_char(seg_start, n);
    proof {
        assert(seg@ =~= path@.skip(seg_start as int));
        if seg_start == 0 {
            assert(path@.skip(0) =~= path@);
        }
    }
    let m = seg.unicode_len();
    if m == 0 {
        return Option::None;
    }
    match rfind_char(seg, '.') {
        Option::Some(j) if j > 0 => {
            proof {
                crate::chars::lemma_spec_rfind(seg@, '.');
            }
            let stem = seg.substring_char(0, j);
            proof {
                assert(stem@ =~= seg@.take(j as int));
            }
            Option::Some(stem.to_owned())
        },
        _ => Option::Some(seg.to_owned()),
    }
}

/// The interface text a reference resolves to: the referenced bytes must
/// decode as UTF-8 and parse as an interface definition.
pub open spec fn spec_load_interface(
    c: ContainerModel,
    fq: Seq<char>,
    reference: Seq<char>,
) -> Result<wai_bindgen_gen_core::wai_parser::Interface, ErrorModel> {
    match spec_resolve(c, fq, reference) {
        Result::Err(e) => Result::Err(e),
        Result::Ok(bytes) => if !valid_utf8(bytes) {
            Result::Err(ErrorModel::NonUtf8Interface { path: reference })
        } else {
            match wai_parse(reference, decode_utf8(bytes)) {
                Option::None => Result::Err(ErrorModel::InterfaceParseError { path: reference }),
                Option::Some(iface) => Result::Ok(iface),
            }
        },
    }
}

/// Resolves a reference and parses the interface text it points at.
pub fn load_interface(c: &Container, fq: &str, reference: &str) -> (r: Result<
    wai_bindgen_gen_core::wai_parser::Interface,
    LoadError,
>)
    requires
        container_wf(c@),
    ensures
        match spec_load_interface(c@, fq@, reference@) {
            Result::Ok(iface) => r is Ok && r->Ok_0 == iface,
            Result::Err(e) => r is Err && r->Err_0@ == e,
        },
{
    match resolve(c, fq, reference) {
        Result::Err(e) => Result::Err(e),
        Result::Ok(bytes) => {
            let ghost bv = bytes@;
            match utf8_to_string(bytes) {
                Option::None => Result::Err(
                    LoadError::NonUtf8Interface { path: reference.to_owned() },
                ),
                Option::Some(text) => match parse_interface(reference, text.as_str()) {
                    Option::None => Result::Err(
                        LoadError::InterfaceParseError { path: reference.to_owned() },
                    ),
                    Option::Some(iface) => Result::Ok(iface),
                },
            }
        },
    }
}

/// What loading the remaining import references yields, preserving order;
/// the first failure wins.
pub open spec fn spec_imports_rec(
    c: ContainerModel,
    fq: Seq<char>,
    refs: Seq<Seq<char>>,
) -> Result<Seq<wai_bindgen_gen_core::wai_parser::Interface>, ErrorModel>
    decreases refs.len(),
{
    if refs.len() == 0 {
        Result::Ok(Seq::empty())
    } else {
        match spec_load_interface(c, fq, refs[0]) {
            Result::Err(e) => Result::Err(e),
            Result::Ok(iface) => match spec_imports_rec(c, fq, refs.drop_first()) {
                Result::Err(e) => Result::Err(e),
                Result::Ok(rest) => Result::Ok(seq![iface] + rest),
            },
        }
    }
}

#[verifier::loop_isolation(false)]
fn load_imports(c: &Container, fq: &str, refs: &Vec<String>) -> (r: Result<
    Vec<wai_bindgen_gen_core::wai_parser::Interface>,
    LoadError,
>)
    requires
        container_wf(c@),
    ensures
        match spec_imports_rec(c@, fq@, refs.deep_view()) {
            Result::Ok(out) => r is Ok && r->Ok_0@ == out,
            Result::Err(e) => r is Err && r->Err_0@ == e,
        },
{
    let n = refs.len();
    let mut acc: Vec<wai_bindgen_gen_core::wai_parser::Interface> = Vec::new();
    let mut k: usize = 0;
    proof {
        assert(refs.deep_view().skip(0) =~= refs.deep_view());
    }
    while k < n
        invariant
            k <= n,
            n == refs.deep_view().len(),
            spec_imports_rec(c@, fq@, refs.deep_view()) == (match spec_imports_rec(
                c@,
                fq@,
                refs.deep_view().skip(k as int),
            ) {
                Result::Ok(rest) => Result::<
                    Seq<wai_bindgen_gen_core::wai_parser::Interface>,
                    ErrorModel,
                >::Ok(acc@ + rest),
                Result::Err(e) => Result::<
                    Seq<wai_bindgen_gen_core::wai_parser::Interface>,
                    ErrorModel,
                >::Err(e),
            }),
        decreases n - k,
    {
        let ghost remaining = refs.deep_view().skip(k as int);
        proof {
            assert(remaining[0] == refs.deep_view()[k as int]);
            assert(remaining.drop_first() =~= refs.deep_view().skip(k as int + 1));
            assert(refs.deep_view()[k as int] == refs@[k as int]@);
        }
        match load_interface(c, fq, refs[k].as_str()) {
            Result::Err(e) => {
                return Result::Err(e);
            },
            Result::Ok(iface) => {
                let ghost old_acc = acc@;
                let ghost iv = iface;
                acc.push(iface);
                proof {
                    assert(acc@ =~= old_acc.push(iv));
                    let rest = spec_imports_rec(c@, fq@, refs.deep_view().skip(k as int + 1));
                    if rest is Ok {
                        let out = rest->Ok_0;
                        assert(old_acc + (seq![iv] + out) =~= (old_acc + seq![iv]) + out);
                        assert(old_acc + seq![iv] =~= acc@);
                    }
                }
                k = k + 1;
            },
        }
    }
    proof {
        assert(refs.deep_view().skip(n as int) =~= Seq::<Seq<char>>::empty());
        assert(acc@ + Seq::<wai_bindgen_gen_core::wai_parser::Interface>::empty() =~= acc@);
    }
    Result::Ok(acc)
}

/// What extracting one binding yields.  An unknown kind tag or a module
/// reference without the `atoms://` prefix is malformed metadata; an empty
/// exports path is missing; the exports interface, then each import
/// interface in declared order, then the module atom are resolved; the
/// module is named by the file stem of its atom path and classified by the
/// ABI sniffer.  A binding of the plain kind has no imports.
pub open spec fn spec_extract_binding(
    c: ContainerModel,
    fq: Seq<char>,
    bm: BindingModel,
) -> Result<LibraryModel, ErrorModel> {
    if bm.kind != BINDING_KIND_PLAIN && bm.kind != BINDING_KIND_WITH_IMPORTS {
        Result::Err(ErrorModel::InvalidBindingMetadata { context: bm.module })
    } else if bm.exports.len() == 0 {
        Result::Err(ErrorModel::MissingExports)
    } else {
        match spec_load_interface(c, fq, bm.exports) {
            Result::Err(e) => Result::Err(e),
            Result::Ok(exports) => {
                let import_refs = if bm.kind == BINDING_KIND_WITH_IMPORTS {
                    bm.imports
                } else {
                    Seq::empty()
                };
                match spec_imports_rec(c, fq, import_refs) {
                    Result::Err(e) => Result::Err(e),
                    Result::Ok(imports) => if !spec_starts_with(bm.module, "atoms://"@) {
                        Result::Err(ErrorModel::InvalidBindingMetadata { context: bm.module })
                    } else {
                        let atom_path = bm.module.skip("atoms://"@.len() as int);
                        match spec_get_atom(c, fq, atom_path) {
                            Option::None => Result::Err(
                                ErrorModel::MissingModuleAtom { atom: atom_path },
                            ),
                            Option::Some(a) => match spec_module_stem(atom_path) {
                                Option::None => Result::Err(
                                    ErrorModel::UndeterminableModuleName { path: atom_path },
                                ),
                                Option::Some(stem) => Result::Ok(
                                    LibraryModel {
                                        module: ModuleModel {
                                            name: stem,
                                            abi: spec_classify(a.data),
                                            wasm: a.data,
                                        },
                                        exports,
                                        imports,
                                    },
                                ),
                            },
                        }
                    },
                }
            },
        }
    }
}

/// A binding of the plain kind that extracts successfully has no imports.
pub proof fn lemma_plain_binding_no_imports(c: ContainerModel, fq: Seq<char>, bm: BindingModel)
    requires
        bm.kind == BINDING_KIND_PLAIN,
    ensures
        match spec_extract_binding(c, fq, bm) {
            Result::Ok(lm) => lm.imports.len() == 0,
            Result::Err(_) => true,
        },
{
}

/// Extracts one binding record into a library.
#[verifier::loop_isolation(false)]
pub fn extract_binding(c: &Container, fq: &str, b: &crate::container::BindingRec) -> (r: Result<
    Library,
    LoadError,
>)
    requires
        container_wf(c@),
    ensures
        match spec_extract_binding(c@, fq@, b@) {
            Result::Ok(lm) => r is Ok && r->Ok_0@ == lm,
            Result::Err(e) => r is Err && r->Err_0@ == e,
        },
{
    if b.kind != BINDING_KIND_PLAIN && b.kind != BINDING_KIND_WITH_IMPORTS {
        return Result::Err(LoadError::InvalidBindingMetadata { context: b.module.clone() });
    }
    if b.exports.unicode_len() == 0 {
        return Result::Err(LoadError::MissingExports);
    }
    let exports = match load_interface(c, fq, b.exports.as_str()) {
        Result::Err(e) => {
            return Result::Err(e);
        },
        Result::Ok(iface) => iface,
    };
    let empty_refs: Vec<String> = Vec::new();
    let import_refs: &Vec<String> = if b.kind == BINDING_KIND_WITH_IMPORTS {
        &b.imports
    } else {
        &empty_refs
    };
    proof {
        if b.kind != BINDING_KIND_WITH_IMPORTS {
            assert(empty_refs.deep_view() =~= Seq::<Seq<char>>::empty());
        }
    }
    let imports = match load_imports(c, fq, import_refs) {
        Result::Err(e) => {
            return Result::Err(e);
        },
        Result::Ok(ifaces) => ifaces,
    };
    proof {
        reveal_strlit("atoms://");
    }
    if !starts_with(b.module.as_str(), "atoms://") {
        return Result::Err(LoadError::InvalidBindingMetadata { context: b.module.clone() });
    }
    let mlen = b.module.as_str().unicode_len();
    let atom_path = b.module.as_str().substring_char(8, mlen);
    proof {
        assert("atoms://"@.len() == 8);
        assert(atom_path@ =~= b@.module.skip("atoms://"@.len() as int));
    }
    let a = match get_atom_exec(c, fq, atom_path) {
        Option::None => {
            return Result::Err(LoadError::MissingModuleAtom { atom: atom_path.to_owned() });
        },
        Option::Some(a) => a,
    };
    let stem = match module_stem(atom_path) {
        Option::None => {
            return Result::Err(
                LoadError::UndeterminableModuleName { path: atom_path.to_owned() },
            );
        },
        Option::Some(s) => s,
    };
    let wasm = crate::codec::copy_range(&a.data, 0, a.data.len());
    proof {
        assert(a@.data.subrange(0, a@.data.len() as int) =~= a@.data);
    }
    let abi = classify_abi(&wasm);
    Result::Ok(Library { module: Module { name: stem, abi, wasm }, exports, imports })
}

/// What extracting the remaining bindings yields, preserving declaration
/// order; the first failure wins.
pub open spec fn spec_libraries_rec(
    c: ContainerModel,
    fq: Seq<char>,
    bs: Seq<BindingModel>,
) -> Result<Seq<LibraryModel>, ErrorModel>
    decreases bs.len(),
{
    if bs.len() == 0 {
        Result::Ok(Seq::empty())
    } else {
        match spec_extract_binding(c, fq, bs[0]) {
            Result::Err(e) => Result::Err(e),
            Result::Ok(lm) => match spec_libraries_rec(c, fq, bs.drop_first()) {
                Result::Err(e) => Result::Err(e),
                Result::Ok(rest) => Result::Ok(seq![lm] + rest),
            },
        }
    }
}

/// What library extraction yields for a whole container, in manifest
/// binding declaration order.
pub open spec fn spec_extract_libraries(c: ContainerModel, fq: Seq<char>) -> Result<
    Seq<LibraryModel>,
    ErrorModel,
> {
    spec_libraries_rec(c, fq, c.manifest.bindings)
}

/// Extracts every manifest-declared binding into a library, in manifest
/// declaration order.
#[verifier::loop_isolation(false)]
pub fn extract_libraries(c: &Container, fq: &str) -> (r: Result<Vec<Library>, LoadError>)
    requires
        container_wf(c@),
    ensures
        match spec_extract_libraries(c@, fq@) {
            Result::Ok(out) => r is Ok && r->Ok_0.deep_view() == out,
            Result::Err(e) => r is Err && r->Err_0@ == e,
        },
{
    let n = c.manifest.bindings.len();
    let mut acc: Vec<Library> = Vec::new();
    let mut k: usize = 0;
    proof {
        assert(c@.manifest.bindings.skip(0) =~= c@.manifest.bindings);
    }
    while k < n
        invariant
            k <= n,
            n == c@.manifest.bindings.len(),
            spec_extract_libraries(c@, fq@) == (match spec_libraries_rec(
                c@,
                fq@,
                c@.manifest.bindings.skip(k as int),
            ) {
                Result::Ok(rest) => Result::<Seq<LibraryModel>, ErrorModel>::Ok(
                    acc.deep_view() + rest,
                ),
                Result::Err(e) => Result::<Seq<LibraryModel>, ErrorModel>::Err(e),
            }),
        decreases n - k,
    {
        let ghost remaining = c@.manifest.bindings.skip(k as int);
        proof {
            assert(remaining[0] == c@.manifest.bindings[k as int]);
            assert(remaining.drop_first() =~= c@.manifest.bindings.skip(k as int + 1));
            assert(c.manifest.bindings.deep_view()[k as int] == c.manifest.bindings@[k as int]@);
        }
        match extract_binding(c, fq, &c.manifest.bindings[k]) {
            Result::Err(e) => {
                return Result::Err(e);
            },
            Result::Ok(lib) => {
                let ghost old_acc = acc.deep_view();
                let ghost lm = lib@;
                acc.push(lib);
                proof {
                    assert(acc.deep_view() =~= old_acc.push(lm));
                    let rest = spec_libraries_rec(c@, fq@, c@.manifest.bindings.skip(k as int + 1));
                    if rest is Ok {
                        let out = rest->Ok_0;
                        assert(old_acc + (seq![lm] + out) =~= (old_acc + seq![lm]) + out);
                        assert(old_acc + seq![lm] =~= acc.deep_view());
                    }
                }
                k = k + 1;
            },
        }
    }
    proof {
        assert(c@.manifest.bindings.skip(n as int) =~= Seq::<BindingModel>::empty());
        assert(acc.deep_view() + Seq::<LibraryModel>::empty() =~= acc.deep_view());
    }
    Result::Ok(acc)
}

} // verus!
