//! The top-level loading pipeline: container bytes in, a fully resolved,
//! owned [`Package`] out.  Loading either returns a fully populated package
//! or fails with the first error encountered; there is no partial success.

use vstd::prelude::*;
use crate::codec::spec_parse;
use crate::container::container_wf;
use crate::errors::{err_like, ErrorModel, LoadError};
use crate::extract::{
    extract_commands, extract_libraries, spec_extract_commands, spec_extract_libraries,
};
use crate::meta::{extract_metadata, spec_extract_metadata};
use crate::package::{Package, PackageModel};

verus! {

/// What loading container bytes yields: the bytes must parse, the package
/// identifier must split and validate, and every command and binding must
/// resolve.  Errors surface in that order, the first one winning.
pub open spec fn spec_load(bytes: Seq<u8>) -> Result<PackageModel, ErrorModel> {
    match spec_parse(bytes) {
        Option::None => Result::Err(ErrorModel::ParseError { context: Seq::empty() }),
        Option::Some(m) => {
            let fq = m.manifest.fq_name;
            match spec_extract_metadata(fq) {
                Result::Err(e) => Result::Err(e),
                Result::Ok(metadata) => match spec_extract_commands(m, fq) {
                    Result::Err(e) => Result::Err(e),
                    Result::Ok(commands) => match spec_extract_libraries(m, fq) {
                        Result::Err(e) => Result::Err(e),
                        Result::Ok(libraries) => Result::Ok(
                            PackageModel { metadata, libraries, commands },
                        ),
                    },
                },
            }
        },
    }
}

/// Loads a package from already-packed container bytes.
pub fn load_bytes(bytes: &Vec<u8>) -> (r: Result<Package, LoadError>)
    ensures
        match spec_load(bytes@) {
            Result::Ok(pm) => r is Ok && r->Ok_0@ == pm,
            Result::Err(e) => r is Err && err_like(r->Err_0@, e),
        },
{
    let c = match crate::codec::parse_container(bytes) {
        Result::Err(e) => {
            return Result::Err(e);
        },
        Result::Ok(c) => c,
    };
    let metadata = match extract_metadata(c.manifest.fq_name.as_str()) {
        Result::Err(e) => {
            return Result::Err(e);
        },
        Result::Ok(m) => m,
    };
    let commands = match extract_commands(&c, c.manifest.fq_name.as_str()) {
        Result::Err(e) => {
            return Result::Err(e);
        },
        Result::Ok(cs) => cs,
    };
    let libraries = match extract_libraries(&c, c.manifest.fq_name.as_str()) {
        Result::Err(e) => {
            return Result::Err(e);
        },
        Result::Ok(ls) => ls,
    };
    Result::Ok(Package { metadata, libraries, commands })
}

/// Loading is deterministic: identical container bytes yield the same
/// outcome, a structurally identical package or the same failure.  Together
/// with the contract of [`load_bytes`], which pins its result to
/// [`spec_load`] of its input, this holds of every pair of calls.
pub proof fn lemma_load_deterministic(b1: Seq<u8>, b2: Seq<u8>)
    requires
        b1 == b2,
    ensures
        spec_load(b1) == spec_load(b2),
{
}

/// Round trip: packing a directory mapping that holds a minimal valid
/// descriptor — one command tied to one atom, no bindings — and the atom's
/// module file, then loading the packed bytes, yields a package whose single
/// command carries exactly the original module bytes.
pub proof fn lemma_pack_load_round_trip(
    files: Seq<crate::pack::FileModel>,
    d: crate::pack::DescriptorModel,
    cmd: Seq<char>,
    atom: Seq<char>,
    path: Seq<char>,
    wasm: Seq<u8>,
)
    requires
        crate::pack::find_src_file(files, "package.desc"@) is Some,
        vstd::utf8::valid_utf8(crate::pack::find_src_file(files, "package.desc"@)->0.content),
        crate::pack::spec_parse_descriptor(
            vstd::utf8::decode_utf8(crate::pack::find_src_file(files, "package.desc"@)->0.content),
        ) == Option::Some(d),
        d.commands == seq![crate::container::WasiModel { command: cmd, atom }],
        d.atoms == seq![crate::pack::AtomSourceModel { name: atom, path }],
        d.bindings == Seq::<crate::container::BindingModel>::empty(),
        crate::pack::find_src_file(files, path) is Some,
        crate::pack::find_src_file(files, path)->0.content == wasm,
        container_wf(crate::pack::spec_built_container(d, files)),
        spec_extract_metadata(d.fq_name) is Ok,
    ensures
        crate::pack::spec_pack(files) is Ok,
        spec_load(crate::pack::spec_pack(files)->Ok_0) is Ok,
        spec_load(crate::pack::spec_pack(files)->Ok_0)->Ok_0.commands == seq![
            crate::package::CommandModel { name: cmd, wasm },
        ],
        spec_load(crate::pack::spec_pack(files)->Ok_0)->Ok_0.libraries.len() == 0,
        spec_load(crate::pack::spec_pack(files)->Ok_0)->Ok_0.metadata == spec_extract_metadata(
            d.fq_name,
        )->Ok_0,
{
    let am = crate::container::AtomModel { name: atom, data: wasm };
    assert(d.atoms.drop_first() =~= Seq::<crate::pack::AtomSourceModel>::empty());
    assert(crate::pack::spec_build_atoms(Seq::empty(), files) == Result::<
        Seq<crate::container::AtomModel>,
        ErrorModel,
    >::Ok(Seq::empty()));
    assert(crate::pack::spec_build_atoms(d.atoms, files) == Result::<
        Seq<crate::container::AtomModel>,
        ErrorModel,
    >::Ok(seq![am] + Seq::empty()));
    assert(seq![am] + Seq::<crate::container::AtomModel>::empty() =~= seq![am]);
    let cm = crate::pack::spec_built_container(d, files);
    assert(cm.atoms == seq![am]);
    assert(crate::pack::spec_pack(files) == Result::<Seq<u8>, ErrorModel>::Ok(
        crate::codec::spec_encode(cm),
    ));
    let bytes = crate::pack::spec_pack(files)->Ok_0;
    crate::codec::lemma_parse_encode(cm);
    assert(spec_parse(bytes) == Option::Some(cm));
    let fq = cm.manifest.fq_name;
    assert(fq == d.fq_name);
    // Commands: the single declared command resolves through the namespace
    // map to the single atom.
    let names = cm.manifest.commands;
    assert(names =~= seq![cmd]) by {
        assert(d.commands.map_values(|w: crate::container::WasiModel| w.command).len() == 1);
        assert(d.commands.map_values(|w: crate::container::WasiModel| w.command)[0] == cmd);
    }
    assert(cm.manifest.wasi.last() == crate::container::WasiModel { command: cmd, atom });
    assert(crate::extract::find_wasi(cm.manifest.wasi, cmd) == Option::Some(atom));
    assert(cm.atoms.last() == am);
    assert(crate::extract::find_atom(cm.atoms, atom) == Option::Some(am));
    assert(crate::extract::spec_get_atom(cm, fq, atom) == Option::Some(am));
    assert(names.drop_first() =~= Seq::<Seq<char>>::empty());
    assert(crate::extract::spec_commands_rec(cm, fq, Seq::empty()) == Result::<
        Seq<crate::package::CommandModel>,
        ErrorModel,
    >::Ok(Seq::empty()));
    let one = seq![crate::package::CommandModel { name: cmd, wasm }];
    assert(crate::extract::spec_commands_rec(cm, fq, names) == Result::<
        Seq<crate::package::CommandModel>,
        ErrorModel,
    >::Ok(one + Seq::empty()));
    assert(one + Seq::<crate::package::CommandModel>::empty() =~= one);
    // Libraries: no bindings were declared.
    assert(cm.manifest.bindings.len() == 0);
    assert(crate::extract::spec_extract_libraries(cm, fq) == Result::<
        Seq<crate::package::LibraryModel>,
        ErrorModel,
    >::Ok(Seq::empty()));
}

} // verus!
