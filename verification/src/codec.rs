//! The container byte format.
//!
//! Layout: a four-byte magic, the manifest (package identifier, command
//! names, `wasi` namespace entries, binding records), the atoms, and the
//! volumes.  Counts and lengths are 32-bit little-endian; strings are
//! length-prefixed UTF-8; blobs are length-prefixed raw bytes.  Parsing is
//! strict: trailing bytes, bad magic, invalid UTF-8, unknown entry tags and
//! out-of-range entry byte ranges are all rejected.
//!
//! [`lemma_parse_encode`] proves the format unambiguous: parsing an encoded
//! well-formed container yields exactly the container that was encoded.

use vstd::prelude::*;
use vstd::bytes::{
    spec_u32_from_le_bytes, spec_u32_to_le_bytes, lemma_auto_spec_u32_to_from_le_bytes,
    u32_from_le_bytes, u32_to_le_bytes,
};
use vstd::slice::slice_subrange;
use vstd::string::StrSliceExecFns;
use vstd::utf8::{decode_utf8, encode_utf8, valid_utf8};
use crate::container::{
    atom_wf, binding_wf, blob_ok, container_wf, entry_wf, manifest_wf, str_ok, volume_wf, wasi_wf,
    Atom, AtomModel, BindingModel, BindingRec, Container, ContainerModel, EntryModel, Manifest,
    ManifestModel, Volume, VolumeEntry, VolumeModel, WasiEntry, WasiModel,
};
use crate::errors::LoadError;
use crate::trusted::utf8_to_string;

verus! {

/// The magic bytes that open every container.
pub open spec fn spec_magic() -> Seq<u8> {
    seq![0x77u8, 0x70u8, 0x63u8, 0x31u8]
}

// ---------------------------------------------------------------------------
// Encoding
// ---------------------------------------------------------------------------

pub open spec fn enc_u32(x: u32) -> Seq<u8> {
    spec_u32_to_le_bytes(x)
}

pub open spec fn enc_blob(d: Seq<u8>) -> Seq<u8> {
    enc_u32(d.len() as u32) + d
}

pub open spec fn enc_str(s: Seq<char>) -> Seq<u8> {
    enc_blob(encode_utf8(s))
}

pub open spec fn enc_strs(ss: Seq<Seq<char>>) -> Seq<u8>
    decreases ss.len(),
{
    if ss.len() == 0 {
        Seq::empty()
    } else {
        enc_str(ss[0]) + enc_strs(ss.drop_first())
    }
}

pub open spec fn enc_wasi(w: WasiModel) -> Seq<u8> {
    enc_str(w.command) + enc_str(w.atom)
}

pub open spec fn enc_wasis(ws: Seq<WasiModel>) -> Seq<u8>
    decreases ws.len(),
{
    if ws.len() == 0 {
        Seq::empty()
    } else {
        enc_wasi(ws[0]) + enc_wasis(ws.drop_first())
    }
}

pub open spec fn enc_binding(bm: BindingModel) -> Seq<u8> {
    seq![bm.kind] + enc_str(bm.exports) + enc_str(bm.module) + enc_u32(bm.imports.len() as u32)
        + enc_strs(bm.imports)
}

pub open spec fn enc_bindings(bs: Seq<BindingModel>) -> Seq<u8>
    decreases bs.len(),
{
    if bs.len() == 0 {
        Seq::empty()
    } else {
        enc_binding(bs[0]) + enc_bindings(bs.drop_first())
    }
}

pub open spec fn enc_atom(a: AtomModel) -> Seq<u8> {
    enc_str(a.name) + enc_blob(a.data)
}

pub open spec fn enc_atoms(ats: Seq<AtomModel>) -> Seq<u8>
    decreases ats.len(),
{
    if ats.len() == 0 {
        Seq::empty()
    } else {
        enc_atom(ats[0]) + enc_atoms(ats.drop_first())
    }
}

pub open spec fn enc_entry(e: EntryModel) -> Seq<u8> {
    seq![if e.is_dir { 0u8 } else { 1u8 }] + enc_str(e.path) + enc_u32(e.start) + enc_u32(e.end)
}

pub open spec fn enc_entries(es: Seq<EntryModel>) -> Seq<u8>
    decreases es.len(),
{
    if es.len() == 0 {
        Seq::empty()
    } else {
        enc_entry(es[0]) + enc_entries(es.drop_first())
    }
}

pub open spec fn enc_volume(v: VolumeModel) -> Seq<u8> {
    enc_str(v.name) + enc_u32(v.entries.len() as u32) + enc_entries(v.entries) + enc_blob(v.data)
}

pub open spec fn enc_volumes(vs: Seq<VolumeModel>) -> Seq<u8>
    decreases vs.len(),
{
    if vs.len() == 0 {
        Seq::empty()
    } else {
        enc_volume(vs[0]) + enc_volumes(vs.drop_first())
    }
}

pub open spec fn enc_manifest(m: ManifestModel) -> Seq<u8> {
    enc_str(m.fq_name) + enc_u32(m.commands.len() as u32) + enc_strs(m.commands) + enc_u32(
        m.wasi.len() as u32,
    ) + enc_wasis(m.wasi) + enc_u32(m.bindings.len() as u32) + enc_bindings(m.bindings)
}

/// The byte encoding of a whole container.
pub open spec fn spec_encode(c: ContainerModel) -> Seq<u8> {
    spec_magic() + enc_manifest(c.manifest) + enc_u32(c.atoms.len() as u32) + enc_atoms(c.atoms)
        + enc_u32(c.volumes.len() as u32) + enc_volumes(c.volumes)
}

// ---------------------------------------------------------------------------
// Parsing
// ---------------------------------------------------------------------------

pub open spec fn p_u8(b: Seq<u8>, i: int) -> Option<(u8, int)> {
    if 0 <= i && i + 1 <= b.len() {
        Option::Some((b[i], i + 1))
    } else {
        Option::None
    }
}

pub open spec fn p_u32(b: Seq<u8>, i: int) -> Option<(u32, int)> {
    if 0 <= i && i + 4 <= b.len() {
        Option::Some((spec_u32_from_le_bytes(b.subrange(i, i + 4)), i + 4))
    } else {
        Option::None
    }
}

pub open spec fn p_blob(b: Seq<u8>, i: int) -> Option<(Seq<u8>, int)> {
    match p_u32(b, i) {
        Option::None => Option::None,
        Option::Some((n, j)) => if j + n <= b.len() {
            Option::Some((b.subrange(j, j + n), j + n))
        } else {
            Option::None
        },
    }
}

pub open spec fn p_str(b: Seq<u8>, i: int) -> Option<(Seq<char>, int)> {
    match p_blob(b, i) {
        Option::None => Option::None,
        Option::Some((d, j)) => if valid_utf8(d) {
            Option::Some((decode_utf8(d), j))
        } else {
            Option::None
        },
    }
}

pub open spec fn p_strs(b: Seq<u8>, i: int, n: u32) -> Option<(Seq<Seq<char>>, int)>
    decreases n,
{
    if n == 0 {
        Option::Some((Seq::empty(), i))
    } else {
        match p_str(b, i) {
            Option::None => Option::None,
            Option::Some((s, j)) => match p_strs(b, j, (n - 1) as u32) {
                Option::None => Option::None,
                Option::Some((ss, k)) => Option::Some((seq![s] + ss, k)),
            },
        }
    }
}

pub open spec fn p_wasi(b: Seq<u8>, i: int) -> Option<(WasiModel, int)> {
    match p_str(b, i) {
        Option::None => Option::None,
        Option::Some((command, j)) => match p_str(b, j) {
            Option::None => Option::None,
            Option::Some((atom, k)) => Option::Some((WasiModel { command, atom }, k)),
        },
    }
}

pub open spec fn p_wasis(b: Seq<u8>, i: int, n: u32) -> Option<(Seq<WasiModel>, int)>
    decreases n,
{
    if n == 0 {
        Option::Some((Seq::empty(), i))
    } else {
        match p_wasi(b, i) {
            Option::None => Option::None,
            Option::Some((w, j)) => match p_wasis(b, j, (n - 1) as u32) {
                Option::None => Option::None,
                Option::Some((ws, k)) => Option::Some((seq![w] + ws, k)),
            },
        }
    }
}

pub open spec fn p_binding(b: Seq<u8>, i: int) -> Option<(BindingModel, int)> {
    match p_u8(b, i) {
        Option::None => Option::None,
        Option::Some((kind, i1)) => match p_str(b, i1) {
            Option::None => Option::None,
            Option::Some((exports, i2)) => match p_str(b, i2) {
                Option::None => Option::None,
                Option::Some((module, i3)) => match p_u32(b, i3) {
                    Option::None => Option::None,
                    Option::Some((n, i4)) => match p_strs(b, i4, n) {
                        Option::None => Option::None,
                        Option::Some((imports, i5)) => Option::Some(
                            (BindingModel { kind, exports, module, imports }, i5),
                        ),
                    },
                },
            },
        },
    }
}

pub open spec fn p_bindings(b: Seq<u8>, i: int, n: u32) -> Option<(Seq<BindingModel>, int)>
    decreases n,
{
    if n == 0 {
        Option::Some((Seq::empty(), i))
    } else {
        match p_binding(b, i) {
            Option::None => Option::None,
            Option::Some((bm, j)) => match p_bindings(b, j, (n - 1) as u32) {
                Option::None => Option::None,
                Option::Some((bs, k)) => Option::Some((seq![bm] + bs, k)),
            },
        }
    }
}

pub open spec fn p_atom(b: Seq<u8>, i: int) -> Option<(AtomModel, int)> {
    match p_str(b, i) {
        Option::None => Option::None,
        Option::Some((name, j)) => match p_blob(b, j) {
            Option::None => Option::None,
            Option::Some((data, k)) => Option::Some((AtomModel { name, data }, k)),
        },
    }
}

pub open spec fn p_atoms(b: Seq<u8>, i: int, n: u32) -> Option<(Seq<AtomModel>, int)>
    decreases n,
{
    if n == 0 {
        Option::Some((Seq::empty(), i))
    } else {
        match p_atom(b, i) {
            Option::None => Option::None,
            Option::Some((a, j)) => match p_atoms(b, j, (n - 1) as u32) {
                Option::None => Option::None,
                Option::Some((ats, k)) => Option::Some((seq![a] + ats, k)),
            },
        }
    }
}

pub open spec fn p_entry(b: Seq<u8>, i: int) -> Option<(EntryModel, int)> {
    match p_u8(b, i) {
        Option::None => Option::None,
        Option::Some((tag, i1)) => if tag != 0 && tag != 1 {
            Option::None
        } else {
            match p_str(b, i1) {
                Option::None => Option::None,
                Option::Some((path, i2)) => match p_u32(b, i2) {
                    Option::None => Option::None,
                    Option::Some((start, i3)) => match p_u32(b, i3) {
                        Option::None => Option::None,
                        Option::Some((end, i4)) => Option::Some(
                            (EntryModel { is_dir: tag == 0, path, start, end }, i4),
                        ),
                    },
                },
            }
        },
    }
}

pub open spec fn p_entries(b: Seq<u8>, i: int, n: u32) -> Option<(Seq<EntryModel>, int)>
    decreases n,
{
    if n == 0 {
        Option::Some((Seq::empty(), i))
    } else {
        match p_entry(b, i) {
            Option::None => Option::None,
            Option::Some((e, j)) => match p_entries(b, j, (n - 1) as u32) {
                Option::None => Option::None,
                Option::Some((es, k)) => Option::Some((seq![e] + es, k)),
            },
        }
    }
}

/// Every file entry's recorded byte range lies within a buffer of length
/// `data_len`.
pub open spec fn entries_ok(es: Seq<EntryModel>, data_len: int) -> bool {
    forall|i: int|
        0 <= i < es.len() ==> (!(#[trigger] es[i]).is_dir ==> es[i].start <= es[i].end
            && es[i].end <= data_len)
}

pub open spec fn p_volume(b: Seq<u8>, i: int) -> Option<(VolumeModel, int)> {
    match p_str(b, i) {
        Option::None => Option::None,
        Option::Some((name, i1)) => match p_u32(b, i1) {
            Option::None => Option::None,
            Option::Some((n, i2)) => match p_entries(b, i2, n) {
                Option::None => Option::None,
                Option::Some((es, i3)) => match p_blob(b, i3) {
                    Option::None => Option::None,
                    Option::Some((data, i4)) => if entries_ok(es, data.len() as int) {
                        Option::Some((VolumeModel { name, entries: es, data }, i4))
                    } else {
                        Option::None
                    },
                },
            },
        },
    }
}

pub open spec fn p_volumes(b: Seq<u8>, i: int, n: u32) -> Option<(Seq<VolumeModel>, int)>
    decreases n,
{
    if n == 0 {
        Option::Some((Seq::empty(), i))
    } else {
        match p_volume(b, i) {
            Option::None => Option::None,
            Option::Some((v, j)) => match p_volumes(b, j, (n - 1) as u32) {
                Option::None => Option::None,
                Option::Some((vs, k)) => Option::Some((seq![v] + vs, k)),
            },
        }
    }
}

pub open spec fn p_manifest(b: Seq<u8>, i: int) -> Option<(ManifestModel, int)> {
    match p_str(b, i) {
        Option::None => Option::None,
        Option::Some((fq_name, i1)) => match p_u32(b, i1) {
            Option::None => Option::None,
            Option::Some((nc, i2)) => match p_strs(b, i2, nc) {
                Option::None => Option::None,
                Option::Some((commands, i3)) => match p_u32(b, i3) {
                    Option::None => Option::None,
                    Option::Some((nw, i4)) => match p_wasis(b, i4, nw) {
                        Option::None => Option::None,
                        Option::Some((wasi, i5)) => match p_u32(b, i5) {
                            Option::None => Option::None,
                            Option::Some((nb, i6)) => match p_bindings(b, i6, nb) {
                                Option::None => Option::None,
                                Option::Some((bindings, i7)) => Option::Some(
                                    (ManifestModel { fq_name, commands, wasi, bindings }, i7),
                                ),
                            },
                        },
                    },
                },
            },
        },
    }
}

/// What parsing container bytes yields: the container model, or nothing when
/// the bytes are malformed.
pub open spec fn spec_parse(b: Seq<u8>) -> Option<ContainerModel> {
    if b.len() >= 4 && b.subrange(0, 4) == spec_magic() {
        match p_manifest(b, 4) {
            Option::None => Option::None,
            Option::Some((m, i1)) => match p_u32(b, i1) {
                Option::None => Option::None,
                Option::Some((na, i2)) => match p_atoms(b, i2, na) {
                    Option::None => Option::None,
                    Option::Some((atoms, i3)) => match p_u32(b, i3) {
                        Option::None => Option::None,
                        Option::Some((nv, i4)) => match p_volumes(b, i4, nv) {
                            Option::None => Option::None,
                            Option::Some((volumes, i5)) => if i5 == b.len() {
                                Option::Some(ContainerModel { manifest: m, atoms, volumes })
                            } else {
                                Option::None
                            },
                        },
                    },
                },
            },
        }
    } else {
        Option::None
    }
}

// ---------------------------------------------------------------------------
// Round trip: parsing an encoding recovers the encoded value
// ---------------------------------------------------------------------------

/// Splits knowledge about a concatenated byte range into its two halves.
proof fn seq_split(b: Seq<u8>, i: int, x: Seq<u8>, y: Seq<u8>)
    requires
        0 <= i,
        i + x.len() + y.len() <= b.len(),
        b.subrange(i, i + x.len() + y.len()) == x + y,
    ensures
        b.subrange(i, i + x.len()) == x,
        b.subrange(i + x.len(), i + x.len() + y.len()) == y,
{
    let whole = b.subrange(i, i + x.len() + y.len());
    assert(b.subrange(i, i + x.len()) =~= x) by {
        assert(forall|k: int| 0 <= k < x.len() ==> b.subrange(i, i + x.len())[k] == whole[k]);
    }
    assert(b.subrange(i + x.len(), i + x.len() + y.len()) =~= y) by {
        assert(forall|k: int|
            0 <= k < y.len() ==> #[trigger] b.subrange(i + x.len(), i + x.len() + y.len())[k]
                == whole[k + x.len()]);
    }
}

proof fn rt_u8(b: Seq<u8>, i: int, x: u8)
    requires
        0 <= i,
        i + 1 <= b.len(),
        b.subrange(i, i + 1) == seq![x],
    ensures
        p_u8(b, i) == Option::Some((x, i + 1)),
{
    assert(b[i] == b.subrange(i, i + 1)[0]);
}

proof fn rt_u32(b: Seq<u8>, i: int, x: u32)
    requires
        0 <= i,
        i + 4 <= b.len(),
        b.subrange(i, i + 4) == enc_u32(x),
    ensures
        p_u32(b, i) == Option::Some((x, i + 4)),
        enc_u32(x).len() == 4,
{
    lemma_auto_spec_u32_to_from_le_bytes();
    assert(spec_u32_to_le_bytes(x).len() == 4);
    assert(spec_u32_from_le_bytes(spec_u32_to_le_bytes(x)) == x);
    assert(b.subrange(i, i + 4) == spec_u32_to_le_bytes(x));
}

proof fn rt_blob(b: Seq<u8>, i: int, d: Seq<u8>)
    requires
        0 <= i,
        blob_ok(d),
        i + enc_blob(d).len() <= b.len(),
        b.subrange(i, i + enc_blob(d).len()) == enc_blob(d),
    ensures
        p_blob(b, i) == Option::Some((d, i + enc_blob(d).len())),
        enc_blob(d).len() == 4 + d.len(),
{
    lemma_auto_spec_u32_to_from_le_bytes();
    seq_split(b, i, enc_u32(d.len() as u32), d);
    rt_u32(b, i, d.len() as u32);
}

proof fn rt_str(b: Seq<u8>, i: int, s: Seq<char>)
    requires
        0 <= i,
        str_ok(s),
        i + enc_str(s).len() <= b.len(),
        b.subrange(i, i + enc_str(s).len()) == enc_str(s),
    ensures
        p_str(b, i) == Option::Some((s, i + enc_str(s).len())),
        enc_str(s).len() == 4 + encode_utf8(s).len(),
{
    broadcast use vstd::utf8::encode_utf8_valid_utf8, vstd::utf8::encode_utf8_decode_utf8;

    rt_blob(b, i, encode_utf8(s));
}

proof fn rt_strs(b: Seq<u8>, i: int, ss: Seq<Seq<char>>)
    requires
        0 <= i,
        ss.len() <= u32::MAX,
        forall|k: int| 0 <= k < ss.len() ==> str_ok(#[trigger] ss[k]),
        i + enc_strs(ss).len() <= b.len(),
        b.subrange(i, i + enc_strs(ss).len()) == enc_strs(ss),
    ensures
        p_strs(b, i, ss.len() as u32) == Option::Some((ss, i + enc_strs(ss).len())),
    decreases ss.len(),
{
    if ss.len() == 0 {
        assert(ss =~= Seq::<Seq<char>>::empty());
    } else {
        let head = enc_str(ss[0]);
        let tail = enc_strs(ss.drop_first());
        seq_split(b, i, head, tail);
        rt_str(b, i, ss[0]);
        rt_strs(b, i + head.len(), ss.drop_first());
        assert(seq![ss[0]] + ss.drop_first() =~= ss);
    }
}

proof fn rt_wasi(b: Seq<u8>, i: int, w: WasiModel)
    requires
        0 <= i,
        wasi_wf(w),
        i + enc_wasi(w).len() <= b.len(),
        b.subrange(i, i + enc_wasi(w).len()) == enc_wasi(w),
    ensures
        p_wasi(b, i) == Option::Some((w, i + enc_wasi(w).len())),
{
    seq_split(b, i, enc_str(w.command), enc_str(w.atom));
    rt_str(b, i, w.command);
    rt_str(b, i + enc_str(w.command).len(), w.atom);
}

proof fn rt_wasis(b: Seq<u8>, i: int, ws: Seq<WasiModel>)
    requires
        0 <= i,
        ws.len() <= u32::MAX,
        forall|k: int| 0 <= k < ws.len() ==> wasi_wf(#[trigger] ws[k]),
        i + enc_wasis(ws).len() <= b.len(),
        b.subrange(i, i + enc_wasis(ws).len()) == enc_wasis(ws),
    ensures
        p_wasis(b, i, ws.len() as u32) == Option::Some((ws, i + enc_wasis(ws).len())),
    decreases ws.len(),
{
    if ws.len() == 0 {
        assert(ws =~= Seq::<WasiModel>::empty());
    } else {
        let head = enc_wasi(ws[0]);
        let tail = enc_wasis(ws.drop_first());
        seq_split(b, i, head, tail);
        rt_wasi(b, i, ws[0]);
        rt_wasis(b, i + head.len(), ws.drop_first());
        assert(seq![ws[0]] + ws.drop_first() =~= ws);
    }
}

proof fn rt_binding(b: Seq<u8>, i: int, bm: BindingModel)
    requires
        0 <= i,
        binding_wf(bm),
        i + enc_binding(bm).len() <= b.len(),
        b.subrange(i, i + enc_binding(bm).len()) == enc_binding(bm),
    ensures
        p_binding(b, i) == Option::Some((bm, i + enc_binding(bm).len())),
{
    let e0 = seq![bm.kind];
    let e1 = enc_str(bm.exports);
    let e2 = enc_str(bm.module);
    let e3 = enc_u32(bm.imports.len() as u32);
    let e4 = enc_strs(bm.imports);
    lemma_auto_spec_u32_to_from_le_bytes();
    assert(enc_binding(bm) =~= e0 + (e1 + (e2 + (e3 + e4))));
    seq_split(b, i, e0, e1 + (e2 + (e3 + e4)));
    let i1 = i + 1;
    seq_split(b, i1, e1, e2 + (e3 + e4));
    let i2 = i1 + e1.len();
    seq_split(b, i2, e2, e3 + e4);
    let i3 = i2 + e2.len();
    seq_split(b, i3, e3, e4);
    let i4 = i3 + 4;
    rt_u8(b, i, bm.kind);
    rt_str(b, i1, bm.exports);
    rt_str(b, i2, bm.module);
    rt_u32(b, i3, bm.imports.len() as u32);
    rt_strs(b, i4, bm.imports);
}

proof fn rt_bindings(b: Seq<u8>, i: int, bs: Seq<BindingModel>)
    requires
        0 <= i,
        bs.len() <= u32::MAX,
        forall|k: int| 0 <= k < bs.len() ==> binding_wf(#[trigger] bs[k]),
        i + enc_bindings(bs).len() <= b.len(),
        b.subrange(i, i + enc_bindings(bs).len()) == enc_bindings(bs),
    ensures
        p_bindings(b, i, bs.len() as u32) == Option::Some((bs, i + enc_bindings(bs).len())),
    decreases bs.len(),
{
    if bs.len() == 0 {
        assert(bs =~= Seq::<BindingModel>::empty());
    } else {
        let head = enc_binding(bs[0]);
        let tail = enc_bindings(bs.drop_first());
        seq_split(b, i, head, tail);
        rt_binding(b, i, bs[0]);
        rt_bindings(b, i + head.len(), bs.drop_first());
        assert(seq![bs[0]] + bs.drop_first() =~= bs);
    }
}

proof fn rt_atom(b: Seq<u8>, i: int, a: AtomModel)
    requires
        0 <= i,
        atom_wf(a),
        i + enc_atom(a).len() <= b.len(),
        b.subrange(i, i + enc_atom(a).len()) == enc_atom(a),
    ensures
        p_atom(b, i) == Option::Some((a, i + enc_atom(a).len())),
{
    seq_split(b, i, enc_str(a.name), enc_blob(a.data));
    rt_str(b, i, a.name);
    rt_blob(b, i + enc_str(a.name).len(), a.data);
}

proof fn rt_atoms(b: Seq<u8>, i: int, ats: Seq<AtomModel>)
    requires
        0 <= i,
        ats.len() <= u32::MAX,
        forall|k: int| 0 <= k < ats.len() ==> atom_wf(#[trigger] ats[k]),
        i + enc_atoms(ats).len() <= b.len(),
        b.subrange(i, i + enc_atoms(ats).len()) == enc_atoms(ats),
    ensures
        p_atoms(b, i, ats.len() as u32) == Option::Some((ats, i + enc_atoms(ats).len())),
    decreases ats.len(),
{
    if ats.len() == 0 {
        assert(ats =~= Seq::<AtomModel>::empty());
    } else {
        let head = enc_atom(ats[0]);
        let tail = enc_atoms(ats.drop_first());
        seq_split(b, i, head, tail);
        rt_atom(b, i, ats[0]);
        rt_atoms(b, i + head.len(), ats.drop_first());
        assert(seq![ats[0]] + ats.drop_first() =~= ats);
    }
}

proof fn rt_entry(b: Seq<u8>, i: int, e: EntryModel)
    requires
        0 <= i,
        str_ok(e.path),
        i + enc_entry(e).len() <= b.len(),
        b.subrange(i, i + enc_entry(e).len()) == enc_entry(e),
    ensures
        p_entry(b, i) == Option::Some((e, i + enc_entry(e).len())),
{
    let e0 = seq![if e.is_dir { 0u8 } else { 1u8 }];
    let e1 = enc_str(e.path);
    let e2 = enc_u32(e.start);
    let e3 = enc_u32(e.end);
    lemma_auto_spec_u32_to_from_le_bytes();
    assert(enc_entry(e) =~= e0 + (e1 + (e2 + e3)));
    seq_split(b, i, e0, e1 + (e2 + e3));
    let i1 = i + 1;
    seq_split(b, i1, e1, e2 + e3);
    let i2 = i1 + e1.len();
    seq_split(b, i2, e2, e3);
    let i3 = i2 + 4;
    rt_u8(b, i, if e.is_dir { 0u8 } else { 1u8 });
    rt_str(b, i1, e.path);
    rt_u32(b, i2, e.start);
    rt_u32(b, i3, e.end);
}

proof fn rt_entries(b: Seq<u8>, i: int, es: Seq<EntryModel>)
    requires
        0 <= i,
        es.len() <= u32::MAX,
        forall|k: int| 0 <= k < es.len() ==> str_ok((#[trigger] es[k]).path),
        i + enc_entries(es).len() <= b.len(),
        b.subrange(i, i + enc_entries(es).len()) == enc_entries(es),
    ensures
        p_entries(b, i, es.len() as u32) == Option::Some((es, i + enc_entries(es).len())),
    decreases es.len(),
{
    if es.len() == 0 {
        assert(es =~= Seq::<EntryModel>::empty());
    } else {
        let head = enc_entry(es[0]);
        let tail = enc_entries(es.drop_first());
        seq_split(b, i, head, tail);
        rt_entry(b, i, es[0]);
        rt_entries(b, i + head.len(), es.drop_first());
        assert(seq![es[0]] + es.drop_first() =~= es);
    }
}

proof fn rt_volume(b: Seq<u8>, i: int, v: VolumeModel)
    requires
        0 <= i,
        volume_wf(v),
        i + enc_volume(v).len() <= b.len(),
        b.subrange(i, i + enc_volume(v).len()) == enc_volume(v),
    ensures
        p_volume(b, i) == Option::Some((v, i + enc_volume(v).len())),
{
    let e0 = enc_str(v.name);
    let e1 = enc_u32(v.entries.len() as u32);
    let e2 = enc_entries(v.entries);
    let e3 = enc_blob(v.data);
    lemma_auto_spec_u32_to_from_le_bytes();
    assert(enc_volume(v) =~= e0 + (e1 + (e2 + e3)));
    seq_split(b, i, e0, e1 + (e2 + e3));
    let i1 = i + e0.len();
    seq_split(b, i1, e1, e2 + e3);
    let i2 = i1 + 4;
    seq_split(b, i2, e2, e3);
    let i3 = i2 + e2.len();
    rt_str(b, i, v.name);
    rt_u32(b, i1, v.entries.len() as u32);
    rt_entries(b, i2, v.entries);
    rt_blob(b, i3, v.data);
}

proof fn rt_volumes(b: Seq<u8>, i: int, vs: Seq<VolumeModel>)
    requires
        0 <= i,
        vs.len() <= u32::MAX,
        forall|k: int| 0 <= k < vs.len() ==> volume_wf(#[trigger] vs[k]),
        i + enc_volumes(vs).len() <= b.len(),
        b.subrange(i, i + enc_volumes(vs).len()) == enc_volumes(vs),
    ensures
        p_volumes(b, i, vs.len() as u32) == Option::Some((vs, i + enc_volumes(vs).len())),
    decreases vs.len(),
{
    if vs.len() == 0 {
        assert(vs =~= Seq::<VolumeModel>::empty());
    } else {
        let head = enc_volume(vs[0]);
        let tail = enc_volumes(vs.drop_first());
        seq_split(b, i, head, tail);
        rt_volume(b, i, vs[0]);
        rt_volumes(b, i + head.len(), vs.drop_first());
        assert(seq![vs[0]] + vs.drop_first() =~= vs);
    }
}

proof fn rt_manifest(b: Seq<u8>, i: int, m: ManifestModel)
    requires
        0 <= i,
        manifest_wf(m),
        i + enc_manifest(m).len() <= b.len(),
        b.subrange(i, i + enc_manifest(m).len()) == enc_manifest(m),
    ensures
        p_manifest(b, i) == Option::Some((m, i + enc_manifest(m).len())),
{
    let e0 = enc_str(m.fq_name);
    let e1 = enc_u32(m.commands.len() as u32);
    let e2 = enc_strs(m.commands);
    let e3 = enc_u32(m.wasi.len() as u32);
    let e4 = enc_wasis(m.wasi);
    let e5 = enc_u32(m.bindings.len() as u32);
    let e6 = enc_bindings(m.bindings);
    lemma_auto_spec_u32_to_from_le_bytes();
    assert(enc_manifest(m) =~= e0 + (e1 + (e2 + (e3 + (e4 + (e5 + e6))))));
    seq_split(b, i, e0, e1 + (e2 + (e3 + (e4 + (e5 + e6)))));
    let i1 = i + e0.len();
    seq_split(b, i1, e1, e2 + (e3 + (e4 + (e5 + e6))));
    let i2 = i1 + 4;
    seq_split(b, i2, e2, e3 + (e4 + (e5 + e6)));
    let i3 = i2 + e2.len();
    seq_split(b, i3, e3, e4 + (e5 + e6));
    let i4 = i3 + 4;
    seq_split(b, i4, e4, e5 + e6);
    let i5 = i4 + e4.len();
    seq_split(b, i5, e5, e6);
    let i6 = i5 + 4;
    rt_str(b, i, m.fq_name);
    rt_u32(b, i1, m.commands.len() as u32);
    rt_strs(b, i2, m.commands);
    rt_u32(b, i3, m.wasi.len() as u32);
    rt_wasis(b, i4, m.wasi);
    rt_u32(b, i5, m.bindings.len() as u32);
    rt_bindings(b, i6, m.bindings);
}

/// The format is unambiguous: parsing the encoding of any well-formed
/// container yields exactly that container.
pub proof fn lemma_parse_encode(c: ContainerModel)
    requires
        container_wf(c),
    ensures
        spec_parse(spec_encode(c)) == Option::Some(c),
{
    let b = spec_encode(c);
    let e0 = spec_magic();
    let e1 = enc_manifest(c.manifest);
    let e2 = enc_u32(c.atoms.len() as u32);
    let e3 = enc_atoms(c.atoms);
    let e4 = enc_u32(c.volumes.len() as u32);
    let e5 = enc_volumes(c.volumes);
    lemma_auto_spec_u32_to_from_le_bytes();
    assert(b =~= e0 + (e1 + (e2 + (e3 + (e4 + e5)))));
    assert(b.subrange(0, b.len() as int) =~= b);
    seq_split(b, 0, e0, e1 + (e2 + (e3 + (e4 + e5))));
    let i1 = 4;
    seq_split(b, i1, e1, e2 + (e3 + (e4 + e5)));
    let i2 = i1 + e1.len();
    seq_split(b, i2, e2, e3 + (e4 + e5));
    let i3 = i2 + 4;
    seq_split(b, i3, e3, e4 + e5);
    let i4 = i3 + e3.len();
    seq_split(b, i4, e4, e5);
    let i5 = i4 + 4;
    rt_manifest(b, i1, c.manifest);
    rt_u32(b, i2, c.atoms.len() as u32);
    rt_atoms(b, i3, c.atoms);
    rt_u32(b, i4, c.volumes.len() as u32);
    rt_volumes(b, i5, c.volumes);
    assert(i5 + e5.len() == b.len());
}

// ---------------------------------------------------------------------------
// Executable encoding
// ---------------------------------------------------------------------------

proof fn enc_strs_push(ss: Seq<Seq<char>>, k: int)
    requires
        0 <= k < ss.len(),
    ensures
        enc_strs(ss.take(k + 1)) == enc_strs(ss.take(k)) + enc_str(ss[k]),
    decreases k,
{
    if k == 0 {
        assert(ss.take(1) =~= seq![ss[0]]);
        assert(ss.take(0) =~= Seq::<Seq<char>>::empty());
        assert(seq![ss[0]].drop_first() =~= Seq::<Seq<char>>::empty());
        assert(enc_strs(ss.take(1)) =~= enc_strs(ss.take(0)) + enc_str(ss[0]));
    } else {
        let d = ss.drop_first();
        enc_strs_push(d, k - 1);
        assert(ss.take(k + 1).drop_first() =~= d.take(k));
        assert(ss.take(k).drop_first() =~= d.take(k - 1));
        assert(ss.take(k + 1)[0] == ss[0]);
        assert(ss.take(k)[0] == ss[0]);
        assert(enc_strs(ss.take(k + 1)) =~= enc_strs(ss.take(k)) + enc_str(ss[k]));
    }
}

proof fn enc_wasis_push(ws: Seq<WasiModel>, k: int)
    requires
        0 <= k < ws.len(),
    ensures
        enc_wasis(ws.take(k + 1)) == enc_wasis(ws.take(k)) + enc_wasi(ws[k]),
    decreases k,
{
    if k == 0 {
        assert(ws.take(1) =~= seq![ws[0]]);
        assert(ws.take(0) =~= Seq::<WasiModel>::empty());
        assert(seq![ws[0]].drop_first() =~= Seq::<WasiModel>::empty());
        assert(enc_wasis(ws.take(1)) =~= enc_wasis(ws.take(0)) + enc_wasi(ws[0]));
    } else {
        let d = ws.drop_first();
        enc_wasis_push(d, k - 1);
        assert(ws.take(k + 1).drop_first() =~= d.take(k));
        assert(ws.take(k).drop_first() =~= d.take(k - 1));
        assert(ws.take(k + 1)[0] == ws[0]);
        assert(ws.take(k)[0] == ws[0]);
        assert(enc_wasis(ws.take(k + 1)) =~= enc_wasis(ws.take(k)) + enc_wasi(ws[k]));
    }
}

proof fn enc_bindings_push(bs: Seq<BindingModel>, k: int)
    requires
        0 <= k < bs.len(),
    ensures
        enc_bindings(bs.take(k + 1)) == enc_bindings(bs.take(k)) + enc_binding(bs[k]),
    decreases k,
{
    if k == 0 {
        assert(bs.take(1) =~= seq![bs[0]]);
        assert(bs.take(0) =~= Seq::<BindingModel>::empty());
        assert(seq![bs[0]].drop_first() =~= Seq::<BindingModel>::empty());
        assert(enc_bindings(bs.take(1)) =~= enc_bindings(bs.take(0)) + enc_binding(bs[0]));
    } else {
        let d = bs.drop_first();
        enc_bindings_push(d, k - 1);
        assert(bs.take(k + 1).drop_first() =~= d.take(k));
        assert(bs.take(k).drop_first() =~= d.take(k - 1));
        assert(bs.take(k + 1)[0] == bs[0]);
        assert(bs.take(k)[0] == bs[0]);
        assert(enc_bindings(bs.take(k + 1)) =~= enc_bindings(bs.take(k)) + enc_binding(bs[k]));
    }
}

proof fn enc_atoms_push(ats: Seq<AtomModel>, k: int)
    requires
        0 <= k < ats.len(),
    ensures
        enc_atoms(ats.take(k + 1)) == enc_atoms(ats.take(k)) + enc_atom(ats[k]),
    decreases k,
{
    if k == 0 {
        assert(ats.take(1) =~= seq![ats[0]]);
        assert(ats.take(0) =~= Seq::<AtomModel>::empty());
        assert(seq![ats[0]].drop_first() =~= Seq::<AtomModel>::empty());
        assert(enc_atoms(ats.take(1)) =~= enc_atoms(ats.take(0)) + enc_atom(ats[0]));
    } else {
        let d = ats.drop_first();
        enc_atoms_push(d, k - 1);
        assert(ats.take(k + 1).drop_first() =~= d.take(k));
        assert(ats.take(k).drop_first() =~= d.take(k - 1));
        assert(ats.take(k + 1)[0] == ats[0]);
        assert(ats.take(k)[0] == ats[0]);
        assert(enc_atoms(ats.take(k + 1)) =~= enc_atoms(ats.take(k)) + enc_atom(ats[k]));
    }
}

proof fn enc_entries_push(es: Seq<EntryModel>, k: int)
    requires
        0 <= k < es.len(),
    ensures
        enc_entries(es.take(k + 1)) == enc_entries(es.take(k)) + enc_entry(es[k]),
    decreases k,
{
    if k == 0 {
        assert(es.take(1) =~= seq![es[0]]);
        assert(es.take(0) =~= Seq::<EntryModel>::empty());
        assert(seq![es[0]].drop_first() =~= Seq::<EntryModel>::empty());
        assert(enc_entries(es.take(1)) =~= enc_entries(es.take(0)) + enc_entry(es[0]));
    } else {
        let d = es.drop_first();
        enc_entries_push(d, k - 1);
        assert(es.take(k + 1).drop_first() =~= d.take(k));
        assert(es.take(k).drop_first() =~= d.take(k - 1));
        assert(es.take(k + 1)[0] == es[0]);
        assert(es.take(k)[0] == es[0]);
        assert(enc_entries(es.take(k + 1)) =~= enc_entries(es.take(k)) + enc_entry(es[k]));
    }
}

proof fn enc_volumes_push(vs: Seq<VolumeModel>, k: int)
    requires
        0 <= k < vs.len(),
    ensures
        enc_volumes(vs.take(k + 1)) == enc_volumes(vs.take(k)) + enc_volume(vs[k]),
    decreases k,
{
    if k == 0 {
        assert(vs.take(1) =~= seq![vs[0]]);
        assert(vs.take(0) =~= Seq::<VolumeModel>::empty());
        assert(seq![vs[0]].drop_first() =~= Seq::<VolumeModel>::empty());
        assert(enc_volumes(vs.take(1)) =~= enc_volumes(vs.take(0)) + enc_volume(vs[0]));
    } else {
        let d = vs.drop_first();
        enc_volumes_push(d, k - 1);
        assert(vs.take(k + 1).drop_first() =~= d.take(k));
        assert(vs.take(k).drop_first() =~= d.take(k - 1));
        assert(vs.take(k + 1)[0] == vs[0]);
        assert(vs.take(k)[0] == vs[0]);
        assert(enc_volumes(vs.take(k + 1)) =~= enc_volumes(vs.take(k)) + enc_volume(vs[k]));
    }
}

fn put_u32(out: &mut Vec<u8>, x: u32)
    ensures
        final(out)@ == old(out)@ + enc_u32(x),
{
    let mut t = u32_to_le_bytes(x);
    out.append(&mut t);
}

pub(crate) fn put_bytes(out: &mut Vec<u8>, src: &Vec<u8>)
    ensures
        final(out)@ == old(out)@ + src@,
{
    let n = src.len();
    let mut i: usize = 0;
    while i < n
        invariant
            i <= n,
            n == src@.len(),
            out@ == old(out)@ + src@.take(i as int),
        decreases n - i,
    {
        out.push(src[i]);
        proof {
            assert(old(out)@ + src@.take(i as int + 1) =~= (old(out)@ + src@.take(i as int)).push(
                src@[i as int],
            ));
        }
        i = i + 1;
    }
    proof {
        assert(src@.take(n as int) =~= src@);
    }
}

fn put_blob(out: &mut Vec<u8>, src: &Vec<u8>)
    requires
        blob_ok(src@),
    ensures
        final(out)@ == old(out)@ + enc_blob(src@),
{
    put_u32(out, src.len() as u32);
    put_bytes(out, src);
    proof {
        assert(old(out)@ + enc_u32(src@.len() as u32) + src@ =~= old(out)@ + enc_blob(src@));
    }
}

fn put_str(out: &mut Vec<u8>, s: &String)
    requires
        str_ok(s@),
    ensures
        final(out)@ == old(out)@ + enc_str(s@),
{
    let bv = s.as_str().as_bytes_vec();
    put_blob(out, &bv);
}

fn put_strs(out: &mut Vec<u8>, ss: &Vec<String>)
    requires
        forall|k: int| 0 <= k < ss.deep_view().len() ==> str_ok(ss.deep_view()[k]),
    ensures
        final(out)@ == old(out)@ + enc_strs(ss.deep_view()),
{
    let n = ss.len();
    let mut i: usize = 0;
    proof {
        assert(ss.deep_view().take(0) =~= Seq::<Seq<char>>::empty());
    }
    while i < n
        invariant
            i <= n,
            n == ss@.len(),
            ss.deep_view().len() == n,
            forall|k: int| 0 <= k < ss.deep_view().len() ==> str_ok(ss.deep_view()[k]),
            out@ == old(out)@ + enc_strs(ss.deep_view().take(i as int)),
        decreases n - i,
    {
        assert(ss.deep_view()[i as int] == ss@[i as int]@);
        put_str(out, &ss[i]);
        proof {
            enc_strs_push(ss.deep_view(), i as int);
            assert(old(out)@ + enc_strs(ss.deep_view().take(i as int)) + enc_str(ss@[i as int]@)
                =~= old(out)@ + enc_strs(ss.deep_view().take(i as int + 1)));
        }
        i = i + 1;
    }
    proof {
        assert(ss.deep_view().take(n as int) =~= ss.deep_view());
    }
}

fn put_wasis(out: &mut Vec<u8>, ws: &Vec<WasiEntry>)
    requires
        forall|k: int| 0 <= k < ws.deep_view().len() ==> wasi_wf(ws.deep_view()[k]),
    ensures
        final(out)@ == old(out)@ + enc_wasis(ws.deep_view()),
{
    let n = ws.len();
    let mut i: usize = 0;
    proof {
        assert(ws.deep_view().take(0) =~= Seq::<WasiModel>::empty());
    }
    while i < n
        invariant
            i <= n,
            n == ws@.len(),
            ws.deep_view().len() == n,
            forall|k: int| 0 <= k < ws.deep_view().len() ==> wasi_wf(ws.deep_view()[k]),
            out@ == old(out)@ + enc_wasis(ws.deep_view().take(i as int)),
        decreases n - i,
    {
        let ghost pre = out@;
        assert(ws.deep_view()[i as int] == ws@[i as int]@);
        put_str(out, &ws[i].command);
        put_str(out, &ws[i].atom);
        proof {
            enc_wasis_push(ws.deep_view(), i as int);
            assert(pre + enc_str(ws@[i as int].command@) + enc_str(ws@[i as int].atom@) =~= pre
                + enc_wasi(ws@[i as int]@));
            assert(old(out)@ + enc_wasis(ws.deep_view().take(i as int)) + enc_wasi(
                ws.deep_view()[i as int],
            ) =~= old(out)@ + enc_wasis(ws.deep_view().take(i as int + 1)));
        }
        i = i + 1;
    }
    proof {
        assert(ws.deep_view().take(n as int) =~= ws.deep_view());
    }
}

fn put_bindings(out: &mut Vec<u8>, bs: &Vec<BindingRec>)
    requires
        forall|k: int| 0 <= k < bs.deep_view().len() ==> binding_wf(bs.deep_view()[k]),
    ensures
        final(out)@ == old(out)@ + enc_bindings(bs.deep_view()),
{
    let n = bs.len();
    let mut i: usize = 0;
    proof {
        assert(bs.deep_view().take(0) =~= Seq::<BindingModel>::empty());
    }
    while i < n
        invariant
            i <= n,
            n == bs@.len(),
            bs.deep_view().len() == n,
            forall|k: int| 0 <= k < bs.deep_view().len() ==> binding_wf(bs.deep_view()[k]),
            out@ == old(out)@ + enc_bindings(bs.deep_view().take(i as int)),
        decreases n - i,
    {
        let ghost pre = out@;
        let b = &bs[i];
        assert(bs.deep_view()[i as int] == bs@[i as int]@);
        let mut tag: Vec<u8> = Vec::new();
        tag.push(b.kind);
        put_bytes(out, &tag);
        put_str(out, &b.exports);
        put_str(out, &b.module);
        put_u32(out, b.imports.len() as u32);
        put_strs(out, &b.imports);
        proof {
            enc_bindings_push(bs.deep_view(), i as int);
            let bm = bs.deep_view()[i as int];
            assert(tag@ =~= seq![bm.kind]);
            assert(pre + seq![bm.kind] + enc_str(bm.exports) + enc_str(bm.module) + enc_u32(
                bm.imports.len() as u32,
            ) + enc_strs(bm.imports) =~= pre + enc_binding(bm));
            assert(old(out)@ + enc_bindings(bs.deep_view().take(i as int)) + enc_binding(bm)
                =~= old(out)@ + enc_bindings(bs.deep_view().take(i as int + 1)));
        }
        i = i + 1;
    }
    proof {
        assert(bs.deep_view().take(n as int) =~= bs.deep_view());
    }
}

fn put_atoms(out: &mut Vec<u8>, ats: &Vec<Atom>)
    requires
        forall|k: int| 0 <= k < ats.deep_view().len() ==> atom_wf(ats.deep_view()[k]),
    ensures
        final(out)@ == old(out)@ + enc_atoms(ats.deep_view()),
{
    let n = ats.len();
    let mut i: usize = 0;
    proof {
        assert(ats.deep_view().take(0) =~= Seq::<AtomModel>::empty());
    }
    while i < n
        invariant
            i <= n,
            n == ats@.len(),
            ats.deep_view().len() == n,
            forall|k: int| 0 <= k < ats.deep_view().len() ==> atom_wf(ats.deep_view()[k]),
            out@ == old(out)@ + enc_atoms(ats.deep_view().take(i as int)),
        decreases n - i,
    {
        let ghost pre = out@;
        assert(ats.deep_view()[i as int] == ats@[i as int]@);
        put_str(out, &ats[i].name);
        put_blob(out, &ats[i].data);
        proof {
            enc_atoms_push(ats.deep_view(), i as int);
            let am = ats.deep_view()[i as int];
            assert(pre + enc_str(am.name) + enc_blob(am.data) =~= pre + enc_atom(am));
            assert(old(out)@ + enc_atoms(ats.deep_view().take(i as int)) + enc_atom(am) =~= old(
                out,
            )@ + enc_atoms(ats.deep_view().take(i as int + 1)));
        }
        i = i + 1;
    }
    proof {
        assert(ats.deep_view().take(n as int) =~= ats.deep_view());
    }
}

fn put_entries(out: &mut Vec<u8>, es: &Vec<VolumeEntry>)
    requires
        forall|k: int| 0 <= k < es.deep_view().len() ==> str_ok(es.deep_view()[k].path),
    ensures
        final(out)@ == old(out)@ + enc_entries(es.deep_view()),
{
    let n = es.len();
    let mut i: usize = 0;
    proof {
        assert(es.deep_view().take(0) =~= Seq::<EntryModel>::empty());
    }
    while i < n
        invariant
            i <= n,
            n == es@.len(),
            es.deep_view().len() == n,
            forall|k: int| 0 <= k < es.deep_view().len() ==> str_ok(es.deep_view()[k].path),
            out@ == old(out)@ + enc_entries(es.deep_view().take(i as int)),
        decreases n - i,
    {
        let ghost pre = out@;
        let e = &es[i];
        assert(es.deep_view()[i as int] == es@[i as int]@);
        let mut tag: Vec<u8> = Vec::new();
        tag.push(if e.is_dir { 0u8 } else { 1u8 });
        put_bytes(out, &tag);
        put_str(out, &e.path);
        put_u32(out, e.start);
        put_u32(out, e.end);
        proof {
            enc_entries_push(es.deep_view(), i as int);
            let em = es.deep_view()[i as int];
            assert(tag@ =~= seq![if em.is_dir { 0u8 } else { 1u8 }]);
            assert(pre + seq![if em.is_dir { 0u8 } else { 1u8 }] + enc_str(em.path) + enc_u32(
                em.start,
            ) + enc_u32(em.end) =~= pre + enc_entry(em));
            assert(old(out)@ + enc_entries(es.deep_view().take(i as int)) + enc_entry(em) =~= old(
                out,
            )@ + enc_entries(es.deep_view().take(i as int + 1)));
        }
        i = i + 1;
    }
    proof {
        assert(es.deep_view().take(n as int) =~= es.deep_view());
    }
}

fn put_volumes(out: &mut Vec<u8>, vs: &Vec<Volume>)
    requires
        forall|k: int| 0 <= k < vs.deep_view().len() ==> volume_wf(vs.deep_view()[k]),
    ensures
        final(out)@ == old(out)@ + enc_volumes(vs.deep_view()),
{
    let n = vs.len();
    let mut i: usize = 0;
    proof {
        assert(vs.deep_view().take(0) =~= Seq::<VolumeModel>::empty());
    }
    while i < n
        invariant
            i <= n,
            n == vs@.len(),
            vs.deep_view().len() == n,
            forall|k: int| 0 <= k < vs.deep_view().len() ==> volume_wf(vs.deep_view()[k]),
            out@ == old(out)@ + enc_volumes(vs.deep_view().take(i as int)),
        decreases n - i,
    {
        let ghost pre = out@;
        let v = &vs[i];
        assert(vs.deep_view()[i as int] == vs@[i as int]@);
        put_str(out, &v.name);
        put_u32(out, v.entries.len() as u32);
        put_entries(out, &v.entries);
        put_blob(out, &v.data);
        proof {
            enc_volumes_push(vs.deep_view(), i as int);
            let vm = vs.deep_view()[i as int];
            assert(pre + enc_str(vm.name) + enc_u32(vm.entries.len() as u32) + enc_entries(
                vm.entries,
            ) + enc_blob(vm.data) =~= pre + enc_volume(vm));
            assert(old(out)@ + enc_volumes(vs.deep_view().take(i as int)) + enc_volume(vm) =~= old(
                out,
            )@ + enc_volumes(vs.deep_view().take(i as int + 1)));
        }
        i = i + 1;
    }
    proof {
        assert(vs.deep_view().take(n as int) =~= vs.deep_view());
    }
}

/// Encodes a well-formed container into its byte form.
pub fn encode_container(c: &Container) -> (r: Vec<u8>)
    requires
        container_wf(c@),
    ensures
        r@ == spec_encode(c@),
{
    let mut out: Vec<u8> = Vec::new();
    let mut magic: Vec<u8> = Vec::new();
    magic.push(0x77u8);
    magic.push(0x70u8);
    magic.push(0x63u8);
    magic.push(0x31u8);
    put_bytes(&mut out, &magic);
    let ghost b0 = out@;
    put_str(&mut out, &c.manifest.fq_name);
    put_u32(&mut out, c.manifest.commands.len() as u32);
    put_strs(&mut out, &c.manifest.commands);
    put_u32(&mut out, c.manifest.wasi.len() as u32);
    put_wasis(&mut out, &c.manifest.wasi);
    put_u32(&mut out, c.manifest.bindings.len() as u32);
    put_bindings(&mut out, &c.manifest.bindings);
    proof {
        assert(magic@ =~= spec_magic());
        assert(b0 =~= spec_magic());
        assert(out@ =~= spec_magic() + enc_manifest(c@.manifest));
    }
    put_u32(&mut out, c.atoms.len() as u32);
    put_atoms(&mut out, &c.atoms);
    put_u32(&mut out, c.volumes.len() as u32);
    put_volumes(&mut out, &c.volumes);
    proof {
        assert(out@ =~= spec_encode(c@));
    }
    out
}

// ---------------------------------------------------------------------------
// Executable parsing
// ---------------------------------------------------------------------------

fn parse_err(context: &str) -> (e: LoadError)
    ensures
        e@ is ParseError,
{
    LoadError::ParseError { context: context.to_owned() }
}

fn x_u8(b: &Vec<u8>, i: usize) -> (r: Result<(u8, usize), LoadError>)
    ensures
        match p_u8(b@, i as int) {
            Option::Some(p) => r is Ok && r->Ok_0.0 == p.0 && r->Ok_0.1 == p.1,
            Option::None => r is Err && r->Err_0@ is ParseError,
        },
{
    if i < b.len() {
        Result::Ok((b[i], i + 1))
    } else {
        Result::Err(parse_err("container truncated inside a tag byte"))
    }
}

fn x_u32(b: &Vec<u8>, i: usize) -> (r: Result<(u32, usize), LoadError>)
    ensures
        match p_u32(b@, i as int) {
            Option::Some(p) => r is Ok && r->Ok_0.0 == p.0 && r->Ok_0.1 == p.1,
            Option::None => r is Err && r->Err_0@ is ParseError,
        },
{
    let n = b.len();
    if i <= n && n - i >= 4 {
        let sl = slice_subrange(b.as_slice(), i, i + 4);
        let x = u32_from_le_bytes(sl);
        Result::Ok((x, i + 4))
    } else {
        Result::Err(parse_err("container truncated inside an integer"))
    }
}

/// Copies `src[a..bnd]` into an owned vector.
pub fn copy_range(src: &Vec<u8>, a: usize, bnd: usize) -> (r: Vec<u8>)
    requires
        a <= bnd <= src@.len(),
    ensures
        r@ == src@.subrange(a as int, bnd as int),
{
    let mut out: Vec<u8> = Vec::new();
    let mut i: usize = a;
    while i < bnd
        invariant
            a <= i <= bnd <= src@.len(),
            out@ == src@.subrange(a as int, i as int),
        decreases bnd - i,
    {
        out.push(src[i]);
        proof {
            assert(src@.subrange(a as int, i as int + 1) =~= src@.subrange(a as int, i as int).push(
                src@[i as int],
            ));
        }
        i = i + 1;
    }
    out
}

fn x_blob(b: &Vec<u8>, i: usize) -> (r: Result<(Vec<u8>, usize), LoadError>)
    ensures
        match p_blob(b@, i as int) {
            Option::Some(p) => r is Ok && r->Ok_0.0@ == p.0 && r->Ok_0.1 == p.1 && blob_ok(p.0),
            Option::None => r is Err && r->Err_0@ is ParseError,
        },
{
    match x_u32(b, i) {
        Result::Err(e) => Result::Err(e),
        Result::Ok((n, j)) => {
            let nn = n as usize;
            if nn <= b.len() - j {
                let d = copy_range(b, j, j + nn);
                Result::Ok((d, j + nn))
            } else {
                Result::Err(parse_err("container truncated inside a byte blob"))
            }
        },
    }
}

fn x_str(b: &Vec<u8>, i: usize) -> (r: Result<(String, usize), LoadError>)
    ensures
        match p_str(b@, i as int) {
            Option::Some(p) => r is Ok && r->Ok_0.0@ == p.0 && r->Ok_0.1 == p.1 && str_ok(p.0),
            Option::None => r is Err && r->Err_0@ is ParseError,
        },
{
    match x_blob(b, i) {
        Result::Err(e) => Result::Err(e),
        Result::Ok((d, j)) => {
            let ghost dv = d@;
            match utf8_to_string(d) {
                Option::Some(s) => {
                    proof {
                        broadcast use vstd::utf8::decode_utf8_encode_utf8;

                        assert(encode_utf8(decode_utf8(dv)) == dv);
                    }
                    Result::Ok((s, j))
                },
                Option::None => Result::Err(parse_err("container string is not valid UTF-8")),
            }
        },
    }
}

fn x_strs(b: &Vec<u8>, i: usize, n: u32) -> (r: Result<(Vec<String>, usize), LoadError>)
    ensures
        match p_strs(b@, i as int, n) {
            Option::Some(p) => r is Ok && r->Ok_0.0.deep_view() == p.0 && r->Ok_0.1 == p.1
                && p.0.len() == n && forall|k: int| 0 <= k < p.0.len() ==> str_ok(#[trigger] p.0[k]),
            Option::None => r is Err && r->Err_0@ is ParseError,
        },
{
    let mut acc: Vec<String> = Vec::new();
    let mut cur = i;
    let mut remaining = n;
    loop
        invariant
            acc.deep_view().len() + remaining == n,
            forall|k: int| 0 <= k < acc.deep_view().len() ==> str_ok(#[trigger] acc.deep_view()[k]),
            p_strs(b@, i as int, n) == (match p_strs(b@, cur as int, remaining) {
                Option::Some(p) => Option::Some((acc.deep_view() + p.0, p.1)),
                Option::None => Option::None::<(Seq<Seq<char>>, int)>,
            }),
        decreases remaining,
    {
        if remaining == 0 {
            proof {
                assert(acc.deep_view() + Seq::<Seq<char>>::empty() =~= acc.deep_view());
            }
            return Result::Ok((acc, cur));
        }
        match x_str(b, cur) {
            Result::Err(e) => {
                return Result::Err(e);
            },
            Result::Ok((s, j)) => {
                let ghost old_acc = acc.deep_view();
                acc.push(s);
                proof {
                    assert(acc.deep_view() =~= old_acc.push(s@));
                    let rest = p_strs(b@, j as int, (remaining - 1) as u32);
                    if rest is Some {
                        let p = rest->0;
                        assert(old_acc + (seq![s@] + p.0) =~= (old_acc + seq![s@]) + p.0);
                        assert(old_acc + seq![s@] =~= acc.deep_view());
                    }
                }
                cur = j;
                remaining = remaining - 1;
            },
        }
    }
}

fn x_wasi(b: &Vec<u8>, i: usize) -> (r: Result<(WasiEntry, usize), LoadError>)
    ensures
        match p_wasi(b@, i as int) {
            Option::Some(p) => r is Ok && r->Ok_0.0@ == p.0 && r->Ok_0.1 == p.1 && wasi_wf(p.0),
            Option::None => r is Err && r->Err_0@ is ParseError,
        },
{
    match x_str(b, i) {
        Result::Err(e) => Result::Err(e),
        Result::Ok((command, j)) => match x_str(b, j) {
            Result::Err(e) => Result::Err(e),
            Result::Ok((atom, k)) => Result::Ok((WasiEntry { command, atom }, k)),
        },
    }
}

fn x_wasis(b: &Vec<u8>, i: usize, n: u32) -> (r: Result<(Vec<WasiEntry>, usize), LoadError>)
    ensures
        match p_wasis(b@, i as int, n) {
            Option::Some(p) => r is Ok && r->Ok_0.0.deep_view() == p.0 && r->Ok_0.1 == p.1
                && p.0.len() == n && forall|k: int| 0 <= k < p.0.len() ==> wasi_wf(#[trigger] p.0[k]),
            Option::None => r is Err && r->Err_0@ is ParseError,
        },
{
    let mut acc: Vec<WasiEntry> = Vec::new();
    let mut cur = i;
    let mut remaining = n;
    loop
        invariant
            acc.deep_view().len() + remaining == n,
            forall|k: int| 0 <= k < acc.deep_view().len() ==> wasi_wf(#[trigger] acc.deep_view()[k]),
            p_wasis(b@, i as int, n) == (match p_wasis(b@, cur as int, remaining) {
                Option::Some(p) => Option::Some((acc.deep_view() + p.0, p.1)),
                Option::None => Option::None::<(Seq<WasiModel>, int)>,
            }),
        decreases remaining,
    {
        if remaining == 0 {
            proof {
                assert(acc.deep_view() + Seq::<WasiModel>::empty() =~= acc.deep_view());
            }
            return Result::Ok((acc, cur));
        }
        match x_wasi(b, cur) {
            Result::Err(e) => {
                return Result::Err(e);
            },
            Result::Ok((w, j)) => {
                let ghost old_acc = acc.deep_view();
                let ghost wm = w@;
                acc.push(w);
                proof {
                    assert(acc.deep_view() =~= old_acc.push(wm));
                    let rest = p_wasis(b@, j as int, (remaining - 1) as u32);
                    if rest is Some {
                        let p = rest->0;
                        assert(old_acc + (seq![wm] + p.0) =~= (old_acc + seq![wm]) + p.0);
                        assert(old_acc + seq![wm] =~= acc.deep_view());
                    }
                }
                cur = j;
                remaining = remaining - 1;
            },
        }
    }
}

fn x_binding(b: &Vec<u8>, i: usize) -> (r: Result<(BindingRec, usize), LoadError>)
    ensures
        match p_binding(b@, i as int) {
            Option::Some(p) => r is Ok && r->Ok_0.0@ == p.0 && r->Ok_0.1 == p.1 && binding_wf(p.0),
            Option::None => r is Err && r->Err_0@ is ParseError,
        },
{
    match x_u8(b, i) {
        Result::Err(e) => Result::Err(e),
        Result::Ok((kind, i1)) => match x_str(b, i1) {
            Result::Err(e) => Result::Err(e),
            Result::Ok((exports, i2)) => match x_str(b, i2) {
                Result::Err(e) => Result::Err(e),
                Result::Ok((module, i3)) => match x_u32(b, i3) {
                    Result::Err(e) => Result::Err(e),
                    Result::Ok((n, i4)) => match x_strs(b, i4, n) {
                        Result::Err(e) => Result::Err(e),
                        Result::Ok((imports, i5)) => Result::Ok(
                            (BindingRec { kind, exports, module, imports }, i5),
                        ),
                    },
                },
            },
        },
    }
}

fn x_bindings(b: &Vec<u8>, i: usize, n: u32) -> (r: Result<(Vec<BindingRec>, usize), LoadError>)
    ensures
        match p_bindings(b@, i as int, n) {
            Option::Some(p) => r is Ok && r->Ok_0.0.deep_view() == p.0 && r->Ok_0.1 == p.1
                && p.0.len() == n && forall|k: int|
                0 <= k < p.0.len() ==> binding_wf(#[trigger] p.0[k]),
            Option::None => r is Err && r->Err_0@ is ParseError,
        },
{
    let mut acc: Vec<BindingRec> = Vec::new();
    let mut cur = i;
    let mut remaining = n;
    loop
        invariant
            acc.deep_view().len() + remaining == n,
            forall|k: int|
                0 <= k < acc.deep_view().len() ==> binding_wf(#[trigger] acc.deep_view()[k]),
            p_bindings(b@, i as int, n) == (match p_bindings(b@, cur as int, remaining) {
                Option::Some(p) => Option::Some((acc.deep_view() + p.0, p.1)),
                Option::None => Option::None::<(Seq<BindingModel>, int)>,
            }),
        decreases remaining,
    {
        if remaining == 0 {
            proof {
                assert(acc.deep_view() + Seq::<BindingModel>::empty() =~= acc.deep_view());
            }
            return Result::Ok((acc, cur));
        }
        match x_binding(b, cur) {
            Result::Err(e) => {
                return Result::Err(e);
            },
            Result::Ok((bm, j)) => {
                let ghost old_acc = acc.deep_view();
                let ghost bmv = bm@;
                acc.push(bm);
                proof {
                    assert(acc.deep_view() =~= old_acc.push(bmv));
                    let rest = p_bindings(b@, j as int, (remaining - 1) as u32);
                    if rest is Some {
                        let p = rest->0;
                        assert(old_acc + (seq![bmv] + p.0) =~= (old_acc + seq![bmv]) + p.0);
                        assert(old_acc + seq![bmv] =~= acc.deep_view());
                    }
                }
                cur = j;
                remaining = remaining - 1;
            },
        }
    }
}

fn x_atom(b: &Vec<u8>, i: usize) -> (r: Result<(Atom, usize), LoadError>)
    ensures
        match p_atom(b@, i as int) {
            Option::Some(p) => r is Ok && r->Ok_0.0@ == p.0 && r->Ok_0.1 == p.1 && atom_wf(p.0),
            Option::None => r is Err && r->Err_0@ is ParseError,
        },
{
    match x_str(b, i) {
        Result::Err(e) => Result::Err(e),
        Result::Ok((name, j)) => match x_blob(b, j) {
            Result::Err(e) => Result::Err(e),
            Result::Ok((data, k)) => Result::Ok((Atom { name, data }, k)),
        },
    }
}

fn x_atoms(b: &Vec<u8>, i: usize, n: u32) -> (r: Result<(Vec<Atom>, usize), LoadError>)
    ensures
        match p_atoms(b@, i as int, n) {
            Option::Some(p) => r is Ok && r->Ok_0.0.deep_view() == p.0 && r->Ok_0.1 == p.1
                && p.0.len() == n && forall|k: int| 0 <= k < p.0.len() ==> atom_wf(#[trigger] p.0[k]),
            Option::None => r is Err && r->Err_0@ is ParseError,
        },
{
    let mut acc: Vec<Atom> = Vec::new();
    let mut cur = i;
    let mut remaining = n;
    loop
        invariant
            acc.deep_view().len() + remaining == n,
            forall|k: int| 0 <= k < acc.deep_view().len() ==> atom_wf(#[trigger] acc.deep_view()[k]),
            p_atoms(b@, i as int, n) == (match p_atoms(b@, cur as int, remaining) {
                Option::Some(p) => Option::Some((acc.deep_view() + p.0, p.1)),
                Option::None => Option::None::<(Seq<AtomModel>, int)>,
            }),
        decreases remaining,
    {
        if remaining == 0 {
            proof {
                assert(acc.deep_view() + Seq::<AtomModel>::empty() =~= acc.deep_view());
            }
            return Result::Ok((acc, cur));
        }
        match x_atom(b, cur) {
            Result::Err(e) => {
                return Result::Err(e);
            },
            Result::Ok((a, j)) => {
                let ghost old_acc = acc.deep_view();
                let ghost am = a@;
                acc.push(a);
                proof {
                    assert(acc.deep_view() =~= old_acc.push(am));
                    let rest = p_atoms(b@, j as int, (remaining - 1) as u32);
                    if rest is Some {
                        let p = rest->0;
                        assert(old_acc + (seq![am] + p.0) =~= (old_acc + seq![am]) + p.0);
                        assert(old_acc + seq![am] =~= acc.deep_view());
                    }
                }
                cur = j;
                remaining = remaining - 1;
            },
        }
    }
}

fn x_entry(b: &Vec<u8>, i: usize) -> (r: Result<(VolumeEntry, usize), LoadError>)
    ensures
        match p_entry(b@, i as int) {
            Option::Some(p) => r is Ok && r->Ok_0.0@ == p.0 && r->Ok_0.1 == p.1 && str_ok(p.0.path),
            Option::None => r is Err && r->Err_0@ is ParseError,
        },
{
    match x_u8(b, i) {
        Result::Err(e) => Result::Err(e),
        Result::Ok((tag, i1)) => {
            if tag != 0 && tag != 1 {
                return Result::Err(parse_err("unknown volume entry tag"));
            }
            match x_str(b, i1) {
                Result::Err(e) => Result::Err(e),
                Result::Ok((path, i2)) => match x_u32(b, i2) {
                    Result::Err(e) => Result::Err(e),
                    Result::Ok((start, i3)) => match x_u32(b, i3) {
                        Result::Err(e) => Result::Err(e),
                        Result::Ok((end, i4)) => Result::Ok(
                            (VolumeEntry { is_dir: tag == 0, path, start, end }, i4),
                        ),
                    },
                },
            }
        },
    }
}

fn x_entries(b: &Vec<u8>, i: usize, n: u32) -> (r: Result<(Vec<VolumeEntry>, usize), LoadError>)
    ensures
        match p_entries(b@, i as int, n) {
            Option::Some(p) => r is Ok && r->Ok_0.0.deep_view() == p.0 && r->Ok_0.1 == p.1
                && p.0.len() == n && forall|k: int|
                0 <= k < p.0.len() ==> str_ok((#[trigger] p.0[k]).path),
            Option::None => r is Err && r->Err_0@ is ParseError,
        },
{
    let mut acc: Vec<VolumeEntry> = Vec::new();
    let mut cur = i;
    let mut remaining = n;
    loop
        invariant
            acc.deep_view().len() + remaining == n,
            forall|k: int|
                0 <= k < acc.deep_view().len() ==> str_ok((#[trigger] acc.deep_view()[k]).path),
            p_entries(b@, i as int, n) == (match p_entries(b@, cur as int, remaining) {
                Option::Some(p) => Option::Some((acc.deep_view() + p.0, p.1)),
                Option::None => Option::None::<(Seq<EntryModel>, int)>,
            }),
        decreases remaining,
    {
        if remaining == 0 {
            proof {
                assert(acc.deep_view() + Seq::<EntryModel>::empty() =~= acc.deep_view());
            }
            return Result::Ok((acc, cur));
        }
        match x_entry(b, cur) {
            Result::Err(e) => {
                return Result::Err(e);
            },
            Result::Ok((en, j)) => {
                let ghost old_acc = acc.deep_view();
                let ghost em = en@;
                acc.push(en);
                proof {
                    assert(acc.deep_view() =~= old_acc.push(em));
                    let rest = p_entries(b@, j as int, (remaining - 1) as u32);
                    if rest is Some {
                        let p = rest->0;
                        assert(old_acc + (seq![em] + p.0) =~= (old_acc + seq![em]) + p.0);
                        assert(old_acc + seq![em] =~= acc.deep_view());
                    }
                }
                cur = j;
                remaining = remaining - 1;
            },
        }
    }
}

#[verifier::loop_isolation(false)]
fn x_volume(b: &Vec<u8>, i: usize) -> (r: Result<(Volume, usize), LoadError>)
    ensures
        match p_volume(b@, i as int) {
            Option::Some(p) => r is Ok && r->Ok_0.0@ == p.0 && r->Ok_0.1 == p.1 && volume_wf(p.0),
            Option::None => r is Err && r->Err_0@ is ParseError,
        },
{
    match x_str(b, i) {
        Result::Err(e) => Result::Err(e),
        Result::Ok((name, i1)) => match x_u32(b, i1) {
            Result::Err(e) => Result::Err(e),
            Result::Ok((n, i2)) => match x_entries(b, i2, n) {
                Result::Err(e) => Result::Err(e),
                Result::Ok((entries, i3)) => match x_blob(b, i3) {
                    Result::Err(e) => Result::Err(e),
                    Result::Ok((data, i4)) => {
                        let ne = entries.len();
                        let dl = data.len();
                        let mut k: usize = 0;
                        while k < ne
                            invariant
                                k <= ne,
                                ne == entries.deep_view().len(),
                                dl == data@.len(),
                                forall|l: int|
                                    0 <= l < k ==> (!(#[trigger] entries.deep_view()[l]).is_dir
                                        ==> entries.deep_view()[l].start
                                        <= entries.deep_view()[l].end && entries.deep_view()[l].end
                                        <= dl),
                            decreases ne - k,
                        {
                            let e = &entries[k];
                            assert(entries.deep_view()[k as int] == entries@[k as int]@);
                            if !e.is_dir {
                                if !(e.start <= e.end && (e.end as usize) <= dl) {
                                    proof {
                                        let es = entries.deep_view();
                                        let em = es[k as int];
                                        assert(!em.is_dir);
                                        assert(!(em.start <= em.end && em.end <= data@.len()));
                                        assert(!entries_ok(es, data@.len() as int));
                                    }
                                    return Result::Err(
                                        parse_err("volume entry range outside volume data"),
                                    );
                                }
                            }
                            k = k + 1;
                        }
                        assert(entries_ok(entries.deep_view(), data@.len() as int));
                        Result::Ok((Volume { name, entries, data }, i4))
                    },
                },
            },
        },
    }
}

fn x_volumes(b: &Vec<u8>, i: usize, n: u32) -> (r: Result<(Vec<Volume>, usize), LoadError>)
    ensures
        match p_volumes(b@, i as int, n) {
            Option::Some(p) => r is Ok && r->Ok_0.0.deep_view() == p.0 && r->Ok_0.1 == p.1
                && p.0.len() == n && forall|k: int|
                0 <= k < p.0.len() ==> volume_wf(#[trigger] p.0[k]),
            Option::None => r is Err && r->Err_0@ is ParseError,
        },
{
    let mut acc: Vec<Volume> = Vec::new();
    let mut cur = i;
    let mut remaining = n;
    loop
        invariant
            acc.deep_view().len() + remaining == n,
            forall|k: int|
                0 <= k < acc.deep_view().len() ==> volume_wf(#[trigger] acc.deep_view()[k]),
            p_volumes(b@, i as int, n) == (match p_volumes(b@, cur as int, remaining) {
                Option::Some(p) => Option::Some((acc.deep_view() + p.0, p.1)),
                Option::None => Option::None::<(Seq<VolumeModel>, int)>,
            }),
        decreases remaining,
    {
        if remaining == 0 {
            proof {
                assert(acc.deep_view() + Seq::<VolumeModel>::empty() =~= acc.deep_view());
            }
            return Result::Ok((acc, cur));
        }
        match x_volume(b, cur) {
            Result::Err(e) => {
                return Result::Err(e);
            },
            Result::Ok((v, j)) => {
                let ghost old_acc = acc.deep_view();
                let ghost vm = v@;
                acc.push(v);
                proof {
                    assert(acc.deep_view() =~= old_acc.push(vm));
                    let rest = p_volumes(b@, j as int, (remaining - 1) as u32);
                    if rest is Some {
                        let p = rest->0;
                        assert(old_acc + (seq![vm] + p.0) =~= (old_acc + seq![vm]) + p.0);
                        assert(old_acc + seq![vm] =~= acc.deep_view());
                    }
                }
                cur = j;
                remaining = remaining - 1;
            },
        }
    }
}

fn x_manifest(b: &Vec<u8>, i: usize) -> (r: Result<(Manifest, usize), LoadError>)
    ensures
        match p_manifest(b@, i as int) {
            Option::Some(p) => r is Ok && r->Ok_0.0@ == p.0 && r->Ok_0.1 == p.1 && manifest_wf(p.0),
            Option::None => r is Err && r->Err_0@ is ParseError,
        },
{
    match x_str(b, i) {
        Result::Err(e) => Result::Err(e),
        Result::Ok((fq_name, i1)) => match x_u32(b, i1) {
            Result::Err(e) => Result::Err(e),
            Result::Ok((nc, i2)) => match x_strs(b, i2, nc) {
                Result::Err(e) => Result::Err(e),
                Result::Ok((commands, i3)) => match x_u32(b, i3) {
                    Result::Err(e) => Result::Err(e),
                    Result::Ok((nw, i4)) => match x_wasis(b, i4, nw) {
                        Result::Err(e) => Result::Err(e),
                        Result::Ok((wasi, i5)) => match x_u32(b, i5) {
                            Result::Err(e) => Result::Err(e),
                            Result::Ok((nb, i6)) => match x_bindings(b, i6, nb) {
                                Result::Err(e) => Result::Err(e),
                                Result::Ok((bindings, i7)) => Result::Ok(
                                    (Manifest { fq_name, commands, wasi, bindings }, i7),
                                ),
                            },
                        },
                    },
                },
            },
        },
    }
}

/// Parses container bytes.  Succeeds exactly on well-formed encodings and
/// then returns the container the bytes encode; the result always satisfies
/// [`container_wf`].
pub fn parse_container(bytes: &Vec<u8>) -> (r: Result<Container, LoadError>)
    ensures
        match spec_parse(bytes@) {
            Option::Some(m) => r is Ok && r->Ok_0@ == m && container_wf(m),
            Option::None => r is Err && r->Err_0@ is ParseError,
        },
{
    let n = bytes.len();
    if n < 4 {
        return Result::Err(parse_err("container shorter than its magic"));
    }
    let good_magic = bytes[0] == 0x77u8 && bytes[1] == 0x70u8 && bytes[2] == 0x63u8 && bytes[3]
        == 0x31u8;
    if !good_magic {
        proof {
            let m = spec_magic();
            assert(m[0] == 0x77u8 && m[1] == 0x70u8 && m[2] == 0x63u8 && m[3] == 0x31u8);
            if bytes@.subrange(0, 4) == m {
                assert(bytes@[0] == bytes@.subrange(0, 4)[0]);
                assert(bytes@[1] == bytes@.subrange(0, 4)[1]);
                assert(bytes@[2] == bytes@.subrange(0, 4)[2]);
                assert(bytes@[3] == bytes@.subrange(0, 4)[3]);
            }
        }
        return Result::Err(parse_err("bad container magic"));
    }
    proof {
        assert(bytes@.subrange(0, 4) =~= spec_magic());
    }
    match x_manifest(bytes, 4) {
        Result::Err(e) => Result::Err(e),
        Result::Ok((manifest, i1)) => match x_u32(bytes, i1) {
            Result::Err(e) => Result::Err(e),
            Result::Ok((na, i2)) => match x_atoms(bytes, i2, na) {
                Result::Err(e) => Result::Err(e),
                Result::Ok((atoms, i3)) => match x_u32(bytes, i3) {
                    Result::Err(e) => Result::Err(e),
                    Result::Ok((nv, i4)) => match x_volumes(bytes, i4, nv) {
                        Result::Err(e) => Result::Err(e),
                        Result::Ok((volumes, i5)) => {
                            if i5 == n {
                                Result::Ok(Container { manifest, atoms, volumes })
                            } else {
                                Result::Err(parse_err("trailing bytes after container"))
                            }
                        },
                    },
                },
            },
        },
    }
}

} // verus!
