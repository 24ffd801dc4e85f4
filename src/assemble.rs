//! Partition of a parsed model into one submesh per material selection.

use vstd::prelude::*;

use crate::error::ParseError;
use crate::mtl::{copy_list, library_view, MaterialRecord, MaterialView, NamedMaterial};
use crate::obj::{copy_opt, opt_view, ModelView, ObjModel, UsageView};
use crate::text::copy_bytes;

verus! {

/// The material that `name` denotes in `lib`: its last definition.
pub open spec fn find_material(lib: Seq<(Seq<u8>, MaterialView)>, name: Seq<u8>) -> Option<
    MaterialView,
>
    decreases lib.len(),
{
    if lib.len() == 0 {
        None
    } else if lib.last().0 == name {
        Some(lib.last().1)
    } else {
        find_material(lib.drop_last(), name)
    }
}

/// The triangles drawn with one material: the group name current when the
/// material was selected, the slice of the model's triangle indices (which
/// still refer to the model's shared expanded vertices) and a copy of the
/// material.
#[derive(Debug)]
pub struct Submesh {
    pub name: Option<Vec<u8>>,
    pub indices: Vec<u32>,
    pub material: MaterialRecord,
}

pub struct SubmeshView {
    pub name: Option<Seq<u8>>,
    pub indices: Seq<u32>,
    pub material: MaterialView,
}

impl View for Submesh {
    type V = SubmeshView;

    open spec fn view(&self) -> SubmeshView {
        SubmeshView { name: opt_view(self.name), indices: self.indices@, material: self.material@ }
    }
}

pub open spec fn submeshes_view(s: Seq<Submesh>) -> Seq<SubmeshView> {
    Seq::new(s.len(), |i: int| s[i]@)
}

/// Whether every usage range of `m` lies within its triangle indices.
pub open spec fn ranges_in_bounds(m: ModelView) -> bool {
    forall|i: int|
        0 <= i < m.usages.len() ==> #[trigger] m.usages[i].start <= m.usages[i].end
            <= m.indices.len()
}

/// The submesh of the usage `u`; the lookup of its material fails when no
/// library defines it.
pub open spec fn submesh_of(
    indices: Seq<u32>,
    lib: Seq<(Seq<u8>, MaterialView)>,
    u: UsageView,
) -> Result<SubmeshView, ParseError> {
    match find_material(lib, u.material) {
        None => Err(ParseError::UndefinedMaterial),
        Some(mat) => Ok(
            SubmeshView {
                name: u.group,
                indices: indices.subrange(u.start as int, u.end as int),
                material: mat,
            },
        ),
    }
}

/// The submeshes of the usages `us`, in order, or the first failed lookup.
pub open spec fn submeshes_of(
    indices: Seq<u32>,
    lib: Seq<(Seq<u8>, MaterialView)>,
    us: Seq<UsageView>,
) -> Result<Seq<SubmeshView>, ParseError>
    decreases us.len(),
{
    if us.len() == 0 {
        Ok(seq![])
    } else {
        match submeshes_of(indices, lib, us.drop_last()) {
            Err(e) => Err(e),
            Ok(ss) => match submesh_of(indices, lib, us.last()) {
                Err(e) => Err(e),
                Ok(s) => Ok(ss.push(s)),
            },
        }
    }
}

/// The position in `library` of the material that `name` denotes.
pub fn find(library: &Vec<NamedMaterial>, name: &[u8]) -> (r: Option<usize>)
    ensures
        match r {
            Some(i) => i < library@.len() && find_material(library_view(library@), name@) == Some(
                library@[i as int].material@,
            ),
            None => find_material(library_view(library@), name@) is None,
        },
{
    let ghost lib = library_view(library@);
    let mut i: usize = library.len();
    assert(lib.take(i as int) =~= lib);
    while i > 0
        invariant
            i <= library@.len(),
            lib == library_view(library@),
            find_material(lib, name@) == find_material(lib.take(i as int), name@),
        decreases i,
    {
        assert(lib.take(i as int).last() == library@[i - 1]@);
        assert(lib.take(i as int).drop_last() =~= lib.take(i - 1));
        if crate::obj::same_bytes(library[i - 1].name.as_slice(), name) {
            return Some(i - 1);
        }
        i = i - 1;
    }
    None
}

/// Copies a material.
pub fn copy_material(m: &MaterialRecord) -> (r: MaterialRecord)
    ensures
        r@ == m@,
{
    MaterialRecord {
        ns: copy_bytes(&m.ns),
        ka: copy_list(&m.ka),
        kd: match &m.kd {
            Some(kd) => Some(copy_list(kd)),
            None => None,
        },
        ks: copy_list(&m.ks),
        diffuse_map: copy_opt(&m.diffuse_map),
    }
}

/// Whether every usage range of `model` lies within its triangle indices.
pub fn ranges_valid(model: &ObjModel) -> (r: bool)
    ensures
        r == ranges_in_bounds(model@),
{
    let mut k: usize = 0;
    while k < model.usages.len()
        invariant
            k <= model.usages@.len(),
            forall|i: int| 0 <= i < k ==> #[trigger] model@.usages[i].start <= model@.usages[i].end
                <= model@.indices.len(),
        decreases model.usages@.len() - k,
    {
        let u = &model.usages[k];
        assert(model@.usages[k as int] == u@);
        assert(model@.usages[k as int].start == u.start);
        if u.start > u.end || u.end > model.indices.len() {
            return false;
        }
        k = k + 1;
    }
    assert(model@.usages.len() == k);
    true
}

/// Builds one submesh per usage of `model`, in file order, taking each
/// material from `library`.
pub fn assemble(model: &ObjModel, library: &Vec<NamedMaterial>) -> (r: Result<
    Vec<Submesh>,
    ParseError,
>)
    requires
        ranges_in_bounds(model@),
    ensures
        match submeshes_of(model@.indices, library_view(library@), model@.usages) {
            Ok(ss) => r is Ok && submeshes_view(r->Ok_0@) == ss,
            Err(e) => r == Err::<Vec<Submesh>, ParseError>(e),
        },
{
    let ghost lib = library_view(library@);
    let ghost us = model@.usages;
    let mut out: Vec<Submesh> = Vec::new();
    let mut k: usize = 0;
    assert(us.take(0) =~= seq![]);
    assert(submeshes_view(out@) =~= seq![]);
    while k < model.usages.len()
        invariant
            k <= us.len(),
            us == model@.usages,
            lib == library_view(library@),
            ranges_in_bounds(model@),
            submeshes_of(model@.indices, lib, us.take(k as int)) == Ok::<
                Seq<SubmeshView>,
                ParseError,
            >(submeshes_view(out@)),
        decreases us.len() - k,
    {
        let u = &model.usages[k];
        assert(us[k as int] == u@);
        assert(us.take(k + 1int).drop_last() =~= us.take(k as int));
        assert(us.take(k + 1int).last() == u@);
        match find(library, u.material.as_slice()) {
            None => {
                proof {
                    lemma_submeshes_error(model@.indices, lib, us, k + 1, us.len() as int);
                    assert(us.take(us.len() as int) =~= us);
                }
                return Err(ParseError::UndefinedMaterial);
            },
            Some(i) => {
                assert(u.start <= u.end <= model@.indices.len()) by {
                    assert(model@.usages[k as int] == u@);
                }
                let mut idx: Vec<u32> = Vec::new();
                let mut j: usize = u.start;
                while j < u.end
                    invariant
                        u.start <= j <= u.end <= model.indices@.len(),
                        idx@ =~= model.indices@.subrange(u.start as int, j as int),
                    decreases u.end - j,
                {
                    idx.push(model.indices[j]);
                    j = j + 1;
                }
                let s = Submesh {
                    name: copy_opt(&u.group),
                    indices: idx,
                    material: copy_material(&library[i].material),
                };
                let ghost before = submeshes_view(out@);
                out.push(s);
                assert(submeshes_view(out@) =~= before.push(s@));
            },
        }
        k = k + 1;
    }
    assert(us.take(us.len() as int) =~= us);
    Ok(out)
}

proof fn lemma_submeshes_error(
    indices: Seq<u32>,
    lib: Seq<(Seq<u8>, MaterialView)>,
    us: Seq<UsageView>,
    j: int,
    k: int,
)
    requires
        0 < j <= k <= us.len(),
        submeshes_of(indices, lib, us.take(j)) is Err,
    ensures
        submeshes_of(indices, lib, us.take(k)) == submeshes_of(indices, lib, us.take(j)),
    decreases k - j,
{
    if k > j {
        lemma_submeshes_error(indices, lib, us, j, k - 1);
        assert(us.take(k).drop_last() =~= us.take(k - 1));
    }
}

} // verus!
