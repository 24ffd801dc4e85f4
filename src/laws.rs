//! Properties of every successful parse of a geometry text.

use vstd::prelude::*;

use crate::assemble::{find_material, ranges_in_bounds, submeshes_of};
use crate::error::ParseError;
use crate::mtl::MaterialView;
use crate::obj::{
    corners_of, first_start, initial_state, kw_f, kw_usemtl, kw_v, kw_vn, kw_vt, obj_run, obj_step,
    parse_obj_spec, ModelView, ParserView, UsageView,
};
use crate::text::{line_len, line_tokens, lemma_until_bound};

verus! {

/// Number of face corners that the line with tokens `t` references.
pub open spec fn line_corners(t: Seq<Seq<u8>>) -> nat {
    if t.len() > 0 && t[0] == kw_f() {
        (t.len() - 1) as nat
    } else {
        0
    }
}

/// Number of triangles of the fan of the line with tokens `t`.
pub open spec fn line_triangles(t: Seq<Seq<u8>>) -> nat {
    if t.len() >= 3 && t[0] == kw_f() {
        (t.len() - 3) as nat
    } else {
        0
    }
}

/// Number of face-corner references in the lines of `text`.
pub open spec fn text_corners(text: Seq<u8>) -> nat
    decreases text.len(),
{
    let k = line_len(text);
    line_corners(line_tokens(text.take(k as int))) + if k >= text.len() {
        0
    } else {
        text_corners(text.skip(k + 1int))
    }
}

/// Sum over the faces of `text` of their corner count less two.
pub open spec fn text_triangles(text: Seq<u8>) -> nat
    decreases text.len(),
{
    let k = line_len(text);
    line_triangles(line_tokens(text.take(k as int))) + if k >= text.len() {
        0
    } else {
        text_triangles(text.skip(k + 1int))
    }
}

proof fn lemma_corners_len(m: ModelView, refs: Seq<Seq<u8>>)
    requires
        corners_of(m, refs) is Ok,
    ensures
        corners_of(m, refs)->Ok_0.len() == refs.len(),
    decreases refs.len(),
{
    if refs.len() > 0 {
        lemma_corners_len(m, refs.drop_last());
    }
}

proof fn lemma_step_counts(s: ParserView, t: Seq<Seq<u8>>)
    requires
        obj_step(s, t) is Ok,
    ensures
        obj_step(s, t)->Ok_0.model.corners.len() == s.model.corners.len() + line_corners(t),
        obj_step(s, t)->Ok_0.model.indices.len() == s.model.indices.len() + 3 * line_triangles(t),
{
    if t.len() > 0 && t[0] == kw_f() {
        assert(kw_f()[0] != kw_v()[0]);
        assert(kw_f().len() != kw_vn().len());
        assert(kw_f().len() != kw_vt().len());
        lemma_corners_len(s.model, t.drop_first());
    }
}

proof fn lemma_run_counts(s: ParserView, text: Seq<u8>)
    requires
        obj_run(s, text) is Ok,
    ensures
        obj_run(s, text)->Ok_0.model.corners.len() == s.model.corners.len() + text_corners(text),
        obj_run(s, text)->Ok_0.model.indices.len() == s.model.indices.len() + 3 * text_triangles(
            text,
        ),
    decreases text.len(),
{
    let k = line_len(text);
    lemma_until_bound(text, 0x0au8);
    let t = line_tokens(text.take(k as int));
    lemma_step_counts(s, t);
    if k < text.len() {
        lemma_run_counts(obj_step(s, t)->Ok_0, text.skip(k + 1int));
    }
}

/// A parsed model holds one expanded vertex per face-corner reference of the
/// text, and three triangle indices for each corner beyond the second of
/// each face.
pub proof fn lemma_vertex_and_index_counts(text: Seq<u8>)
    requires
        parse_obj_spec(text) is Ok,
    ensures
        parse_obj_spec(text)->Ok_0.corners.len() == text_corners(text),
        parse_obj_spec(text)->Ok_0.indices.len() == 3 * text_triangles(text),
{
    lemma_run_counts(initial_state(), text);
}

/// What holds of the usage records between two lines: they lie within the
/// indices, each begins where the one before ends, the last ends where the
/// open selection begins, and there are none before the first selection.
pub open spec fn usages_chained(s: ParserView) -> bool {
    let us = s.model.usages;
    &&& s.boundary <= s.model.indices.len()
    &&& ranges_in_bounds(s.model)
    &&& forall|i: int| 0 <= i < us.len() - 1 ==> #[trigger] us[i].end == us[i + 1].start
    &&& us.len() > 0 ==> us.last().end == s.boundary
    &&& s.open is None ==> us.len() == 0
}

proof fn lemma_step_chained(s: ParserView, t: Seq<Seq<u8>>)
    requires
        usages_chained(s),
        obj_step(s, t) is Ok,
    ensures
        usages_chained(obj_step(s, t)->Ok_0),
{
    let s2 = obj_step(s, t)->Ok_0;
    if t.len() > 0 && t[0] == kw_f() {
        let cs = corners_of(s.model, t.drop_first())->Ok_0;
        assert(s2.model.usages == s.model.usages);
        assert(s2.model.indices.len() >= s.model.indices.len());
    }
}

proof fn lemma_run_chained(s: ParserView, text: Seq<u8>)
    requires
        usages_chained(s),
        obj_run(s, text) is Ok,
    ensures
        usages_chained(obj_run(s, text)->Ok_0),
    decreases text.len(),
{
    let k = line_len(text);
    lemma_until_bound(text, 0x0au8);
    let t = line_tokens(text.take(k as int));
    lemma_step_chained(s, t);
    if k < text.len() {
        lemma_run_chained(obj_step(s, t)->Ok_0, text.skip(k + 1int));
    }
}

/// Whether the line with tokens `t` selects a material.
pub open spec fn selects_material(t: Seq<Seq<u8>>) -> bool {
    t.len() >= 2 && t[0] == kw_usemtl()
}

/// Number of triangles of the faces of `text` that come before its first
/// material selection.
pub open spec fn leading_triangles(text: Seq<u8>) -> nat
    decreases text.len(),
{
    let k = line_len(text);
    let t = line_tokens(text.take(k as int));
    if selects_material(t) {
        0
    } else {
        line_triangles(t) + if k >= text.len() {
            0
        } else {
            leading_triangles(text.skip(k + 1int))
        }
    }
}

proof fn lemma_step_first(s: ParserView, t: Seq<Seq<u8>>)
    requires
        usages_chained(s),
        obj_step(s, t) is Ok,
    ensures
        s.open is Some ==> obj_step(s, t)->Ok_0.open is Some && first_start(obj_step(s, t)->Ok_0)
            == first_start(s),
        s.open is None && selects_material(t) ==> obj_step(s, t)->Ok_0.open is Some && first_start(
            obj_step(s, t)->Ok_0,
        ) == s.model.indices.len(),
        s.open is None && !selects_material(t) ==> obj_step(s, t)->Ok_0.open is None,
{
    lemma_step_counts(s, t);
    if t.len() > 0 && t[0] == kw_usemtl() {
        assert(kw_usemtl().len() != kw_v().len());
        assert(kw_usemtl().len() != kw_vn().len());
        assert(kw_usemtl().len() != kw_f().len());
        assert(kw_usemtl()[0] != kw_vt()[0]);
        assert(kw_usemtl() != crate::obj::kw_mtllib()) by {
            assert(kw_usemtl()[0] != crate::obj::kw_mtllib()[0]);
        }
        assert(kw_usemtl().len() != crate::obj::kw_g().len());
    }
}

proof fn lemma_run_first(s: ParserView, text: Seq<u8>)
    requires
        usages_chained(s),
        obj_run(s, text) is Ok,
    ensures
        s.open is Some ==> obj_run(s, text)->Ok_0.open is Some && first_start(
            obj_run(s, text)->Ok_0,
        ) == first_start(s),
        s.open is None && obj_run(s, text)->Ok_0.open is Some ==> first_start(
            obj_run(s, text)->Ok_0,
        ) == s.model.indices.len() + 3 * leading_triangles(text),
    decreases text.len(),
{
    let k = line_len(text);
    lemma_until_bound(text, 0x0au8);
    let t = line_tokens(text.take(k as int));
    lemma_step_first(s, t);
    lemma_step_chained(s, t);
    lemma_step_counts(s, t);
    if k < text.len() {
        lemma_run_first(obj_step(s, t)->Ok_0, text.skip(k + 1int));
    }
}

proof fn lemma_chain_order(m: ModelView, i: int, j: int)
    requires
        ranges_in_bounds(m),
        forall|k: int| 0 <= k < m.usages.len() - 1 ==> #[trigger] m.usages[k].end == m.usages[k + 1].start,
        0 <= i < j < m.usages.len(),
    ensures
        m.usages[i].end <= m.usages[j].start,
    decreases j - i,
{
    if j > i + 1 {
        lemma_chain_order(m, i, j - 1);
        assert(m.usages[j - 1].end == m.usages[j].start);
    }
}

proof fn lemma_chain_cover(m: ModelView, p: int, j: int) -> (i: int)
    requires
        ranges_in_bounds(m),
        forall|k: int| 0 <= k < m.usages.len() - 1 ==> #[trigger] m.usages[k].end == m.usages[k + 1].start,
        0 <= j < m.usages.len(),
        m.usages[0].start <= p < m.usages[j].end,
    ensures
        0 <= i <= j,
        m.usages[i].start <= p < m.usages[i].end,
    decreases j,
{
    if p >= m.usages[j].start {
        j
    } else {
        assert(m.usages[j - 1].end == m.usages[j].start);
        lemma_chain_cover(m, p, j - 1)
    }
}

/// Whether the range of `u` holds the index position `p`.
pub open spec fn covers(u: UsageView, p: int) -> bool {
    u.start <= p < u.end
}

/// Whether some range of `us` holds the index position `p`.
pub open spec fn covered(us: Seq<UsageView>, p: int) -> bool {
    exists|i: int| 0 <= i < us.len() && #[trigger] covers(us[i], p)
}

/// The usage ranges of a parsed model lie within its triangle indices, follow
/// one another in file order without gap or overlap, start at 0 and end at
/// the total index count: every triangle index belongs to exactly one range.
/// No face of the text comes before its first material selection.
pub proof fn lemma_usage_ranges_partition(text: Seq<u8>)
    requires
        parse_obj_spec(text) is Ok,
    ensures
        leading_triangles(text) == 0,
        ({
            let m = parse_obj_spec(text)->Ok_0;
            let us = m.usages;
            &&& us.len() >= 1
            &&& us[0].start == 0
            &&& ranges_in_bounds(m)
            &&& forall|i: int| 0 <= i < us.len() - 1 ==> #[trigger] us[i].end == us[i + 1].start
            &&& us.last().end == m.indices.len()
            &&& forall|p: int| 0 <= p < m.indices.len() ==> #[trigger] covered(us, p)
            &&& forall|p: int, i: int, j: int|
                0 <= i < us.len() && 0 <= j < us.len() && #[trigger] covers(us[i], p)
                    && #[trigger] covers(us[j], p) ==> i == j
        }),
{
    let s0 = initial_state();
    lemma_run_chained(s0, text);
    lemma_run_first(s0, text);
    let s = obj_run(s0, text)->Ok_0;
    let m = parse_obj_spec(text)->Ok_0;
    let us = m.usages;
    assert(us.len() >= 1);
    assert(us[0].start == first_start(s));
    assert forall|p: int| 0 <= p < m.indices.len() implies #[trigger] covered(us, p) by {
        let i = lemma_chain_cover(m, p, us.len() - 1);
        assert(covers(us[i], p));
    }
    assert forall|p: int, i: int, j: int|
        0 <= i < us.len() && 0 <= j < us.len() && #[trigger] covers(us[i], p) && #[trigger] covers(
            us[j],
            p,
        ) implies i == j by {
        if i < j {
            lemma_chain_order(m, i, j);
        } else if j < i {
            lemma_chain_order(m, j, i);
        }
    }
}

/// A text with a face before its first material selection, or with faces and
/// no selection at all, is rejected; when its lines are otherwise well
/// formed, the error is `NoMaterial`, raised at the end of the text.
pub proof fn lemma_face_before_material_fails(text: Seq<u8>)
    requires
        leading_triangles(text) > 0,
    ensures
        parse_obj_spec(text) is Err,
        obj_run(initial_state(), text) is Ok ==> parse_obj_spec(text) == Err::<ModelView, ParseError>(
            ParseError::NoMaterial,
        ),
{
    let s0 = initial_state();
    if obj_run(s0, text) is Ok {
        lemma_run_chained(s0, text);
        lemma_run_first(s0, text);
    }
}

proof fn lemma_submeshes_error_kind(
    indices: Seq<u32>,
    lib: Seq<(Seq<u8>, MaterialView)>,
    us: Seq<UsageView>,
)
    requires
        submeshes_of(indices, lib, us) is Err,
    ensures
        submeshes_of(indices, lib, us) == Err::<Seq<crate::assemble::SubmeshView>, ParseError>(
            ParseError::UndefinedMaterial,
        ),
    decreases us.len(),
{
    if submeshes_of(indices, lib, us.drop_last()) is Err {
        lemma_submeshes_error_kind(indices, lib, us.drop_last());
    }
}

/// Materials are looked up only when the submeshes are built: a usage whose
/// material no loaded library defines makes the assembly fail with
/// `UndefinedMaterial`, wherever it stands among the usages.
pub proof fn lemma_undefined_material_fails(
    indices: Seq<u32>,
    lib: Seq<(Seq<u8>, MaterialView)>,
    us: Seq<UsageView>,
    i: int,
)
    requires
        0 <= i < us.len(),
        find_material(lib, us[i].material) is None,
    ensures
        submeshes_of(indices, lib, us) == Err::<Seq<crate::assemble::SubmeshView>, ParseError>(
            ParseError::UndefinedMaterial,
        ),
    decreases us.len(),
{
    if i < us.len() - 1 {
        lemma_undefined_material_fails(indices, lib, us.drop_last(), i);
    }
    lemma_submeshes_error_kind(indices, lib, us);
}

} // verus!
