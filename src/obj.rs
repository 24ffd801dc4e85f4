//! The geometry format: positions, texture coordinates, normals, polygonal
//! faces, material libraries, groups and material selections.

use vstd::prelude::*;
use vstd::arithmetic::div_mod::lemma_fundamental_div_mod_converse;

use crate::error::ParseError;
use crate::number::{float_literal, is_float_literal, resolve, resolve_index};
use crate::text::{
    copy_bytes, copy_range, find_byte, line_len, line_tokens, tokenize_line, until, views_of,
};

verus! {

/// The byte strings of the directive keywords.
pub open spec fn kw_v() -> Seq<u8> {
    seq![0x76u8]
}

pub open spec fn kw_vt() -> Seq<u8> {
    seq![0x76u8, 0x74u8]
}

pub open spec fn kw_vn() -> Seq<u8> {
    seq![0x76u8, 0x6eu8]
}

pub open spec fn kw_f() -> Seq<u8> {
    seq![0x66u8]
}

pub open spec fn kw_g() -> Seq<u8> {
    seq![0x67u8]
}

pub open spec fn kw_mtllib() -> Seq<u8> {
    seq![0x6du8, 0x74u8, 0x6cu8, 0x6cu8, 0x69u8, 0x62u8]
}

pub open spec fn kw_usemtl() -> Seq<u8> {
    seq![0x75u8, 0x73u8, 0x65u8, 0x6du8, 0x74u8, 0x6cu8]
}

/// Whether two byte strings are equal.
pub fn same_bytes(a: &[u8], b: &[u8]) -> (r: bool)
    ensures
        r == (a@ == b@),
{
    if a.len() != b.len() {
        return false;
    }
    let mut i: usize = 0;
    while i < a.len()
        invariant
            i <= a@.len() == b@.len(),
            forall|k: int| 0 <= k < i ==> a@[k] == b@[k],
        decreases a@.len() - i,
    {
        if a[i] != b[i] {
            return false;
        }
        i = i + 1;
    }
    assert(a@ =~= b@);
    true
}

/// A face corner: the table entries that its expanded vertex gathers,
/// counted from 0.
#[derive(Clone, Copy, Debug, PartialEq, Eq, Structural)]
pub struct Corner {
    pub position: usize,
    pub texcoord: usize,
    pub normal: usize,
}

/// A span `[start, end)` of the triangle indices drawn with one material.
#[derive(Debug)]
pub struct Usage {
    pub material: Vec<u8>,
    pub group: Option<Vec<u8>>,
    pub start: usize,
    pub end: usize,
}

pub struct UsageView {
    pub material: Seq<u8>,
    pub group: Option<Seq<u8>>,
    pub start: nat,
    pub end: nat,
}

pub open spec fn opt_view(o: Option<Vec<u8>>) -> Option<Seq<u8>> {
    match o {
        Some(v) => Some(v@),
        None => None,
    }
}

impl View for Usage {
    type V = UsageView;

    open spec fn view(&self) -> UsageView {
        UsageView {
            material: self.material@,
            group: opt_view(self.group),
            start: self.start as nat,
            end: self.end as nat,
        }
    }
}

/// What a geometry text describes. Each entry of the attribute tables is the
/// list of its number literals; `corners` holds one expanded vertex per face
/// corner, in file order; `indices` holds three entries of `corners` per
/// triangle.
#[derive(Debug)]
pub struct ObjModel {
    pub positions: Vec<Vec<Vec<u8>>>,
    pub texcoords: Vec<Vec<Vec<u8>>>,
    pub normals: Vec<Vec<Vec<u8>>>,
    pub corners: Vec<Corner>,
    pub indices: Vec<u32>,
    pub usages: Vec<Usage>,
    pub libraries: Vec<Vec<u8>>,
}

pub struct ModelView {
    pub positions: Seq<Seq<Seq<u8>>>,
    pub texcoords: Seq<Seq<Seq<u8>>>,
    pub normals: Seq<Seq<Seq<u8>>>,
    pub corners: Seq<Corner>,
    pub indices: Seq<u32>,
    pub usages: Seq<UsageView>,
    pub libraries: Seq<Seq<u8>>,
}

pub open spec fn table_view(t: Seq<Vec<Vec<u8>>>) -> Seq<Seq<Seq<u8>>> {
    Seq::new(t.len(), |i: int| views_of(t[i]@))
}

pub open spec fn usages_view(u: Seq<Usage>) -> Seq<UsageView> {
    Seq::new(u.len(), |i: int| u[i]@)
}

impl View for ObjModel {
    type V = ModelView;

    open spec fn view(&self) -> ModelView {
        ModelView {
            positions: table_view(self.positions@),
            texcoords: table_view(self.texcoords@),
            normals: table_view(self.normals@),
            corners: self.corners@,
            indices: self.indices@,
            usages: usages_view(self.usages@),
            libraries: views_of(self.libraries@),
        }
    }
}

/// The state of a parse between two lines: the model so far, the current
/// group, the material selection still open with the group current when it
/// was made, and the index count at which that selection began.
pub struct ObjParser {
    pub model: ObjModel,
    pub group: Option<Vec<u8>>,
    pub open: Option<(Vec<u8>, Option<Vec<u8>>)>,
    pub boundary: usize,
}

pub struct ParserView {
    pub model: ModelView,
    pub group: Option<Seq<u8>>,
    pub open: Option<(Seq<u8>, Option<Seq<u8>>)>,
    pub boundary: nat,
}

impl View for ObjParser {
    type V = ParserView;

    open spec fn view(&self) -> ParserView {
        ParserView {
            model: self.model@,
            group: opt_view(self.group),
            open: match self.open {
                Some((m, g)) => Some((m@, opt_view(g))),
                None => None,
            },
            boundary: self.boundary as nat,
        }
    }
}

/// The parser state before the first line.
pub open spec fn initial_state() -> ParserView {
    ParserView {
        model: ModelView {
            positions: seq![],
            texcoords: seq![],
            normals: seq![],
            corners: seq![],
            indices: seq![],
            usages: seq![],
            libraries: seq![],
        },
        group: None,
        open: None,
        boundary: 0,
    }
}

/// Whether tokens `1..=n` of `t` are number literals.
pub open spec fn literals(t: Seq<Seq<u8>>, n: int) -> bool {
    forall|i: int| 1 <= i <= n ==> is_float_literal(#[trigger] t[i])
}

/// The triangle indices of a fan over `n` corners whose first expanded
/// vertex is `base`: `(0, i - 1, i)` for `i` in `2..n`, offset by `base`.
pub open spec fn fan(base: nat, n: nat) -> Seq<u32> {
    Seq::new(
        if n >= 2 {
            (3 * (n - 2)) as nat
        } else {
            0
        },
        |k: int|
            (if k % 3 == 0 {
                base as int
            } else {
                base + k / 3 + k % 3
            }) as u32,
    )
}

pub open spec fn slash() -> u8 {
    0x2fu8
}

/// The corner that the reference `r` (`position/texcoord/normal`) names. The
/// normal index runs to the end of the reference, so a fourth part makes it
/// malformed.
pub open spec fn corner_of(m: ModelView, r: Seq<u8>) -> Result<Corner, ParseError> {
    let a = until(r, slash());
    let r1 = r.skip(a + 1int);
    let b = until(r1, slash());
    let r2 = r1.skip(b + 1int);
    if a >= r.len() || b >= r1.len() {
        Err(ParseError::MissingOperand)
    } else {
        match resolve_index(m.positions.len(), r.take(a as int)) {
            Err(e) => Err(e),
            Ok(p) => match resolve_index(m.texcoords.len(), r1.take(b as int)) {
                Err(e) => Err(e),
                Ok(t) => match resolve_index(m.normals.len(), r2) {
                    Err(e) => Err(e),
                    Ok(n) => Ok(Corner { position: p as usize, texcoord: t as usize, normal: n as usize }),
                },
            },
        }
    }
}

/// The corners of the references `refs`, or the first error among them.
pub open spec fn corners_of(m: ModelView, refs: Seq<Seq<u8>>) -> Result<Seq<Corner>, ParseError>
    decreases refs.len(),
{
    if refs.len() == 0 {
        Ok(seq![])
    } else {
        match corners_of(m, refs.drop_last()) {
            Err(e) => Err(e),
            Ok(cs) => match corner_of(m, refs.last()) {
                Err(e) => Err(e),
                Ok(c) => Ok(cs.push(c)),
            },
        }
    }
}

/// A face over the references `refs`: its expanded vertices are appended and
/// its fan of triangles is appended to the indices.
pub open spec fn face_step(s: ParserView, refs: Seq<Seq<u8>>) -> Result<ParserView, ParseError> {
    if refs.len() < 3 {
        Err(ParseError::TooFewCorners)
    } else {
        match corners_of(s.model, refs) {
            Err(e) => Err(e),
            Ok(cs) => if s.model.corners.len() + cs.len() > 0x1_0000_0000 {
                Err(ParseError::TooManyVertices)
            } else {
                Ok(
                    ParserView {
                        model: ModelView {
                            corners: s.model.corners + cs,
                            indices: s.model.indices + fan(s.model.corners.len(), cs.len()),
                            ..s.model
                        },
                        ..s
                    },
                )
            },
        }
    }
}

/// The usage records once the open selection, if any, is closed at the
/// current index count.
pub open spec fn closed_usages(s: ParserView) -> Seq<UsageView> {
    match s.open {
        Some((m, g)) => s.model.usages.push(
            UsageView { material: m, group: g, start: s.boundary, end: s.model.indices.len() },
        ),
        None => s.model.usages,
    }
}

/// The effect of one line, given its tokens `t`.
pub open spec fn obj_step(s: ParserView, t: Seq<Seq<u8>>) -> Result<ParserView, ParseError> {
    if t.len() == 0 {
        Ok(s)
    } else if t[0] == kw_v() || t[0] == kw_vn() {
        if t.len() < 4 {
            Err(ParseError::MissingOperand)
        } else if !literals(t, 3) {
            Err(ParseError::MalformedNumber)
        } else if t[0] == kw_v() {
            Ok(
                ParserView {
                    model: ModelView { positions: s.model.positions.push(t.subrange(1, 4)), ..s.model },
                    ..s
                },
            )
        } else {
            Ok(
                ParserView {
                    model: ModelView { normals: s.model.normals.push(t.subrange(1, 4)), ..s.model },
                    ..s
                },
            )
        }
    } else if t[0] == kw_vt() {
        if t.len() < 3 {
            Err(ParseError::MissingOperand)
        } else if !literals(t, 2) {
            Err(ParseError::MalformedNumber)
        } else {
            Ok(
                ParserView {
                    model: ModelView { texcoords: s.model.texcoords.push(t.subrange(1, 3)), ..s.model },
                    ..s
                },
            )
        }
    } else if t[0] == kw_f() {
        face_step(s, t.drop_first())
    } else if t[0] == kw_mtllib() || t[0] == kw_g() || t[0] == kw_usemtl() {
        if t.len() < 2 {
            Err(ParseError::MissingOperand)
        } else if t[0] == kw_mtllib() {
            Ok(
                ParserView {
                    model: ModelView { libraries: s.model.libraries.push(t[1]), ..s.model },
                    ..s
                },
            )
        } else if t[0] == kw_g() {
            Ok(ParserView { group: Some(t[1]), ..s })
        } else {
            Ok(
                ParserView {
                    model: ModelView { usages: closed_usages(s), ..s.model },
                    open: Some((t[1], s.group)),
                    boundary: s.model.indices.len(),
                    ..s
                },
            )
        }
    } else {
        Ok(s)
    }
}

/// The effect of the lines of `text` from state `s`, stopping at the first
/// error.
pub open spec fn obj_run(s: ParserView, text: Seq<u8>) -> Result<ParserView, ParseError>
    decreases text.len(),
{
    let k = line_len(text);
    match obj_step(s, line_tokens(text.take(k as int))) {
        Err(e) => Err(e),
        Ok(s2) => if k >= text.len() {
            Ok(s2)
        } else {
            obj_run(s2, text.skip(k + 1int))
        },
    }
}

/// Where the first usage range begins: at the start of the first record, or
/// of the open selection while there is no record yet.
pub open spec fn first_start(s: ParserView) -> nat {
    if s.model.usages.len() > 0 {
        s.model.usages[0].start
    } else {
        s.boundary
    }
}

/// The end of the text: the open selection is closed at the total index
/// count. A text that never selects a material, that has faces before its
/// first material selection, or that holds no position, is rejected.
pub open spec fn obj_finish(s: ParserView) -> Result<ModelView, ParseError> {
    if s.open is None || first_start(s) > 0 {
        Err(ParseError::NoMaterial)
    } else if s.model.positions.len() == 0 {
        Err(ParseError::NoPositions)
    } else {
        Ok(ModelView { usages: closed_usages(s), ..s.model })
    }
}

/// What the geometry text `text` describes.
pub open spec fn parse_obj_spec(text: Seq<u8>) -> Result<ModelView, ParseError> {
    match obj_run(initial_state(), text) {
        Err(e) => Err(e),
        Ok(s) => obj_finish(s),
    }
}

proof fn lemma_corners_error(m: ModelView, refs: Seq<Seq<u8>>, j: int, k: int, e: ParseError)
    requires
        0 < j <= k <= refs.len(),
        corners_of(m, refs.take(j)) == Err::<Seq<Corner>, ParseError>(e),
    ensures
        corners_of(m, refs.take(k)) == Err::<Seq<Corner>, ParseError>(e),
    decreases k - j,
{
    if k > j {
        lemma_corners_error(m, refs, j, k - 1, e);
        assert(refs.take(k).drop_last() =~= refs.take(k - 1));
    }
}

proof fn lemma_fan_step(base: nat, k: nat)
    requires
        k >= 2,
    ensures
        fan(base, k + 1) =~= fan(base, k) + seq![
            base as u32,
            (base + k - 1) as u32,
            (base + k) as u32,
        ],
{
    let t = k - 2;
    assert forall|i: int| 0 <= i < 3 * t implies #[trigger] fan(base, k + 1)[i] == fan(base, k)[i] by {
    }
    lemma_fundamental_div_mod_converse(3 * t, 3, t, 0);
    lemma_fundamental_div_mod_converse(3 * t + 1, 3, t, 1);
    lemma_fundamental_div_mod_converse(3 * t + 2, 3, t, 2);
}

pub fn copy_opt(o: &Option<Vec<u8>>) -> (r: Option<Vec<u8>>)
    ensures
        opt_view(r) == opt_view(*o),
{
    match o {
        Some(v) => Some(copy_bytes(v)),
        None => None,
    }
}

/// Copies tokens `1..=n` of `toks`.
pub fn operands(toks: &Vec<Vec<u8>>, n: usize) -> (r: Vec<Vec<u8>>)
    requires
        n < toks@.len(),
    ensures
        views_of(r@) == views_of(toks@).subrange(1, n + 1),
{
    let mut r: Vec<Vec<u8>> = Vec::new();
    let mut i: usize = 1;
    while i < toks.len() && i <= n
        invariant
            1 <= i <= n + 1,
            n < toks@.len(),
            views_of(r@) =~= views_of(toks@).subrange(1, i as int),
        decreases n + 1 - i,
    {
        let ghost before = views_of(r@);
        r.push(copy_bytes(&toks[i]));
        assert(views_of(r@) =~= before.push(toks@[i as int]@));
        i = i + 1;
        assert(views_of(r@) =~= views_of(toks@).subrange(1, i as int));
    }
    r
}

/// Whether tokens `1..=n` of `toks` are number literals.
pub fn all_literals(toks: &Vec<Vec<u8>>, n: usize) -> (r: bool)
    requires
        n < toks@.len(),
    ensures
        r == literals(views_of(toks@), n as int),
{
    let mut i: usize = 1;
    while i < toks.len() && i <= n
        invariant
            1 <= i <= n + 1,
            n < toks@.len(),
            forall|k: int| 1 <= k < i ==> is_float_literal(#[trigger] views_of(toks@)[k]),
        decreases n + 1 - i,
    {
        if !float_literal(toks[i].as_slice()) {
            assert(views_of(toks@)[i as int] == toks@[i as int]@);
            return false;
        }
        i = i + 1;
    }
    true
}

impl ObjParser {
    pub fn empty() -> (r: ObjParser)
        ensures
            r@ == initial_state(),
    {
        let r = ObjParser {
            model: ObjModel {
                positions: Vec::new(),
                texcoords: Vec::new(),
                normals: Vec::new(),
                corners: Vec::new(),
                indices: Vec::new(),
                usages: Vec::new(),
                libraries: Vec::new(),
            },
            group: None,
            open: None,
            boundary: 0,
        };
        assert(r@.model.positions =~= seq![]);
        assert(r@.model.texcoords =~= seq![]);
        assert(r@.model.normals =~= seq![]);
        assert(r@.model.usages =~= seq![]);
        assert(r@.model.libraries =~= seq![]);
        r
    }

    /// The corner that the reference `r` names.
    fn corner(&self, r: &[u8]) -> (c: Result<Corner, ParseError>)
        ensures
            match corner_of(self@.model, r@) {
                Ok(x) => c == Ok::<Corner, ParseError>(x),
                Err(e) => c == Err::<Corner, ParseError>(e),
            },
    {
        let ghost rs = r@;
        assert(rs.skip(0) =~= rs);
        let a = find_byte(r, 0, 0x2fu8);
        if a >= r.len() {
            return Err(ParseError::MissingOperand);
        }
        let b = find_byte(r, a + 1, 0x2fu8);
        if b >= r.len() {
            return Err(ParseError::MissingOperand);
        }
        proof {
            assert(rs.skip(a + 1int).skip(b - a) =~= rs.skip(b + 1int));
            assert(rs.take(a as int) =~= rs.subrange(0, a as int));
            assert(rs.skip(a + 1int).take(b - a - 1) =~= rs.subrange(a + 1int, b as int));
            assert(rs.skip(b + 1int) =~= rs.subrange(b + 1int, rs.len() as int));
        }
        let pt = copy_range(r, 0, a);
        let p = match resolve(self.model.positions.len(), pt.as_slice()) {
            Ok(p) => p,
            Err(e) => return Err(e),
        };
        let tt = copy_range(r, a + 1, b);
        let t = match resolve(self.model.texcoords.len(), tt.as_slice()) {
            Ok(t) => t,
            Err(e) => return Err(e),
        };
        let nt = copy_range(r, b + 1, r.len());
        let n = match resolve(self.model.normals.len(), nt.as_slice()) {
            Ok(n) => n,
            Err(e) => return Err(e),
        };
        Ok(Corner { position: p, texcoord: t, normal: n })
    }

    /// A face whose references are the tokens after the first of `toks`.
    fn face(&mut self, toks: &Vec<Vec<u8>>) -> (r: Result<(), ParseError>)
        requires
            toks@.len() >= 1,
        ensures
            match face_step(old(self)@, views_of(toks@).drop_first()) {
                Ok(s) => r is Ok && final(self)@ == s,
                Err(e) => r == Err::<(), ParseError>(e),
            },
    {
        let n = toks.len() - 1;
        let ghost refs = views_of(toks@).drop_first();
        if n < 3 {
            return Err(ParseError::TooFewCorners);
        }
        let mut cs: Vec<Corner> = Vec::new();
        let mut i: usize = 1;
        assert(refs.take(0) =~= seq![]);
        while i < toks.len()
            invariant
                1 <= i <= toks@.len(),
                refs == views_of(toks@).drop_first(),
                n == toks@.len() - 1,
                n >= 3,
                self@ == old(self)@,
                cs@.len() == i - 1,
                corners_of(self@.model, refs.take(i - 1)) == Ok::<Seq<Corner>, ParseError>(cs@),
            decreases toks@.len() - i,
        {
            proof {
                assert(refs.take(i as int).drop_last() =~= refs.take(i - 1));
                assert(refs.take(i as int).last() == toks@[i as int]@);
            }
            let rt = toks[i].as_slice();
            assert(rt@ == toks@[i as int]@);
            match self.corner(rt) {
                Err(e) => {
                    proof {
                        assert(toks@[i as int]@ == refs.take(i as int).last());
                        assert(corners_of(self@.model, refs.take(i as int)) == Err::<
                            Seq<Corner>,
                            ParseError,
                        >(e));
                        lemma_corners_error(self@.model, refs, i as int, refs.len() as int, e);
                        assert(refs.take(refs.len() as int) =~= refs);
                    }
                    return Err(e);
                },
                Ok(c) => {
                    cs.push(c);
                },
            }
            i = i + 1;
        }
        assert(refs.take(n as int) =~= refs);
        let base = self.model.corners.len();
        if (base as u128) + (n as u128) > 0x1_0000_0000u128 {
            return Err(ParseError::TooManyVertices);
        }
        let mut fi: Vec<u32> = Vec::new();
        let mut k: usize = 2;
        assert(fi@ =~= fan(base as nat, 2));
        while k < n
            invariant
                2 <= k <= n,
                base + n <= 0x1_0000_0000,
                fi@ == fan(base as nat, k as nat),
            decreases n - k,
        {
            proof {
                lemma_fan_step(base as nat, k as nat);
            }
            fi.push(base as u32);
            fi.push((base + k - 1) as u32);
            fi.push((base + k) as u32);
            k = k + 1;
        }
        let ghost fans = fi@;
        let ghost csv = cs@;
        self.model.corners.append(&mut cs);
        self.model.indices.append(&mut fi);
        assert(self@.model.indices == old(self)@.model.indices + fans);
        assert(self@.model.corners == old(self)@.model.corners + csv);
        Ok(())
    }
}

impl ObjParser {
    /// Applies one line, given its tokens.
    pub fn feed(&mut self, toks: &Vec<Vec<u8>>) -> (r: Result<(), ParseError>)
        ensures
            match obj_step(old(self)@, views_of(toks@)) {
                Ok(s) => r is Ok && final(self)@ == s,
                Err(e) => r == Err::<(), ParseError>(e),
            },
    {
        let ghost t = views_of(toks@);
        if toks.len() == 0 {
            return Ok(());
        }
        let kw = toks[0].as_slice();
        assert(kw@ == t[0]);
        let w_v: &[u8] = &[0x76u8];
        assert(w_v@ =~= kw_v());
        let is_v = same_bytes(kw, w_v);
        let is_vn = same_bytes(kw, &[0x76u8, 0x6eu8]);
        let is_vt = same_bytes(kw, &[0x76u8, 0x74u8]);
        let w_f: &[u8] = &[0x66u8];
        assert(w_f@ =~= kw_f());
        let is_f = same_bytes(kw, w_f);
        let w_g: &[u8] = &[0x67u8];
        assert(w_g@ =~= kw_g());
        let is_g = same_bytes(kw, w_g);
        let is_lib = same_bytes(kw, &[0x6du8, 0x74u8, 0x6cu8, 0x6cu8, 0x69u8, 0x62u8]);
        let is_use = same_bytes(kw, &[0x75u8, 0x73u8, 0x65u8, 0x6du8, 0x74u8, 0x6cu8]);
        proof {
            assert(is_v == (t[0] == kw_v()));
            assert(is_vn == (t[0] == kw_vn()));
            assert(is_vt == (t[0] == kw_vt()));
            assert(is_f == (t[0] == kw_f()));
            assert(is_g == (t[0] == kw_g()));
            assert(is_lib == (t[0] == kw_mtllib()));
            assert(is_use == (t[0] == kw_usemtl()));
        }
        if is_v || is_vn {
            if toks.len() < 4 {
                return Err(ParseError::MissingOperand);
            }
            if !all_literals(toks, 3) {
                return Err(ParseError::MalformedNumber);
            }
            let e = operands(toks, 3);
            let ghost ev = views_of(e@);
            if is_v {
                let ghost before = table_view(self.model.positions@);
                self.model.positions.push(e);
                assert(table_view(self.model.positions@) =~= before.push(ev));
            } else {
                let ghost before = table_view(self.model.normals@);
                self.model.normals.push(e);
                assert(table_view(self.model.normals@) =~= before.push(ev));
            }
            Ok(())
        } else if is_vt {
            if toks.len() < 3 {
                return Err(ParseError::MissingOperand);
            }
            if !all_literals(toks, 2) {
                return Err(ParseError::MalformedNumber);
            }
            let e = operands(toks, 2);
            let ghost ev = views_of(e@);
            let ghost before = table_view(self.model.texcoords@);
            self.model.texcoords.push(e);
            assert(table_view(self.model.texcoords@) =~= before.push(ev));
            Ok(())
        } else if is_f {
            self.face(toks)
        } else if is_lib || is_g || is_use {
            if toks.len() < 2 {
                return Err(ParseError::MissingOperand);
            }
            let name = copy_bytes(&toks[1]);
            if is_lib {
                let ghost before = views_of(self.model.libraries@);
                self.model.libraries.push(name);
                assert(views_of(self.model.libraries@) =~= before.push(t[1]));
            } else if is_g {
                self.group = Some(name);
            } else {
                let ghost closed = closed_usages(self@);
                match &self.open {
                    Some((m, g)) => {
                        let u = Usage {
                            material: copy_bytes(m),
                            group: copy_opt(g),
                            start: self.boundary,
                            end: self.model.indices.len(),
                        };
                        let ghost before = usages_view(self.model.usages@);
                        self.model.usages.push(u);
                        assert(usages_view(self.model.usages@) =~= before.push(u@));
                    },
                    None => {},
                }
                assert(usages_view(self.model.usages@) == closed);
                let g = copy_opt(&self.group);
                self.open = Some((name, g));
                self.boundary = self.model.indices.len();
            }
            Ok(())
        } else {
            Ok(())
        }
    }

    /// Ends the text: closes the open selection.
    pub fn finish(self) -> (r: Result<ObjModel, ParseError>)
        ensures
            match obj_finish(self@) {
                Ok(m) => r is Ok && r->Ok_0@ == m,
                Err(e) => r == Err::<ObjModel, ParseError>(e),
            },
    {
        let ghost closed = closed_usages(self@);
        let mut model = self.model;
        assert(model.usages@.len() > 0 ==> usages_view(model.usages@)[0].start == model.usages@[0].start);
        match self.open {
            None => Err(ParseError::NoMaterial),
            Some((m, g)) => {
                let first = if model.usages.len() > 0 {
                    model.usages[0].start
                } else {
                    self.boundary
                };
                if first > 0 {
                    return Err(ParseError::NoMaterial);
                }
                if model.positions.len() == 0 {
                    return Err(ParseError::NoPositions);
                }
                let u = Usage { material: m, group: g, start: self.boundary, end: model.indices.len() };
                let ghost before = usages_view(model.usages@);
                model.usages.push(u);
                assert(usages_view(model.usages@) =~= before.push(u@));
                Ok(model)
            },
        }
    }
}

/// Parses a geometry text.
pub fn parse_obj(text: &[u8]) -> (r: Result<ObjModel, ParseError>)
    ensures
        match parse_obj_spec(text@) {
            Ok(m) => r is Ok && r->Ok_0@ == m,
            Err(e) => r == Err::<ObjModel, ParseError>(e),
        },
        r is Ok ==> crate::assemble::ranges_in_bounds(r->Ok_0@),
{
    proof {
        if parse_obj_spec(text@) is Ok {
            crate::laws::lemma_usage_ranges_partition(text@);
        }
    }
    let mut p = ObjParser::empty();
    let mut pos: usize = 0;
    assert(text@.skip(0) =~= text@);
    loop
        invariant
            pos <= text@.len(),
            obj_run(initial_state(), text@) == obj_run(p@, text@.skip(pos as int)),
            parse_obj_spec(text@) is Ok ==> crate::assemble::ranges_in_bounds(
                parse_obj_spec(text@)->Ok_0,
            ),
        decreases text@.len() - pos,
    {
        let ghost rest = text@.skip(pos as int);
        let end = crate::text::find_byte(text, pos, 0x0au8);
        proof {
            crate::text::lemma_until_bound(rest, 0x0au8);
            assert(rest.take(end - pos) =~= text@.subrange(pos as int, end as int));
        }
        let toks = tokenize_line(text, pos, end);
        match p.feed(&toks) {
            Err(e) => {
                return Err(e);
            },
            Ok(()) => {},
        }
        if end == text.len() {
            return p.finish();
        }
        assert(rest.skip(end - pos + 1) =~= text@.skip(end + 1));
        pos = end + 1;
    }
}

} // verus!
