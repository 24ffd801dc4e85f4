//! The material format: named blocks of a specular exponent, three
//! reflectance colors and an optional diffuse texture map.

use vstd::prelude::*;

use crate::error::ParseError;
use crate::number::{float_literal, is_float_literal};
use crate::obj::{all_literals, copy_opt, literals, operands, opt_view, same_bytes};
use crate::text::{copy_bytes, line_len, line_tokens, tokenize_line, views_of};

verus! {

/// A material as its block states it: number literals for the exponent and
/// the colors, and the texture path as written. The diffuse color may be
/// unset, which is not the same as black.
#[derive(Debug)]
pub struct MaterialRecord {
    pub ns: Vec<u8>,
    pub ka: Vec<Vec<u8>>,
    pub kd: Option<Vec<Vec<u8>>>,
    pub ks: Vec<Vec<u8>>,
    pub diffuse_map: Option<Vec<u8>>,
}

pub struct MaterialView {
    pub ns: Seq<u8>,
    pub ka: Seq<Seq<u8>>,
    pub kd: Option<Seq<Seq<u8>>>,
    pub ks: Seq<Seq<u8>>,
    pub diffuse_map: Option<Seq<u8>>,
}

pub open spec fn opt_list_view(o: Option<Vec<Vec<u8>>>) -> Option<Seq<Seq<u8>>> {
    match o {
        Some(v) => Some(views_of(v@)),
        None => None,
    }
}

impl View for MaterialRecord {
    type V = MaterialView;

    open spec fn view(&self) -> MaterialView {
        MaterialView {
            ns: self.ns@,
            ka: views_of(self.ka@),
            kd: opt_list_view(self.kd),
            ks: views_of(self.ks@),
            diffuse_map: opt_view(self.diffuse_map),
        }
    }
}

/// A material of a library under its name.
#[derive(Debug)]
pub struct NamedMaterial {
    pub name: Vec<u8>,
    pub material: MaterialRecord,
}

impl View for NamedMaterial {
    type V = (Seq<u8>, MaterialView);

    open spec fn view(&self) -> (Seq<u8>, MaterialView) {
        (self.name@, self.material@)
    }
}

pub open spec fn library_view(l: Seq<NamedMaterial>) -> Seq<(Seq<u8>, MaterialView)> {
    Seq::new(l.len(), |i: int| l[i]@)
}

pub open spec fn kw_newmtl() -> Seq<u8> {
    seq![0x6eu8, 0x65u8, 0x77u8, 0x6du8, 0x74u8, 0x6cu8]
}

pub open spec fn kw_ns() -> Seq<u8> {
    seq![0x4eu8, 0x73u8]
}

pub open spec fn kw_ka() -> Seq<u8> {
    seq![0x4bu8, 0x61u8]
}

pub open spec fn kw_kd() -> Seq<u8> {
    seq![0x4bu8, 0x64u8]
}

pub open spec fn kw_ks() -> Seq<u8> {
    seq![0x4bu8, 0x73u8]
}

pub open spec fn kw_map_kd() -> Seq<u8> {
    seq![0x6du8, 0x61u8, 0x70u8, 0x5fu8, 0x4bu8, 0x64u8]
}

/// The state of a material parse between two lines: the name of the open
/// block, the values set so far, and the materials finished.
pub struct MtlState {
    pub name: Option<Seq<u8>>,
    pub ns: Option<Seq<u8>>,
    pub ka: Option<Seq<Seq<u8>>>,
    pub kd: Option<Seq<Seq<u8>>>,
    pub ks: Option<Seq<Seq<u8>>>,
    pub map: Option<Seq<u8>>,
    pub done: Seq<(Seq<u8>, MaterialView)>,
}

pub open spec fn mtl_initial() -> MtlState {
    MtlState { name: None, ns: None, ka: None, kd: None, ks: None, map: None, done: seq![] }
}

/// Closes the open block, if any. The exponent, ambient and specular colors
/// are required; every value starts unset in the next block.
pub open spec fn mtl_close(s: MtlState) -> Result<MtlState, ParseError> {
    match s.name {
        None => Ok(s),
        Some(n) => if s.ns is None || s.ka is None || s.ks is None {
            Err(ParseError::MissingField)
        } else {
            Ok(
                MtlState {
                    ns: None,
                    ka: None,
                    kd: None,
                    ks: None,
                    map: None,
                    done: s.done.push(
                        (
                            n,
                            MaterialView {
                                ns: s.ns->Some_0,
                                ka: s.ka->Some_0,
                                kd: s.kd,
                                ks: s.ks->Some_0,
                                diffuse_map: s.map,
                            },
                        ),
                    ),
                    ..s
                },
            )
        },
    }
}

pub open spec fn is_color_kw(k: Seq<u8>) -> bool {
    k == kw_ka() || k == kw_kd() || k == kw_ks()
}

/// The effect of one line, given its tokens `t`.
pub open spec fn mtl_step(s: MtlState, t: Seq<Seq<u8>>) -> Result<MtlState, ParseError> {
    if t.len() == 0 {
        Ok(s)
    } else if t[0] == kw_newmtl() {
        match mtl_close(s) {
            Err(e) => Err(e),
            Ok(c) => if t.len() < 2 {
                Err(ParseError::MissingOperand)
            } else {
                Ok(MtlState { name: Some(t[1]), ..c })
            },
        }
    } else if t[0] == kw_ns() || t[0] == kw_map_kd() {
        if t.len() < 2 {
            Err(ParseError::MissingOperand)
        } else if t[0] == kw_map_kd() {
            Ok(MtlState { map: Some(t[1]), ..s })
        } else if !is_float_literal(t[1]) {
            Err(ParseError::MalformedNumber)
        } else {
            Ok(MtlState { ns: Some(t[1]), ..s })
        }
    } else if is_color_kw(t[0]) {
        if t.len() < 4 {
            Err(ParseError::MissingOperand)
        } else if !literals(t, 3) {
            Err(ParseError::MalformedNumber)
        } else if t[0] == kw_ka() {
            Ok(MtlState { ka: Some(t.subrange(1, 4)), ..s })
        } else if t[0] == kw_kd() {
            Ok(MtlState { kd: Some(t.subrange(1, 4)), ..s })
        } else {
            Ok(MtlState { ks: Some(t.subrange(1, 4)), ..s })
        }
    } else {
        Ok(s)
    }
}

/// The effect of the lines of `text` from state `s`, stopping at the first
/// error.
pub open spec fn mtl_run(s: MtlState, text: Seq<u8>) -> Result<MtlState, ParseError>
    decreases text.len(),
{
    let k = line_len(text);
    match mtl_step(s, line_tokens(text.take(k as int))) {
        Err(e) => Err(e),
        Ok(s2) => if k >= text.len() {
            Ok(s2)
        } else {
            mtl_run(s2, text.skip(k + 1int))
        },
    }
}

/// The materials of a material text, in the order of their blocks.
pub open spec fn parse_mtl_spec(text: Seq<u8>) -> Result<Seq<(Seq<u8>, MaterialView)>, ParseError> {
    match mtl_run(mtl_initial(), text) {
        Err(e) => Err(e),
        Ok(s) => match mtl_close(s) {
            Err(e) => Err(e),
            Ok(c) => Ok(c.done),
        },
    }
}

/// Copies a list of byte strings.
pub fn copy_list(v: &Vec<Vec<u8>>) -> (r: Vec<Vec<u8>>)
    ensures
        views_of(r@) == views_of(v@),
{
    let mut r: Vec<Vec<u8>> = Vec::new();
    let mut i: usize = 0;
    while i < v.len()
        invariant
            i <= v@.len(),
            views_of(r@) =~= views_of(v@).take(i as int),
        decreases v@.len() - i,
    {
        let ghost before = views_of(r@);
        r.push(copy_bytes(&v[i]));
        assert(views_of(r@) =~= before.push(v@[i as int]@));
        i = i + 1;
        assert(views_of(r@) =~= views_of(v@).take(i as int));
    }
    assert(views_of(v@).take(v@.len() as int) =~= views_of(v@));
    r
}

/// The parser of a material text between two lines.
pub struct MtlParser {
    pub name: Option<Vec<u8>>,
    pub ns: Option<Vec<u8>>,
    pub ka: Option<Vec<Vec<u8>>>,
    pub kd: Option<Vec<Vec<u8>>>,
    pub ks: Option<Vec<Vec<u8>>>,
    pub map: Option<Vec<u8>>,
    pub done: Vec<NamedMaterial>,
}

impl View for MtlParser {
    type V = MtlState;

    open spec fn view(&self) -> MtlState {
        MtlState {
            name: opt_view(self.name),
            ns: opt_view(self.ns),
            ka: opt_list_view(self.ka),
            kd: opt_list_view(self.kd),
            ks: opt_list_view(self.ks),
            map: opt_view(self.map),
            done: library_view(self.done@),
        }
    }
}

impl MtlParser {
    pub fn empty() -> (r: MtlParser)
        ensures
            r@ == mtl_initial(),
    {
        let r = MtlParser {
            name: None,
            ns: None,
            ka: None,
            kd: None,
            ks: None,
            map: None,
            done: Vec::new(),
        };
        assert(r@.done =~= seq![]);
        r
    }

    /// Closes the open block, if any.
    pub fn close(&mut self) -> (r: Result<(), ParseError>)
        ensures
            match mtl_close(old(self)@) {
                Ok(s) => r is Ok && final(self)@ == s,
                Err(e) => r == Err::<(), ParseError>(e),
            },
    {
        match &self.name {
            None => Ok(()),
            Some(n) => {
                match (&self.ns, &self.ka, &self.ks) {
                    (Some(ns), Some(ka), Some(ks)) => {
                        let kd = match &self.kd {
                            Some(kd) => Some(copy_list(kd)),
                            None => None,
                        };
                        let m = NamedMaterial {
                            name: copy_bytes(n),
                            material: MaterialRecord {
                                ns: copy_bytes(ns),
                                ka: copy_list(ka),
                                kd,
                                ks: copy_list(ks),
                                diffuse_map: copy_opt(&self.map),
                            },
                        };
                        let ghost before = library_view(self.done@);
                        self.done.push(m);
                        assert(library_view(self.done@) =~= before.push(m@));
                        self.ns = None;
                        self.ka = None;
                        self.kd = None;
                        self.ks = None;
                        self.map = None;
                        Ok(())
                    },
                    _ => Err(ParseError::MissingField),
                }
            },
        }
    }

    /// Applies one line, given its tokens.
    pub fn feed(&mut self, toks: &Vec<Vec<u8>>) -> (r: Result<(), ParseError>)
        ensures
            match mtl_step(old(self)@, views_of(toks@)) {
                Ok(s) => r is Ok && final(self)@ == s,
                Err(e) => r == Err::<(), ParseError>(e),
            },
    {
        let ghost t = views_of(toks@);
        if toks.len() == 0 {
            return Ok(());
        }
        let kw = toks[0].as_slice();
        assert(kw@ == t[0]);
        let w_newmtl: &[u8] = &[0x6eu8, 0x65u8, 0x77u8, 0x6du8, 0x74u8, 0x6cu8];
        let w_ns: &[u8] = &[0x4eu8, 0x73u8];
        let w_ka: &[u8] = &[0x4bu8, 0x61u8];
        let w_kd: &[u8] = &[0x4bu8, 0x64u8];
        let w_ks: &[u8] = &[0x4bu8, 0x73u8];
        let w_map: &[u8] = &[0x6du8, 0x61u8, 0x70u8, 0x5fu8, 0x4bu8, 0x64u8];
        proof {
            assert(w_newmtl@ =~= kw_newmtl());
            assert(w_ns@ =~= kw_ns());
            assert(w_ka@ =~= kw_ka());
            assert(w_kd@ =~= kw_kd());
            assert(w_ks@ =~= kw_ks());
            assert(w_map@ =~= kw_map_kd());
        }
        let is_new = same_bytes(kw, w_newmtl);
        let is_ns = same_bytes(kw, w_ns);
        let is_ka = same_bytes(kw, w_ka);
        let is_kd = same_bytes(kw, w_kd);
        let is_ks = same_bytes(kw, w_ks);
        let is_map = same_bytes(kw, w_map);
        if is_new {
            match self.close() {
                Err(e) => return Err(e),
                Ok(()) => {},
            }
            if toks.len() < 2 {
                return Err(ParseError::MissingOperand);
            }
            self.name = Some(copy_bytes(&toks[1]));
            Ok(())
        } else if is_ns || is_map {
            if toks.len() < 2 {
                return Err(ParseError::MissingOperand);
            }
            if is_map {
                self.map = Some(copy_bytes(&toks[1]));
                return Ok(());
            }
            let v = toks[1].as_slice();
            assert(v@ == t[1]);
            if !float_literal(v) {
                return Err(ParseError::MalformedNumber);
            }
            self.ns = Some(copy_bytes(&toks[1]));
            Ok(())
        } else if is_ka || is_kd || is_ks {
            if toks.len() < 4 {
                return Err(ParseError::MissingOperand);
            }
            if !all_literals(toks, 3) {
                return Err(ParseError::MalformedNumber);
            }
            let e = operands(toks, 3);
            if is_ka {
                self.ka = Some(e);
            } else if is_kd {
                self.kd = Some(e);
            } else {
                self.ks = Some(e);
            }
            Ok(())
        } else {
            Ok(())
        }
    }
}

/// Parses a material text into its materials, in the order of their blocks.
/// A name defined twice appears twice; a lookup takes the later definition.
pub fn parse_mtl(text: &[u8]) -> (r: Result<Vec<NamedMaterial>, ParseError>)
    ensures
        match parse_mtl_spec(text@) {
            Ok(l) => r is Ok && library_view(r->Ok_0@) == l,
            Err(e) => r == Err::<Vec<NamedMaterial>, ParseError>(e),
        },
{
    let mut p = MtlParser::empty();
    let mut pos: usize = 0;
    assert(text@.skip(0) =~= text@);
    loop
        invariant
            pos <= text@.len(),
            mtl_run(mtl_initial(), text@) == mtl_run(p@, text@.skip(pos as int)),
        decreases text@.len() - pos,
    {
        let ghost rest = text@.skip(pos as int);
        let end = crate::text::find_byte(text, pos, 0x0au8);
        proof {
            crate::text::lemma_until_bound(rest, 0x0au8);
            assert(rest.take(end - pos) =~= text@.subrange(pos as int, end as int));
        }
        let toks = tokenize_line(text, pos, end);
        match p.feed(&toks) {
            Err(e) => {
                return Err(e);
            },
            Ok(()) => {},
        }
        if end == text.len() {
            match p.close() {
                Err(e) => return Err(e),
                Ok(()) => {},
            }
            return Ok(p.done);
        }
        assert(rest.skip(end - pos + 1) =~= text@.skip(end + 1));
        pos = end + 1;
    }
}

} // verus!
