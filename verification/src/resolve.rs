//! The declaration resolver. An entity carries an ordered list of
//! declarations; those marked `more` are extension declarations and are
//! resolved here into extra entries, partitioned into a front and a back
//! list while keeping declared order within each; every other declaration is
//! pass-through configuration, forwarded untouched for the entity's own
//! field logic. Resolution happens once, at configuration time: an invalid
//! declaration or an unsupported entity shape is rejected here, and no
//! serialization artifact exists for the entity.

use crate::errors::ConfigError;
use crate::errors::SpecConfigError;
use vstd::prelude::*;
use vstd::string::StrSliceExecFns;

verus! {

/// One `name = "value"` parameter of a declaration.
#[derive(Debug, PartialEq, Eq)]
pub struct RawParam {
    pub name: String,
    pub value: String,
}

/// Spec-level model of a parameter.
pub struct SpecParam {
    pub name: Seq<char>,
    pub value: Seq<char>,
}

impl View for RawParam {
    type V = SpecParam;

    open spec fn view(&self) -> SpecParam {
        SpecParam { name: self.name@, value: self.value@ }
    }
}

/// One declaration attached to an entity: a marker naming the declaration
/// family, and its parameters. Extension declarations carry the marker
/// `more`; declarations under any other marker are pass-through
/// configuration that this library forwards verbatim.
#[derive(Debug, PartialEq, Eq)]
pub struct RawDecl {
    pub marker: String,
    pub params: Vec<RawParam>,
}

/// Spec-level model of a declaration.
pub struct SpecRawDecl {
    pub marker: Seq<char>,
    pub params: Seq<SpecParam>,
}

/// The models of a parameter list.
pub open spec fn spec_params_of(s: Seq<RawParam>) -> Seq<SpecParam> {
    Seq::new(s.len(), |i: int| s[i]@)
}

impl View for RawDecl {
    type V = SpecRawDecl;

    open spec fn view(&self) -> SpecRawDecl {
        SpecRawDecl { marker: self.marker@, params: spec_params_of(self.params@) }
    }
}

/// The models of a declaration list.
pub open spec fn spec_raw_decls_of(s: Seq<RawDecl>) -> Seq<SpecRawDecl> {
    Seq::new(s.len(), |i: int| s[i]@)
}

/// One resolved extra entry: the output key and the name of the accessor to
/// invoke on the entity.
#[derive(Debug, PartialEq, Eq)]
pub struct ExtraDecl {
    pub key: String,
    pub accessor: String,
}

/// Spec-level model of a resolved extra entry.
pub struct SpecDecl {
    pub key: Seq<char>,
    pub accessor: Seq<char>,
}

impl View for ExtraDecl {
    type V = SpecDecl;

    open spec fn view(&self) -> SpecDecl {
        SpecDecl { key: self.key@, accessor: self.accessor@ }
    }
}

/// The models of a resolved extra-entry list.
pub open spec fn spec_decls_of(s: Seq<ExtraDecl>) -> Seq<SpecDecl> {
    Seq::new(s.len(), |i: int| s[i]@)
}

/// The shape of an entity, as the configuration surface sees it.
#[derive(Debug, PartialEq, Eq, Clone, Copy)]
pub enum EntityShape {
    /// A record with named fields — the only supported shape.
    NamedFields,
    /// A record with positional, unnamed fields.
    PositionalFields,
    /// A record with no fields at all.
    NoFields,
    /// A tagged union (a choice of variants).
    TaggedUnion,
    /// An untagged union.
    UntaggedUnion,
}

/// The result of resolving one entity's declarations.
#[derive(Debug, PartialEq, Eq)]
pub struct Resolution {
    /// Extras written before the entity's own fields, in declared order.
    pub front: Vec<ExtraDecl>,
    /// Extras written after the entity's own fields, in declared order.
    pub back: Vec<ExtraDecl>,
    /// Every non-extension declaration, untouched and in order.
    pub passthrough: Vec<RawDecl>,
}

/// Spec-level model of a resolution.
pub struct SpecResolution {
    pub front: Seq<SpecDecl>,
    pub back: Seq<SpecDecl>,
    pub passthrough: Seq<SpecRawDecl>,
}

/// The token `front`, in any mix of ASCII case.
pub open spec fn spec_is_front_token(s: Seq<char>) -> bool {
    &&& s.len() == 5
    &&& (s[0] == 'f' || s[0] == 'F')
    &&& (s[1] == 'r' || s[1] == 'R')
    &&& (s[2] == 'o' || s[2] == 'O')
    &&& (s[3] == 'n' || s[3] == 'N')
    &&& (s[4] == 't' || s[4] == 'T')
}

/// The token `back`, in any mix of ASCII case.
pub open spec fn spec_is_back_token(s: Seq<char>) -> bool {
    &&& s.len() == 4
    &&& (s[0] == 'b' || s[0] == 'B')
    &&& (s[1] == 'a' || s[1] == 'A')
    &&& (s[2] == 'c' || s[2] == 'C')
    &&& (s[3] == 'k' || s[3] == 'K')
}

/// A parameter naming the output key.
pub open spec fn spec_is_key_param(n: Seq<char>) -> bool {
    n == "key"@ || n == "k"@
}

/// A parameter naming the accessor.
pub open spec fn spec_is_value_param(n: Seq<char>) -> bool {
    n == "value"@ || n == "v"@
}

/// A parameter choosing the position.
pub open spec fn spec_is_position_param(n: Seq<char>) -> bool {
    n == "position"@
}

/// The state after scanning a prefix of one declaration's parameters: the
/// key and accessor supplied so far (the last occurrence wins) and whether
/// the entry goes to the front (the default is the back).
pub struct SpecScan {
    pub key: Option<Seq<char>>,
    pub accessor: Option<Seq<char>>,
    pub front: bool,
}

/// Scan one declaration's parameters in order. The first offending
/// parameter decides the error: an unrecognized name, or a position token
/// that is neither `front` nor `back`.
pub open spec fn spec_scan_params(entity: Seq<char>, params: Seq<SpecParam>) -> Result<
    SpecScan,
    SpecConfigError,
>
    decreases params.len(),
{
    if params.len() == 0 {
        Ok(SpecScan { key: None, accessor: None, front: false })
    } else {
        match spec_scan_params(entity, params.subrange(0, params.len() - 1)) {
            Err(e) => Err(e),
            Ok(st) => {
                let p = params[params.len() - 1];
                if spec_is_key_param(p.name) {
                    Ok(SpecScan { key: Some(p.value), accessor: st.accessor, front: st.front })
                } else if spec_is_value_param(p.name) {
                    Ok(SpecScan { key: st.key, accessor: Some(p.value), front: st.front })
                } else if spec_is_position_param(p.name) {
                    if spec_is_front_token(p.value) {
                        Ok(SpecScan { key: st.key, accessor: st.accessor, front: true })
                    } else if spec_is_back_token(p.value) {
                        Ok(SpecScan { key: st.key, accessor: st.accessor, front: false })
                    } else {
                        Err(SpecConfigError::InvalidPosition { entity, token: p.value })
                    }
                } else {
                    Err(SpecConfigError::UnknownParam { entity, param: p.name })
                }
            },
        }
    }
}

/// What one extension declaration contributes: nothing without a key;
/// otherwise one extra entry whose accessor defaults to the key itself.
pub open spec fn spec_decl_outcome(entity: Seq<char>, params: Seq<SpecParam>) -> Result<
    (Option<SpecDecl>, bool),
    SpecConfigError,
> {
    match spec_scan_params(entity, params) {
        Err(e) => Err(e),
        Ok(st) => match st.key {
            None => Ok((None, st.front)),
            Some(k) => Ok(
                (
                    Some(
                        SpecDecl {
                            key: k,
                            accessor: match st.accessor {
                                Some(a) => a,
                                None => k,
                            },
                        },
                    ),
                    st.front,
                ),
            ),
        },
    }
}

/// Resolve a prefix of the declaration list, in order: pass-through
/// declarations are forwarded, extension declarations contribute to the
/// front or back list, and the first offending declaration decides the
/// error.
pub open spec fn spec_resolve_decls(entity: Seq<char>, decls: Seq<SpecRawDecl>) -> Result<
    SpecResolution,
    SpecConfigError,
>
    decreases decls.len(),
{
    if decls.len() == 0 {
        Ok(
            SpecResolution {
                front: Seq::empty(),
                back: Seq::empty(),
                passthrough: Seq::empty(),
            },
        )
    } else {
        match spec_resolve_decls(entity, decls.subrange(0, decls.len() - 1)) {
            Err(e) => Err(e),
            Ok(acc) => {
                let d = decls[decls.len() - 1];
                if d.marker != "more"@ {
                    Ok(
                        SpecResolution {
                            front: acc.front,
                            back: acc.back,
                            passthrough: acc.passthrough.push(d),
                        },
                    )
                } else {
                    match spec_decl_outcome(entity, d.params) {
                        Err(e) => Err(e),
                        Ok((None, _)) => Ok(acc),
                        Ok((Some(x), true)) => Ok(
                            SpecResolution {
                                front: acc.front.push(x),
                                back: acc.back,
                                passthrough: acc.passthrough,
                            },
                        ),
                        Ok((Some(x), false)) => Ok(
                            SpecResolution {
                                front: acc.front,
                                back: acc.back.push(x),
                                passthrough: acc.passthrough,
                            },
                        ),
                    }
                }
            },
        }
    }
}

/// Full resolution of one entity: every declaration in order, then the
/// shape check — only a record with named fields produces an artifact.
pub open spec fn spec_resolve(
    entity: Seq<char>,
    shape: EntityShape,
    decls: Seq<SpecRawDecl>,
) -> Result<SpecResolution, SpecConfigError> {
    match spec_resolve_decls(entity, decls) {
        Err(e) => Err(e),
        Ok(res) => match shape {
            EntityShape::NamedFields => Ok(res),
            EntityShape::PositionalFields => Err(
                SpecConfigError::UnsupportedFields { entity },
            ),
            EntityShape::NoFields => Err(SpecConfigError::UnsupportedFields { entity }),
            EntityShape::TaggedUnion => Err(SpecConfigError::UnsupportedShape { entity }),
            EntityShape::UntaggedUnion => Err(SpecConfigError::UnsupportedShape { entity }),
        },
    }
}

/// Once a parameter errored, later parameters do not change the error.
pub proof fn lemma_scan_params_extend(entity: Seq<char>, params: Seq<SpecParam>, j: int)
    requires
        0 <= j <= params.len(),
        spec_scan_params(entity, params.subrange(0, j)) is Err,
    ensures
        spec_scan_params(entity, params) == spec_scan_params(entity, params.subrange(0, j)),
    decreases params.len() - j,
{
    if j == params.len() {
        assert(params.subrange(0, j) =~= params);
    } else {
        let s1 = params.subrange(0, j + 1);
        assert(s1.subrange(0, s1.len() - 1) =~= params.subrange(0, j));
        lemma_scan_params_extend(entity, params, j + 1);
    }
}

/// Once a declaration errored, later declarations do not change the error.
pub proof fn lemma_resolve_decls_extend(entity: Seq<char>, decls: Seq<SpecRawDecl>, j: int)
    requires
        0 <= j <= decls.len(),
        spec_resolve_decls(entity, decls.subrange(0, j)) is Err,
    ensures
        spec_resolve_decls(entity, decls) == spec_resolve_decls(entity, decls.subrange(0, j)),
    decreases decls.len() - j,
{
    if j == decls.len() {
        assert(decls.subrange(0, j) =~= decls);
    } else {
        let s1 = decls.subrange(0, j + 1);
        assert(s1.subrange(0, s1.len() - 1) =~= decls.subrange(0, j));
        lemma_resolve_decls_extend(entity, decls, j + 1);
    }
}

/// Exact string comparison against an expected name.
fn string_is(s: &String, t: &str) -> (b: bool)
    ensures
        b == (s@ == t@),
{
    let o: String = t.to_owned();
    *s == o
}

/// Classify a position token: front, back, or invalid. The comparison
/// ignores ASCII case, exactly as the recognized tokens are defined.
fn parse_position_token(tok: &String) -> (r: Option<bool>)
    ensures
        spec_is_front_token(tok@) ==> r == Some(true),
        spec_is_back_token(tok@) ==> r == Some(false),
        !spec_is_front_token(tok@) && !spec_is_back_token(tok@) ==> r is None,
{
    let s: &str = tok.as_str();
    let n = s.unicode_len();
    if n == 5 {
        let c0 = s.get_char(0);
        let c1 = s.get_char(1);
        let c2 = s.get_char(2);
        let c3 = s.get_char(3);
        let c4 = s.get_char(4);
        if (c0 == 'f' || c0 == 'F') && (c1 == 'r' || c1 == 'R') && (c2 == 'o' || c2 == 'O') && (c3
            == 'n' || c3 == 'N') && (c4 == 't' || c4 == 'T') {
            Some(true)
        } else {
            None
        }
    } else if n == 4 {
        let c0 = s.get_char(0);
        let c1 = s.get_char(1);
        let c2 = s.get_char(2);
        let c3 = s.get_char(3);
        if (c0 == 'b' || c0 == 'B') && (c1 == 'a' || c1 == 'A') && (c2 == 'c' || c2 == 'C') && (c3
            == 'k' || c3 == 'K') {
            Some(false)
        } else {
            None
        }
    } else {
        None
    }
}

/// The model of an optional string.
pub open spec fn spec_opt_str(o: Option<String>) -> Option<Seq<char>> {
    match o {
        Some(s) => Some(s@),
        None => None,
    }
}

/// A copy of a parameter.
fn clone_param(p: &RawParam) -> (r: RawParam)
    ensures
        r == *p,
{
    RawParam { name: p.name.clone(), value: p.value.clone() }
}

/// A copy of a declaration, with the same model.
fn clone_raw_decl(d: &RawDecl) -> (r: RawDecl)
    ensures
        r@ == d@,
{
    let mut params: Vec<RawParam> = Vec::new();
    let mut i: usize = 0;
    while i < d.params.len()
        invariant
            i <= d.params@.len(),
            params@ =~= d.params@.subrange(0, i as int),
        decreases d.params@.len() - i,
    {
        params.push(clone_param(&d.params[i]));
        i = i + 1;
    }
    proof {
        assert(params@ =~= d.params@);
        assert(spec_params_of(params@) =~= spec_params_of(d.params@));
    }
    RawDecl { marker: d.marker.clone(), params }
}

/// Resolve one entity's declarations against its shape. On success the
/// extras stand partitioned front/back in declared order and every
/// pass-through declaration is forwarded verbatim; otherwise the first
/// offending declaration (or the unsupported shape) is reported, naming the
/// entity.
#[verifier::loop_isolation(false)]
pub fn resolve_entity(entity: &str, shape: EntityShape, decls: &Vec<RawDecl>) -> (r: Result<
    Resolution,
    ConfigError,
>)
    ensures
        r is Ok <==> spec_resolve(entity@, shape, spec_raw_decls_of(decls@)) is Ok,
        r is Ok ==> spec_decls_of(r->Ok_0.front@) == spec_resolve(
            entity@,
            shape,
            spec_raw_decls_of(decls@),
        )->Ok_0.front,
        r is Ok ==> spec_decls_of(r->Ok_0.back@) == spec_resolve(
            entity@,
            shape,
            spec_raw_decls_of(decls@),
        )->Ok_0.back,
        r is Ok ==> spec_raw_decls_of(r->Ok_0.passthrough@) == spec_resolve(
            entity@,
            shape,
            spec_raw_decls_of(decls@),
        )->Ok_0.passthrough,
        r is Err ==> r->Err_0@ == spec_resolve(entity@, shape, spec_raw_decls_of(decls@))->Err_0,
{
    let ghost all = spec_raw_decls_of(decls@);
    let mut front: Vec<ExtraDecl> = Vec::new();
    let mut back: Vec<ExtraDecl> = Vec::new();
    let mut passthrough: Vec<RawDecl> = Vec::new();
    let mut i: usize = 0;
    proof {
        assert(all.subrange(0, 0) =~= Seq::<SpecRawDecl>::empty());
        assert(spec_decls_of(front@) =~= Seq::<SpecDecl>::empty());
        assert(spec_decls_of(back@) =~= Seq::<SpecDecl>::empty());
        assert(spec_raw_decls_of(passthrough@) =~= Seq::<SpecRawDecl>::empty());
    }
    while i < decls.len()
        invariant
            i <= decls@.len(),
            all == spec_raw_decls_of(decls@),
            spec_resolve_decls(entity@, all.subrange(0, i as int)) == Ok::<
                SpecResolution,
                SpecConfigError,
            >(
                SpecResolution {
                    front: spec_decls_of(front@),
                    back: spec_decls_of(back@),
                    passthrough: spec_raw_decls_of(passthrough@),
                },
            ),
        decreases decls@.len() - i,
    {
        let ghost pre = all.subrange(0, i as int);
        proof {
            let step = all.subrange(0, i as int + 1);
            assert(step.subrange(0, step.len() - 1) =~= pre);
            assert(step[step.len() - 1] == all[i as int]);
            assert(all[i as int] == decls@[i as int]@);
        }
        let d = &decls[i];
        if !string_is(&d.marker, "more") {
            let ghost p0 = passthrough@;
            passthrough.push(clone_raw_decl(d));
            proof {
                assert(spec_raw_decls_of(passthrough@) =~= spec_raw_decls_of(p0).push(
                    decls@[i as int]@,
                ));
            }
        } else {
            let mut key: Option<String> = None;
            let mut accessor: Option<String> = None;
            let mut is_front: bool = false;
            let ghost dparams = spec_params_of(d.params@);
            let mut j: usize = 0;
            while j < d.params.len()
                invariant
                    j <= d.params@.len(),
                    dparams == spec_params_of(d.params@),
                    spec_scan_params(entity@, dparams.subrange(0, j as int)) == Ok::<
                        SpecScan,
                        SpecConfigError,
                    >(
                        SpecScan {
                            key: spec_opt_str(key),
                            accessor: spec_opt_str(accessor),
                            front: is_front,
                        },
                    ),
                decreases d.params@.len() - j,
            {
                let ghost sp = dparams.subrange(0, j as int);
                proof {
                    let step = dparams.subrange(0, j as int + 1);
                    assert(step.subrange(0, step.len() - 1) =~= sp);
                    assert(step[step.len() - 1] == dparams[j as int]);
                    assert(dparams[j as int] == d.params@[j as int]@);
                }
                let p = &d.params[j];
                if string_is(&p.name, "key") || string_is(&p.name, "k") {
                    key = Some(p.value.clone());
                } else if string_is(&p.name, "value") || string_is(&p.name, "v") {
                    accessor = Some(p.value.clone());
                } else if string_is(&p.name, "position") {
                    match parse_position_token(&p.value) {
                        Some(b) => {
                            is_front = b;
                        },
                        None => {
                            proof {
                                assert(dparams.len() == d.params@.len());
                                assert(all.len() == decls@.len());
                                assert(spec_scan_params(entity@, dparams.subrange(0, j as int + 1))
                                    == Err::<SpecScan, SpecConfigError>(
                                    SpecConfigError::InvalidPosition {
                                        entity: entity@,
                                        token: dparams[j as int].value,
                                    },
                                ));
                                lemma_scan_params_extend(entity@, dparams, j as int + 1);
                                assert(spec_decl_outcome(entity@, dparams) is Err);
                                assert(spec_resolve_decls(entity@, all.subrange(0, i as int + 1))
                                    is Err);
                                lemma_resolve_decls_extend(entity@, all, i as int + 1);
                            }
                            return Err(
                                ConfigError::InvalidPosition {
                                    entity: entity.to_owned(),
                                    token: p.value.clone(),
                                },
                            );
                        },
                    }
                } else {
                    proof {
                        assert(dparams.len() == d.params@.len());
                        assert(all.len() == decls@.len());
                        assert(spec_scan_params(entity@, dparams.subrange(0, j as int + 1))
                            == Err::<SpecScan, SpecConfigError>(
                            SpecConfigError::UnknownParam {
                                entity: entity@,
                                param: dparams[j as int].name,
                            },
                        ));
                        lemma_scan_params_extend(entity@, dparams, j as int + 1);
                        assert(spec_decl_outcome(entity@, dparams) is Err);
                        assert(spec_resolve_decls(entity@, all.subrange(0, i as int + 1)) is Err);
                        lemma_resolve_decls_extend(entity@, all, i as int + 1);
                    }
                    return Err(
                        ConfigError::UnknownParam {
                            entity: entity.to_owned(),
                            param: p.name.clone(),
                        },
                    );
                }
                j = j + 1;
            }
            proof {
                assert(dparams.subrange(0, j as int) =~= dparams);
            }
            match key {
                Some(k) => {
                    let acc = match accessor {
                        Some(a) => a,
                        None => k.clone(),
                    };
                    let x = ExtraDecl { key: k, accessor: acc };
                    if is_front {
                        let ghost f0 = front@;
                        front.push(x);
                        proof {
                            assert(spec_decls_of(front@) =~= spec_decls_of(f0).push(
                                front@[front@.len() - 1]@,
                            ));
                        }
                    } else {
                        let ghost b0 = back@;
                        back.push(x);
                        proof {
                            assert(spec_decls_of(back@) =~= spec_decls_of(b0).push(
                                back@[back@.len() - 1]@,
                            ));
                        }
                    }
                },
                None => {},
            }
        }
        i = i + 1;
    }
    proof {
        assert(all.subrange(0, i as int) =~= all);
    }
    match shape {
        EntityShape::NamedFields => Ok(Resolution { front, back, passthrough }),
        EntityShape::PositionalFields => Err(
            ConfigError::UnsupportedFields { entity: entity.to_owned() },
        ),
        EntityShape::NoFields => Err(ConfigError::UnsupportedFields { entity: entity.to_owned() }),
        EntityShape::TaggedUnion => Err(
            ConfigError::UnsupportedShape { entity: entity.to_owned() },
        ),
        EntityShape::UntaggedUnion => Err(
            ConfigError::UnsupportedShape { entity: entity.to_owned() },
        ),
    }
}

/// The five recognized parameter names are pairwise distinct.
proof fn lemma_param_literals()
    ensures
        "key"@.len() == 3,
        "k"@.len() == 1,
        "value"@.len() == 5,
        "v"@.len() == 1,
        "position"@.len() == 8,
        "k"@ != "v"@,
{
    reveal_strlit("key");
    reveal_strlit("k");
    reveal_strlit("value");
    reveal_strlit("v");
    reveal_strlit("position");
    assert("k"@[0] == 'k');
    assert("v"@[0] == 'v');
}

/// Default-accessor law: a declaration supplying only a key `K` resolves
/// exactly like one supplying both the key `K` and the accessor `K`.
pub proof fn lemma_default_accessor(entity: Seq<char>, kp: SpecParam, vp: SpecParam)
    requires
        spec_is_key_param(kp.name),
        spec_is_value_param(vp.name),
        vp.value == kp.value,
    ensures
        spec_decl_outcome(entity, seq![kp]) == spec_decl_outcome(entity, seq![kp, vp]),
{
    lemma_param_literals();
    let one = seq![kp];
    let two = seq![kp, vp];
    assert(one.subrange(0, 0) =~= Seq::<SpecParam>::empty());
    assert(two.subrange(0, 1) =~= one);
    assert(two[1] == vp);
    assert(one[0] == kp);
    assert(!spec_is_key_param(vp.name));
    assert(spec_scan_params(entity, one.subrange(0, 0)) == Ok::<SpecScan, SpecConfigError>(
        SpecScan { key: None, accessor: None, front: false },
    ));
    assert(spec_scan_params(entity, one) == Ok::<SpecScan, SpecConfigError>(SpecScan {
        key: Some(kp.value),
        accessor: None,
        front: false,
    }));
    assert(spec_scan_params(entity, two) == Ok::<SpecScan, SpecConfigError>(SpecScan {
        key: Some(kp.value),
        accessor: Some(vp.value),
        front: false,
    }));
}

/// No-op law: an extension declaration whose parameters are all recognized
/// and valid but supply no key contributes nothing — resolving with it is
/// resolving without it, wherever it stands in the declaration list.
pub proof fn lemma_noop_declaration(
    entity: Seq<char>,
    before: Seq<SpecRawDecl>,
    noop: SpecRawDecl,
    after: Seq<SpecRawDecl>,
)
    requires
        noop.marker == "more"@,
        spec_scan_params(entity, noop.params) is Ok,
        spec_scan_params(entity, noop.params)->Ok_0.key is None,
    ensures
        spec_resolve_decls(entity, before + seq![noop] + after) == spec_resolve_decls(
            entity,
            before + after,
        ),
    decreases after.len(),
{
    if after.len() == 0 {
        let lhs = before + seq![noop] + after;
        assert(lhs =~= before.push(noop));
        assert(lhs.subrange(0, lhs.len() - 1) =~= before);
        assert(lhs[lhs.len() - 1] == noop);
        assert(before + after =~= before);
    } else {
        let a2 = after.subrange(0, after.len() - 1);
        lemma_noop_declaration(entity, before, noop, a2);
        let lhs = before + seq![noop] + after;
        let rhs = before + after;
        assert(lhs.subrange(0, lhs.len() - 1) =~= before + seq![noop] + a2);
        assert(rhs.subrange(0, rhs.len() - 1) =~= before + a2);
        assert(lhs[lhs.len() - 1] == after[after.len() - 1]);
        assert(rhs[rhs.len() - 1] == after[after.len() - 1]);
    }
}

/// Position-validity law, parameter level: a successful scan means every
/// position parameter carried a recognized token.
pub proof fn lemma_scan_positions_valid(entity: Seq<char>, params: Seq<SpecParam>)
    requires
        spec_scan_params(entity, params) is Ok,
    ensures
        forall|j: int|
            0 <= j < params.len() && spec_is_position_param(#[trigger] params[j].name)
                ==> spec_is_front_token(params[j].value) || spec_is_back_token(params[j].value),
    decreases params.len(),
{
    lemma_param_literals();
    if params.len() > 0 {
        let p2 = params.subrange(0, params.len() - 1);
        assert(spec_scan_params(entity, p2) is Ok);
        lemma_scan_positions_valid(entity, p2);
        assert(forall|j: int| 0 <= j < p2.len() ==> params[j] == p2[j]);
    }
}

/// Position-invalidity law: resolution succeeds only when every `position`
/// parameter of every extension declaration carries a recognized token —
/// an invalid token is rejected at resolution time and never reaches
/// serialization.
pub proof fn lemma_positions_valid(entity: Seq<char>, decls: Seq<SpecRawDecl>)
    requires
        spec_resolve_decls(entity, decls) is Ok,
    ensures
        forall|i: int, j: int|
            0 <= i < decls.len() && (#[trigger] decls[i]).marker == "more"@ && 0 <= j
                < decls[i].params.len() && spec_is_position_param(
                #[trigger] decls[i].params[j].name,
            ) ==> spec_is_front_token(decls[i].params[j].value) || spec_is_back_token(
                decls[i].params[j].value,
            ),
    decreases decls.len(),
{
    if decls.len() > 0 {
        let d2 = decls.subrange(0, decls.len() - 1);
        assert(spec_resolve_decls(entity, d2) is Ok);
        lemma_positions_valid(entity, d2);
        assert(forall|i: int| 0 <= i < d2.len() ==> decls[i] == d2[i]);
        let d = decls[decls.len() - 1];
        if d.marker == "more"@ {
            assert(spec_scan_params(entity, d.params) is Ok);
            lemma_scan_positions_valid(entity, d.params);
        }
    }
}

/// Shape-invalidity law: resolution only ever succeeds for a record with
/// named fields; every other entity shape is rejected at resolution time.
pub proof fn lemma_shape_checked(entity: Seq<char>, shape: EntityShape, decls: Seq<SpecRawDecl>)
    requires
        spec_resolve(entity, shape, decls) is Ok,
    ensures
        shape == EntityShape::NamedFields,
{
    match shape {
        EntityShape::NamedFields => {},
        EntityShape::PositionalFields => {},
        EntityShape::NoFields => {},
        EntityShape::TaggedUnion => {},
        EntityShape::UntaggedUnion => {},
    }
}

} // verus!
