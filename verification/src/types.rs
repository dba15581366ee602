//! The types that the compiler resolves source types to, and their layout.
use vstd::prelude::*;
use vstd::string::StringExecFns;
use indexmap::IndexMap;
use crate::semantics::field_index;

verus! {

/// A resolved type. A struct keeps its name and its fields in the order of
/// their definition.
#[derive(Debug)]
pub enum RawType {
    Int,
    Unit,
    FunPtr(Vec<RawType>, Box<RawType>),
    Struct(String, Fields),
}

/// The fields of a struct type: each name with its type, in the order of
/// definition; no name occurs twice. Held in an `IndexMap`.
#[verifier::external_body]
#[derive(Debug)]
pub struct Fields {
    map: IndexMap<String, RawType>,
}

/// What a `Fields` holds: each field name with the view of its type, in
/// order.
pub uninterp spec fn fields_view(f: Fields) -> Seq<(Seq<char>, RawTypeV)>;

impl Fields {
    /// `IndexMap::new`: no field.
    #[verifier::external_body]
    pub(crate) fn new() -> (r: Fields)
        ensures
            fields_view(r) == Seq::<(Seq<char>, RawTypeV)>::empty(),
    {
        Fields { map: IndexMap::new() }
    }

    /// `IndexMap::len`: the number of fields.
    #[verifier::external_body]
    pub(crate) fn len(&self) -> (r: usize)
        ensures
            r == fields_view(*self).len(),
    {
        self.map.len()
    }

    /// `IndexMap::contains_key`: whether a field has this name.
    #[verifier::external_body]
    pub(crate) fn contains(&self, name: &str) -> (r: bool)
        ensures
            r == (exists|i: int|
                0 <= i < fields_view(*self).len() && (#[trigger] fields_view(*self)[i]).0 == name@),
    {
        self.map.contains_key(name)
    }

    /// `IndexMap::insert`: a new name goes last; a name already present keeps
    /// its place and gets the new type.
    #[verifier::external_body]
    pub(crate) fn insert(&mut self, name: String, ty: RawType)
        ensures
            (forall|i: int|
                0 <= i < fields_view(*old(self)).len() ==> (#[trigger] fields_view(*old(self))[i]).0
                    != name@) ==> fields_view(*final(self)) == fields_view(*old(self)).push(
                (name@, rt_v(ty)),
            ),
            forall|i: int|
                0 <= i < fields_view(*old(self)).len() && (#[trigger] fields_view(*old(self))[i]).0
                    == name@ && (forall|j: int|
                    0 <= j < i ==> fields_view(*old(self))[j].0 != name@) ==> fields_view(
                    *final(self),
                ) == fields_view(*old(self)).update(i, (name@, rt_v(ty))),
    {
        self.map.insert(name, ty);
    }

    /// `IndexMap::get_full`: the position and type of the field with this
    /// name. Names are unique, so no field before it has the name.
    #[verifier::external_body]
    pub(crate) fn get_full(&self, name: &str) -> (r: Option<(usize, &RawType)>)
        ensures
            match r {
                Some((i, t)) => i < fields_view(*self).len() && fields_view(*self)[i as int].0
                    == name@ && rt_v(*t) == fields_view(*self)[i as int].1 && forall|j: int|
                    0 <= j < i ==> (#[trigger] fields_view(*self)[j]).0 != name@,
                None => forall|j: int|
                    0 <= j < fields_view(*self).len() ==> (#[trigger] fields_view(*self)[j]).0
                        != name@,
            },
    {
        match self.map.get_full(name) {
            Some((i, _, t)) => Some((i, t)),
            None => None,
        }
    }

    /// `IndexMap::get_index`: the name and type of the field at a position.
    /// Names are unique, so no other field has that name.
    #[verifier::external_body]
    pub(crate) fn get_index(&self, i: usize) -> (r: Option<(&String, &RawType)>)
        ensures
            i < fields_view(*self).len() ==> (r matches Some((n, t)) && n@ == fields_view(
                *self,
            )[i as int].0 && rt_v(*t) == fields_view(*self)[i as int].1 && forall|j: int|
                0 <= j < fields_view(*self).len() && j != i ==> (#[trigger] fields_view(
                    *self,
                )[j]).0 != n@),
            i >= fields_view(*self).len() ==> r is None,
    {
        self.map.get_index(i)
    }
}

/// The model of a `RawType`.
pub enum RawTypeV {
    Int,
    Unit,
    FunPtr(Seq<RawTypeV>, Box<RawTypeV>),
    Struct(Seq<char>, Seq<(Seq<char>, RawTypeV)>),
}

/// The model of a resolved type.
pub open spec fn rt_v(t: RawType) -> RawTypeV
    decreases t,
{
    match t {
        RawType::Int => RawTypeV::Int,
        RawType::Unit => RawTypeV::Unit,
        RawType::FunPtr(ps, r) => RawTypeV::FunPtr(rts_v(ps@), Box::new(rt_v(*r))),
        RawType::Struct(n, fs) => RawTypeV::Struct(n@, fields_view(fs)),
    }
}

pub open spec fn rts_v(ts: Seq<RawType>) -> Seq<RawTypeV>
    decreases ts,
{
    Seq::new(ts.len(), |i: int| if 0 <= i < ts.len() { rt_v(ts[i]) } else { RawTypeV::Int })
}

/// How deeply a type nests: each part of a type is shallower than the type.
pub open spec fn depth(t: RawTypeV) -> nat
    decreases t,
{
    match t {
        RawTypeV::Int => 0,
        RawTypeV::Unit => 0,
        RawTypeV::FunPtr(ps, r) => 1 + depth_all(ps) + depth(*r),
        RawTypeV::Struct(_, fs) => 1 + depth_fields(fs),
    }
}

pub open spec fn depth_all(ts: Seq<RawTypeV>) -> nat
    decreases ts,
{
    if ts.len() == 0 {
        0
    } else {
        depth_all(ts.drop_last()) + depth(ts.last())
    }
}

pub open spec fn depth_fields(fs: Seq<(Seq<char>, RawTypeV)>) -> nat
    decreases fs,
{
    if fs.len() == 0 {
        0
    } else {
        proof {
            assert(decreases_to!(fs => fs.last()));
        }
        depth_fields(fs.drop_last()) + depth(fs.last().1)
    }
}

proof fn lemma_depth_all(ts: Seq<RawTypeV>, i: int)
    requires
        0 <= i < ts.len(),
    ensures
        depth(ts[i]) <= depth_all(ts),
    decreases ts.len(),
{
    if i < ts.len() - 1 {
        lemma_depth_all(ts.drop_last(), i);
    }
}

proof fn lemma_depth_fields(fs: Seq<(Seq<char>, RawTypeV)>, i: int)
    requires
        0 <= i < fs.len(),
    ensures
        depth(fs[i].1) <= depth_fields(fs),
    decreases fs.len(),
{
    if i < fs.len() - 1 {
        lemma_depth_fields(fs.drop_last(), i);
    }
}

/// The type of a low-level value.
#[derive(Debug)]
pub enum LlType {
    I64,
    EmptyStruct,
    Ptr,
    Struct(Vec<LlType>),
}

/// The model of an `LlType`.
pub enum LlTypeV {
    I64,
    EmptyStruct,
    Ptr,
    Struct(Seq<LlTypeV>),
}

/// The model of a low-level type.
pub open spec fn ll_v(t: LlType) -> LlTypeV
    decreases t,
{
    match t {
        LlType::I64 => LlTypeV::I64,
        LlType::EmptyStruct => LlTypeV::EmptyStruct,
        LlType::Ptr => LlTypeV::Ptr,
        LlType::Struct(fs) => LlTypeV::Struct(lls_v(fs@)),
    }
}

pub open spec fn lls_v(ts: Seq<LlType>) -> Seq<LlTypeV>
    decreases ts,
{
    Seq::new(ts.len(), |i: int| if 0 <= i < ts.len() { ll_v(ts[i]) } else { LlTypeV::I64 })
}

/// The layout of a resolved type: integers are 64 bits wide, unit is an empty
/// struct, functions are pointers, and a struct lays its fields out in order.
pub open spec fn ll_of(t: RawTypeV) -> LlTypeV
    decreases t,
{
    match t {
        RawTypeV::Int => LlTypeV::I64,
        RawTypeV::Unit => LlTypeV::EmptyStruct,
        RawTypeV::FunPtr(_, _) => LlTypeV::Ptr,
        RawTypeV::Struct(_, fs) => LlTypeV::Struct(ll_of_fields(fs)),
    }
}

/// The layouts of the fields of a struct, in order.
pub open spec fn ll_of_fields(fs: Seq<(Seq<char>, RawTypeV)>) -> Seq<LlTypeV>
    decreases fs,
{
    Seq::new(fs.len(), |i: int| if 0 <= i < fs.len() { ll_of(fs[i].1) } else { LlTypeV::I64 })
}

/// The layouts of several types.
pub open spec fn ll_of_all(ts: Seq<RawTypeV>) -> Seq<LlTypeV> {
    Seq::new(ts.len(), |i: int| ll_of(ts[i]))
}

/// How a resolved type is written: `Int`, `Unit`, `fun(P1, P2): R`, or the
/// name of a struct.
pub open spec fn type_text(t: RawTypeV) -> Seq<char>
    decreases t,
{
    match t {
        RawTypeV::Int => "Int"@,
        RawTypeV::Unit => "Unit"@,
        RawTypeV::FunPtr(ps, r) => "fun("@ + type_list_text(ps) + "): "@ + type_text(*r),
        RawTypeV::Struct(n, _) => n,
    }
}

/// The types of `ts` written one after the other, separated by ", ".
pub open spec fn type_list_text(ts: Seq<RawTypeV>) -> Seq<char>
    decreases ts,
{
    if ts.len() == 0 {
        seq![]
    } else if ts.len() == 1 {
        type_text(ts[0])
    } else {
        type_list_text(ts.drop_last()) + ", "@ + type_text(ts.last())
    }
}

/// Whether two types are the same. Struct types are the same when they
/// have one name and as many fields, and each field of the first is a field
/// of the second, found by name, of the same type: fields compare as maps,
/// whatever their order.
pub open spec fn same_type(a: RawTypeV, b: RawTypeV) -> bool
    decreases a,
{
    match a {
        RawTypeV::Int => b is Int,
        RawTypeV::Unit => b is Unit,
        RawTypeV::FunPtr(ps, r) => match b {
            RawTypeV::FunPtr(qs, s) => same_types(ps, qs) && same_type(*r, *s),
            _ => false,
        },
        RawTypeV::Struct(n, fs) => match b {
            RawTypeV::Struct(m, gs) => n == m && fs.len() == gs.len() && fields_in(fs, gs),
            _ => false,
        },
    }
}

/// The types of `ps` and `qs` are pairwise the same.
pub open spec fn same_types(ps: Seq<RawTypeV>, qs: Seq<RawTypeV>) -> bool
    decreases ps,
{
    if ps.len() == 0 {
        qs.len() == 0
    } else {
        qs.len() == ps.len() && same_types(ps.drop_last(), qs.drop_last()) && same_type(
            ps.last(),
            qs.last(),
        )
    }
}

/// Each field of `fs` is a field of `gs`, found by its name, of the same
/// type.
pub open spec fn fields_in(fs: Seq<(Seq<char>, RawTypeV)>, gs: Seq<(Seq<char>, RawTypeV)>) -> bool
    decreases fs,
{
    if fs.len() == 0 {
        true
    } else {
        proof {
            assert(decreases_to!(fs => fs.last()));
        }
        fields_in(fs.drop_last(), gs) && match field_index(gs, fs.last().0) {
            Some(j) => same_type(fs.last().1, gs[j].1),
            None => false,
        }
    }
}

proof fn lemma_same_types_len(ps: Seq<RawTypeV>, qs: Seq<RawTypeV>)
    ensures
        same_types(ps, qs) ==> ps.len() == qs.len(),
{
}

proof fn lemma_same_types_at(ps: Seq<RawTypeV>, qs: Seq<RawTypeV>, i: int)
    requires
        0 <= i < ps.len(),
        ps.len() == qs.len(),
        same_types(ps, qs) || (same_types(ps.take(i), qs.take(i)) && !same_type(ps[i], qs[i])),
    ensures
        same_types(ps, qs) ==> same_type(ps[i], qs[i]),
    decreases ps.len(),
{
    if same_types(ps, qs) && i < ps.len() - 1 {
        assert(ps.drop_last()[i] == ps[i]);
        assert(qs.drop_last()[i] == qs[i]);
        lemma_same_types_at(ps.drop_last(), qs.drop_last(), i);
    }
}

proof fn lemma_fields_in_at(fs: Seq<(Seq<char>, RawTypeV)>, gs: Seq<(Seq<char>, RawTypeV)>, i: int)
    requires
        0 <= i < fs.len(),
    ensures
        fields_in(fs, gs) ==> match field_index(gs, fs[i].0) {
            Some(j) => same_type(fs[i].1, gs[j].1),
            None => false,
        },
    decreases fs.len(),
{
    if fields_in(fs, gs) && i < fs.len() - 1 {
        assert(fs.drop_last()[i] == fs[i]);
        lemma_fields_in_at(fs.drop_last(), gs, i);
    }
}

/// A name found at `j`, with no earlier field of that name, is at the index
/// that `field_index` gives; a name that no field has is not found.
pub(crate) proof fn lemma_field_index_first(fs: Seq<(Seq<char>, RawTypeV)>, name: Seq<char>, j: int)
    requires
        0 <= j <= fs.len(),
        j < fs.len() ==> fs[j].0 == name,
        forall|k: int| 0 <= k < j ==> (#[trigger] fs[k]).0 != name,
        j == fs.len() ==> forall|k: int| 0 <= k < fs.len() ==> (#[trigger] fs[k]).0 != name,
    ensures
        j < fs.len() ==> field_index(fs, name) == Some(j),
        j == fs.len() ==> field_index(fs, name) is None,
    decreases j,
{
    if fs.len() > 0 {
        let rest = fs.drop_first();
        if j > 0 {
            assert forall|k: int| 0 <= k < j - 1 implies (#[trigger] rest[k]).0 != name by {
                assert(rest[k] == fs[k + 1]);
            }
            if j == fs.len() {
                assert forall|k: int| 0 <= k < rest.len() implies (#[trigger] rest[k]).0 != name by {
                    assert(rest[k] == fs[k + 1]);
                }
            }
            lemma_field_index_first(rest, name, j - 1);
        }
    }
}

impl RawType {
    /// How this type is written.
    #[verifier::loop_isolation(false)]
    pub fn to_string(&self) -> (r: String)
        ensures
            r@ == type_text(rt_v(*self)),
        decreases depth(rt_v(*self)),
    {
        match self {
            RawType::Int => "Int".to_owned(),
            RawType::Unit => "Unit".to_owned(),
            RawType::FunPtr(ps, ret) => {
                let ghost ts = rts_v(ps@);
                let mut out = "fun(".to_owned();
                let mut i: usize = 0;
                while i < ps.len()
                    invariant
                        i <= ps@.len(),
                        out@ == "fun("@ + type_list_text(ts.take(i as int)),
                    decreases ps@.len() - i,
                {
                    proof {
                        lemma_depth_all(ts, i as int);
                    }
                    let piece = ps[i].to_string();
                    assert(ts.take(i + 1).drop_last() =~= ts.take(i as int));
                    if i > 0 {
                        out.append(", ");
                    } else {
                        assert(ts.take(i as int) =~= Seq::<RawTypeV>::empty());
                    }
                    out.append(piece.as_str());
                    i = i + 1;
                }
                assert(ts.take(ps@.len() as int) =~= ts);
                out.append("): ");
                let last = ret.to_string();
                out.append(last.as_str());
                out
            },
            RawType::Struct(n, _) => n.clone(),
        }
    }

    /// The layout of this type.
    #[verifier::loop_isolation(false)]
    pub fn llvm_type(&self) -> (r: LlType)
        ensures
            ll_v(r) == ll_of(rt_v(*self)),
        decreases depth(rt_v(*self)),
    {
        match self {
            RawType::Int => LlType::I64,
            RawType::Unit => LlType::EmptyStruct,
            RawType::FunPtr(_, _) => LlType::Ptr,
            RawType::Struct(_, fs) => {
                let ghost fv = fields_view(*fs);
                let n = fs.len();
                let mut out: Vec<LlType> = Vec::new();
                let mut i: usize = 0;
                while i < n
                    invariant
                        i <= n,
                        n == fv.len(),
                        out@.len() == i,
                        forall|j: int| 0 <= j < i ==> ll_v(#[trigger] out@[j]) == ll_of(fv[j].1),
                    decreases n - i,
                {
                    if let Some((_, t)) = fs.get_index(i) {
                        proof {
                            lemma_depth_fields(fv, i as int);
                        }
                        out.push(t.llvm_type());
                    }
                    i = i + 1;
                }
                assert(lls_v(out@) =~= ll_of_fields(fv));
                LlType::Struct(out)
            },
        }
    }

    /// A copy of this type.
    #[verifier::loop_isolation(false)]
    pub fn duplicate(&self) -> (r: RawType)
        ensures
            rt_v(r) == rt_v(*self),
        decreases depth(rt_v(*self)),
    {
        match self {
            RawType::Int => RawType::Int,
            RawType::Unit => RawType::Unit,
            RawType::FunPtr(ps, ret) => {
                let ghost ts = rts_v(ps@);
                let mut ps2: Vec<RawType> = Vec::new();
                let mut i: usize = 0;
                while i < ps.len()
                    invariant
                        i <= ps@.len(),
                        ps2@.len() == i,
                        forall|j: int| 0 <= j < i ==> rt_v(#[trigger] ps2@[j]) == rt_v(ps@[j]),
                    decreases ps@.len() - i,
                {
                    proof {
                        lemma_depth_all(ts, i as int);
                    }
                    ps2.push(ps[i].duplicate());
                    i = i + 1;
                }
                assert(rts_v(ps2@) =~= rts_v(ps@));
                RawType::FunPtr(ps2, Box::new((**ret).duplicate()))
            },
            RawType::Struct(name, fs) => {
                let ghost fv = fields_view(*fs);
                let n = fs.len();
                let mut fs2 = Fields::new();
                let mut i: usize = 0;
                while i < n
                    invariant
                        i <= n,
                        n == fv.len(),
                        fields_view(fs2) == fv.take(i as int),
                    decreases n - i,
                {
                    if let Some((k, t)) = fs.get_index(i) {
                        proof {
                            lemma_depth_fields(fv, i as int);
                        }
                        let t2 = t.duplicate();
                        assert forall|j: int|
                            0 <= j < fields_view(fs2).len() implies (#[trigger] fields_view(
                            fs2,
                        )[j]).0 != k@ by {
                            assert(fields_view(fs2)[j] == fv[j]);
                        }
                        fs2.insert(k.clone(), t2);
                        assert(fields_view(fs2) =~= fv.take(i + 1));
                    }
                    i = i + 1;
                }
                assert(fv.take(n as int) =~= fv);
                RawType::Struct(name.clone(), fs2)
            },
        }
    }

    /// Whether two types are the same: two struct types are when they have
    /// one name and the same fields, each name with the same type, in
    /// whatever order.
    #[verifier::loop_isolation(false)]
    pub fn same(&self, other: &RawType) -> (r: bool)
        ensures
            r == same_type(rt_v(*self), rt_v(*other)),
        decreases depth(rt_v(*self)),
    {
        match self {
            RawType::Int => match other {
                RawType::Int => true,
                _ => false,
            },
            RawType::Unit => match other {
                RawType::Unit => true,
                _ => false,
            },
            RawType::FunPtr(ps1, r1) => {
                let (ps2, r2) = match other {
                    RawType::FunPtr(ps2, r2) => (ps2, r2),
                    _ => return false,
                };
                let ghost ts = rts_v(ps1@);
                let ghost us = rts_v(ps2@);
                if ps1.len() != ps2.len() {
                    proof {
                        lemma_same_types_len(ts, us);
                    }
                    return false;
                }
                let mut i: usize = 0;
                assert(ts.take(0) =~= Seq::<RawTypeV>::empty());
                assert(us.take(0) =~= Seq::<RawTypeV>::empty());
                while i < ps1.len()
                    invariant
                        i <= ps1@.len(),
                        ps1@.len() == ps2@.len(),
                        ts.len() == us.len(),
                        same_types(ts.take(i as int), us.take(i as int)),
                    decreases ps1@.len() - i,
                {
                    proof {
                        lemma_depth_all(ts, i as int);
                    }
                    assert(ts.take(i + 1).drop_last() =~= ts.take(i as int));
                    assert(us.take(i + 1).drop_last() =~= us.take(i as int));
                    if !ps1[i].same(&ps2[i]) {
                        proof {
                            lemma_same_types_at(ts, us, i as int);
                        }
                        return false;
                    }
                    i = i + 1;
                }
                assert(ts.take(ps1@.len() as int) =~= ts);
                assert(us.take(ps1@.len() as int) =~= us);
                (**r1).same(&**r2)
            },
            RawType::Struct(n1, fs1) => {
                let (n2, fs2) = match other {
                    RawType::Struct(n2, fs2) => (n2, fs2),
                    _ => return false,
                };
                let same_name = *n1 == *n2;
                if !same_name {
                    return false;
                }
                let ghost fv1 = fields_view(*fs1);
                let ghost fv2 = fields_view(*fs2);
                let n = fs1.len();
                if n != fs2.len() {
                    return false;
                }
                let mut i: usize = 0;
                assert(fv1.take(0) =~= Seq::<(Seq<char>, RawTypeV)>::empty());
                while i < n
                    invariant
                        i <= n,
                        n == fv1.len(),
                        n == fv2.len(),
                        fields_in(fv1.take(i as int), fv2),
                    decreases n - i,
                {
                    assert(fv1.take(i + 1).drop_last() =~= fv1.take(i as int));
                    assert(fv1.take(i + 1).last() == fv1[i as int]);
                    if let Some((k1, t1)) = fs1.get_index(i) {
                        proof {
                            lemma_depth_fields(fv1, i as int);
                        }
                        match fs2.get_full(k1.as_str()) {
                            Some((j, t2)) => {
                                proof {
                                    lemma_field_index_first(fv2, k1@, j as int);
                                }
                                if !t1.same(t2) {
                                    proof {
                                        lemma_fields_in_at(fv1, fv2, i as int);
                                    }
                                    return false;
                                }
                            },
                            None => {
                                proof {
                                    lemma_field_index_first(fv2, k1@, fv2.len() as int);
                                    lemma_fields_in_at(fv1, fv2, i as int);
                                }
                                return false;
                            },
                        }
                    }
                    i = i + 1;
                }
                assert(fv1.take(n as int) =~= fv1);
                true
            },
        }
    }
}

/// Copies of all the types of `ts`.
pub fn duplicate_all(ts: &Vec<RawType>) -> (r: Vec<RawType>)
    ensures
        rts_v(r@) == rts_v(ts@),
{
    let mut out: Vec<RawType> = Vec::new();
    let mut i: usize = 0;
    while i < ts.len()
        invariant
            i <= ts@.len(),
            out@.len() == i,
            forall|j: int| 0 <= j < i ==> rt_v(#[trigger] out@[j]) == rt_v(ts@[j]),
        decreases ts@.len() - i,
    {
        out.push(ts[i].duplicate());
        i = i + 1;
    }
    assert(rts_v(out@) =~= rts_v(ts@));
    out
}

} // verus!
