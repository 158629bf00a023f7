//! The static types of SGS values, their text, and association tables keyed by names.
use crate::text::str_eq;
use vstd::prelude::*;
use vstd::string::*;

verus! {

broadcast use vstd::seq::group_seq_axioms;

/// A static type.
#[derive(Debug, PartialEq)]
pub enum Type {
    Number,
    String,
    Void,
    Bool,
    Function { params: Vec<Type>, ret: Box<Type> },
    Array(Box<Type>),
    Struct(String),
    /// The type of an expression that could not be typed; it is compatible with everything.
    Unknown,
    /// The type of builtins such as `println`.
    Any,
}

/// The mathematical counterpart of [`Type`].
pub enum SType {
    Number,
    String,
    Void,
    Bool,
    Function { params: Seq<SType>, ret: Box<SType> },
    Array(Box<SType>),
    Struct(Seq<char>),
    Unknown,
    Any,
}

pub open spec fn view_types(s: Seq<Type>) -> Seq<SType>
    decreases s,
{
    Seq::new(s.len(), |i: int| if 0 <= i < s.len() { view_type(s[i]) } else { SType::Unknown })
}

pub open spec fn view_type(t: Type) -> SType
    decreases t,
{
    match t {
        Type::Number => SType::Number,
        Type::String => SType::String,
        Type::Void => SType::Void,
        Type::Bool => SType::Bool,
        Type::Function { params, ret } => SType::Function {
            params: view_types(params@),
            ret: Box::new(view_type(*ret)),
        },
        Type::Array(inner) => SType::Array(Box::new(view_type(*inner))),
        Type::Struct(n) => SType::Struct(n@),
        Type::Unknown => SType::Unknown,
        Type::Any => SType::Any,
    }
}

impl View for Type {
    type V = SType;

    open spec fn view(&self) -> SType {
        view_type(*self)
    }
}

/// The type named by a type annotation.
pub open spec fn type_of_name(s: Seq<char>) -> SType {
    if s == "number"@ || s == "float"@ {
        SType::Number
    } else if s == "string"@ {
        SType::String
    } else if s == "void"@ {
        SType::Void
    } else if s == "bool"@ {
        SType::Bool
    } else {
        SType::Struct(s)
    }
}

/// The text of a list of types, separated by `, `.
pub open spec fn types_text(s: Seq<SType>) -> Seq<char>
    decreases s,
{
    if s.len() == 0 {
        Seq::empty()
    } else if s.len() == 1 {
        type_text(s[0])
    } else {
        types_text(s.drop_last()) + ", "@ + type_text(s.last())
    }
}

/// How a type is written in messages.
pub open spec fn type_text(t: SType) -> Seq<char>
    decreases t,
{
    match t {
        SType::Number => "number"@,
        SType::String => "string"@,
        SType::Void => "void"@,
        SType::Bool => "bool"@,
        SType::Array(inner) => type_text(*inner) + "[]"@,
        SType::Unknown => "unknown"@,
        SType::Any => "any"@,
        SType::Struct(name) => name,
        SType::Function { params, ret } => "func("@ + types_text(params) + ") -> "@ + type_text(*ret),
    }
}

impl Type {
    /// The type named by a type annotation: `number` and `float` are numbers,
    /// `string`, `void` and `bool` are themselves, any other name is a struct.
    pub fn from_name(s: &str) -> (r: Type)
        ensures
            r@ == type_of_name(s@),
    {
        if str_eq(s, "number") || str_eq(s, "float") {
            Type::Number
        } else if str_eq(s, "string") {
            Type::String
        } else if str_eq(s, "void") {
            Type::Void
        } else if str_eq(s, "bool") {
            Type::Bool
        } else {
            Type::Struct(s.to_owned())
        }
    }

    /// Whether two types are the same.
    #[verifier::loop_isolation(false)]
    pub fn same(&self, other: &Type) -> (r: bool)
        ensures
            r == (self@ == other@),
        decreases self,
    {
        match (self, other) {
            (Type::Number, Type::Number) => true,
            (Type::String, Type::String) => true,
            (Type::Void, Type::Void) => true,
            (Type::Bool, Type::Bool) => true,
            (Type::Unknown, Type::Unknown) => true,
            (Type::Any, Type::Any) => true,
            (Type::Struct(a), Type::Struct(b)) => *a == *b,
            (Type::Array(a), Type::Array(b)) => {
                let r = a.same(b);
                proof {
                    if r {
                        assert(self@ == other@);
                    }
                }
                r
            },
            (Type::Function { params: pa, ret: ra }, Type::Function { params: pb, ret: rb }) => {
                if pa.len() != pb.len() {
                    proof {
                        assert(view_types(pa@).len() != view_types(pb@).len());
                    }
                    return false;
                }
                let mut i: usize = 0;
                while i < pa.len()
                    invariant
                        pa.len() == pb.len(),
                        0 <= i <= pa.len(),
                        forall|j: int| 0 <= j < i ==> view_type(pa@[j]) == view_type(pb@[j]),
                    decreases pa.len() - i,
                {
                    assert(decreases_to!(pa => pa@)); assert(decreases_to!(pa@ => pa@[i as int]));
                    if !pa[i].same(&pb[i]) {
                        proof {
                            assert(view_types(pa@)[i as int] != view_types(pb@)[i as int]);
                        }
                        return false;
                    }
                    i = i + 1;
                }
                assert(view_types(pa@) =~= view_types(pb@));
                let r = ra.same(rb);
                proof {
                    if r {
                        assert(self@ == other@);
                    }
                }
                r
            },
            _ => false,
        }
    }

    /// A copy of this type.
    #[verifier::loop_isolation(false)]
    pub fn copy(&self) -> (r: Type)
        ensures
            r@ == self@,
        decreases self,
    {
        match self {
            Type::Number => Type::Number,
            Type::String => Type::String,
            Type::Void => Type::Void,
            Type::Bool => Type::Bool,
            Type::Unknown => Type::Unknown,
            Type::Any => Type::Any,
            Type::Struct(a) => Type::Struct(a.clone()),
            Type::Array(a) => Type::Array(Box::new(a.copy())),
            Type::Function { params, ret } => {
                let mut ps: Vec<Type> = Vec::new();
                let mut i: usize = 0;
                while i < params.len()
                    invariant
                        0 <= i <= params.len(),
                        ps@.len() == i,
                        forall|j: int| 0 <= j < i ==> view_type(ps@[j]) == view_type(params@[j]),
                    decreases params.len() - i,
                {
                    assert(decreases_to!(params => params@)); assert(decreases_to!(params@ => params@[i as int]));
                    let c = params[i].copy();
                    ps.push(c);
                    i = i + 1;
                }
                assert(view_types(ps@) =~= view_types(params@));
                Type::Function { params: ps, ret: Box::new(ret.copy()) }
            },
        }
    }

    /// Appends the text of this type.
    #[verifier::loop_isolation(false)]
    pub fn push_text(&self, s: &mut String)
        ensures
            final(s)@ == old(s)@ + type_text(self@),
        decreases self,
    {
        match self {
            Type::Number => s.append("number"),
            Type::String => s.append("string"),
            Type::Void => s.append("void"),
            Type::Bool => s.append("bool"),
            Type::Unknown => s.append("unknown"),
            Type::Any => s.append("any"),
            Type::Struct(n) => s.append(n.as_str()),
            Type::Array(inner) => {
                inner.push_text(s);
                s.append("[]");
                assert(final(s)@ =~= old(s)@ + type_text(self@));
            },
            Type::Function { params, ret } => {
                s.append("func(");
                let ghost start = s@;
                let mut i: usize = 0;
                while i < params.len()
                    invariant
                        0 <= i <= params.len(),
                        s@ == start + types_text(view_types(params@).take(i as int)),
                    decreases params.len() - i,
                {
                    assert(decreases_to!(params => params@)); assert(decreases_to!(params@ => params@[i as int]));
                    let ghost before = s@;
                    if i > 0 {
                        s.append(", ");
                    }
                    params[i].push_text(s);
                    proof {
                        let t = view_types(params@);
                        assert(t.take(i + 1).drop_last() =~= t.take(i as int));
                        assert(t.take(i + 1).last() == view_type(params@[i as int]));
                        if i == 0 {
                            assert(t.take(0) =~= Seq::<SType>::empty());
                        }
                    }
                    i = i + 1;
                }
                assert(view_types(params@).take(params.len() as int) =~= view_types(params@));
                s.append(") -> ");
                ret.push_text(s);
                assert(final(s)@ =~= old(s)@ + type_text(self@));
            },
        }
    }

    /// The text of this type, as messages write it.
    pub fn to_string(&self) -> (r: String)
        ensures
            r@ == type_text(self@),
    {
        let mut s = String::new();
        self.push_text(&mut s);
        assert(s@ =~= type_text(self@));
        s
    }
}

// ---------------------------------------------------------------------------
// Association tables keyed by names
// ---------------------------------------------------------------------------

/// The value bound to `k` in an association list: that of its last entry.
pub open spec fn lookup<V>(s: Seq<(Seq<char>, V)>, k: Seq<char>) -> Option<V>
    decreases s.len(),
{
    if s.len() == 0 {
        None
    } else if s.last().0 == k {
        Some(s.last().1)
    } else {
        lookup(s.drop_last(), k)
    }
}

/// `s` after binding `k` to `v`: the last entry for `k` is replaced, or a new entry is appended.
pub open spec fn bind<V>(s: Seq<(Seq<char>, V)>, k: Seq<char>, v: V) -> Seq<(Seq<char>, V)> {
    match last_index(s, k) {
        Some(i) => s.update(i, (k, v)),
        None => s.push((k, v)),
    }
}

/// The index of the last entry for `k`.
pub open spec fn last_index<V>(s: Seq<(Seq<char>, V)>, k: Seq<char>) -> Option<int>
    decreases s.len(),
{
    if s.len() == 0 {
        None
    } else if s.last().0 == k {
        Some(s.len() - 1)
    } else {
        last_index(s.drop_last(), k)
    }
}

pub proof fn lemma_last_index<V>(s: Seq<(Seq<char>, V)>, k: Seq<char>)
    ensures
        match last_index(s, k) {
            Some(i) => 0 <= i < s.len() && s[i].0 == k && lookup(s, k) == Some(s[i].1) && (forall|j: int|
                i < j < s.len() ==> s[j].0 != k),
            None => lookup(s, k) is None && (forall|j: int| 0 <= j < s.len() ==> s[j].0 != k),
        },
    decreases s.len(),
{
    if s.len() > 0 && s.last().0 != k {
        lemma_last_index(s.drop_last(), k);
        let t = s.drop_last();
        match last_index(t, k) {
            Some(i) => {
                assert forall|j: int| i < j < s.len() implies s[j].0 != k by {
                    if j < s.len() - 1 {
                        assert(s[j] == t[j]);
                    }
                };
            },
            None => {
                assert forall|j: int| 0 <= j < s.len() implies s[j].0 != k by {
                    if j < s.len() - 1 {
                        assert(s[j] == t[j]);
                    }
                };
            },
        }
    }
}

/// Binding then looking up gives back the bound value; other names are untouched.
pub proof fn lemma_lookup_bind<V>(s: Seq<(Seq<char>, V)>, k: Seq<char>, v: V, k2: Seq<char>)
    ensures
        lookup(bind(s, k, v), k2) == if k2 == k {
            Some(v)
        } else {
            lookup(s, k2)
        },
    decreases s.len(),
{
    lemma_last_index(s, k);
    match last_index(s, k) {
        Some(i) => {
            lemma_lookup_update(s, i, k, v, k2);
        },
        None => {
            let t = s.push((k, v));
            assert(t.drop_last() =~= s);
        },
    }
}

proof fn lemma_lookup_update<V>(s: Seq<(Seq<char>, V)>, i: int, k: Seq<char>, v: V, k2: Seq<char>)
    requires
        0 <= i < s.len(),
        s[i].0 == k,
        forall|j: int| i < j < s.len() ==> s[j].0 != k,
    ensures
        lookup(s.update(i, (k, v)), k2) == if k2 == k {
            Some(v)
        } else {
            lookup(s, k2)
        },
    decreases s.len(),
{
    let t = s.update(i, (k, v));
    if i == s.len() - 1 {
        assert(t.drop_last() =~= s.drop_last());
    } else {
        assert(t.drop_last() =~= s.drop_last().update(i, (k, v)));
        lemma_lookup_update(s.drop_last(), i, k, v, k2);
    }
}

/// The bindings of a table, each name with its value's view.
pub open spec fn view_entries<V: View>(s: Seq<(String, V)>) -> Seq<(Seq<char>, V::V)> {
    Seq::new(s.len(), |i: int| (s[i].0@, s[i].1@))
}

/// A table of bindings from names to values. A name may be bound again; its
/// binding is then replaced in place.
#[derive(Debug)]
pub struct Table<V> {
    pub entries: Vec<(String, V)>,
}

impl<V: View> View for Table<V> {
    type V = Seq<(Seq<char>, V::V)>;

    open spec fn view(&self) -> Seq<(Seq<char>, V::V)> {
        view_entries(self.entries@)
    }
}

impl<V: View> Table<V> {
    pub fn new() -> (r: Self)
        ensures
            r@ == Seq::<(Seq<char>, V::V)>::empty(),
    {
        let r = Table { entries: Vec::new() };
        assert(r@ =~= Seq::<(Seq<char>, V::V)>::empty());
        r
    }

    /// The index of the last entry for `k`.
    pub fn find(&self, k: &str) -> (r: Option<usize>)
        ensures
            match r {
                Some(i) => last_index(self@, k@) == Some(i as int),
                None => last_index(self@, k@) is None,
            },
    {
        let mut i = self.entries.len();
        assert(self@.take(i as int) =~= self@);
        while i > 0
            invariant
                0 <= i <= self.entries@.len(),
                last_index(self@, k@) == last_index(self@.take(i as int), k@),
            decreases i,
        {
            let ghost t = self@.take(i as int);
            if str_eq(self.entries[i - 1].0.as_str(), k) {
                return Some(i - 1);
            }
            assert(t.drop_last() =~= self@.take(i - 1));
            i = i - 1;
        }
        None
    }

    /// The value bound to `k`.
    pub fn get(&self, k: &str) -> (r: Option<&V>)
        ensures
            match r {
                Some(v) => lookup(self@, k@) == Some(v@),
                None => lookup(self@, k@) is None,
            },
    {
        proof {
            lemma_last_index(self@, k@);
        }
        match self.find(k) {
            Some(i) => {
                assert(self@[i as int] == (self.entries@[i as int].0@, self.entries@[i as int].1@));
                let r = &self.entries[i].1;
                assert(lookup(self@, k@) == Some(self@[i as int].1));
                assert(r@ == self@[i as int].1);
                Some(r)
            },
            None => None,
        }
    }

    /// Binds `k` to `v`.
    pub fn insert(&mut self, k: String, v: V)
        ensures
            final(self)@ == bind(old(self)@, k@, v@),
    {
        proof {
            lemma_last_index(self@, k@);
        }
        match self.find(k.as_str()) {
            Some(i) => {
                let ghost kv = k@;
                let ghost vv = v@;
                self.entries.set(i, (k, v));
                assert(self@ =~= old(self)@.update(i as int, (kv, vv)));
            },
            None => {
                let ghost kv = k@;
                let ghost vv = v@;
                self.entries.push((k, v));
                assert(self@ =~= old(self)@.push((kv, vv)));
            },
        }
    }
}

pub proof fn lemma_view_type(t: Type)
    ensures
        view_type(t) == match t {
            Type::Number => SType::Number,
            Type::String => SType::String,
            Type::Void => SType::Void,
            Type::Bool => SType::Bool,
            Type::Function { params, ret } => SType::Function {
                params: view_types(params@),
                ret: Box::new(view_type(*ret)),
            },
            Type::Array(inner) => SType::Array(Box::new(view_type(*inner))),
            Type::Struct(n) => SType::Struct(n@),
            Type::Unknown => SType::Unknown,
            Type::Any => SType::Any,
        },
{
    match t {
        Type::Function { params, ret } => {
            assert(decreases_to!(t => params));
            assert(decreases_to!(params => params@));
        },
        _ => {},
    }
}

pub proof fn lemma_view_types_at(s: Seq<Type>, i: int)
    requires
        0 <= i < s.len(),
    ensures
        view_types(s).len() == s.len(),
        view_types(s)[i] == view_type(s[i]),
{
    assert(decreases_to!(s => s[i]));
}

impl Clone for Type {
    /// A copy with the same view.
    fn clone(&self) -> (r: Self)
        ensures
            r@ == self@,
    {
        self.copy()
    }
}

} // verus!
