use vstd::prelude::*;

use crate::ast::Point;

verus! {

/// What a `Place` stands for: its label, row and column.
pub type PlaceView = (Seq<char>, usize, usize);

/// Identity of a binding or expression site: a label and the source position it came from.
#[derive(Debug, Clone, PartialEq, Eq, Hash)]
pub struct Place {
    pub name: String,
    pub row: usize,
    pub column: usize,
}

impl View for Place {
    type V = PlaceView;

    open spec fn view(&self) -> PlaceView {
        (self.name@, self.row, self.column)
    }
}

impl Place {
    pub fn new(name: &str, row: usize, column: usize) -> (r: Place)
        ensures
            r@ == (name@, row, column),
    {
        Place { name: name.to_string(), row, column }
    }

    /// The place of an expression at a source position.
    pub fn exp_from_ts_point(point: Point) -> (r: Place)
        ensures
            r@ == ("exp"@, point.row, point.column),
    {
        Place::new("exp", point.row, point.column)
    }

    /// The place of a label at a source position.
    pub fn from_ts_point(name: &str, point: Point) -> (r: Place)
        ensures
            r@ == (name@, point.row, point.column),
    {
        Place::new(name, point.row, point.column)
    }

    /// Two places are the same site when label, row and column all agree.
    pub fn same(&self, other: &Place) -> (r: bool)
        ensures
            r == (self@ == other@),
    {
        self.row == other.row && self.column == other.column && self.name == other.name
    }

    pub fn duplicate(&self) -> (r: Place)
        ensures
            r@ == self@,
    {
        Place { name: self.name.clone(), row: self.row, column: self.column }
    }
}

/// A type value: what the checker knows of a binding or an expression.
#[derive(Debug, PartialEq, Eq, Hash)]
pub enum TypeVar {
    Any,
    Integer(usize),
    String(),
    Call(Place, Vec<TypeVar>, Vec<TypeVar>),
    BinOp(Place),
    NoneType,
    Function(Place, Vec<TypeVar>, Vec<TypeVar>),
    Union(Vec<TypeVar>),
    /// placeholder for an expression whose type is not known
    Var(Place),
}

/// The mathematical value of a `TypeVar`.
pub enum Ty {
    Any,
    Integer(usize),
    Str,
    Call(PlaceView, Seq<Ty>, Seq<Ty>),
    BinOp(PlaceView),
    NoneType,
    Function(PlaceView, Seq<Ty>, Seq<Ty>),
    Union(Seq<Ty>),
    Var(PlaceView),
}

pub open spec fn ty_of(t: TypeVar) -> Ty
    decreases t,
{
    match t {
        TypeVar::Any => Ty::Any,
        TypeVar::Integer(n) => Ty::Integer(n),
        TypeVar::String() => Ty::Str,
        TypeVar::Call(p, a, r) => Ty::Call(p@, tys_of(a@), tys_of(r@)),
        TypeVar::BinOp(p) => Ty::BinOp(p@),
        TypeVar::NoneType => Ty::NoneType,
        TypeVar::Function(p, a, r) => Ty::Function(p@, tys_of(a@), tys_of(r@)),
        TypeVar::Union(v) => Ty::Union(tys_of(v@)),
        TypeVar::Var(p) => Ty::Var(p@),
    }
}

pub open spec fn tys_of(s: Seq<TypeVar>) -> Seq<Ty>
    decreases s,
{
    if s.len() == 0 {
        Seq::empty()
    } else {
        tys_of(s.subrange(0, s.len() - 1)).push(ty_of(s[s.len() - 1]))
    }
}

impl View for TypeVar {
    type V = Ty;

    open spec fn view(&self) -> Ty {
        ty_of(*self)
    }
}

pub proof fn lemma_tys_of(s: Seq<TypeVar>)
    ensures
        tys_of(s).len() == s.len(),
        forall|i: int| 0 <= i < s.len() ==> #[trigger] tys_of(s)[i] == ty_of(s[i]),
    decreases s.len(),
{
    if s.len() > 0 {
        lemma_tys_of(s.subrange(0, s.len() - 1));
    }
}

pub proof fn lemma_tys_of_push(s: Seq<TypeVar>, t: TypeVar)
    ensures
        tys_of(s.push(t)) == tys_of(s).push(ty_of(t)),
{
    assert(s.push(t).subrange(0, s.len() as int) =~= s);
}

/// A tag that tells the variants of `Ty` apart, ignoring what they carry.
pub open spec fn tag(t: Ty) -> int {
    match t {
        Ty::Any => 0,
        Ty::Integer(_) => 1,
        Ty::Str => 2,
        Ty::Call(..) => 3,
        Ty::BinOp(_) => 4,
        Ty::NoneType => 5,
        Ty::Function(..) => 6,
        Ty::Union(_) => 7,
        Ty::Var(_) => 8,
    }
}

/// Compatibility of two types: `Any` matches everything, a union matches one of
/// its members exactly, and otherwise the variants must agree. Two unions are not
/// compared and never match.
pub open spec fn compatible(a: Ty, b: Ty) -> bool {
    if a is Any || b is Any {
        true
    } else if a is Union && b is Union {
        false
    } else if a is Union {
        a->Union_0.contains(b)
    } else if b is Union {
        b->Union_0.contains(a)
    } else {
        tag(a) == tag(b)
    }
}

/// The type a declared annotation stands for, if it is one that is known.
pub open spec fn annotation_type(s: Seq<char>) -> Option<Ty> {
    if s == "int"@ {
        Some(Ty::Integer(0))
    } else if s == "str"@ {
        Some(Ty::Str)
    } else if s == "None"@ {
        Some(Ty::NoneType)
    } else if s == "Any"@ {
        Some(Ty::Any)
    } else {
        None
    }
}

impl TypeVar {
    fn tag_index(&self) -> (r: u8)
        ensures
            r as int == tag(self@),
    {
        match self {
            TypeVar::Any => 0,
            TypeVar::Integer(_) => 1,
            TypeVar::String() => 2,
            TypeVar::Call(..) => 3,
            TypeVar::BinOp(_) => 4,
            TypeVar::NoneType => 5,
            TypeVar::Function(..) => 6,
            TypeVar::Union(_) => 7,
            TypeVar::Var(_) => 8,
        }
    }

    /// Structural equality of two type values.
    pub fn equals(&self, other: &TypeVar) -> (r: bool)
        ensures
            r == (self@ == other@),
        decreases self,
    {
        match (self, other) {
            (TypeVar::Any, TypeVar::Any) => true,
            (TypeVar::Integer(a), TypeVar::Integer(b)) => *a == *b,
            (TypeVar::String(), TypeVar::String()) => true,
            (TypeVar::NoneType, TypeVar::NoneType) => true,
            (TypeVar::BinOp(p), TypeVar::BinOp(q)) => p.same(q),
            (TypeVar::Var(p), TypeVar::Var(q)) => p.same(q),
            (TypeVar::Call(p, a, r), TypeVar::Call(q, b, s)) => {
                p.same(q) && all_equal(a, b) && all_equal(r, s)
            },
            (TypeVar::Function(p, a, r), TypeVar::Function(q, b, s)) => {
                p.same(q) && all_equal(a, b) && all_equal(r, s)
            },
            (TypeVar::Union(a), TypeVar::Union(b)) => all_equal(a, b),
            _ => {
                assert(tag(self@) != tag(other@));
                false
            },
        }
    }

    /// A copy with the same value.
    pub fn duplicate(&self) -> (r: TypeVar)
        ensures
            r@ == self@,
        decreases self,
    {
        match self {
            TypeVar::Any => TypeVar::Any,
            TypeVar::Integer(n) => TypeVar::Integer(*n),
            TypeVar::String() => TypeVar::String(),
            TypeVar::NoneType => TypeVar::NoneType,
            TypeVar::BinOp(p) => TypeVar::BinOp(p.duplicate()),
            TypeVar::Var(p) => TypeVar::Var(p.duplicate()),
            TypeVar::Call(p, a, r) => TypeVar::Call(p.duplicate(), duplicate_all(a), duplicate_all(r)),
            TypeVar::Function(p, a, r) => TypeVar::Function(
                p.duplicate(),
                duplicate_all(a),
                duplicate_all(r),
            ),
            TypeVar::Union(a) => TypeVar::Union(duplicate_all(a)),
        }
    }

    /// Check if types are allowed together.
    pub fn type_check(&self, other: &TypeVar) -> (r: bool)
        ensures
            r == compatible(self@, other@),
    {
        match (self, other) {
            (TypeVar::Any, _) | (_, TypeVar::Any) => true,
            (TypeVar::Union(_), TypeVar::Union(_)) => false,
            (TypeVar::Union(tys), x) | (x, TypeVar::Union(tys)) => contains(tys, x),
            (l, r) => l.tag_index() == r.tag_index(),
        }
    }

    /// The baseline type of a declared type annotation, `None` when the annotation is unknown.
    pub fn from_type_str(s: &str) -> (r: Option<TypeVar>)
        ensures
            r matches Some(t) ==> annotation_type(s@) == Some(t@),
            r is None ==> annotation_type(s@) is None,
    {
        if str_eq(s, "int") {
            Some(TypeVar::Integer(0))
        } else if str_eq(s, "str") {
            Some(TypeVar::String())
        } else if str_eq(s, "None") {
            Some(TypeVar::NoneType)
        } else if str_eq(s, "Any") {
            Some(TypeVar::Any)
        } else {
            None
        }
    }
}

impl Clone for TypeVar {
    fn clone(&self) -> (r: TypeVar)
        ensures
            r@ == self@,
    {
        self.duplicate()
    }
}

/// Equality of two strings, character by character.
pub fn str_eq(a: &str, b: &str) -> (r: bool)
    ensures
        r == (a@ == b@),
{
    let n = a.unicode_len();
    if n != b.unicode_len() {
        return false;
    }
    let mut i: usize = 0;
    while i < n
        invariant
            n == a@.len(),
            n == b@.len(),
            0 <= i <= n,
            forall|j: int| 0 <= j < i ==> a@[j] == b@[j],
        decreases n - i,
    {
        if a.get_char(i) != b.get_char(i) {
            return false;
        }
        i = i + 1;
    }
    assert(a@ =~= b@);
    true
}

/// Element-wise equality of two lists of types.
pub fn all_equal(a: &Vec<TypeVar>, b: &Vec<TypeVar>) -> (r: bool)
    ensures
        r == (tys_of(a@) == tys_of(b@)),
    decreases a,
{
    proof {
        lemma_tys_of(a@);
        lemma_tys_of(b@);
    }
    if a.len() != b.len() {
        return false;
    }
    let mut i: usize = 0;
    while i < a.len()
        invariant
            a.len() == b.len(),
            0 <= i <= a.len(),
            tys_of(a@).len() == a@.len(),
            tys_of(b@).len() == b@.len(),
            forall|k: int| 0 <= k < a@.len() ==> #[trigger] tys_of(a@)[k] == ty_of(a@[k]),
            forall|k: int| 0 <= k < b@.len() ==> #[trigger] tys_of(b@)[k] == ty_of(b@[k]),
            forall|j: int| 0 <= j < i ==> ty_of(a@[j]) == ty_of(b@[j]),
        decreases a.len() - i,
    {
        if !a[i].equals(&b[i]) {
            assert(tys_of(a@)[i as int] != tys_of(b@)[i as int]);
            return false;
        }
        i = i + 1;
    }
    assert(tys_of(a@) =~= tys_of(b@));
    true
}

/// A copy of a list of types with the same value.
pub fn duplicate_all(a: &Vec<TypeVar>) -> (r: Vec<TypeVar>)
    ensures
        tys_of(r@) == tys_of(a@),
    decreases a,
{
    proof {
        lemma_tys_of(a@);
    }
    let mut out: Vec<TypeVar> = Vec::new();
    let mut i: usize = 0;
    while i < a.len()
        invariant
            0 <= i <= a.len(),
            out@.len() == i,
            tys_of(a@).len() == a@.len(),
            forall|k: int| 0 <= k < a@.len() ==> #[trigger] tys_of(a@)[k] == ty_of(a@[k]),
            forall|j: int| 0 <= j < i ==> ty_of(out@[j]) == ty_of(a@[j]),
        decreases a.len() - i,
    {
        let t = a[i].duplicate();
        out.push(t);
        i = i + 1;
    }
    proof {
        lemma_tys_of(out@);
    }
    assert(tys_of(out@) =~= tys_of(a@));
    out
}

/// Whether a list of types holds the given type.
pub fn contains(tys: &Vec<TypeVar>, x: &TypeVar) -> (r: bool)
    ensures
        r == tys_of(tys@).contains(x@),
{
    proof {
        lemma_tys_of(tys@);
    }
    let mut i: usize = 0;
    while i < tys.len()
        invariant
            0 <= i <= tys.len(),
            tys_of(tys@).len() == tys@.len(),
            forall|k: int| 0 <= k < tys@.len() ==> #[trigger] tys_of(tys@)[k] == ty_of(tys@[k]),
            forall|j: int| 0 <= j < i ==> ty_of(tys@[j]) != x@,
        decreases tys.len() - i,
    {
        if tys[i].equals(x) {
            assert(tys_of(tys@)[i as int] == x@);
            return true;
        }
        i = i + 1;
    }
    false
}

/// The decimal digit of a number below ten.
pub open spec fn digit_text(d: nat) -> Seq<char> {
    if d == 0 {
        "0"@
    } else if d == 1 {
        "1"@
    } else if d == 2 {
        "2"@
    } else if d == 3 {
        "3"@
    } else if d == 4 {
        "4"@
    } else if d == 5 {
        "5"@
    } else if d == 6 {
        "6"@
    } else if d == 7 {
        "7"@
    } else if d == 8 {
        "8"@
    } else {
        "9"@
    }
}

/// The decimal form of a number, without leading zeros.
pub open spec fn decimal(n: nat) -> Seq<char>
    decreases n,
{
    if n < 10 {
        digit_text(n)
    } else {
        decimal(n / 10) + digit_text(n % 10)
    }
}

fn digit_str(d: usize) -> (r: &'static str)
    requires
        d < 10,
    ensures
        r@ == digit_text(d as nat),
{
    if d == 0 {
        "0"
    } else if d == 1 {
        "1"
    } else if d == 2 {
        "2"
    } else if d == 3 {
        "3"
    } else if d == 4 {
        "4"
    } else if d == 5 {
        "5"
    } else if d == 6 {
        "6"
    } else if d == 7 {
        "7"
    } else if d == 8 {
        "8"
    } else {
        "9"
    }
}

/// The decimal form of a number.
pub fn decimal_text(n: u128) -> (r: String)
    ensures
        r@ == decimal(n as nat),
    decreases n,
{
    if n < 10 {
        String::from_str(digit_str(n as usize))
    } else {
        let mut s = decimal_text(n / 10);
        s.append(digit_str((n % 10) as usize));
        s
    }
}

/// How a place reads: `label@row,column`.
pub open spec fn place_text(p: PlaceView) -> Seq<char> {
    p.0 + "@"@ + decimal(p.1 as nat) + ","@ + decimal(p.2 as nat)
}

/// How a type reads.
pub open spec fn ty_text(t: Ty) -> Seq<char>
    decreases t,
{
    match t {
        Ty::Any => "Any()"@,
        Ty::Integer(i) => "Integer("@ + decimal(i as nat) + ")"@,
        Ty::Str => "String()"@,
        Ty::Call(p, a, r) => "Call("@ + place_text(p) + ", ["@ + join_text(a, ","@) + "] -> ["@
            + join_text(r, ", "@) + "])"@,
        Ty::BinOp(p) => "BinOp("@ + place_text(p) + ")"@,
        Ty::NoneType => "None"@,
        Ty::Function(p, a, r) => "Function("@ + place_text(p) + ", ["@ + join_text(a, ","@)
            + "] -> ["@ + join_text(r, ", "@) + "])"@,
        Ty::Union(v) => "Union("@ + join_text(v, ", "@) + ")"@,
        Ty::Var(p) => "Var("@ + place_text(p) + ")"@,
    }
}

/// The texts of a list of types, with a separator between each two.
pub open spec fn join_text(s: Seq<Ty>, sep: Seq<char>) -> Seq<char>
    decreases s,
{
    if s.len() == 0 {
        Seq::empty()
    } else if s.len() == 1 {
        ty_text(s[0])
    } else {
        join_text(s.subrange(0, s.len() - 1), sep) + sep + ty_text(s[s.len() - 1])
    }
}

impl Place {
    /// How the place reads: `label@row,column`.
    pub fn to_text(&self) -> (r: String)
        ensures
            r@ == place_text(self@),
    {
        let mut s = self.name.clone();
        s.append("@");
        let row = decimal_text(self.row as u128);
        s.append(row.as_str());
        s.append(",");
        let col = decimal_text(self.column as u128);
        s.append(col.as_str());
        s
    }
}

impl TypeVar {
    /// How the type reads, for messages.
    pub fn to_text(&self) -> (r: String)
        ensures
            r@ == ty_text(self@),
        decreases self,
    {
        match self {
            TypeVar::Any => String::from_str("Any()"),
            TypeVar::Integer(i) => {
                let mut s = String::from_str("Integer(");
                let d = decimal_text(*i as u128);
                s.append(d.as_str());
                s.append(")");
                s
            },
            TypeVar::String() => String::from_str("String()"),
            TypeVar::NoneType => String::from_str("None"),
            TypeVar::BinOp(p) => {
                let mut s = String::from_str("BinOp(");
                let t = p.to_text();
                s.append(t.as_str());
                s.append(")");
                s
            },
            TypeVar::Var(p) => {
                let mut s = String::from_str("Var(");
                let t = p.to_text();
                s.append(t.as_str());
                s.append(")");
                s
            },
            TypeVar::Call(p, a, r) => {
                let mut s = String::from_str("Call(");
                let t = p.to_text();
                s.append(t.as_str());
                s.append(", [");
                let ja = join_types(a, ",");
                s.append(ja.as_str());
                s.append("] -> [");
                let jr = join_types(r, ", ");
                s.append(jr.as_str());
                s.append("])");
                s
            },
            TypeVar::Function(p, a, r) => {
                let mut s = String::from_str("Function(");
                let t = p.to_text();
                s.append(t.as_str());
                s.append(", [");
                let ja = join_types(a, ",");
                s.append(ja.as_str());
                s.append("] -> [");
                let jr = join_types(r, ", ");
                s.append(jr.as_str());
                s.append("])");
                s
            },
            TypeVar::Union(v) => {
                let mut s = String::from_str("Union(");
                let j = join_types(v, ", ");
                s.append(j.as_str());
                s.append(")");
                s
            },
        }
    }
}

/// The texts of a list of types, with a separator between each two.
pub fn join_types(v: &Vec<TypeVar>, sep: &str) -> (r: String)
    ensures
        r@ == join_text(tys_of(v@), sep@),
    decreases v,
{
    proof {
        lemma_tys_of(v@);
    }
    let mut s = String::new();
    let mut i: usize = 0;
    while i < v.len()
        invariant
            0 <= i <= v.len(),
            tys_of(v@).len() == v@.len(),
            forall|k: int| 0 <= k < v@.len() ==> #[trigger] tys_of(v@)[k] == ty_of(v@[k]),
            s@ == join_text(tys_of(v@).subrange(0, i as int), sep@),
        decreases v.len() - i,
    {
        let t = v[i].to_text();
        if i > 0 {
            s.append(sep);
        }
        s.append(t.as_str());
        proof {
            let tv = tys_of(v@);
            let pre = tv.subrange(0, i + 1);
            assert(pre.subrange(0, i as int) =~= tv.subrange(0, i as int));
            assert(pre[i as int] == ty_of(v@[i as int]));
            if i == 0 {
                assert(s@ =~= join_text(pre, sep@));
            }
        }
        i = i + 1;
    }
    assert(tys_of(v@).subrange(0, v.len() as int) =~= tys_of(v@));
    s
}

} // verus!
