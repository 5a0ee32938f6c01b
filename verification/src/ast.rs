//! The syntax tree that the parser builds and the interpreter runs, with its
//! mathematical model.
use vstd::prelude::*;

use crate::text::{copy_names, find_name, lemma_find_name, names_view, position};

verus! {

/// A type of the language.
#[derive(PartialEq, Eq, Hash, Debug)]
pub enum Type {
    Int,
    Nothing,
    List(Box<Type>),
    StructName(String),
    Function(Box<Sig>),
    TypeVar(String),
}

/// The signature of a function: argument types, result type and the names of
/// its type parameters.
#[derive(Debug, PartialEq, Eq, Hash)]
pub struct Sig {
    pub args: Vec<Type>,
    pub ret_type: Type,
    pub type_names: Vec<String>,
}

/// A value expression together with its static type.
#[derive(Debug)]
pub struct TypedValue {
    pub val_type: Type,
    pub val_source: ValueSource,
}

/// The forms of value expressions.
#[derive(Debug)]
pub enum ValueSource {
    FunctionCall { name: String, args: Vec<TypedValue> },
    StructConstruction(Vec<(String, TypedValue)>),
    MemberAccess { name: String, item: Box<TypedValue> },
    NumberLiteral(isize),
    ListLiteral(Vec<TypedValue>),
    Variable(String),
    Function(String),
    Nothing,
}

/// A statement of a program or of a function body.
#[derive(Debug)]
pub enum Statement {
    Value(TypedValue),
    VarDefinition(String, TypedValue),
    FunDefinition(String, FunDefinition),
    StructDefinition(String, Vec<(String, Type)>),
    Ret(TypedValue),
}

/// A function: named, typed arguments, a body and type parameters.
#[derive(Debug)]
pub struct FunDefinition {
    pub args: Vec<(String, Type)>,
    pub statements: Vec<Statement>,
    pub type_params: Vec<String>,
}

/// The model of a `Type`.
pub enum SpecType {
    Int,
    Nothing,
    List(Box<SpecType>),
    StructName(Seq<char>),
    Function(Box<SpecSig>),
    TypeVar(Seq<char>),
}

/// The model of a `Sig`.
pub struct SpecSig {
    pub args: Seq<SpecType>,
    pub ret_type: SpecType,
    pub type_names: Seq<Seq<char>>,
}

/// The model of a `TypedValue`.
pub struct SpecTypedValue {
    pub val_type: SpecType,
    pub val_source: SpecValueSource,
}

/// The model of a `ValueSource`.
pub enum SpecValueSource {
    FunctionCall { name: Seq<char>, args: Seq<SpecTypedValue> },
    StructConstruction(Seq<(Seq<char>, SpecTypedValue)>),
    MemberAccess { name: Seq<char>, item: Box<SpecTypedValue> },
    NumberLiteral(isize),
    ListLiteral(Seq<SpecTypedValue>),
    Variable(Seq<char>),
    Function(Seq<char>),
    Nothing,
}

/// The model of a `Statement`.
pub enum SpecStatement {
    Value(SpecTypedValue),
    VarDefinition(Seq<char>, SpecTypedValue),
    FunDefinition(Seq<char>, SpecFunDefinition),
    StructDefinition(Seq<char>, Seq<(Seq<char>, SpecType)>),
    Ret(SpecTypedValue),
}

/// The model of a `FunDefinition`.
pub struct SpecFunDefinition {
    pub args: Seq<(Seq<char>, SpecType)>,
    pub statements: Seq<SpecStatement>,
    pub type_params: Seq<Seq<char>>,
}


impl View for Type {
    type V = SpecType;

    open spec fn view(&self) -> SpecType
        decreases self,
    {
        match self {
            Type::Int => SpecType::Int,
            Type::Nothing => SpecType::Nothing,
            Type::List(t) => SpecType::List(Box::new((**t).view())),
            Type::StructName(n) => SpecType::StructName(n@),
            Type::Function(sig) => SpecType::Function(Box::new(sig.view_sig())),
            Type::TypeVar(n) => SpecType::TypeVar(n@),
        }
    }
}

impl Sig {
    /// The model of this signature (also its view).
    pub open spec fn view_sig(&self) -> SpecSig
        decreases self,
    {
        proof {
            assert forall|i: int| 0 <= i < self.args@.len() implies decreases_to!(self => #[trigger] self.args@[i]) by {
                assert(decreases_to!(self.args => self.args@));
            }
        }
        SpecSig {
            args: Seq::new(
                self.args@.len(),
                |i: int| if 0 <= i < self.args@.len() { self.args@[i].view() } else { SpecType::Int },
            ),
            ret_type: self.ret_type.view(),
            type_names: names_view(self.type_names@),
        }
    }
}

impl View for Sig {
    type V = SpecSig;

    open spec fn view(&self) -> SpecSig {
        self.view_sig()
    }
}

/// The models of a sequence of types.
pub open spec fn types_view(s: Seq<Type>) -> Seq<SpecType> {
    Seq::new(s.len(), |i: int| s[i]@)
}

/// The models of a sequence of named types (arguments, struct members).
pub open spec fn members_view(s: Seq<(String, Type)>) -> Seq<(Seq<char>, SpecType)> {
    Seq::new(s.len(), |i: int| (s[i].0@, s[i].1@))
}

impl View for TypedValue {
    type V = SpecTypedValue;

    open spec fn view(&self) -> SpecTypedValue
        decreases self,
    {
        SpecTypedValue { val_type: self.val_type@, val_source: self.val_source.view_source() }
    }
}

impl ValueSource {
    /// The model of this value expression (also its view).
    pub open spec fn view_source(&self) -> SpecValueSource
        decreases self,
    {
        match self {
            ValueSource::FunctionCall { name, args } => {
                proof {
                    assert forall|i: int| 0 <= i < args@.len() implies decreases_to!(self => #[trigger] args@[i]) by {
                        assert(decreases_to!(*args => args@));
                    }
                }
                SpecValueSource::FunctionCall {
                    name: name@,
                    args: Seq::new(
                        args@.len(),
                        |i: int| if 0 <= i < args@.len() { args@[i].view() } else { arbitrary() },
                    ),
                }
            },
            ValueSource::StructConstruction(items) => {
                proof {
                    assert forall|i: int| 0 <= i < items@.len() implies decreases_to!(self => #[trigger] items@[i].1) by {
                        assert(decreases_to!(*items => items@));
                        assert(decreases_to!(items@ => items@[i]));
                    }
                }
                SpecValueSource::StructConstruction(
                    Seq::new(
                        items@.len(),
                        |i: int| if 0 <= i < items@.len() { (items@[i].0@, items@[i].1.view()) } else { arbitrary() },
                    ),
                )
            },
            ValueSource::MemberAccess { name, item } => SpecValueSource::MemberAccess {
                name: name@,
                item: Box::new((**item).view()),
            },
            ValueSource::NumberLiteral(x) => SpecValueSource::NumberLiteral(*x),
            ValueSource::ListLiteral(values) => {
                proof {
                    assert forall|i: int| 0 <= i < values@.len() implies decreases_to!(self => #[trigger] values@[i]) by {
                        assert(decreases_to!(*values => values@));
                    }
                }
                SpecValueSource::ListLiteral(
                    Seq::new(
                        values@.len(),
                        |i: int| if 0 <= i < values@.len() { values@[i].view() } else { arbitrary() },
                    ),
                )
            },
            ValueSource::Variable(n) => SpecValueSource::Variable(n@),
            ValueSource::Function(n) => SpecValueSource::Function(n@),
            ValueSource::Nothing => SpecValueSource::Nothing,
        }
    }
}

impl View for ValueSource {
    type V = SpecValueSource;

    open spec fn view(&self) -> SpecValueSource {
        self.view_source()
    }
}

/// The models of a sequence of typed values.
pub open spec fn values_view(s: Seq<TypedValue>) -> Seq<SpecTypedValue> {
    Seq::new(s.len(), |i: int| s[i]@)
}

impl View for Statement {
    type V = SpecStatement;

    open spec fn view(&self) -> SpecStatement
        decreases self,
    {
        match self {
            Statement::Value(v) => SpecStatement::Value(v@),
            Statement::VarDefinition(n, v) => SpecStatement::VarDefinition(n@, v@),
            Statement::FunDefinition(n, d) => SpecStatement::FunDefinition(n@, d.view_def()),
            Statement::StructDefinition(n, m) => SpecStatement::StructDefinition(n@, members_view(m@)),
            Statement::Ret(v) => SpecStatement::Ret(v@),
        }
    }
}

impl FunDefinition {
    /// The model of this function definition (also its view).
    pub open spec fn view_def(&self) -> SpecFunDefinition
        decreases self,
    {
        proof {
            assert forall|i: int| 0 <= i < self.statements@.len() implies decreases_to!(self => #[trigger] self.statements@[i]) by {
                assert(decreases_to!(self.statements => self.statements@));
            }
        }
        SpecFunDefinition {
            args: members_view(self.args@),
            statements: Seq::new(
                self.statements@.len(),
                |i: int| if 0 <= i < self.statements@.len() { self.statements@[i].view() } else { arbitrary() },
            ),
            type_params: names_view(self.type_params@),
        }
    }
}

impl View for FunDefinition {
    type V = SpecFunDefinition;

    open spec fn view(&self) -> SpecFunDefinition {
        self.view_def()
    }
}

/// The models of a sequence of statements.
pub open spec fn statements_view(s: Seq<Statement>) -> Seq<SpecStatement> {
    Seq::new(s.len(), |i: int| s[i]@)
}

/// The model of an optional value.
pub open spec fn opt_view<T: View>(o: Option<T>) -> Option<T::V> {
    match o {
        Some(x) => Some(x@),
        None => None,
    }
}

impl SpecType {
    /// This type with each type variable named in `names` replaced by the
    /// type at the same position of `types`; `None` where a variable's
    /// position has no type in `types`.
    pub open spec fn instantiate(self, names: Seq<Seq<char>>, types: Seq<SpecType>) -> Option<SpecType>
        decreases self,
    {
        match self {
            SpecType::List(x) => match x.instantiate(names, types) {
                Some(t) => Some(SpecType::List(Box::new(t))),
                None => None,
            },
            SpecType::TypeVar(x) => match find_name(names, x) {
                Some(k) => if k < types.len() {
                    Some(types[k])
                } else {
                    None
                },
                None => Some(self),
            },
            SpecType::Function(sig) => match sig.instantiate(names, types) {
                Some(s) => Some(SpecType::Function(Box::new(s))),
                None => None,
            },
            _ => Some(self),
        }
    }
}

impl SpecType {
    /// Whether `ok` holds of the name of every type variable in this type.
    pub open spec fn each_var(self, ok: spec_fn(Seq<char>) -> bool) -> bool
        decreases self,
    {
        match self {
            SpecType::List(x) => x.each_var(ok),
            SpecType::TypeVar(x) => ok(x),
            SpecType::Function(sig) => sig.each_var(ok),
            _ => true,
        }
    }
}

impl SpecSig {
    /// Whether `ok` holds of the name of every type variable in this
    /// signature's argument and result types.
    pub open spec fn each_var(self, ok: spec_fn(Seq<char>) -> bool) -> bool
        decreases self,
    {
        each_var_all(self.args, ok) && self.ret_type.each_var(ok)
    }
}

/// Whether `ok` holds of the name of every type variable in the types `s`.
pub open spec fn each_var_all(s: Seq<SpecType>, ok: spec_fn(Seq<char>) -> bool) -> bool
    decreases s,
{
    if s.len() == 0 {
        true
    } else {
        proof {
            assert(decreases_to!(s => s.subrange(0, s.len() - 1)));
        }
        each_var_all(s.drop_last(), ok) && s.last().each_var(ok)
    }
}

impl SpecSig {
    /// This signature with its argument and result types instantiated.
    pub open spec fn instantiate(self, names: Seq<Seq<char>>, types: Seq<SpecType>) -> Option<SpecSig>
        decreases self,
    {
        match instantiate_all(self.args, names, types) {
            Some(args) => match self.ret_type.instantiate(names, types) {
                Some(ret_type) => Some(SpecSig { args, ret_type, type_names: self.type_names }),
                None => None,
            },
            None => None,
        }
    }

    /// Whether values of types `arg_types` fit this signature once its type
    /// parameters are bound to `params`.
    pub open spec fn matches_types(self, arg_types: Seq<SpecType>, params: Seq<SpecType>) -> bool {
        &&& arg_types.len() == self.args.len()
        &&& forall|i: int|
            0 <= i < arg_types.len() ==> #[trigger] self.args[i].instantiate(self.type_names, params) == Some(
                arg_types[i],
            )
    }
}

/// Each type of `s` instantiated; `None` where one of them cannot be.
pub open spec fn instantiate_all(s: Seq<SpecType>, names: Seq<Seq<char>>, types: Seq<SpecType>) -> Option<Seq<SpecType>>
    decreases s,
{
    if s.len() == 0 {
        Some(Seq::empty())
    } else {
        proof {
            assert(decreases_to!(s => s.subrange(0, s.len() - 1)));
        }
        match instantiate_all(s.drop_last(), names, types) {
            Some(prefix) => match s.last().instantiate(names, types) {
                Some(t) => Some(prefix.push(t)),
                None => None,
            },
            None => None,
        }
    }
}

/// Whether two sequences of strings hold the same names.
pub fn names_eq(a: &[String], b: &[String]) -> (r: bool)
    ensures
        r == (names_view(a@) == names_view(b@)),
{
    if a.len() != b.len() {
        return false;
    }
    let mut i: usize = 0;
    while i < a.len()
        invariant
            a.len() == b.len(),
            0 <= i <= a.len(),
            forall|j: int| 0 <= j < i ==> a@[j]@ == b@[j]@,
        decreases a.len() - i,
    {
        if a[i] != b[i] {
            assert(names_view(a@)[i as int] != names_view(b@)[i as int]);
            return false;
        }
        i = i + 1;
    }
    assert(names_view(a@) =~= names_view(b@));
    true
}

/// Whether two types are the same type.
pub fn type_eq(a: &Type, b: &Type) -> (r: bool)
    ensures
        r == (a@ == b@),
    decreases a,
{
    match (a, b) {
        (Type::Int, Type::Int) => true,
        (Type::Nothing, Type::Nothing) => true,
        (Type::List(x), Type::List(y)) => type_eq(x, y),
        (Type::StructName(x), Type::StructName(y)) => *x == *y,
        (Type::Function(x), Type::Function(y)) => sig_eq(x, y),
        (Type::TypeVar(x), Type::TypeVar(y)) => *x == *y,
        _ => false,
    }
}

/// Whether two signatures are the same signature.
pub fn sig_eq(a: &Sig, b: &Sig) -> (r: bool)
    ensures
        r == (a@ == b@),
    decreases a,
{
    if a.args.len() != b.args.len() {
        assert(a@.args.len() != b@.args.len());
        return false;
    }
    let mut i: usize = 0;
    while i < a.args.len()
        invariant
            a.args.len() == b.args.len(),
            0 <= i <= a.args.len(),
            forall|j: int| 0 <= j < i ==> a.args@[j]@ == b.args@[j]@,
        decreases a.args.len() - i,
    {
        proof {
            assert(decreases_to!(a.args => a.args@));
            assert(decreases_to!(a => a.args@[i as int]));
        }
        if !type_eq(&a.args[i], &b.args[i]) {
            assert(a@.args[i as int] != b@.args[i as int]);
            return false;
        }
        i = i + 1;
    }
    assert(a@.args =~= b@.args);
    if !type_eq(&a.ret_type, &b.ret_type) {
        return false;
    }
    names_eq(&a.type_names, &b.type_names)
}

/// A copy of a type.
pub fn copy_type(t: &Type) -> (r: Type)
    ensures
        r@ == t@,
    decreases t,
{
    match t {
        Type::Int => Type::Int,
        Type::Nothing => Type::Nothing,
        Type::List(x) => Type::List(Box::new(copy_type(x))),
        Type::StructName(n) => Type::StructName(n.clone()),
        Type::Function(sig) => Type::Function(Box::new(copy_sig(sig))),
        Type::TypeVar(n) => Type::TypeVar(n.clone()),
    }
}

/// A copy of a signature.
pub fn copy_sig(s: &Sig) -> (r: Sig)
    ensures
        r@ == s@,
    decreases s,
{
    let mut args: Vec<Type> = Vec::new();
    let mut i: usize = 0;
    while i < s.args.len()
        invariant
            0 <= i <= s.args.len(),
            types_view(args@) =~= s@.args.take(i as int),
        decreases s.args.len() - i,
    {
        proof {
            assert(decreases_to!(s.args => s.args@));
            assert(decreases_to!(s => s.args@[i as int]));
        }
        let t = copy_type(&s.args[i]);
        let ghost old_args = args@;
        args.push(t);
        assert(types_view(args@) =~= types_view(old_args).push(t@));
        assert(s@.args.take(i as int + 1) =~= s@.args.take(i as int).push(s@.args[i as int]));
        i = i + 1;
    }
    let r = Sig { args, ret_type: copy_type(&s.ret_type), type_names: copy_names(&s.type_names) };
    assert(r@.args =~= types_view(r.args@));
    assert(s@.args.take(i as int) =~= s@.args);
    r
}

/// A copy of a typed value.
pub fn copy_value(v: &TypedValue) -> (r: TypedValue)
    ensures
        r@ == v@,
    decreases v, 1int,
{
    TypedValue { val_type: copy_type(&v.val_type), val_source: copy_source(&v.val_source) }
}

/// A copy of a value expression.
#[verifier::loop_isolation(false)]
pub fn copy_source(s: &ValueSource) -> (r: ValueSource)
    ensures
        r@ == s@,
    decreases s, 0int,
{
    match s {
        ValueSource::FunctionCall { name, args } => {
            let mut out: Vec<TypedValue> = Vec::new();
            let mut i: usize = 0;
            while i < args.len()
                invariant
                    0 <= i <= args.len(),
                    values_view(out@) =~= values_view(args@).take(i as int),
                decreases args.len() - i,
            {
                proof {
                    assert(decreases_to!(s => *args));
                    assert(decreases_to!(*args => args@));
                    assert(decreases_to!(args@ => args@[i as int]));
                    assert(decreases_to!(s => args@[i as int]));
                }
                let v = copy_value(&args[i]);
                let ghost before = out@;
                out.push(v);
                assert(values_view(out@) =~= values_view(before).push(v@));
                assert(values_view(args@).take(i as int + 1) =~= values_view(args@).take(i as int).push(args@[i as int]@));
                i = i + 1;
            }
            assert(values_view(args@).take(i as int) =~= values_view(args@));
            let n = name.clone();
            proof {
                lemma_call_view(n, out);
                lemma_call_view(*name, *args);
            }
            ValueSource::FunctionCall { name: n, args: out }
        },
        ValueSource::StructConstruction(items) => {
            let mut out: Vec<(String, TypedValue)> = Vec::new();
            let mut i: usize = 0;
            while i < items.len()
                invariant
                    0 <= i <= items.len(),
                    named_values_view(out@) =~= named_values_view(items@).take(i as int),
                decreases items.len() - i,
            {
                proof {
                    assert(decreases_to!(s => *items));
                    assert(decreases_to!(*items => items@));
                    assert(decreases_to!(items@ => items@[i as int]));
                    assert(decreases_to!(items@[i as int] => items@[i as int].1));
                    assert(decreases_to!(s => items@[i as int].1));
                }
                let v = copy_value(&items[i].1);
                let n = items[i].0.clone();
                let ghost before = out@;
                out.push((n, v));
                assert(named_values_view(out@) =~= named_values_view(before).push((n@, v@)));
                assert(named_values_view(items@).take(i as int + 1) =~= named_values_view(items@).take(i as int).push(
                    (items@[i as int].0@, items@[i as int].1@),
                ));
                i = i + 1;
            }
            assert(named_values_view(items@).take(i as int) =~= named_values_view(items@));
            proof {
                lemma_struct_con_view(out);
                lemma_struct_con_view(*items);
            }
            ValueSource::StructConstruction(out)
        },
        ValueSource::MemberAccess { name, item } => ValueSource::MemberAccess {
            name: name.clone(),
            item: Box::new(copy_value(item)),
        },
        ValueSource::NumberLiteral(x) => ValueSource::NumberLiteral(*x),
        ValueSource::ListLiteral(values) => {
            let mut out: Vec<TypedValue> = Vec::new();
            let mut i: usize = 0;
            while i < values.len()
                invariant
                    0 <= i <= values.len(),
                    values_view(out@) =~= values_view(values@).take(i as int),
                decreases values.len() - i,
            {
                proof {
                    assert(decreases_to!(s => *values));
                    assert(decreases_to!(*values => values@));
                    assert(decreases_to!(values@ => values@[i as int]));
                    assert(decreases_to!(s => values@[i as int]));
                }
                let v = copy_value(&values[i]);
                let ghost before = out@;
                out.push(v);
                assert(values_view(out@) =~= values_view(before).push(v@));
                assert(values_view(values@).take(i as int + 1) =~= values_view(values@).take(i as int).push(values@[i as int]@));
                i = i + 1;
            }
            assert(values_view(values@).take(i as int) =~= values_view(values@));
            proof {
                lemma_list_view(out);
                lemma_list_view(*values);
            }
            ValueSource::ListLiteral(out)
        },
        ValueSource::Variable(n) => ValueSource::Variable(n.clone()),
        ValueSource::Function(n) => ValueSource::Function(n.clone()),
        ValueSource::Nothing => ValueSource::Nothing,
    }
}

/// A copy of a statement.
pub fn copy_statement(st: &Statement) -> (r: Statement)
    ensures
        r@ == st@,
    decreases st, 1int,
{
    match st {
        Statement::Value(v) => Statement::Value(copy_value(v)),
        Statement::VarDefinition(n, v) => Statement::VarDefinition(n.clone(), copy_value(v)),
        Statement::FunDefinition(n, d) => Statement::FunDefinition(n.clone(), copy_fun_def(d)),
        Statement::StructDefinition(n, m) => Statement::StructDefinition(n.clone(), copy_members(m)),
        Statement::Ret(v) => Statement::Ret(copy_value(v)),
    }
}

/// A copy of a function definition.
pub fn copy_fun_def(d: &FunDefinition) -> (r: FunDefinition)
    ensures
        r@ == d@,
    decreases d, 0int,
{
    let mut out: Vec<Statement> = Vec::new();
    let mut i: usize = 0;
    while i < d.statements.len()
        invariant
            0 <= i <= d.statements.len(),
            statements_view(out@) =~= statements_view(d.statements@).take(i as int),
        decreases d.statements.len() - i,
    {
        proof {
            assert(decreases_to!(d.statements => d.statements@));
            assert(decreases_to!(d => d.statements@[i as int]));
        }
        let x = copy_statement(&d.statements[i]);
        let ghost before = out@;
        out.push(x);
        assert(statements_view(out@) =~= statements_view(before).push(x@));
        assert(statements_view(d.statements@).take(i as int + 1) =~= statements_view(d.statements@).take(i as int).push(
            d.statements@[i as int]@,
        ));
        i = i + 1;
    }
    assert(statements_view(d.statements@).take(i as int) =~= statements_view(d.statements@));
    let r = FunDefinition { args: copy_members(&d.args), statements: out, type_params: copy_names(&d.type_params) };
    proof {
        lemma_fun_def_view(r);
        lemma_fun_def_view(*d);
    }
    r
}

impl Clone for Type {
    fn clone(&self) -> (r: Self)
        ensures
            r@ == self@,
    {
        copy_type(self)
    }
}

impl Clone for Sig {
    fn clone(&self) -> (r: Self)
        ensures
            r@ == self@,
    {
        copy_sig(self)
    }
}

impl Clone for TypedValue {
    fn clone(&self) -> (r: Self)
        ensures
            r@ == self@,
    {
        copy_value(self)
    }
}

impl Clone for ValueSource {
    fn clone(&self) -> (r: Self)
        ensures
            r@ == self@,
    {
        copy_source(self)
    }
}

impl Clone for Statement {
    fn clone(&self) -> (r: Self)
        ensures
            r@ == self@,
    {
        copy_statement(self)
    }
}

impl Clone for FunDefinition {
    fn clone(&self) -> (r: Self)
        ensures
            r@ == self@,
    {
        copy_fun_def(self)
    }
}

/// A copy of a sequence of named types.
pub fn copy_members(m: &Vec<(String, Type)>) -> (r: Vec<(String, Type)>)
    ensures
        members_view(r@) == members_view(m@),
{
    let mut r: Vec<(String, Type)> = Vec::new();
    let mut i: usize = 0;
    while i < m.len()
        invariant
            0 <= i <= m.len(),
            members_view(r@) =~= members_view(m@).take(i as int),
        decreases m.len() - i,
    {
        let item = (m[i].0.clone(), copy_type(&m[i].1));
        let ghost old_r = r@;
        r.push(item);
        assert(members_view(r@) =~= members_view(old_r).push((item.0@, item.1@)));
        assert(members_view(m@).take(i as int + 1) =~= members_view(m@).take(i as int).push(members_view(m@)[i as int]));
        i = i + 1;
    }
    assert(members_view(m@).take(i as int) =~= members_view(m@));
    r
}

impl Type {
    /// Whether this is a list type.
    pub fn is_list(&self) -> (r: bool)
        ensures
            r == (self@ is List),
    {
        match self {
            Type::List(_) => true,
            _ => false,
        }
    }

    /// This type with its type variables bound (see `SpecType::instantiate`).
    /// Each type variable of it that `type_names` names must have a type at
    /// the same position of `types`.
    pub fn instantiate(&self, type_names: &[String], types: &[Type]) -> (r: Type)
        requires
            self@.instantiate(names_view(type_names@), types_view(types@)) is Some,
        ensures
            Some(r@) == self@.instantiate(names_view(type_names@), types_view(types@)),
    {
        match self.try_instantiate(type_names, types) {
            Some(t) => t,
            None => copy_type(self),
        }
    }

    /// This type with its type variables bound (see `SpecType::instantiate`);
    /// `None` where a variable has no type. This is the checking form of
    /// `instantiate`.
    pub fn try_instantiate(&self, type_names: &[String], types: &[Type]) -> (r: Option<Type>)
        ensures
            opt_view(r) == self@.instantiate(names_view(type_names@), types_view(types@)),
        decreases self, 2int,
    {
        match self {
            Type::List(x) => match x.try_instantiate(type_names, types) {
                Some(t) => Some(Type::List(Box::new(t))),
                None => None,
            },
            Type::TypeVar(x) => {
                match position(type_names, x) {
                    Some(k) => {
                        if k < types.len() {
                            Some(copy_type(&types[k]))
                        } else {
                            None
                        }
                    },
                    None => Some(copy_type(self)),
                }
            },
            Type::Function(sig) => match sig.try_instantiate(type_names, types) {
                Some(s) => Some(Type::Function(Box::new(s))),
                None => None,
            },
            _ => Some(copy_type(self)),
        }
    }
}

impl Sig {
    /// This signature with its type variables bound (see
    /// `SpecSig::instantiate`). Each type variable of it that `type_names`
    /// names must have a type at the same position of `types`.
    pub fn instantiate(&self, type_names: &[String], types: &[Type]) -> (r: Sig)
        requires
            self@.instantiate(names_view(type_names@), types_view(types@)) is Some,
        ensures
            Some(r@) == self@.instantiate(names_view(type_names@), types_view(types@)),
    {
        match self.try_instantiate(type_names, types) {
            Some(s) => s,
            None => copy_sig(self),
        }
    }

    /// This signature with its type variables bound (see
    /// `SpecSig::instantiate`); `None` where a variable has no type. This is
    /// the checking form of `instantiate`.
    pub fn try_instantiate(&self, type_names: &[String], types: &[Type]) -> (r: Option<Sig>)
        ensures
            opt_view(r) == self@.instantiate(names_view(type_names@), types_view(types@)),
        decreases self, 1int,
    {
        assert(self@.args =~= types_view(self.args@));
        let args = match instantiate_args(self, type_names, types) {
            Some(args) => args,
            None => {
                return None;
            },
        };
        match self.ret_type.try_instantiate(type_names, types) {
            Some(ret_type) => {
                let r = Sig { args, ret_type, type_names: copy_names(&self.type_names) };
                assert(r@.args =~= types_view(r.args@));
                Some(r)
            },
            None => None,
        }
    }

    /// That arguments of the given values fit this signature once its type
    /// parameters are bound to `type_params` (see `SpecSig::matches_types`),
    /// which they must: the answer is always `true`. `check_matches` answers
    /// whether they do.
    pub fn matches(&self, args: &[TypedValue], type_params: &[Type]) -> (r: bool)
        requires
            self@.matches_types(arg_types(values_view(args@)), types_view(type_params@)),
        ensures
            r,
    {
        self.check_matches(args, type_params)
    }

    /// Whether arguments of the given values fit this signature once its type
    /// parameters are bound to `type_params` (see `SpecSig::matches_types`).
    /// This is the checking form of `matches`.
    pub fn check_matches(&self, args: &[TypedValue], type_params: &[Type]) -> (r: bool)
        ensures
            r == self@.matches_types(arg_types(values_view(args@)), types_view(type_params@)),
    {
        let ghost params = types_view(type_params@);
        let ghost want = arg_types(values_view(args@));
        if args.len() != self.args.len() {
            return false;
        }
        let mut i: usize = 0;
        while i < args.len()
            invariant
                args.len() == self.args.len(),
                0 <= i <= args.len(),
                params == types_view(type_params@),
                want == arg_types(values_view(args@)),
                forall|j: int|
                    0 <= j < i ==> #[trigger] self@.args[j].instantiate(self@.type_names, params) == Some(want[j]),
            decreases args.len() - i,
        {
            assert(self@.args[i as int] == self.args@[i as int]@);
            assert(want[i as int] == args@[i as int].val_type@);
            match self.args[i].try_instantiate(&self.type_names, type_params) {
                Some(t) => {
                    if !type_eq(&args[i].val_type, &t) {
                        assert(self@.args[i as int].instantiate(self@.type_names, params) != Some(want[i as int]));
                        return false;
                    }
                },
                None => {
                    assert(self@.args[i as int].instantiate(self@.type_names, params) != Some(want[i as int]));
                    return false;
                },
            }
            i = i + 1;
        }
        true
    }
}

/// The types of a sequence of typed values.
pub open spec fn arg_types(s: Seq<SpecTypedValue>) -> Seq<SpecType> {
    Seq::new(s.len(), |i: int| s[i].val_type)
}

/// If some prefix of a sequence of types cannot be instantiated, neither can
/// the whole sequence.
proof fn lemma_instantiate_all_prefix(s: Seq<SpecType>, names: Seq<Seq<char>>, types: Seq<SpecType>, k: int)
    requires
        0 <= k <= s.len(),
        instantiate_all(s.take(k), names, types) is None,
    ensures
        instantiate_all(s, names, types) is None,
    decreases s.len(),
{
    if k < s.len() {
        assert(s.drop_last().take(k) =~= s.take(k));
        lemma_instantiate_all_prefix(s.drop_last(), names, types, k);
    } else {
        assert(s.take(k) =~= s);
    }
}

/// Each argument type of `sig` instantiated (see `instantiate_all`).
pub fn instantiate_args(sig: &Sig, type_names: &[String], types: &[Type]) -> (r: Option<Vec<Type>>)
    ensures
        match r {
            Some(v) => instantiate_all(sig@.args, names_view(type_names@), types_view(types@)) == Some(types_view(v@)),
            None => instantiate_all(sig@.args, names_view(type_names@), types_view(types@)) is None,
        },
    decreases sig, 0int,
{
    assert(sig@.args =~= types_view(sig.args@));
    let ghost names = names_view(type_names@);
    let ghost params = types_view(types@);
    let ghost all = types_view(sig.args@);
    let mut out: Vec<Type> = Vec::new();
    let mut i: usize = 0;
    assert(all.take(0) =~= Seq::<SpecType>::empty());
    assert(types_view(out@) =~= Seq::<SpecType>::empty());
    while i < sig.args.len()
        invariant
            0 <= i <= sig.args.len(),
            names == names_view(type_names@),
            params == types_view(types@),
            all == types_view(sig.args@),
            all == sig@.args,
            instantiate_all(all.take(i as int), names, params) == Some(types_view(out@)),
        decreases sig.args.len() - i,
    {
        assert(all.take(i as int + 1).drop_last() =~= all.take(i as int));
        assert(all.take(i as int + 1).last() == sig.args@[i as int]@);
        proof {
            assert(decreases_to!(sig.args => sig.args@));
            assert(decreases_to!(sig => sig.args@[i as int]));
        }
        match sig.args[i].try_instantiate(type_names, types) {
            Some(t) => {
                let ghost old_out = out@;
                out.push(t);
                assert(types_view(out@) =~= types_view(old_out).push(t@));
            },
            None => {
                proof {
                    lemma_instantiate_all_prefix(all, names, params, i as int + 1);
                }
                return None;
            },
        }
        i = i + 1;
    }
    assert(all.take(i as int) =~= all);
    Some(out)
}

/// The models of a sequence of named values (struct constructions).
pub open spec fn named_values_view(s: Seq<(String, TypedValue)>) -> Seq<(Seq<char>, SpecTypedValue)> {
    Seq::new(s.len(), |i: int| (s[i].0@, s[i].1@))
}

/// The model of a call expression.
pub proof fn lemma_call_view(name: String, args: Vec<TypedValue>)
    ensures
        (ValueSource::FunctionCall { name, args })@ == (SpecValueSource::FunctionCall {
            name: name@,
            args: values_view(args@),
        }),
{
    let v = ValueSource::FunctionCall { name, args };
    match v@ {
        SpecValueSource::FunctionCall { name: n, args: a } => {
            assert(a =~= values_view(args@));
        },
        _ => {},
    }
}

/// The model of a list literal.
pub proof fn lemma_list_view(values: Vec<TypedValue>)
    ensures
        (ValueSource::ListLiteral(values))@ == SpecValueSource::ListLiteral(values_view(values@)),
{
    let v = ValueSource::ListLiteral(values);
    match v@ {
        SpecValueSource::ListLiteral(a) => {
            assert(a =~= values_view(values@));
        },
        _ => {},
    }
}

/// The model of a struct construction.
pub proof fn lemma_struct_con_view(items: Vec<(String, TypedValue)>)
    ensures
        (ValueSource::StructConstruction(items))@ == SpecValueSource::StructConstruction(named_values_view(items@)),
{
    let v = ValueSource::StructConstruction(items);
    match v@ {
        SpecValueSource::StructConstruction(a) => {
            assert(a =~= named_values_view(items@));
        },
        _ => {},
    }
}

/// The model of a function definition.
pub proof fn lemma_fun_def_view(def: FunDefinition)
    ensures
        def@ == (SpecFunDefinition {
            args: members_view(def.args@),
            statements: statements_view(def.statements@),
            type_params: names_view(def.type_params@),
        }),
{
    assert(def@.statements =~= statements_view(def.statements@));
}

/// The types of named arguments.
pub open spec fn member_types(m: Seq<(Seq<char>, SpecType)>) -> Seq<SpecType> {
    Seq::new(m.len(), |i: int| m[i].1)
}

/// Copies of the types of named arguments.
pub fn member_types_of(m: &Vec<(String, Type)>) -> (r: Vec<Type>)
    ensures
        types_view(r@) == member_types(members_view(m@)),
{
    let mut r: Vec<Type> = Vec::new();
    let mut i: usize = 0;
    while i < m.len()
        invariant
            0 <= i <= m.len(),
            types_view(r@) =~= member_types(members_view(m@)).take(i as int),
        decreases m.len() - i,
    {
        let t = copy_type(&m[i].1);
        let ghost old_r = r@;
        r.push(t);
        assert(types_view(r@) =~= types_view(old_r).push(t@));
        assert(member_types(members_view(m@)).take(i as int + 1) =~= member_types(members_view(m@)).take(i as int).push(
            m@[i as int].1@,
        ));
        i = i + 1;
    }
    assert(member_types(members_view(m@)).take(i as int) =~= member_types(members_view(m@)));
    r
}

/// A copy of a vector of strings.
pub fn copy_names_vec(names: &Vec<String>) -> (r: Vec<String>)
    ensures
        names_view(r@) == names_view(names@),
{
    copy_names(names.as_slice())
}

} // verus!
