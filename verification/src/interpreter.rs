//! Running a program: a tree-walking interpreter over the statements that
//! the parser builds.
use vstd::prelude::*;

use crate::ast::{lemma_call_view, lemma_fun_def_view, lemma_list_view, lemma_struct_con_view, members_view, named_values_view, statements_view, values_view, FunDefinition, SpecFunDefinition, SpecStatement, SpecTypedValue, SpecValueSource, Statement, Type, TypedValue, ValueSource};
use crate::parser::{name_add, name_index, name_subtract};
use crate::text::{assoc_get, find_key, keys_of, lemma_lookup, spec_keys, string_of};

verus! {

/// The identity of an object in the interpreter's store.
#[derive(Clone, Copy, Debug, PartialEq, Eq, Structural)]
pub struct RuntimeID(pub usize);

/// A value at run time: a number, a reference to an object, or nothing.
#[derive(Clone, Copy, Debug, PartialEq, Eq, Structural)]
pub enum RuntimeValue {
    Number(isize),
    Object(RuntimeID),
    Nothing,
}

/// An object in the store: a list, a struct's named fields, or a function
/// (by name).
#[derive(Debug, Clone)]
pub enum RuntimeObject {
    List(Vec<RuntimeValue>),
    Struct(Vec<(String, RuntimeValue)>),
    Function(String),
}

/// What a `print` call writes, item by item: a number, or an object as it
/// is at that moment.
#[derive(Debug, Clone)]
pub enum Printed {
    Number(isize),
    Object(RuntimeObject),
}

/// The model of a `RuntimeObject`.
pub enum SpecRuntimeObject {
    List(Seq<RuntimeValue>),
    Struct(Seq<(Seq<char>, RuntimeValue)>),
    Function(Seq<char>),
}

/// The model of a `Printed` item.
pub enum SpecPrinted {
    Number(isize),
    Object(SpecRuntimeObject),
}

/// The models of named values.
pub open spec fn fields_view(s: Seq<(String, RuntimeValue)>) -> Seq<(Seq<char>, RuntimeValue)> {
    Seq::new(s.len(), |i: int| (s[i].0@, s[i].1))
}

impl View for RuntimeObject {
    type V = SpecRuntimeObject;

    open spec fn view(&self) -> SpecRuntimeObject {
        match self {
            RuntimeObject::List(l) => SpecRuntimeObject::List(l@),
            RuntimeObject::Struct(f) => SpecRuntimeObject::Struct(fields_view(f@)),
            RuntimeObject::Function(n) => SpecRuntimeObject::Function(n@),
        }
    }
}

impl View for Printed {
    type V = SpecPrinted;

    open spec fn view(&self) -> SpecPrinted {
        match self {
            Printed::Number(n) => SpecPrinted::Number(*n),
            Printed::Object(o) => SpecPrinted::Object(o@),
        }
    }
}

/// The models of printed items.
pub open spec fn printed_view(s: Seq<Printed>) -> Seq<SpecPrinted> {
    Seq::new(s.len(), |i: int| s[i]@)
}

#[verifier::ext_equal]
/// The model of the interpreter's state: the functions defined, the
/// variables with their values, the object store (an object's identity is
/// its position) and what has been printed.
pub struct RunState {
    pub functions: Seq<(Seq<char>, SpecFunDefinition)>,
    pub vars: Seq<(Seq<char>, RuntimeValue)>,
    pub values: Seq<SpecRuntimeObject>,
    pub output: Seq<SpecPrinted>,
}

impl RunState {
    /// The state a program starts in: nothing defined, stored or printed.
    pub open spec fn empty() -> RunState {
        RunState { functions: Seq::empty(), vars: Seq::empty(), values: Seq::empty(), output: Seq::empty() }
    }

    /// The object with identity `id`, if the store holds one.
    pub open spec fn object(self, id: RuntimeID) -> Option<SpecRuntimeObject> {
        if id.0 < self.values.len() {
            Some(self.values[id.0 as int])
        } else {
            None
        }
    }

    /// The object `o` stored under the next identity, and a reference to it.
    pub open spec fn add_object(self, o: SpecRuntimeObject) -> (Option<RuntimeValue>, RunState) {
        (
            Some(RuntimeValue::Object(RuntimeID(self.values.len() as usize))),
            RunState { values: self.values.push(o), ..self },
        )
    }

    /// The variable `name` set to `v`; `None` where it exists already.
    pub open spec fn declare_var(self, name: Seq<char>, v: RuntimeValue) -> Option<RunState> {
        if assoc_get(self.vars, name) is Some {
            None
        } else {
            Some(RunState { vars: self.vars.push((name, v)), ..self })
        }
    }

    /// The function `name` defined as `def`; `None` where one of that name
    /// exists already.
    pub open spec fn declare_function(self, name: Seq<char>, def: SpecFunDefinition) -> Option<RunState> {
        if assoc_get(self.functions, name) is Some {
            None
        } else {
            Some(RunState { functions: self.functions.push((name, def)), ..self })
        }
    }

    /// The function that a call of `name` runs: the function of that name,
    /// or else the function that the variable `name` refers to.
    pub open spec fn lookup_function(self, name: Seq<char>) -> Option<SpecFunDefinition> {
        match assoc_get(self.functions, name) {
            Some(f) => Some(f),
            None => match assoc_get(self.vars, name) {
                Some(RuntimeValue::Object(id)) => match self.object(id) {
                    Some(SpecRuntimeObject::Function(fname)) => assoc_get(self.functions, fname),
                    _ => None,
                },
                _ => None,
            },
        }
    }

    /// Whether `self` holds everything of `earlier` (functions, variables
    /// and objects only ever get added).
    pub open spec fn extends(self, earlier: RunState) -> bool {
        &&& earlier.functions.len() <= self.functions.len()
        &&& self.functions.take(earlier.functions.len() as int) == earlier.functions
        &&& earlier.vars.len() <= self.vars.len()
        &&& self.vars.take(earlier.vars.len() as int) == earlier.vars
        &&& earlier.values.len() <= self.values.len()
        &&& self.values.take(earlier.values.len() as int) == earlier.values
    }
}

pub open spec fn name_print() -> Seq<char> {
    seq!['p', 'r', 'i', 'n', 't']
}

/// The state after printing `vals[i..]`, and whether that succeeded: each
/// number is printed; each reference prints the object it refers to, which
/// must exist; `Nothing` cannot be printed.
pub open spec fn spec_print_from(vals: Seq<RuntimeValue>, i: int, st: RunState) -> (bool, RunState)
    decreases vals.len() - i,
{
    if i < 0 || i >= vals.len() {
        (true, st)
    } else {
        match vals[i] {
            RuntimeValue::Number(n) => spec_print_from(
                vals,
                i + 1,
                RunState { output: st.output.push(SpecPrinted::Number(n)), ..st },
            ),
            RuntimeValue::Object(id) => match st.object(id) {
                Some(o) => spec_print_from(vals, i + 1, RunState { output: st.output.push(SpecPrinted::Object(o)), ..st }),
                None => (false, st),
            },
            RuntimeValue::Nothing => (false, st),
        }
    }
}

/// The state with the arguments of a call bound: `params[k]` to `vals[k]`
/// for each `k` from `i` that both have; `None` where a name is taken.
pub open spec fn spec_bind_args(params: Seq<(Seq<char>, crate::ast::SpecType)>, vals: Seq<RuntimeValue>, i: int, st: RunState) -> Option<RunState>
    decreases params.len() - i,
{
    if i < 0 || i >= params.len() || i >= vals.len() {
        Some(st)
    } else {
        match st.declare_var(params[i].0, vals[i]) {
            Some(st1) => spec_bind_args(params, vals, i + 1, st1),
            None => None,
        }
    }
}

/// The value of a number within the range of `isize`.
pub open spec fn checked_number(x: int) -> Option<RuntimeValue> {
    if isize::MIN <= x <= isize::MAX {
        Some(RuntimeValue::Number(x as isize))
    } else {
        None
    }
}

/// Running the statements `stmts[i..]`: the value of the first `ret`, or
/// `Nothing` at the end. Every value statement must give `Nothing`; a
/// variable or function must not be defined twice. The state comes back
/// too; where running fails (`None`) only its output counts. Nesting deeper
/// than `fuel` fails.
pub open spec fn spec_exec_from(stmts: Seq<SpecStatement>, i: int, st: RunState, fuel: nat) -> (Option<RuntimeValue>, RunState)
    decreases fuel, stmts.len() - i,
{
    if i < 0 || i >= stmts.len() {
        (Some(RuntimeValue::Nothing), st)
    } else if fuel == 0 {
        (None, st)
    } else {
        match stmts[i] {
            SpecStatement::Value(v) => match spec_calc_value(v, st, (fuel - 1) as nat) {
                (Some(r), st1) => if r == RuntimeValue::Nothing {
                    spec_exec_from(stmts, i + 1, st1, fuel)
                } else {
                    (None, st1)
                },
                (None, st1) => (None, st1),
            },
            SpecStatement::VarDefinition(name, v) => match spec_calc_value(v, st, (fuel - 1) as nat) {
                (Some(r), st1) => match st1.declare_var(name, r) {
                    Some(st2) => spec_exec_from(stmts, i + 1, st2, fuel),
                    None => (None, st1),
                },
                (None, st1) => (None, st1),
            },
            SpecStatement::FunDefinition(name, def) => match st.declare_function(name, def) {
                Some(st1) => spec_exec_from(stmts, i + 1, st1, fuel),
                None => (None, st),
            },
            SpecStatement::Ret(v) => spec_calc_value(v, st, (fuel - 1) as nat),
            SpecStatement::StructDefinition(_, _) => spec_exec_from(stmts, i + 1, st, fuel),
        }
    }
}

/// The value of an expression (see the cases), and the state after it.
pub open spec fn spec_calc_value(v: SpecTypedValue, st: RunState, fuel: nat) -> (Option<RuntimeValue>, RunState)
    decreases fuel, 0int,
{
    if fuel == 0 {
        (None, st)
    } else {
        match v.val_source {
            SpecValueSource::FunctionCall { name, args } => match spec_calc_args(args, 0, st, Seq::empty(), (fuel - 1) as nat) {
                (Some(vals), st1) => spec_apply(name, vals, st1, (fuel - 1) as nat),
                (None, st1) => (None, st1),
            },
            SpecValueSource::StructConstruction(items) => match spec_calc_fields(
                items,
                0,
                st,
                Seq::empty(),
                (fuel - 1) as nat,
            ) {
                (Some(fields), st1) => st1.add_object(SpecRuntimeObject::Struct(fields)),
                (None, st1) => (None, st1),
            },
            SpecValueSource::MemberAccess { name, item } => match spec_calc_value(*item, st, (fuel - 1) as nat) {
                (Some(RuntimeValue::Object(id)), st1) => match st1.object(id) {
                    Some(SpecRuntimeObject::Struct(fields)) => match assoc_get(fields, name) {
                        Some(x) => (Some(x), st1),
                        None => (None, st1),
                    },
                    _ => (None, st1),
                },
                (_, st1) => (None, st1),
            },
            SpecValueSource::NumberLiteral(x) => (Some(RuntimeValue::Number(x)), st),
            SpecValueSource::ListLiteral(values) => match spec_calc_args(values, 0, st, Seq::empty(), (fuel - 1) as nat) {
                (Some(vals), st1) => st1.add_object(SpecRuntimeObject::List(vals)),
                (None, st1) => (None, st1),
            },
            SpecValueSource::Variable(name) => match assoc_get(st.vars, name) {
                Some(x) => (Some(x), st),
                None => (None, st),
            },
            SpecValueSource::Function(name) => st.add_object(SpecRuntimeObject::Function(name)),
            SpecValueSource::Nothing => (Some(RuntimeValue::Nothing), st),
        }
    }
}

/// The values of `args[i..]` in order, after those in `acc`.
pub open spec fn spec_calc_args(
    args: Seq<SpecTypedValue>,
    i: int,
    st: RunState,
    acc: Seq<RuntimeValue>,
    fuel: nat,
) -> (Option<Seq<RuntimeValue>>, RunState)
    decreases fuel, args.len() - i,
{
    if i < 0 || i >= args.len() {
        (Some(acc), st)
    } else {
        match spec_calc_value(args[i], st, fuel) {
            (Some(v), st1) => spec_calc_args(args, i + 1, st1, acc.push(v), fuel),
            (None, st1) => (None, st1),
        }
    }
}

/// The fields of a struct construction `items[i..]` in order, after those
/// in `acc`.
pub open spec fn spec_calc_fields(
    items: Seq<(Seq<char>, SpecTypedValue)>,
    i: int,
    st: RunState,
    acc: Seq<(Seq<char>, RuntimeValue)>,
    fuel: nat,
) -> (Option<Seq<(Seq<char>, RuntimeValue)>>, RunState)
    decreases fuel, items.len() - i,
{
    if i < 0 || i >= items.len() {
        (Some(acc), st)
    } else {
        match spec_calc_value(items[i].1, st, fuel) {
            (Some(v), st1) => spec_calc_fields(items, i + 1, st1, acc.push((items[i].0, v)), fuel),
            (None, st1) => (None, st1),
        }
    }
}

/// A call of `name` with the argument values `vals`: the built-in `print`,
/// `add`, `subtract` (which fail on overflow) and `index` (`Nothing` out of
/// range), or else a defined function, run on a copy of the state with its
/// arguments bound; only what it prints is kept.
pub open spec fn spec_apply(name: Seq<char>, vals: Seq<RuntimeValue>, st: RunState, fuel: nat) -> (Option<RuntimeValue>, RunState)
    decreases fuel, 0int,
{
    if name == name_print() {
        match spec_print_from(vals, 0, st) {
            (true, st1) => (Some(RuntimeValue::Nothing), st1),
            (false, st1) => (None, st1),
        }
    } else if name == name_add() {
        if vals.len() == 2 && vals[0] is Number && vals[1] is Number {
            (checked_number(vals[0]->Number_0 + vals[1]->Number_0), st)
        } else {
            (None, st)
        }
    } else if name == name_subtract() {
        if vals.len() == 2 && vals[0] is Number && vals[1] is Number {
            (checked_number(vals[0]->Number_0 - vals[1]->Number_0), st)
        } else {
            (None, st)
        }
    } else if name == name_index() {
        if vals.len() == 2 && vals[0] is Object && vals[1] is Number {
            match st.object(vals[0]->Object_0) {
                Some(SpecRuntimeObject::List(list)) => {
                    let y = vals[1]->Number_0;
                    if 0 <= y < list.len() {
                        (Some(list[y as int]), st)
                    } else {
                        (Some(RuntimeValue::Nothing), st)
                    }
                },
                _ => (None, st),
            }
        } else {
            (None, st)
        }
    } else if fuel == 0 {
        (None, st)
    } else {
        match st.lookup_function(name) {
            Some(f) => match spec_bind_args(f.args, vals, 0, st) {
                Some(st1) => match spec_exec_from(f.statements, 0, st1, (fuel - 1) as nat) {
                    (Some(r), st2) => (Some(r), RunState { output: st2.output, ..st }),
                    (None, st2) => (None, st2),
                },
                None => (None, st),
            },
            None => (None, st),
        }
    }
}

/// The greatest nesting of evaluation that a run allows.
pub open spec fn max_depth() -> nat {
    u64::MAX as nat
}

/// What running a program prints, and whether it runs to its end with the
/// value `Nothing`.
pub open spec fn spec_top_level_exec(stmts: Seq<SpecStatement>) -> (Seq<SpecPrinted>, bool) {
    let (r, st) = spec_exec_from(stmts, 0, RunState::empty(), max_depth());
    (st.output, r == Some(RuntimeValue::Nothing))
}

/// Whether a run's result and final state agree with the model's: the
/// same result, the same state where it succeeds, the same output always.
pub open spec fn agrees<T>(r: Option<T>, fin: RunState, model: (Option<T>, RunState)) -> bool {
    &&& r == model.0
    &&& r is Some ==> fin == model.1
    &&& fin.output == model.1.output
}

/// The interpreter's state (see `RunState`). Functions are the definitions
/// in the program, borrowed from it.
#[derive(Clone)]
pub struct State<'a> {
    functions: Vec<(String, &'a FunDefinition)>,
    vars: Vec<(String, RuntimeValue)>,
    values: Vec<RuntimeObject>,
    output: Vec<Printed>,
}

/// The models of the defined functions.
pub open spec fn functions_view<'a>(s: Seq<(String, &'a FunDefinition)>) -> Seq<(Seq<char>, SpecFunDefinition)> {
    Seq::new(s.len(), |i: int| (s[i].0@, s[i].1@))
}

/// The models of stored objects.
pub open spec fn objects_view(s: Seq<RuntimeObject>) -> Seq<SpecRuntimeObject> {
    Seq::new(s.len(), |i: int| s[i]@)
}

impl<'a> View for State<'a> {
    type V = RunState;

    closed spec fn view(&self) -> RunState {
        RunState {
            functions: functions_view(self.functions@),
            vars: fields_view(self.vars@),
            values: objects_view(self.values@),
            output: printed_view(self.output@),
        }
    }
}

/// A copy of an object.
fn copy_object(o: &RuntimeObject) -> (r: RuntimeObject)
    ensures
        r@ == o@,
{
    match o {
        RuntimeObject::List(l) => {
            let mut v: Vec<RuntimeValue> = Vec::new();
            let mut i: usize = 0;
            while i < l.len()
                invariant
                    0 <= i <= l.len(),
                    v@ == l@.take(i as int),
                decreases l.len() - i,
            {
                v.push(l[i]);
                assert(l@.take(i as int + 1) =~= l@.take(i as int).push(l@[i as int]));
                i = i + 1;
            }
            assert(l@.take(i as int) =~= l@);
            RuntimeObject::List(v)
        },
        RuntimeObject::Struct(f) => {
            let mut v: Vec<(String, RuntimeValue)> = Vec::new();
            let mut i: usize = 0;
            while i < f.len()
                invariant
                    0 <= i <= f.len(),
                    fields_view(v@) =~= fields_view(f@).take(i as int),
                decreases f.len() - i,
            {
                let item = (f[i].0.clone(), f[i].1);
                let ghost old_v = v@;
                v.push(item);
                assert(fields_view(v@) =~= fields_view(old_v).push((item.0@, item.1)));
                assert(fields_view(f@).take(i as int + 1) =~= fields_view(f@).take(i as int).push(fields_view(f@)[i as int]));
                i = i + 1;
            }
            assert(fields_view(f@).take(i as int) =~= fields_view(f@));
            RuntimeObject::Struct(v)
        },
        RuntimeObject::Function(n) => RuntimeObject::Function(n.clone()),
    }
}

impl<'a> Default for State<'a> {
    /// The state a program starts in: nothing defined, stored or printed.
    fn default() -> (r: Self)
        ensures
            r@ == RunState::empty(),
    {
        State::new()
    }
}

impl<'a> State<'a> {
    /// The state a program starts in.
    pub fn new() -> (r: State<'a>)
        ensures
            r@ == RunState::empty(),
    {
        let r = State { functions: Vec::new(), vars: Vec::new(), values: Vec::new(), output: Vec::new() };
        assert(r@ =~= RunState::empty());
        r
    }

    /// Stores `object` under the next identity and returns a reference to it.
    pub fn add_object(&mut self, object: RuntimeObject) -> (r: RuntimeValue)
        ensures
            (Some(r), final(self)@) == old(self)@.add_object(object@),
            final(self)@.extends(old(self)@),
    {
        let index = RuntimeID(self.values.len());
        let ghost ov = object@;
        self.values.push(object);
        assert(self@ =~= old(self)@.add_object(ov).1);
        proof {
            assert(self@.values.drop_last() =~= old(self)@.values);
            lemma_extends_push(old(self)@, self@);
        }
        RuntimeValue::Object(index)
    }

    /// The object with identity `id`, if the store holds one.
    fn object(&self, id: RuntimeID) -> (r: Option<&RuntimeObject>)
        ensures
            opt_object_view(r) == self@.object(id),
    {
        if id.0 < self.values.len() {
            Some(&self.values[id.0])
        } else {
            None
        }
    }

    /// The value of the variable `name`.
    fn var(&self, name: &String) -> (r: Option<RuntimeValue>)
        ensures
            r == assoc_get(self@.vars, name@),
    {
        assert(keys_of(self.vars@) =~= spec_keys(self@.vars));
        proof {
            lemma_lookup(keys_of(self.vars@), self@.vars, name@);
        }
        match find_key(&self.vars, name) {
            Some(k) => Some(self.vars[k].1),
            None => None,
        }
    }

    /// The function named `name`.
    fn function(&self, name: &String) -> (r: Option<&'a FunDefinition>)
        ensures
            match r {
                Some(f) => assoc_get(self@.functions, name@) == Some(f@),
                None => assoc_get(self@.functions, name@) is None,
            },
    {
        assert(keys_of(self.functions@) =~= spec_keys(self@.functions));
        proof {
            lemma_lookup(keys_of(self.functions@), self@.functions, name@);
        }
        match find_key(&self.functions, name) {
            Some(k) => Some(self.functions[k].1),
            None => None,
        }
    }

    /// The function that a call of `name` runs (see
    /// `RunState::lookup_function`).
    fn lookup_function(&self, name: &String) -> (r: Option<&'a FunDefinition>)
        ensures
            match r {
                Some(f) => self@.lookup_function(name@) == Some(f@),
                None => self@.lookup_function(name@) is None,
            },
    {
        if let Some(f) = self.function(name) {
            return Some(f);
        }
        match self.var(name) {
            Some(RuntimeValue::Object(id)) => match self.object(id) {
                Some(RuntimeObject::Function(fname)) => self.function(fname),
                _ => None,
            },
            _ => None,
        }
    }

    /// Sets the new variable `name` to `v` (see `RunState::declare_var`).
    fn declare_var(&mut self, name: String, v: RuntimeValue) -> (ok: bool)
        ensures
            ok == old(self)@.declare_var(name@, v) is Some,
            ok ==> final(self)@ == old(self)@.declare_var(name@, v).unwrap(),
            ok ==> final(self)@.extends(old(self)@),
            !ok ==> final(self)@ == old(self)@,
    {
        if self.var(&name).is_some() {
            return false;
        }
        let ghost item = (name@, v);
        self.vars.push((name, v));
        assert(self@ =~= old(self)@.declare_var(item.0, v).unwrap());
        proof {
            assert(self@.vars.drop_last() =~= old(self)@.vars);
            lemma_extends_push(old(self)@, self@);
        }
        true
    }

    /// Defines the new function `name` (see `RunState::declare_function`).
    fn declare_function(&mut self, name: String, def: &'a FunDefinition) -> (ok: bool)
        ensures
            ok == old(self)@.declare_function(name@, def@) is Some,
            ok ==> final(self)@ == old(self)@.declare_function(name@, def@).unwrap(),
            ok ==> final(self)@.extends(old(self)@),
            !ok ==> final(self)@ == old(self)@,
    {
        if self.function(&name).is_some() {
            return false;
        }
        let ghost n = name@;
        self.functions.push((name, def));
        assert(self@ =~= old(self)@.declare_function(n, def@).unwrap());
        proof {
            assert(self@.functions.drop_last() =~= old(self)@.functions);
            lemma_extends_push(old(self)@, self@);
        }
        true
    }

    /// Prints `vals` (see `spec_print_from`).
    fn print_values(&mut self, vals: &Vec<RuntimeValue>) -> (ok: bool)
        ensures
            (ok, final(self)@) == spec_print_from(vals@, 0, old(self)@),
            final(self)@.functions == old(self)@.functions,
            final(self)@.vars == old(self)@.vars,
            final(self)@.values == old(self)@.values,
    {
        let mut i: usize = 0;
        while i < vals.len()
            invariant
                0 <= i <= vals.len(),
                spec_print_from(vals@, 0, old(self)@) == spec_print_from(vals@, i as int, self@),
                self@.functions == old(self)@.functions,
                self@.vars == old(self)@.vars,
                self@.values == old(self)@.values,
            decreases vals.len() - i,
        {
            match vals[i] {
                RuntimeValue::Number(n) => {
                    let ghost before = self@;
                    self.output.push(Printed::Number(n));
                    assert(self@ =~= RunState { output: before.output.push(SpecPrinted::Number(n)), ..before });
                },
                RuntimeValue::Object(id) => {
                    let o = match self.object(id) {
                        Some(o) => copy_object(o),
                        None => {
                            return false;
                        },
                    };
                    let ghost before = self@;
                    let ghost ov = o@;
                    self.output.push(Printed::Object(o));
                    assert(self@ =~= RunState { output: before.output.push(SpecPrinted::Object(ov)), ..before });
                },
                RuntimeValue::Nothing => {
                    return false;
                },
            }
            i = i + 1;
        }
        true
    }

    /// Binds the arguments of a call (see `spec_bind_args`).
    fn bind_args(&mut self, params: &Vec<(String, Type)>, vals: &Vec<RuntimeValue>) -> (ok: bool)
        ensures
            ok == spec_bind_args(members_view(params@), vals@, 0, old(self)@) is Some,
            ok ==> Some(final(self)@) == spec_bind_args(members_view(params@), vals@, 0, old(self)@),
            ok ==> final(self)@.extends(old(self)@),
            final(self)@.output == old(self)@.output,
    {
        let ghost ps = members_view(params@);
        let mut i: usize = 0;
        proof {
            lemma_extends_refl(self@);
        }
        while i < params.len() && i < vals.len()
            invariant
                0 <= i <= params.len(),
                ps == members_view(params@),
                spec_bind_args(ps, vals@, 0, old(self)@) == spec_bind_args(ps, vals@, i as int, self@),
                self@.extends(old(self)@),
                self@.output == old(self)@.output,
            decreases params.len() - i,
        {
            let ghost before = self@;
            if !self.declare_var(params[i].0.clone(), vals[i]) {
                return false;
            }
            proof {
                lemma_extends_trans(old(self)@, before, self@);
            }
            i = i + 1;
        }
        true
    }
}

/// Every state holds all of itself.
pub proof fn lemma_extends_refl(a: RunState)
    ensures
        a.extends(a),
{
    assert(a.functions.take(a.functions.len() as int) =~= a.functions);
    assert(a.vars.take(a.vars.len() as int) =~= a.vars);
    assert(a.values.take(a.values.len() as int) =~= a.values);
}

/// Holding all of a state is transitive.
pub proof fn lemma_extends_trans(a: RunState, b: RunState, c: RunState)
    requires
        b.extends(a),
        c.extends(b),
    ensures
        c.extends(a),
{
    assert(c.functions.take(a.functions.len() as int) =~= b.functions.take(a.functions.len() as int));
    assert(c.vars.take(a.vars.len() as int) =~= b.vars.take(a.vars.len() as int));
    assert(c.values.take(a.values.len() as int) =~= b.values.take(a.values.len() as int));
}

/// A state with items added at the ends of its sequences holds all of the
/// earlier one.
pub proof fn lemma_extends_push(a: RunState, b: RunState)
    requires
        b.functions == a.functions || (b.functions.len() == a.functions.len() + 1 && b.functions.drop_last() == a.functions),
        b.vars == a.vars || (b.vars.len() == a.vars.len() + 1 && b.vars.drop_last() == a.vars),
        b.values == a.values || (b.values.len() == a.values.len() + 1 && b.values.drop_last() == a.values),
    ensures
        b.extends(a),
{
    assert(b.functions.take(a.functions.len() as int) =~= a.functions);
    assert(b.vars.take(a.vars.len() as int) =~= a.vars);
    assert(b.values.take(a.values.len() as int) =~= a.values);
}

/// The model of optional values.
pub open spec fn opt_vals(r: Option<Vec<RuntimeValue>>) -> Option<Seq<RuntimeValue>> {
    match r {
        Some(v) => Some(v@),
        None => None,
    }
}

/// The model of optional fields.
pub open spec fn opt_fields(r: Option<Vec<(String, RuntimeValue)>>) -> Option<Seq<(Seq<char>, RuntimeValue)>> {
    match r {
        Some(v) => Some(fields_view(v@)),
        None => None,
    }
}

/// The models of an optional object.
pub open spec fn opt_object_view(r: Option<&RuntimeObject>) -> Option<SpecRuntimeObject> {
    match r {
        Some(o) => Some(o@),
        None => None,
    }
}

impl<'a> State<'a> {
    /// How many functions, variables and objects the state holds.
    fn sizes(&self) -> (r: (usize, usize, usize))
        ensures
            r.0 == self@.functions.len(),
            r.1 == self@.vars.len(),
            r.2 == self@.values.len(),
    {
        (self.functions.len(), self.vars.len(), self.values.len())
    }

    /// Drops the functions, variables and objects added after the first
    /// `nf`, `nv` and `nvals`; keeps the output.
    fn restore(&mut self, nf: usize, nv: usize, nvals: usize)
        requires
            nf <= old(self)@.functions.len(),
            nv <= old(self)@.vars.len(),
            nvals <= old(self)@.values.len(),
        ensures
            final(self)@ == (RunState {
                functions: old(self)@.functions.take(nf as int),
                vars: old(self)@.vars.take(nv as int),
                values: old(self)@.values.take(nvals as int),
                output: old(self)@.output,
            }),
    {
        self.functions.truncate(nf);
        self.vars.truncate(nv);
        self.values.truncate(nvals);
        assert(self@ =~= (RunState {
            functions: old(self)@.functions.take(nf as int),
            vars: old(self)@.vars.take(nv as int),
            values: old(self)@.values.take(nvals as int),
            output: old(self)@.output,
        }));
    }
}

/// Runs statements (see `spec_exec_from`) with at most `fuel` levels of
/// nesting: the value of the first `ret`, or `Nothing`; `None` where the run
/// fails. This is the checking form of `exec`.
#[verifier::loop_isolation(false)]
fn try_exec<'a>(statements: &'a Vec<Statement>, state: &mut State<'a>, fuel: u64) -> (r: Option<RuntimeValue>)
    ensures
        agrees(r, final(state)@, spec_exec_from(statements_view(statements@), 0, old(state)@, fuel as nat)),
        r is Some ==> final(state)@.extends(old(state)@),
    decreases fuel, 0int,
{
    let ghost ss = statements_view(statements@);
    let ghost st0 = state@;
    let mut i: usize = 0;
    proof {
        lemma_extends_refl(st0);
    }
    while i < statements.len()
        invariant
            0 <= i <= statements.len(),
            ss == statements_view(statements@),
            spec_exec_from(ss, 0, st0, fuel as nat) == spec_exec_from(ss, i as int, state@, fuel as nat),
            state@.extends(st0),
        decreases statements.len() - i,
    {
        if fuel == 0 {
            return None;
        }
        assert(ss[i as int] == statements@[i as int]@);
        let ghost before = state@;
        match &statements[i] {
            Statement::Value(v) => {
                match try_calc_value(v, state, fuel - 1) {
                    Some(r) => {
                        if !matches!(r, RuntimeValue::Nothing) {
                            return None;
                        }
                    },
                    None => {
                        return None;
                    },
                }
            },
            Statement::VarDefinition(name, v) => {
                let r = match try_calc_value(v, state, fuel - 1) {
                    Some(r) => r,
                    None => {
                        return None;
                    },
                };
                let ghost mid = state@;
                if !state.declare_var(name.clone(), r) {
                    return None;
                }
                proof {
                    lemma_extends_trans(before, mid, state@);
                }
            },
            Statement::FunDefinition(name, def) => {
                if !state.declare_function(name.clone(), def) {
                    return None;
                }
            },
            Statement::Ret(v) => {
                let r = try_calc_value(v, state, fuel - 1);
                proof {
                    if r is Some {
                        lemma_extends_trans(st0, before, state@);
                    }
                }
                return r;
            },
            Statement::StructDefinition(_, _) => {
                proof {
                    lemma_extends_refl(before);
                }
            },
        }
        proof {
            lemma_extends_trans(st0, before, state@);
        }
        i = i + 1;
    }
    Some(RuntimeValue::Nothing)
}

/// The value of an expression (see `spec_calc_value`) with at most `fuel`
/// levels of nesting; `None` where computing it fails. This is the checking
/// form of `calc_value`.
fn try_calc_value<'a>(value: &TypedValue, state: &mut State<'a>, fuel: u64) -> (r: Option<RuntimeValue>)
    ensures
        agrees(r, final(state)@, spec_calc_value(value@, old(state)@, fuel as nat)),
        r is Some ==> final(state)@.extends(old(state)@),
    decreases fuel, 1int,
{
    if fuel == 0 {
        return None;
    }
    let ghost st0 = state@;
    match &value.val_source {
        ValueSource::FunctionCall { name, args } => {
            proof {
                lemma_call_view(*name, *args);
            }
            let vals = match calc_args(args, state, fuel - 1) {
                Some(v) => v,
                None => {
                    return None;
                },
            };
            let ghost mid = state@;
            let r = apply(name, &vals, state, fuel - 1);
            proof {
                if r is Some {
                    lemma_extends_trans(st0, mid, state@);
                }
            }
            r
        },
        ValueSource::StructConstruction(items) => {
            proof {
                lemma_struct_con_view(*items);
            }
            let fields = match calc_fields(items, state, fuel - 1) {
                Some(f) => f,
                None => {
                    return None;
                },
            };
            let ghost mid = state@;
            let r = state.add_object(RuntimeObject::Struct(fields));
            proof {
                lemma_extends_trans(st0, mid, state@);
            }
            Some(r)
        },
        ValueSource::MemberAccess { name, item } => {
            let r = match try_calc_value(item, state, fuel - 1) {
                Some(r) => r,
                None => {
                    return None;
                },
            };
            match r {
                RuntimeValue::Object(id) => match state.object(id) {
                    Some(RuntimeObject::Struct(fields)) => {
                        assert(keys_of(fields@) =~= spec_keys(fields_view(fields@)));
                        proof {
                            lemma_lookup(keys_of(fields@), fields_view(fields@), name@);
                        }
                        match find_key(fields, name) {
                            Some(k) => Some(fields[k].1),
                            None => None,
                        }
                    },
                    _ => None,
                },
                _ => None,
            }
        },
        ValueSource::NumberLiteral(x) => {
            proof {
                lemma_extends_refl(st0);
            }
            Some(RuntimeValue::Number(*x))
        },
        ValueSource::ListLiteral(values) => {
            proof {
                lemma_list_view(*values);
            }
            let vals = match calc_args(values, state, fuel - 1) {
                Some(v) => v,
                None => {
                    return None;
                },
            };
            let ghost mid = state@;
            let r = state.add_object(RuntimeObject::List(vals));
            proof {
                lemma_extends_trans(st0, mid, state@);
            }
            Some(r)
        },
        ValueSource::Variable(name) => {
            proof {
                lemma_extends_refl(st0);
            }
            state.var(name)
        },
        ValueSource::Function(name) => Some(state.add_object(RuntimeObject::Function(name.clone()))),
        ValueSource::Nothing => {
            proof {
                lemma_extends_refl(st0);
            }
            Some(RuntimeValue::Nothing)
        },
    }
}

/// The values of expressions in order (see `spec_calc_args`).
#[verifier::loop_isolation(false)]
fn calc_args<'a>(args: &Vec<TypedValue>, state: &mut State<'a>, fuel: u64) -> (r: Option<Vec<RuntimeValue>>)
    ensures
        agrees(opt_vals(r), final(state)@, spec_calc_args(values_view(args@), 0, old(state)@, Seq::empty(), fuel as nat)),
        r is Some ==> final(state)@.extends(old(state)@),
    decreases fuel, 2int,
{
    let ghost a = values_view(args@);
    let ghost st0 = state@;
    let mut vals: Vec<RuntimeValue> = Vec::new();
    let mut i: usize = 0;
    proof {
        lemma_extends_refl(st0);
    }
    while i < args.len()
        invariant
            0 <= i <= args.len(),
            a == values_view(args@),
            spec_calc_args(a, 0, st0, Seq::empty(), fuel as nat) == spec_calc_args(a, i as int, state@, vals@, fuel as nat),
            state@.extends(st0),
        decreases args.len() - i,
    {
        let ghost before = state@;
        let v = match try_calc_value(&args[i], state, fuel) {
            Some(v) => v,
            None => {
                return None;
            },
        };
        vals.push(v);
        proof {
            lemma_extends_trans(st0, before, state@);
        }
        i = i + 1;
    }
    Some(vals)
}

/// The fields of a struct construction in order (see `spec_calc_fields`).
#[verifier::loop_isolation(false)]
fn calc_fields<'a>(items: &Vec<(String, TypedValue)>, state: &mut State<'a>, fuel: u64) -> (r: Option<Vec<(String, RuntimeValue)>>)
    ensures
        agrees(
            opt_fields(r),
            final(state)@,
            spec_calc_fields(named_values_view(items@), 0, old(state)@, Seq::empty(), fuel as nat),
        ),
        r is Some ==> final(state)@.extends(old(state)@),
    decreases fuel, 2int,
{
    let ghost a = named_values_view(items@);
    let ghost st0 = state@;
    let mut fields: Vec<(String, RuntimeValue)> = Vec::new();
    let mut i: usize = 0;
    proof {
        lemma_extends_refl(st0);
    }
    assert(fields_view(fields@) =~= Seq::<(Seq<char>, RuntimeValue)>::empty());
    while i < items.len()
        invariant
            0 <= i <= items.len(),
            a == named_values_view(items@),
            spec_calc_fields(a, 0, st0, Seq::empty(), fuel as nat) == spec_calc_fields(
                a,
                i as int,
                state@,
                fields_view(fields@),
                fuel as nat,
            ),
            state@.extends(st0),
        decreases items.len() - i,
    {
        let ghost before = state@;
        let v = match try_calc_value(&items[i].1, state, fuel) {
            Some(v) => v,
            None => {
                return None;
            },
        };
        let ghost old_fields = fields@;
        let item = (items[i].0.clone(), v);
        fields.push(item);
        assert(fields_view(fields@) =~= fields_view(old_fields).push((item.0@, v)));
        proof {
            lemma_extends_trans(st0, before, state@);
        }
        i = i + 1;
    }
    Some(fields)
}

/// A call of `name` with the argument values `vals` (see `spec_apply`).
fn apply<'a>(name: &String, vals: &Vec<RuntimeValue>, state: &mut State<'a>, fuel: u64) -> (r: Option<RuntimeValue>)
    ensures
        agrees(r, final(state)@, spec_apply(name@, vals@, old(state)@, fuel as nat)),
        r is Some ==> final(state)@.extends(old(state)@),
    decreases fuel, 0int,
{
    let ghost st0 = state@;
    proof {
        lemma_extends_refl(st0);
    }
    if *name == string_of(&['p', 'r', 'i', 'n', 't']) {
        if state.print_values(vals) {
            proof {
                assert(state@.functions.take(st0.functions.len() as int) =~= st0.functions);
                assert(state@.vars.take(st0.vars.len() as int) =~= st0.vars);
                assert(state@.values.take(st0.values.len() as int) =~= st0.values);
            }
            Some(RuntimeValue::Nothing)
        } else {
            None
        }
    } else if *name == string_of(&['a', 'd', 'd']) {
        if vals.len() != 2 {
            return None;
        }
        match (vals[0], vals[1]) {
            (RuntimeValue::Number(x), RuntimeValue::Number(y)) => match x.checked_add(y) {
                Some(z) => Some(RuntimeValue::Number(z)),
                None => None,
            },
            _ => None,
        }
    } else if *name == string_of(&['s', 'u', 'b', 't', 'r', 'a', 'c', 't']) {
        if vals.len() != 2 {
            return None;
        }
        match (vals[0], vals[1]) {
            (RuntimeValue::Number(x), RuntimeValue::Number(y)) => match x.checked_sub(y) {
                Some(z) => Some(RuntimeValue::Number(z)),
                None => None,
            },
            _ => None,
        }
    } else if *name == string_of(&['i', 'n', 'd', 'e', 'x']) {
        if vals.len() != 2 {
            return None;
        }
        match (vals[0], vals[1]) {
            (RuntimeValue::Object(x), RuntimeValue::Number(y)) => match state.object(x) {
                Some(RuntimeObject::List(list)) => {
                    if y < 0 {
                        Some(RuntimeValue::Nothing)
                    } else if (y as usize) < list.len() {
                        Some(list[y as usize])
                    } else {
                        Some(RuntimeValue::Nothing)
                    }
                },
                _ => None,
            },
            _ => None,
        }
    } else if fuel == 0 {
        None
    } else {
        let f = match state.lookup_function(name) {
            Some(f) => f,
            None => {
                return None;
            },
        };
        let (nf, nv, nvals) = state.sizes();
        if !state.bind_args(&f.args, vals) {
            return None;
        }
        let ghost bound = state@;
        proof {
            lemma_fun_def_view(*f);
        }
        match try_exec(&f.statements, state, fuel - 1) {
            Some(r) => {
                proof {
                    lemma_extends_trans(st0, bound, state@);
                }
                state.restore(nf, nv, nvals);
                assert(state@ =~= RunState { output: state@.output, ..st0 });
                Some(r)
            },
            None => None,
        }
    }
}

/// Runs a program: what it prints, and whether it runs to its end with the
/// value `Nothing` (see `spec_top_level_exec`). This is the checking form of
/// `top_level_exec`: where the run fails, the output is what was printed
/// before.
pub fn try_top_level_exec(statements: &Vec<Statement>) -> (r: (Vec<Printed>, bool))
    ensures
        (printed_view(r.0@), r.1) == spec_top_level_exec(statements_view(statements@)),
{
    let mut state = State::new();
    let res = try_exec(statements, &mut state, u64::MAX);
    let ok = matches!(res, Some(RuntimeValue::Nothing));
    let ghost fin = state@;
    let output = state.output;
    assert(printed_view(output@) == fin.output);
    (output, ok)
}

/// Runs statements (see `spec_exec_from`): the value of the first `ret`, or
/// `Nothing`. The run must succeed: each value statement gives `Nothing`, no
/// variable or function is defined twice, each name read is defined, and
/// each built-in gets the values it takes.
pub fn exec<'a>(statements: &'a Vec<Statement>, state: &mut State<'a>) -> (r: RuntimeValue)
    requires
        spec_exec_from(statements_view(statements@), 0, old(state)@, max_depth()).0 is Some,
    ensures
        (Some(r), final(state)@) == spec_exec_from(statements_view(statements@), 0, old(state)@, max_depth()),
{
    match try_exec(statements, state, u64::MAX) {
        Some(r) => r,
        None => RuntimeValue::Nothing,
    }
}

/// Runs a program and returns what it prints (see `spec_top_level_exec`).
/// The run must succeed and end with the value `Nothing`; where it may not,
/// `try_top_level_exec` runs it and says whether it did.
pub fn top_level_exec(statements: &Vec<Statement>) -> (r: Vec<Printed>)
    requires
        spec_top_level_exec(statements_view(statements@)).1,
    ensures
        printed_view(r@) == spec_top_level_exec(statements_view(statements@)).0,
{
    try_top_level_exec(statements).0
}

/// The value of an expression (see `spec_calc_value`), and `state` as it
/// leaves it. Computing it must succeed: each name read is defined, `add`
/// and `subtract` get two numbers and a result that fits, `index` gets a
/// list and a number, `print` gets no `Nothing` and only objects that exist,
/// and each function called runs without failing.
pub fn calc_value<'a>(value: &TypedValue, state: &mut State<'a>) -> (r: RuntimeValue)
    requires
        spec_calc_value(value@, old(state)@, max_depth()).0 is Some,
    ensures
        (Some(r), final(state)@) == spec_calc_value(value@, old(state)@, max_depth()),
{
    match try_calc_value(value, state, u64::MAX) {
        Some(r) => r,
        None => RuntimeValue::Nothing,
    }
}

} // verus!
