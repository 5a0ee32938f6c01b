//! What the parser knows while it reads a program: the variables of each
//! scope, the type parameters in force, the functions and the structs.
use vstd::prelude::*;

use crate::ast::{copy_members, members_view, opt_view, SpecSig, SpecType, Sig, Type};
use crate::text::{assoc_get, find_key, keys_of, lemma_find_name, lemma_lookup, names_view, position, spec_keys, string_of};

verus! {

/// One scope: its variables with their types, and its type parameters.
#[derive(Debug)]
pub struct SubState {
    var_to_id: Vec<(String, Type)>,
    type_params: Vec<String>,
}

/// The parser's knowledge: a stack of scopes (innermost last), the
/// signatures of the functions, the members of the structs, and the structs
/// whose definition is being read.
#[derive(Debug)]
pub struct State {
    states: Vec<SubState>,
    function_to_sig: Vec<(String, Sig)>,
    struct_def: Vec<(String, Vec<(String, Type)>)>,
    inprogress: Vec<String>,
}

/// The model of a `SubState`.
pub struct SpecSubState {
    pub var_to_id: Seq<(Seq<char>, SpecType)>,
    pub type_params: Seq<Seq<char>>,
}

/// The model of a `State`.
pub struct SpecState {
    pub states: Seq<SpecSubState>,
    pub function_to_sig: Seq<(Seq<char>, SpecSig)>,
    pub struct_def: Seq<(Seq<char>, Seq<(Seq<char>, SpecType)>)>,
    pub inprogress: Seq<Seq<char>>,
}

impl View for SubState {
    type V = SpecSubState;

    closed spec fn view(&self) -> SpecSubState {
        SpecSubState { var_to_id: members_view(self.var_to_id@), type_params: names_view(self.type_params@) }
    }
}

/// The models of the signatures of an association list.
pub open spec fn sigs_view(s: Seq<(String, Sig)>) -> Seq<(Seq<char>, SpecSig)> {
    Seq::new(s.len(), |i: int| (s[i].0@, s[i].1@))
}

/// The models of the members of an association list of structs.
pub open spec fn structs_view(s: Seq<(String, Vec<(String, Type)>)>) -> Seq<(Seq<char>, Seq<(Seq<char>, SpecType)>)> {
    Seq::new(s.len(), |i: int| (s[i].0@, members_view(s[i].1@)))
}

impl View for State {
    type V = SpecState;

    closed spec fn view(&self) -> SpecState {
        SpecState {
            states: Seq::new(self.states@.len(), |i: int| self.states@[i]@),
            function_to_sig: sigs_view(self.function_to_sig@),
            struct_def: structs_view(self.struct_def@),
            inprogress: names_view(self.inprogress@),
        }
    }
}

/// The type of the variable `name` in the innermost of `states` that has it.
pub open spec fn var_type_in(states: Seq<SpecSubState>, name: Seq<char>) -> Option<SpecType>
    decreases states.len(),
{
    if states.len() == 0 {
        None
    } else {
        match assoc_get(states.last().var_to_id, name) {
            Some(t) => Some(t),
            None => var_type_in(states.drop_last(), name),
        }
    }
}

/// The signatures of the built-in functions.
pub open spec fn builtin_sigs() -> Seq<(Seq<char>, SpecSig)> {
    let index_type = seq!['I', 'n', 'd', 'e', 'x', 'T', 'y', 'p', 'e'];
    let print_type = seq!['P', 'r', 'i', 'n', 't', 'T', 'y', 'p', 'e'];
    seq![
        (
            seq!['a', 'd', 'd'],
            SpecSig { args: seq![SpecType::Int, SpecType::Int], ret_type: SpecType::Int, type_names: seq![] },
        ),
        (
            seq!['s', 'u', 'b', 't', 'r', 'a', 'c', 't'],
            SpecSig { args: seq![SpecType::Int, SpecType::Int], ret_type: SpecType::Int, type_names: seq![] },
        ),
        (
            seq!['i', 'n', 'd', 'e', 'x'],
            SpecSig {
                args: seq![SpecType::List(Box::new(SpecType::TypeVar(index_type))), SpecType::Int],
                ret_type: SpecType::TypeVar(index_type),
                type_names: seq![index_type],
            },
        ),
        (
            seq!['p', 'r', 'i', 'n', 't'],
            SpecSig {
                args: seq![SpecType::TypeVar(print_type)],
                ret_type: SpecType::Nothing,
                type_names: seq![print_type],
            },
        ),
    ]
}

impl SpecSubState {
    pub open spec fn empty() -> SpecSubState {
        SpecSubState { var_to_id: Seq::empty(), type_params: Seq::empty() }
    }
}

impl SpecState {
    /// The state a program is read in: one empty scope and the built-in
    /// functions.
    pub open spec fn initial() -> SpecState {
        SpecState {
            states: seq![SpecSubState::empty()],
            function_to_sig: builtin_sigs(),
            struct_def: Seq::empty(),
            inprogress: Seq::empty(),
        }
    }

    /// The type of the variable `name`, looked up from the innermost scope
    /// outwards.
    pub open spec fn var_type(self, name: Seq<char>) -> Option<SpecType> {
        var_type_in(self.states, name)
    }

    /// The signature of the function `name`, or else of the variable `name`
    /// where it has a function type.
    pub open spec fn get_sig(self, name: Seq<char>) -> Option<SpecSig> {
        match assoc_get(self.function_to_sig, name) {
            Some(sig) => Some(sig),
            None => match self.var_type(name) {
                Some(SpecType::Function(sig)) => Some(*sig),
                _ => None,
            },
        }
    }

    /// The members of the struct `name`.
    pub open spec fn struct_members(self, name: Seq<char>) -> Option<Seq<(Seq<char>, SpecType)>> {
        assoc_get(self.struct_def, name)
    }

    /// The type that the name `name` stands for: a defined struct, a type
    /// parameter of the innermost scope, or the struct being defined.
    pub open spec fn name_to_type(self, name: Seq<char>) -> Option<SpecType>
        recommends
            self.states.len() > 0,
    {
        if self.struct_members(name) is Some {
            Some(SpecType::StructName(name))
        } else if self.states.last().type_params.contains(name) {
            Some(SpecType::TypeVar(name))
        } else if self.inprogress.contains(name) {
            Some(SpecType::StructName(name))
        } else {
            None
        }
    }

    /// A new innermost scope, empty.
    pub open spec fn push(self) -> SpecState {
        SpecState { states: self.states.push(SpecSubState::empty()), ..self }
    }

    /// The innermost scope removed.
    pub open spec fn pop(self) -> SpecState {
        SpecState { states: self.states.drop_last(), ..self }
    }

    /// The innermost scope replaced.
    pub open spec fn with_last(self, sub: SpecSubState) -> SpecState {
        SpecState { states: self.states.update(self.states.len() - 1, sub), ..self }
    }

    /// The variable `name` of type `t` added to the innermost scope; `None`
    /// where that scope has it already.
    pub open spec fn declare_var(self, name: Seq<char>, t: SpecType) -> Option<SpecState> {
        let last = self.states.last();
        if assoc_get(last.var_to_id, name) is Some {
            None
        } else {
            Some(self.with_last(SpecSubState { var_to_id: last.var_to_id.push((name, t)), ..last }))
        }
    }

    /// The type parameter `name` added to the innermost scope; `None` where
    /// that scope has it already.
    pub open spec fn declare_type_param(self, name: Seq<char>) -> Option<SpecState> {
        let last = self.states.last();
        if last.type_params.contains(name) {
            None
        } else {
            Some(self.with_last(SpecSubState { type_params: last.type_params.push(name), ..last }))
        }
    }

    /// The function `name` with signature `sig` added; `None` where a
    /// function of that name exists.
    pub open spec fn declare_function(self, name: Seq<char>, sig: SpecSig) -> Option<SpecState> {
        if assoc_get(self.function_to_sig, name) is Some {
            None
        } else {
            Some(SpecState { function_to_sig: self.function_to_sig.push((name, sig)), ..self })
        }
    }

    /// The struct `name` marked as being defined; `None` where it is already.
    pub open spec fn begin_struct(self, name: Seq<char>) -> Option<SpecState> {
        if self.inprogress.contains(name) {
            None
        } else {
            Some(SpecState { inprogress: self.inprogress.push(name), ..self })
        }
    }

    /// The struct `name`, the one last marked as being defined, no longer
    /// being defined, and defined with the given members; `None` where a
    /// struct of that name is defined already.
    pub open spec fn end_struct(self, name: Seq<char>, members: Seq<(Seq<char>, SpecType)>) -> Option<SpecState>
        recommends
            self.inprogress.len() > 0,
            self.inprogress.last() == name,
    {
        if assoc_get(self.struct_def, name) is Some {
            None
        } else {
            Some(SpecState {
                inprogress: self.inprogress.drop_last(),
                struct_def: self.struct_def.push((name, members)),
                ..self
            })
        }
    }
}

/// Whether the strings of `names` hold `x`.
fn contains_name(names: &Vec<String>, x: &String) -> (r: bool)
    ensures
        r == names_view(names@).contains(x@),
{
    proof {
        lemma_find_name(names_view(names@), x@);
    }
    position(names.as_slice(), x).is_some()
}

impl SubState {
    /// An empty scope.
    pub fn empty() -> (r: SubState)
        ensures
            r@ == SpecSubState::empty(),
    {
        let r = SubState { var_to_id: Vec::new(), type_params: Vec::new() };
        assert(r@.var_to_id =~= Seq::empty());
        assert(r@.type_params =~= Seq::empty());
        r
    }
}

impl Default for SubState {
    /// An empty scope.
    fn default() -> (r: Self)
        ensures
            r@ == SpecSubState::empty(),
    {
        SubState::empty()
    }
}

impl Default for State {
    /// A state with nothing in it: no scope, function or struct.
    fn default() -> (r: Self)
        ensures
            r@ == (SpecState {
                states: Seq::empty(),
                function_to_sig: Seq::empty(),
                struct_def: Seq::empty(),
                inprogress: Seq::empty(),
            }),
    {
        let r = State { states: Vec::new(), function_to_sig: Vec::new(), struct_def: Vec::new(), inprogress: Vec::new() };
        assert(r@.states =~= Seq::<SpecSubState>::empty());
        assert(r@.function_to_sig =~= Seq::<(Seq<char>, SpecSig)>::empty());
        assert(r@.struct_def =~= Seq::<(Seq<char>, Seq<(Seq<char>, SpecType)>)>::empty());
        assert(r@.inprogress =~= Seq::<Seq<char>>::empty());
        r
    }
}

impl State {
    /// The parser's state is usable: there is an innermost scope.
    pub open spec fn wf(&self) -> bool {
        self@.states.len() > 0
    }

    /// The state a program is read in (see `SpecState::initial`).
    pub fn new() -> (r: State)
        ensures
            r@ == SpecState::initial(),
            r.wf(),
    {
        let mut function_to_sig: Vec<(String, Sig)> = Vec::new();
        function_to_sig.push((
            string_of(&['a', 'd', 'd']),
            Sig { args: vec![Type::Int, Type::Int], ret_type: Type::Int, type_names: Vec::new() },
        ));
        function_to_sig.push((
            string_of(&['s', 'u', 'b', 't', 'r', 'a', 'c', 't']),
            Sig { args: vec![Type::Int, Type::Int], ret_type: Type::Int, type_names: Vec::new() },
        ));
        let item_type = Type::TypeVar(string_of(&['I', 'n', 'd', 'e', 'x', 'T', 'y', 'p', 'e']));
        let ghost item_view = item_type@;
        let list_type = Type::List(Box::new(item_type));
        assert(list_type@ == SpecType::List(Box::new(item_view)));
        function_to_sig.push((
            string_of(&['i', 'n', 'd', 'e', 'x']),
            Sig {
                args: vec![list_type, Type::Int],
                ret_type: Type::TypeVar(string_of(&['I', 'n', 'd', 'e', 'x', 'T', 'y', 'p', 'e'])),
                type_names: vec![string_of(&['I', 'n', 'd', 'e', 'x', 'T', 'y', 'p', 'e'])],
            },
        ));
        function_to_sig.push((
            string_of(&['p', 'r', 'i', 'n', 't']),
            Sig {
                args: vec![Type::TypeVar(string_of(&['P', 'r', 'i', 'n', 't', 'T', 'y', 'p', 'e']))],
                ret_type: Type::Nothing,
                type_names: vec![string_of(&['P', 'r', 'i', 'n', 't', 'T', 'y', 'p', 'e'])],
            },
        ));
        let r = State {
            states: vec![SubState::empty()],
            function_to_sig,
            struct_def: Vec::new(),
            inprogress: Vec::new(),
        };
        proof {
            let fs = r@.function_to_sig;
            let bs = builtin_sigs();
            assert(fs.len() == 4);
            assert(fs[0].1.args =~= bs[0].1.args);
            assert(fs[0].1.type_names =~= bs[0].1.type_names);
            assert(fs[0].0 =~= bs[0].0);
            assert(fs[1].1.args =~= bs[1].1.args);
            assert(fs[1].1.type_names =~= bs[1].1.type_names);
            assert(fs[1].0 =~= bs[1].0);
            assert(fs[2].1.args =~= bs[2].1.args);
            assert(fs[2].1.type_names =~= bs[2].1.type_names);
            assert(fs[2].0 =~= bs[2].0);
            assert(fs[3].1.args =~= bs[3].1.args);
            assert(fs[3].1.type_names =~= bs[3].1.type_names);
            assert(fs[3].0 =~= bs[3].0);
            assert(fs =~= bs);
            assert(r@.states =~= seq![SpecSubState::empty()]);
            assert(r@.struct_def =~= Seq::empty());
            assert(r@.inprogress =~= Seq::empty());
        }
        r
    }

    /// The type of the variable `name`, from the innermost scope outwards.
    pub fn var_to_id(&self, name: &String) -> (r: Option<&Type>)
        ensures
            opt_view(r) == self@.var_type(name@),
    {
        let ghost model = self@.states;
        let mut i: usize = self.states.len();
        assert(model.take(i as int) =~= model);
        while i > 0
            invariant
                i <= self.states.len(),
                model == self@.states,
                var_type_in(model, name@) == var_type_in(model.take(i as int), name@),
            decreases i,
        {
            let sub = &self.states[i - 1];
            let ghost pre = model.take(i as int);
            assert(pre.drop_last() =~= model.take(i - 1));
            assert(pre.last() == sub@);
            assert(keys_of(sub.var_to_id@) =~= spec_keys(sub@.var_to_id));
            proof {
                lemma_lookup(keys_of(sub.var_to_id@), sub@.var_to_id, name@);
            }
            match find_key(&sub.var_to_id, name) {
                Some(k) => {
                    return Some(&sub.var_to_id[k].1);
                },
                None => {},
            }
            i = i - 1;
        }
        None
    }

    /// The signature of the function `name` (not of a variable).
    pub fn function_sig(&self, name: &String) -> (r: Option<&Sig>)
        ensures
            opt_view(r) == assoc_get(self@.function_to_sig, name@),
    {
        assert(keys_of(self.function_to_sig@) =~= spec_keys(self@.function_to_sig));
        proof {
            lemma_lookup(keys_of(self.function_to_sig@), self@.function_to_sig, name@);
        }
        match find_key(&self.function_to_sig, name) {
            Some(k) => Some(&self.function_to_sig[k].1),
            None => None,
        }
    }

    /// The signature that a call of `name` uses (see `SpecState::get_sig`).
    pub fn get_sig(&self, name: &String) -> (r: Option<&Sig>)
        ensures
            opt_view(r) == self@.get_sig(name@),
    {
        if let Some(sig) = self.function_sig(name) {
            Some(sig)
        } else if let Some(Type::Function(sig)) = self.var_to_id(name) {
            Some(&**sig)
        } else {
            None
        }
    }

    /// The members of the struct `struct_name`.
    pub fn id_to_struct(&self, struct_name: &String) -> (r: Option<&[(String, Type)]>)
        ensures
            match r {
                Some(m) => self@.struct_members(struct_name@) == Some(members_view(m@)),
                None => self@.struct_members(struct_name@) is None,
            },
    {
        assert(keys_of(self.struct_def@) =~= spec_keys(self@.struct_def));
        proof {
            lemma_lookup(keys_of(self.struct_def@), self@.struct_def, struct_name@);
        }
        match find_key(&self.struct_def, struct_name) {
            Some(k) => Some(self.struct_def[k].1.as_slice()),
            None => None,
        }
    }

    /// The type that `tname` stands for (see `SpecState::name_to_type`).
    pub fn name_to_type(&self, tname: &String) -> (r: Option<Type>)
        requires
            self.wf(),
        ensures
            opt_view(r) == self@.name_to_type(tname@),
    {
        if self.id_to_struct(tname).is_some() {
            Some(Type::StructName(tname.clone()))
        } else if contains_name(&self.states[self.states.len() - 1].type_params, tname) {
            Some(Type::TypeVar(tname.clone()))
        } else if contains_name(&self.inprogress, tname) {
            Some(Type::StructName(tname.clone()))
        } else {
            None
        }
    }

    /// Opens a new innermost scope.
    pub fn push(&mut self)
        ensures
            final(self)@ == old(self)@.push(),
    {
        self.states.push(SubState::empty());
        assert(self@.states =~= old(self)@.push().states);
    }

    /// Closes the innermost scope and hands it back.
    pub fn pop(&mut self) -> (r: SubState)
        requires
            old(self).wf(),
        ensures
            final(self)@ == old(self)@.pop(),
            r@ == old(self)@.states.last(),
    {
        let r = self.states.pop().unwrap();
        assert(self@.states =~= old(self)@.pop().states);
        r
    }

    /// Adds the variable `name` of type `t` to the innermost scope, where
    /// that scope does not have it yet (see `SpecState::declare_var`).
    pub fn declare_var(&mut self, name: String, t: Type) -> (ok: bool)
        requires
            old(self).wf(),
        ensures
            ok == old(self)@.declare_var(name@, t@) is Some,
            ok ==> final(self)@ == old(self)@.declare_var(name@, t@).unwrap(),
            final(self).wf(),
    {
        let mut last = self.states.pop().unwrap();
        let ghost prev = last@;
        assert(keys_of(last.var_to_id@) =~= spec_keys(last@.var_to_id));
        proof {
            lemma_lookup(keys_of(last.var_to_id@), last@.var_to_id, name@);
        }
        let found = find_key(&last.var_to_id, &name).is_some();
        if !found {
            let ghost item = (name@, t@);
            last.var_to_id.push((name, t));
            assert(last@.var_to_id =~= prev.var_to_id.push(item));
        }
        self.states.push(last);
        assert(self@.states =~= old(self)@.states.update(old(self)@.states.len() - 1, last@));
        !found
    }

    /// Adds the type parameter `name` to the innermost scope, where that
    /// scope does not have it yet (see `SpecState::declare_type_param`).
    pub fn declare_type_param(&mut self, name: String) -> (ok: bool)
        requires
            old(self).wf(),
        ensures
            ok == old(self)@.declare_type_param(name@) is Some,
            ok ==> final(self)@ == old(self)@.declare_type_param(name@).unwrap(),
            final(self).wf(),
    {
        let mut last = self.states.pop().unwrap();
        let ghost prev = last@;
        let found = contains_name(&last.type_params, &name);
        if !found {
            let ghost item = name@;
            last.type_params.push(name);
            assert(last@.type_params =~= prev.type_params.push(item));
        }
        self.states.push(last);
        assert(self@.states =~= old(self)@.states.update(old(self)@.states.len() - 1, last@));
        !found
    }

    /// Adds the function `name` with signature `sig`, where no function of
    /// that name exists (see `SpecState::declare_function`).
    pub fn declare_function(&mut self, name: String, sig: Sig) -> (ok: bool)
        ensures
            ok == old(self)@.declare_function(name@, sig@) is Some,
            ok ==> final(self)@ == old(self)@.declare_function(name@, sig@).unwrap(),
            !ok ==> final(self)@ == old(self)@,
            final(self)@.states == old(self)@.states,
    {
        assert(keys_of(self.function_to_sig@) =~= spec_keys(self@.function_to_sig));
        proof {
            lemma_lookup(keys_of(self.function_to_sig@), self@.function_to_sig, name@);
        }
        if find_key(&self.function_to_sig, &name).is_some() {
            return false;
        }
        let ghost item = (name@, sig@);
        self.function_to_sig.push((name, sig));
        assert(self@.function_to_sig =~= old(self)@.function_to_sig.push(item));
        assert(self@.states =~= old(self)@.states);
        true
    }

    /// Marks the struct `name` as being defined, where it is not already
    /// (see `SpecState::begin_struct`).
    pub fn begin_struct(&mut self, name: String) -> (ok: bool)
        ensures
            ok == old(self)@.begin_struct(name@) is Some,
            ok ==> final(self)@ == old(self)@.begin_struct(name@).unwrap(),
            final(self)@.states == old(self)@.states,
    {
        if contains_name(&self.inprogress, &name) {
            return false;
        }
        let ghost item = name@;
        self.inprogress.push(name);
        assert(self@.inprogress =~= old(self)@.inprogress.push(item));
        assert(self@.states =~= old(self)@.states);
        true
    }

    /// Ends the definition of the struct `name`, the one last marked, and
    /// defines it with the given members where no struct of that name exists
    /// (see `SpecState::end_struct`).
    pub fn end_struct(&mut self, name: String, members: &Vec<(String, Type)>) -> (ok: bool)
        requires
            old(self)@.inprogress.len() > 0,
            old(self)@.inprogress.last() == name@,
        ensures
            ok == old(self)@.end_struct(name@, members_view(members@)) is Some,
            ok ==> final(self)@ == old(self)@.end_struct(name@, members_view(members@)).unwrap(),
            final(self)@.states == old(self)@.states,
    {
        assert(keys_of(self.struct_def@) =~= spec_keys(self@.struct_def));
        proof {
            lemma_lookup(keys_of(self.struct_def@), self@.struct_def, name@);
        }
        if find_key(&self.struct_def, &name).is_some() {
            return false;
        }
        self.inprogress.pop();
        let ghost item = (name@, members_view(members@));
        self.struct_def.push((name, copy_members(members)));
        assert(self@.inprogress =~= old(self)@.inprogress.drop_last());
        assert(self@.struct_def =~= old(self)@.struct_def.push(item));
        assert(self@.states =~= old(self)@.states);
        true
    }
}

} // verus!
