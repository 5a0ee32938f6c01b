//! Properties of the tokenizer, the parser and the interpreter that hold
//! for all inputs.
use vstd::prelude::*;

use crate::ast::{arg_types, each_var_all, instantiate_all, SpecFunDefinition, SpecSig, SpecStatement, SpecType, SpecTypedValue, SpecValueSource};
use crate::interpreter::{lemma_extends_refl, lemma_extends_trans, spec_apply, spec_bind_args, spec_calc_args, spec_calc_fields, spec_calc_value, spec_exec_from, spec_print_from, checked_number, RunState, RuntimeID, RuntimeValue, SpecRuntimeObject};
use crate::parser::{spec_parse_filled_types, spec_parse_generic_call, spec_parse_type_list, spec_parse_type_params, advanced, advanced3, declare_type_params, spec_parse_block, spec_parse_call_args, spec_parse_function_call, spec_parse_fun, spec_parse_fun_args, spec_parse_fun_type_params, spec_parse_postfix, spec_parse_primary, spec_parse_members, spec_parse_statement, spec_parse_struct, spec_parse_type, spec_parse_value, reached, tok_at};
use crate::scope::{var_type_in, SpecState, SpecSubState};
use crate::text::{assoc_get, find_name, lemma_find_name, spec_keys};
use crate::token::{flush_word, is_blank, is_digit, punct_token, is_word_char, lemma_lex_rejects_extension, lex, lex_step, spec_tokenize, word_token, SpecToken};

verus! {

/// A blank at the end of a source text changes none of its tokens.
pub proof fn law_trailing_blank(s: Seq<char>, c: char)
    requires
        is_blank(c),
    ensures
        spec_tokenize(s.push(c)) == spec_tokenize(s),
{
    assert(s.push(c).drop_last() =~= s);
    assert(!is_word_char(c));
}

/// A source text of blanks only (the empty text too) has no tokens.
pub proof fn law_blanks_have_no_tokens(s: Seq<char>)
    requires
        forall|i: int| 0 <= i < s.len() ==> is_blank(#[trigger] s[i]),
    ensures
        spec_tokenize(s) == Some(Seq::<SpecToken>::empty()),
    decreases s.len(),
{
    if s.len() > 0 {
        let p = s.drop_last();
        assert forall|i: int| 0 <= i < p.len() implies is_blank(#[trigger] p[i]) by {
            assert(p[i] == s[i]);
        }
        law_blanks_have_no_tokens(p);
        assert(is_blank(s[s.len() - 1]));
        law_trailing_blank(p, s.last());
        assert(p.push(s.last()) =~= s);
    }
}

proof fn lemma_call_args_types(s: Seq<SpecToken>, p: int, st: SpecState, targets: Seq<SpecType>, acc: Seq<SpecTypedValue>)
    ensures
        spec_parse_call_args(s, p, st, targets, acc) matches Some((args, q)) ==> {
            &&& acc.len() <= args.len()
            &&& args.take(acc.len() as int) == acc
            &&& forall|i: int| acc.len() <= i < args.len() ==> (#[trigger] args[i]).val_type == targets[i]
            &&& tok_at(s, q) == Some(SpecToken::RParens)
        },
    decreases s.len() - p,
{
    match tok_at(s, p) {
        None => {},
        Some(SpecToken::RParens) => {
            assert(acc.take(acc.len() as int) =~= acc);
        },
        Some(_) => {
            if acc.len() < targets.len() {
                law_value_has_target_type(s, p, st, targets[acc.len() as int]);
                if let Some((v, q)) = advanced(spec_parse_value(s, p, st, targets[acc.len() as int]), p, s.len()) {
                    let acc1 = acc.push(v);
                    match tok_at(s, q) {
                        Some(SpecToken::Comma) => lemma_call_args_types(s, q + 1, st, targets, acc1),
                        Some(SpecToken::RParens) => lemma_call_args_types(s, q, st, targets, acc1),
                        _ => {},
                    }
                    if let Some((args, q2)) = spec_parse_call_args(s, p, st, targets, acc) {
                        assert(args.take(acc1.len() as int).take(acc.len() as int) =~= args.take(acc.len() as int));
                        assert(acc1.take(acc.len() as int) =~= acc);
                        assert(args[acc.len() as int] == args.take(acc1.len() as int)[acc.len() as int]);
                    }
                }
            }
        },
    }
}

/// A call's arguments are read only where there are exactly as many as the
/// signature has, each of the type the signature gives at its place; they
/// stand between a `(` and the `)` that ends the call.
pub proof fn law_function_call_args(s: Seq<SpecToken>, p: int, st: SpecState, targets: Seq<SpecType>)
    ensures
        spec_parse_function_call(s, p, st, targets) matches Some((args, q)) ==> {
            &&& args.len() == targets.len()
            &&& forall|i: int| 0 <= i < args.len() ==> (#[trigger] args[i]).val_type == targets[i]
            &&& tok_at(s, p) == Some(SpecToken::LParens)
            &&& p < q <= s.len()
            &&& tok_at(s, q - 1) == Some(SpecToken::RParens)
        },
{
    lemma_call_args_types(s, p + 1, st, targets, Seq::empty());
}

proof fn lemma_var_type_in(states: Seq<SpecSubState>, name: Seq<char>)
    ensures
        var_type_in(states, name) matches Some(t) ==> exists|j: int|
            0 <= j < states.len() && assoc_get(#[trigger] states[j].var_to_id, name) == Some(t) && forall|k: int|
                j < k < states.len() ==> assoc_get(#[trigger] states[k].var_to_id, name) is None,
        var_type_in(states, name) is None ==> forall|j: int|
            0 <= j < states.len() ==> assoc_get(#[trigger] states[j].var_to_id, name) is None,
    decreases states.len(),
{
    if states.len() > 0 {
        let p = states.drop_last();
        let n = states.len() - 1;
        lemma_var_type_in(p, name);
        assert(states.last() == states[n]);
        match assoc_get(states[n].var_to_id, name) {
            Some(t) => {
                assert(0 <= n < states.len() && assoc_get(states[n].var_to_id, name) == Some(t));
            },
            None => {
                if let Some(t) = var_type_in(p, name) {
                    let j = choose|j: int|
                        0 <= j < p.len() && assoc_get(#[trigger] p[j].var_to_id, name) == Some(t) && forall|k: int|
                            j < k < p.len() ==> assoc_get(#[trigger] p[k].var_to_id, name) is None;
                    assert(p[j] == states[j]);
                    assert forall|k: int| j < k < states.len() implies assoc_get(#[trigger] states[k].var_to_id, name) is None by {
                        if k < n {
                            assert(p[k] == states[k]);
                        }
                    }
                } else {
                    assert forall|j: int| 0 <= j < states.len() implies assoc_get(#[trigger] states[j].var_to_id, name) is None by {
                        if j < n {
                            assert(p[j] == states[j]);
                        }
                    }
                }
            },
        }
    }
}

/// A variable's type is the one that the innermost scope binding it gives:
/// an inner binding hides the outer ones; no scope binding it gives none.
pub proof fn law_var_lookup(st: SpecState, name: Seq<char>)
    ensures
        st.var_type(name) matches Some(t) ==> exists|j: int|
            0 <= j < st.states.len() && assoc_get(#[trigger] st.states[j].var_to_id, name) == Some(t) && forall|k: int|
                j < k < st.states.len() ==> assoc_get(#[trigger] st.states[k].var_to_id, name) is None,
        st.var_type(name) is None ==> forall|j: int|
            0 <= j < st.states.len() ==> assoc_get(#[trigger] st.states[j].var_to_id, name) is None,
{
    lemma_var_type_in(st.states, name);
}

/// A character that is part of no token: no word character, no blank and
/// no punctuation.
pub open spec fn foreign_char(c: char) -> bool {
    !is_word_char(c) && !is_blank(c) && punct_token(c) is None
}

/// Whether `s[i..j]` is a maximal run of word characters of `s`.
pub open spec fn word_run(s: Seq<char>, i: int, j: int) -> bool {
    &&& 0 <= i < j <= s.len()
    &&& forall|k: int| i <= k < j ==> is_word_char(#[trigger] s[k])
    &&& (i == 0 || !is_word_char(s[i - 1]))
    &&& (j == s.len() || !is_word_char(s[j]))
}

/// Whether `s[i..j]` is a maximal run of word characters that stands for no
/// token.
pub open spec fn bad_run(s: Seq<char>, i: int, j: int) -> bool {
    word_run(s, i, j) && word_token(s.subrange(i, j)) is None
}

/// The length of the run of word characters that `s` ends with.
spec fn trail_len(s: Seq<char>) -> int
    decreases s.len(),
{
    if s.len() == 0 || !is_word_char(s.last()) {
        0
    } else {
        trail_len(s.drop_last()) + 1
    }
}

spec fn has_foreign(s: Seq<char>) -> bool {
    exists|k: int| 0 <= k < s.len() && foreign_char(#[trigger] s[k])
}

spec fn closed_bad(s: Seq<char>) -> bool {
    exists|i: int, j: int| j < s.len() && #[trigger] bad_run(s, i, j)
}

proof fn lemma_trail(s: Seq<char>)
    ensures
        0 <= trail_len(s) <= s.len(),
        forall|k: int| s.len() - trail_len(s) <= k < s.len() ==> is_word_char(#[trigger] s[k]),
        trail_len(s) < s.len() ==> !is_word_char(s[s.len() - trail_len(s) - 1]),
    decreases s.len(),
{
    if s.len() > 0 && is_word_char(s.last()) {
        let p = s.drop_last();
        lemma_trail(p);
        assert forall|k: int| s.len() - trail_len(s) <= k < s.len() implies is_word_char(#[trigger] s[k]) by {
            if k < s.len() - 1 {
                assert(s[k] == p[k]);
            }
        }
        if trail_len(s) < s.len() {
            assert(s[s.len() - trail_len(s) - 1] == p[p.len() - trail_len(p) - 1]);
        }
    }
}

proof fn lemma_trail_unique(s: Seq<char>, i: int)
    requires
        0 <= i < s.len(),
        forall|k: int| i <= k < s.len() ==> is_word_char(#[trigger] s[k]),
        i == 0 || !is_word_char(s[i - 1]),
    ensures
        i == s.len() - trail_len(s),
{
    lemma_trail(s);
    let t = s.len() - trail_len(s);
    if i < t {
        assert(is_word_char(s[t - 1]));
    } else if i > t {
        assert(is_word_char(s[i - 1]));
    }
}

/// The lexer fails exactly where a foreign character or a closed bad run
/// occurs, and otherwise holds the run of word characters the text ends with.
proof fn lemma_lex_fails(s: Seq<char>)
    ensures
        (lex(s) is Some) == (!has_foreign(s) && !closed_bad(s)),
        lex(s) matches Some((w, t)) ==> w == s.subrange(s.len() - trail_len(s), s.len() as int),
    decreases s.len(),
{
    if s.len() == 0 {
        assert(s.subrange(0, 0) =~= Seq::<char>::empty());
    } else {
        let p = s.drop_last();
        let c = s.last();
        let n = p.len() as int;
        lemma_lex_fails(p);
        lemma_trail(p);
        let tp = trail_len(p);
        let tw = p.subrange(n - tp, n);
        assert(c == s[n]);
        // foreign characters
        if has_foreign(p) {
            let k = choose|k: int| 0 <= k < p.len() && foreign_char(#[trigger] p[k]);
            assert(s[k] == p[k]);
        }
        if foreign_char(c) {
            assert(foreign_char(s[n]));
        }
        if has_foreign(s) {
            let k = choose|k: int| 0 <= k < s.len() && foreign_char(#[trigger] s[k]);
            if k < n {
                assert(s[k] == p[k]);
            }
        }
        assert(has_foreign(s) == (has_foreign(p) || foreign_char(c)));
        // closed bad runs
        let newbad = !is_word_char(c) && tp > 0 && word_token(tw) is None;
        if closed_bad(p) {
            let (i, j) = choose|i: int, j: int| j < p.len() && #[trigger] bad_run(p, i, j);
            assert forall|k: int| i <= k < j implies is_word_char(#[trigger] s[k]) by {
                assert(s[k] == p[k]);
                assert(is_word_char(p[k]));
            }
            assert(s.subrange(i, j) =~= p.subrange(i, j));
            assert(bad_run(s, i, j));
        }
        if newbad {
            let i = n - tp;
            assert forall|k: int| i <= k < n implies is_word_char(#[trigger] s[k]) by {
                assert(s[k] == p[k]);
            }
            assert(s.subrange(i, n) =~= tw);
            assert(bad_run(s, i, n));
        }
        if closed_bad(s) {
            let (i, j) = choose|i: int, j: int| j < s.len() && #[trigger] bad_run(s, i, j);
            assert forall|k: int| i <= k < j implies is_word_char(#[trigger] p[k]) by {
                assert(s[k] == p[k]);
                assert(is_word_char(s[k]));
            }
            assert(s.subrange(i, j) =~= p.subrange(i, j));
            if j < n {
                assert(bad_run(p, i, j));
            } else {
                lemma_trail_unique(p, i);
            }
        }
        assert(closed_bad(s) == (closed_bad(p) || newbad));
        // the pending word
        match lex(p) {
            Some((w, t)) => {
                if is_word_char(c) {
                    assert(s.subrange(s.len() - trail_len(s), s.len() as int) =~= w.push(c));
                } else {
                    assert(s.subrange(s.len() - trail_len(s), s.len() as int) =~= Seq::<char>::empty());
                    if tp > 0 {
                        assert(w.len() > 0);
                    }
                }
            },
            None => {},
        }
    }
}

/// Tokenizing fails exactly where the text holds a character that is part of
/// no token, or a maximal run of word characters that stands for no token;
/// such a run starts with a digit (it is a malformed number, or one too large
/// for an `isize`).
pub proof fn law_tokenize_fails(s: Seq<char>)
    ensures
        spec_tokenize(s) is None <==> (exists|k: int| 0 <= k < s.len() && foreign_char(#[trigger] s[k])) || (exists|
            i: int,
            j: int,
        | #[trigger] bad_run(s, i, j)),
        forall|w: Seq<char>| #[trigger] word_token(w) is None ==> w.len() > 0 && is_digit(w[0]),
{
    lemma_lex_fails(s);
    lemma_trail(s);
    let n = s.len() as int;
    if let Some((w, t)) = lex(s) {
        let tl = trail_len(s);
        if w.len() > 0 && word_token(w) is None {
            assert(bad_run(s, n - tl, n));
        }
        if exists|i: int, j: int| #[trigger] bad_run(s, i, j) {
            let (i, j) = choose|i: int, j: int| #[trigger] bad_run(s, i, j);
            if j < n {
                assert(closed_bad(s));
            } else {
                lemma_trail_unique(s, i);
            }
        }
    }
}

/// Reading only word characters gathers them all into the pending word and
/// yields no token.
proof fn lemma_lex_word(w: Seq<char>)
    requires
        forall|i: int| 0 <= i < w.len() ==> is_word_char(#[trigger] w[i]),
    ensures
        lex(w) == Some((w, Seq::<SpecToken>::empty())),
    decreases w.len(),
{
    if w.len() == 0 {
        assert(w =~= Seq::<char>::empty());
    } else {
        let p = w.drop_last();
        assert forall|i: int| 0 <= i < p.len() implies is_word_char(#[trigger] p[i]) by {
            assert(p[i] == w[i]);
        }
        lemma_lex_word(p);
        assert(is_word_char(w[w.len() - 1]));
        assert(p.push(w.last()) =~= w);
    }
}

/// A source text made of word characters alone is one token: the token of
/// that word (a number, a keyword or a name), or rejected with it.
pub proof fn law_word_is_one_token(w: Seq<char>)
    requires
        w.len() > 0,
        forall|i: int| 0 <= i < w.len() ==> is_word_char(#[trigger] w[i]),
    ensures
        spec_tokenize(w) == (match word_token(w) {
            Some(t) => Some(seq![t]),
            None => None,
        }),
{
    lemma_lex_word(w);
    if let Some(t) = word_token(w) {
        assert(Seq::<SpecToken>::empty().push(t) =~= seq![t]);
    }
}

/// Whatever follows a value, the value that results has the type it was read
/// against.
proof fn lemma_postfix_has_target_type(s: Seq<SpecToken>, p: int, st: SpecState, target: SpecType, first: SpecTypedValue)
    ensures
        spec_parse_postfix(s, p, st, target, first) matches Some((v, q)) ==> v.val_type == target,
    decreases s.len() - p,
{
    reveal_with_fuel(spec_parse_postfix, 1);
    match tok_at(s, p) {
        None => {},
        Some(SpecToken::Plus) | Some(SpecToken::Minus) => {
            if let Some((rhs, q)) = advanced(spec_parse_value(s, p + 1, st, SpecType::Int), p + 1, s.len()) {
                if first.val_type == SpecType::Int && rhs.val_type == SpecType::Int {
                    let name = if s[p] == SpecToken::Minus {
                        crate::parser::name_subtract()
                    } else {
                        crate::parser::name_add()
                    };
                    lemma_postfix_has_target_type(
                        s,
                        q,
                        st,
                        target,
                        SpecTypedValue {
                            val_type: SpecType::Int,
                            val_source: crate::ast::SpecValueSource::FunctionCall { name, args: seq![first, rhs] },
                        },
                    );
                }
            }
        },
        Some(SpecToken::LBracket) => {
            if let SpecType::List(sub_type) = first.val_type {
                if let Some((idx, q)) = advanced(spec_parse_value(s, p + 1, st, SpecType::Int), p + 1, s.len()) {
                    if tok_at(s, q) == Some(SpecToken::RBracket) {
                        lemma_postfix_has_target_type(
                            s,
                            q + 1,
                            st,
                            target,
                            SpecTypedValue {
                                val_type: *sub_type,
                                val_source: crate::ast::SpecValueSource::FunctionCall {
                                    name: crate::parser::name_index(),
                                    args: seq![first, idx],
                                },
                            },
                        );
                    }
                }
            }
        },
        Some(SpecToken::Dot) => {
            if let SpecType::StructName(struct_name) = first.val_type {
                if let Some(SpecToken::Name(member)) = tok_at(s, p + 1) {
                    if let Some(members) = st.struct_members(struct_name) {
                        if let Some(t) = assoc_get(members, member) {
                            lemma_postfix_has_target_type(
                                s,
                                p + 2,
                                st,
                                target,
                                SpecTypedValue {
                                    val_type: t,
                                    val_source: crate::ast::SpecValueSource::MemberAccess {
                                        name: member,
                                        item: Box::new(first),
                                    },
                                },
                            );
                        }
                    }
                }
            }
        },
        Some(_) => {},
    }
}

/// Type checking: a value read against a type has that type.
pub proof fn law_value_has_target_type(s: Seq<SpecToken>, p: int, st: SpecState, target: SpecType)
    ensures
        spec_parse_value(s, p, st, target) matches Some((v, q)) ==> v.val_type == target,
{
    if let Some((first, q)) = advanced(spec_parse_primary(s, p, st, target), p, s.len()) {
        lemma_postfix_has_target_type(s, q, st, target, first);
    }
}

/// Closing a scope just opened gives back the state before it.
pub proof fn law_push_then_pop(st: SpecState)
    ensures
        st.push().pop() == st,
{
    assert(st.push().pop().states =~= st.states);
}

/// A variable just declared in the innermost scope has the declared type.
pub proof fn law_declared_var_has_its_type(st: SpecState, name: Seq<char>, t: SpecType)
    requires
        st.states.len() > 0,
        st.declare_var(name, t) is Some,
    ensures
        st.declare_var(name, t).unwrap().var_type(name) == Some(t),
{
    let st2 = st.declare_var(name, t).unwrap();
    let last = st2.states.last();
    assert(last.var_to_id == st.states.last().var_to_id.push((name, t)));
    lemma_assoc_push(st.states.last().var_to_id, name, t);
}

/// Looking up a name just appended (where it was absent) finds its value.
proof fn lemma_assoc_push<V>(s: Seq<(Seq<char>, V)>, name: Seq<char>, v: V)
    requires
        assoc_get(s, name) is None,
    ensures
        assoc_get(s.push((name, v)), name) == Some(v),
{
    let t = s.push((name, v));
    lemma_find_name(spec_keys(s), name);
    lemma_find_name(spec_keys(t), name);
    assert(spec_keys(t)[s.len() as int] == name);
    if let Some(k) = find_name(spec_keys(t), name) {
        if k < s.len() {
            assert(spec_keys(s)[k] == spec_keys(t)[k]);
        }
    }
}

/// A function just declared is what a call of its name uses.
pub proof fn law_declared_function_is_called(st: SpecState, name: Seq<char>, sig: SpecSig)
    requires
        st.declare_function(name, sig) is Some,
    ensures
        st.declare_function(name, sig).unwrap().get_sig(name) == Some(sig),
{
    lemma_assoc_push(st.function_to_sig, name, sig);
}

/// The type variables that instantiation can bind: those that `names` does
/// not name, and those whose position in `names` has a type in `types`.
pub open spec fn has_type_in(names: Seq<Seq<char>>, types: Seq<SpecType>) -> spec_fn(Seq<char>) -> bool {
    |x: Seq<char>|
        match find_name(names, x) {
            Some(k) => k < types.len(),
            None => true,
        }
}

/// The type variables that `names` does not name.
pub open spec fn not_named_in(names: Seq<Seq<char>>) -> spec_fn(Seq<char>) -> bool {
    |x: Seq<char>| find_name(names, x) is None
}

/// Instantiation is defined exactly where each type variable that `names`
/// names has a type in `types`, and a type variable named at position `k`
/// becomes the type at position `k`.
pub proof fn law_instantiate_defined(t: SpecType, names: Seq<Seq<char>>, types: Seq<SpecType>)
    ensures
        t.instantiate(names, types) is Some <==> t.each_var(has_type_in(names, types)),
        (t matches SpecType::TypeVar(x) && find_name(names, x) matches Some(k) && k < types.len()) ==> t.instantiate(
            names,
            types,
        ) == Some(types[find_name(names, t->TypeVar_0).unwrap()]),
    decreases t, 2int,
{
    match t {
        SpecType::List(x) => law_instantiate_defined(*x, names, types),
        SpecType::Function(sig) => lemma_sig_instantiate_defined(*sig, names, types),
        _ => {},
    }
}

proof fn lemma_sig_instantiate_defined(sig: SpecSig, names: Seq<Seq<char>>, types: Seq<SpecType>)
    ensures
        sig.instantiate(names, types) is Some <==> sig.each_var(has_type_in(names, types)),
    decreases sig, 1int,
{
    lemma_all_instantiate_defined(sig.args, names, types);
    law_instantiate_defined(sig.ret_type, names, types);
}

proof fn lemma_all_instantiate_defined(s: Seq<SpecType>, names: Seq<Seq<char>>, types: Seq<SpecType>)
    ensures
        instantiate_all(s, names, types) is Some <==> each_var_all(s, has_type_in(names, types)),
    decreases s, 0int,
{
    if s.len() > 0 {
        assert(decreases_to!(s => s.subrange(0, s.len() - 1)));
        lemma_all_instantiate_defined(s.drop_last(), names, types);
        law_instantiate_defined(s.last(), names, types);
    }
}

/// A type in which no type variable is named by `names` comes out of
/// instantiation unchanged.
pub proof fn law_instantiate_unnamed(t: SpecType, names: Seq<Seq<char>>, types: Seq<SpecType>)
    requires
        t.each_var(not_named_in(names)),
    ensures
        t.instantiate(names, types) == Some(t),
    decreases t, 2int,
{
    match t {
        SpecType::List(x) => {
            law_instantiate_unnamed(*x, names, types);
            assert(SpecType::List(Box::new(*x)) == t);
        },
        SpecType::Function(sig) => {
            lemma_sig_instantiate_unnamed(*sig, names, types);
            assert(SpecType::Function(Box::new(*sig)) == t);
        },
        _ => {},
    }
}

proof fn lemma_sig_instantiate_unnamed(sig: SpecSig, names: Seq<Seq<char>>, types: Seq<SpecType>)
    requires
        sig.each_var(not_named_in(names)),
    ensures
        sig.instantiate(names, types) == Some(sig),
    decreases sig, 1int,
{
    lemma_all_instantiate_unnamed(sig.args, names, types);
    law_instantiate_unnamed(sig.ret_type, names, types);
}

proof fn lemma_all_instantiate_unnamed(s: Seq<SpecType>, names: Seq<Seq<char>>, types: Seq<SpecType>)
    requires
        each_var_all(s, not_named_in(names)),
    ensures
        instantiate_all(s, names, types) == Some(s),
    decreases s, 0int,
{
    if s.len() > 0 {
        assert(decreases_to!(s => s.subrange(0, s.len() - 1)));
        lemma_all_instantiate_unnamed(s.drop_last(), names, types);
        law_instantiate_unnamed(s.last(), names, types);
        assert(s.drop_last().push(s.last()) =~= s);
    }
}

/// Instantiating types one after another: defined where each is, and then
/// each result in place of its type.
proof fn lemma_instantiate_all_elementwise(s: Seq<SpecType>, names: Seq<Seq<char>>, types: Seq<SpecType>)
    ensures
        instantiate_all(s, names, types) == (if forall|i: int|
            0 <= i < s.len() ==> (#[trigger] s[i].instantiate(names, types)) is Some {
            Some(Seq::new(s.len(), |i: int| s[i].instantiate(names, types).unwrap()))
        } else {
            None
        }),
    decreases s.len(),
{
    if s.len() > 0 {
        let p = s.drop_last();
        lemma_instantiate_all_elementwise(p, names, types);
        if forall|i: int| 0 <= i < s.len() ==> (#[trigger] s[i].instantiate(names, types)) is Some {
            assert forall|i: int| 0 <= i < p.len() implies (#[trigger] p[i].instantiate(names, types)) is Some by {
                assert(p[i] == s[i]);
            }
            assert(s.last() == s[s.len() - 1]);
            let whole = Seq::new(s.len(), |i: int| s[i].instantiate(names, types).unwrap());
            let part = Seq::new(p.len(), |i: int| p[i].instantiate(names, types).unwrap());
            assert(part.push(s.last().instantiate(names, types).unwrap()) =~= whole);
        } else {
            let k = choose|i: int| 0 <= i < s.len() && (#[trigger] s[i].instantiate(names, types)) is None;
            if k < p.len() {
                assert(p[k] == s[k]);
            } else {
                assert(s.last() == s[k]);
            }
        }
    } else {
        assert(Seq::new(0, |i: int| s[i].instantiate(names, types).unwrap()) =~= Seq::<SpecType>::empty());
    }
}

/// Instantiating a signature instantiates each argument type and the result
/// type, and is defined where each of them is.
pub proof fn law_sig_instantiate_elementwise(sig: SpecSig, names: Seq<Seq<char>>, types: Seq<SpecType>)
    ensures
        sig.instantiate(names, types) == (if (forall|i: int|
            0 <= i < sig.args.len() ==> (#[trigger] sig.args[i].instantiate(names, types)) is Some)
            && sig.ret_type.instantiate(names, types) is Some {
            Some(
                SpecSig {
                    args: Seq::new(sig.args.len(), |i: int| sig.args[i].instantiate(names, types).unwrap()),
                    ret_type: sig.ret_type.instantiate(names, types).unwrap(),
                    type_names: sig.type_names,
                },
            )
        } else {
            None
        }),
{
    lemma_instantiate_all_elementwise(sig.args, names, types);
}

/// Statements run in order: running `stmts` from `i` runs the statements
/// before `k` (none of them a `ret`) and, where they end without failing,
/// goes on from `k` in the state they leave.
pub proof fn law_exec_in_order(stmts: Seq<SpecStatement>, i: int, k: int, st: RunState, fuel: nat)
    requires
        0 <= i <= k <= stmts.len(),
        forall|j: int| i <= j < k ==> !(#[trigger] stmts[j] is Ret),
    ensures
        spec_exec_from(stmts, i, st, fuel) == (match spec_exec_from(stmts.take(k), i, st, fuel) {
            (Some(_), st1) => spec_exec_from(stmts, k, st1, fuel),
            (None, st1) => (None, st1),
        }),
    decreases k - i,
{
    let pre = stmts.take(k);
    if i < k && fuel > 0 {
        assert(pre[i] == stmts[i]);
        let f = (fuel - 1) as nat;
        match stmts[i] {
            SpecStatement::Value(v) => {
                if let (Some(r), st1) = spec_calc_value(v, st, f) {
                    if r == RuntimeValue::Nothing {
                        law_exec_in_order(stmts, i + 1, k, st1, fuel);
                    }
                }
            },
            SpecStatement::VarDefinition(name, v) => {
                if let (Some(r), st1) = spec_calc_value(v, st, f) {
                    if let Some(st2) = st1.declare_var(name, r) {
                        law_exec_in_order(stmts, i + 1, k, st2, fuel);
                    }
                }
            },
            SpecStatement::FunDefinition(name, def) => {
                if let Some(st1) = st.declare_function(name, def) {
                    law_exec_in_order(stmts, i + 1, k, st1, fuel);
                }
            },
            SpecStatement::StructDefinition(_, _) => {
                law_exec_in_order(stmts, i + 1, k, st, fuel);
            },
            SpecStatement::Ret(_) => {},
        }
    }
}

/// A run stops at the first `ret`: the statements after it do not matter.
pub proof fn law_exec_stops_at_ret(stmts: Seq<SpecStatement>, i: int, k: int, st: RunState, fuel: nat)
    requires
        0 <= i <= k < stmts.len(),
        stmts[k] is Ret,
        forall|j: int| i <= j < k ==> !(#[trigger] stmts[j] is Ret),
    ensures
        spec_exec_from(stmts, i, st, fuel) == spec_exec_from(stmts.take(k + 1), i, st, fuel),
    decreases k - i,
{
    let pre = stmts.take(k + 1);
    assert(pre[i] == stmts[i]);
    if i < k && fuel > 0 {
        let f = (fuel - 1) as nat;
        match stmts[i] {
            SpecStatement::Value(v) => {
                if let (Some(r), st1) = spec_calc_value(v, st, f) {
                    if r == RuntimeValue::Nothing {
                        law_exec_stops_at_ret(stmts, i + 1, k, st1, fuel);
                    }
                }
            },
            SpecStatement::VarDefinition(name, v) => {
                if let (Some(r), st1) = spec_calc_value(v, st, f) {
                    if let Some(st2) = st1.declare_var(name, r) {
                        law_exec_stops_at_ret(stmts, i + 1, k, st2, fuel);
                    }
                }
            },
            SpecStatement::FunDefinition(name, def) => {
                if let Some(st1) = st.declare_function(name, def) {
                    law_exec_stops_at_ret(stmts, i + 1, k, st1, fuel);
                }
            },
            SpecStatement::StructDefinition(_, _) => {
                law_exec_stops_at_ret(stmts, i + 1, k, st, fuel);
            },
            SpecStatement::Ret(_) => {},
        }
    }
}

/// A call of a function the program defines (or that a variable refers to)
/// has the value of the callee's statements run on a copy of the caller's
/// state with the arguments bound; the caller's state comes back with only
/// what the callee printed added.
pub proof fn law_call_runs_callee(name: Seq<char>, vals: Seq<RuntimeValue>, st: RunState, fuel: nat)
    requires
        name != crate::interpreter::name_print(),
        name != crate::parser::name_add(),
        name != crate::parser::name_subtract(),
        name != crate::parser::name_index(),
        fuel > 0,
        st.lookup_function(name) is Some,
        spec_bind_args(st.lookup_function(name).unwrap().args, vals, 0, st) is Some,
    ensures
        ({
            let f = st.lookup_function(name).unwrap();
            let bound = spec_bind_args(f.args, vals, 0, st).unwrap();
            let run = spec_exec_from(f.statements, 0, bound, (fuel - 1) as nat);
            &&& spec_apply(name, vals, st, fuel).0 == run.0
            &&& spec_apply(name, vals, st, fuel).1.output == run.1.output
            &&& run.0 is Some ==> spec_apply(name, vals, st, fuel).1 == (RunState { output: run.1.output, ..st })
        }),
{
}

/// One step of a run: a value statement must give `Nothing`; a `let` binds
/// its name to its value, where the name is not bound yet; a function
/// definition records the function, where none of that name exists; a
/// struct definition does nothing; a `ret` ends the run with its value; past
/// the last statement the run ends with `Nothing`. A name just bound reads
/// back as what it was bound to.
pub proof fn law_exec_step(stmts: Seq<SpecStatement>, i: int, st: RunState, fuel: nat)
    requires
        0 <= i,
    ensures
        i >= stmts.len() ==> spec_exec_from(stmts, i, st, fuel) == (Some(RuntimeValue::Nothing), st),
        i < stmts.len() && fuel > 0 ==> spec_exec_from(stmts, i, st, fuel) == (match stmts[i] {
            SpecStatement::Value(v) => match spec_calc_value(v, st, (fuel - 1) as nat) {
                (Some(RuntimeValue::Nothing), st1) => spec_exec_from(stmts, i + 1, st1, fuel),
                (_, st1) => (None, st1),
            },
            SpecStatement::VarDefinition(n, v) => match spec_calc_value(v, st, (fuel - 1) as nat) {
                (Some(r), st1) => if assoc_get(st1.vars, n) is None {
                    spec_exec_from(stmts, i + 1, RunState { vars: st1.vars.push((n, r)), ..st1 }, fuel)
                } else {
                    (None, st1)
                },
                (None, st1) => (None, st1),
            },
            SpecStatement::FunDefinition(n, d) => if assoc_get(st.functions, n) is None {
                spec_exec_from(stmts, i + 1, RunState { functions: st.functions.push((n, d)), ..st }, fuel)
            } else {
                (None, st)
            },
            SpecStatement::StructDefinition(_, _) => spec_exec_from(stmts, i + 1, st, fuel),
            SpecStatement::Ret(v) => spec_calc_value(v, st, (fuel - 1) as nat),
        }),
        forall|vars: Seq<(Seq<char>, RuntimeValue)>, n: Seq<char>, r: RuntimeValue|
            #![trigger assoc_get(vars.push((n, r)), n)]
            assoc_get(vars, n) is None ==> assoc_get(vars.push((n, r)), n) == Some(r),
        forall|fs: Seq<(Seq<char>, SpecFunDefinition)>, n: Seq<char>, d: SpecFunDefinition|
            #![trigger assoc_get(fs.push((n, d)), n)]
            assoc_get(fs, n) is None ==> assoc_get(fs.push((n, d)), n) == Some(d),
{
    assert forall|vars: Seq<(Seq<char>, RuntimeValue)>, n: Seq<char>, r: RuntimeValue|
        assoc_get(vars, n) is None implies #[trigger] assoc_get(vars.push((n, r)), n) == Some(r) by {
        lemma_assoc_push(vars, n, r);
    }
    assert forall|fs: Seq<(Seq<char>, SpecFunDefinition)>, n: Seq<char>, d: SpecFunDefinition|
        assoc_get(fs, n) is None implies #[trigger] assoc_get(fs.push((n, d)), n) == Some(d) by {
        lemma_assoc_push(fs, n, d);
    }
}

/// `add` and `subtract` evaluate their arguments from left to right and then
/// give the sum or difference of the two numbers, where it fits in an
/// `isize`; they fail on any other arguments. The state is what evaluating
/// the arguments left.
pub proof fn law_add_subtract(v: SpecTypedValue, st: RunState, fuel: nat)
    requires
        fuel > 0,
        v.val_source matches SpecValueSource::FunctionCall { name, args } && (name == crate::parser::name_add()
            || name == crate::parser::name_subtract()),
    ensures
        ({
            let name = v.val_source->FunctionCall_name;
            let args = v.val_source->FunctionCall_args;
            let (vals, st1) = spec_calc_args(args, 0, st, Seq::empty(), (fuel - 1) as nat);
            spec_calc_value(v, st, fuel) == match vals {
                Some(vs) => if vs.len() == 2 && vs[0] is Number && vs[1] is Number {
                    if name == crate::parser::name_add() {
                        (checked_number(vs[0]->Number_0 + vs[1]->Number_0), st1)
                    } else {
                        (checked_number(vs[0]->Number_0 - vs[1]->Number_0), st1)
                    }
                } else {
                    (None, st1)
                },
                None => (None, st1),
            }
        }),
{
    let name = v.val_source->FunctionCall_name;
    let args = v.val_source->FunctionCall_args;
    assert(name.len() != crate::interpreter::name_print().len());
    assert(crate::parser::name_subtract().len() != crate::parser::name_add().len());
    let (vals, st1) = spec_calc_args(args, 0, st, Seq::empty(), (fuel - 1) as nat);
    if let Some(vs) = vals {
        assert(spec_calc_value(v, st, fuel) == spec_apply(name, vs, st1, (fuel - 1) as nat));
    }
}

/// A call of a function that the program defines (or that a variable refers
/// to) evaluates its arguments from left to right, then runs the callee's
/// statements on a copy of the state with its parameters bound to them. Its
/// value is the callee's; the callee's bindings do not outlive the call, so
/// the caller's state comes back with only what the callee printed added.
pub proof fn law_call_value(v: SpecTypedValue, st: RunState, fuel: nat)
    requires
        fuel > 1,
        v.val_source matches SpecValueSource::FunctionCall { name, args } && name != crate::interpreter::name_print()
            && name != crate::parser::name_add() && name != crate::parser::name_subtract() && name
            != crate::parser::name_index(),
    ensures
        ({
            let name = v.val_source->FunctionCall_name;
            let args = v.val_source->FunctionCall_args;
            let (vals, st1) = spec_calc_args(args, 0, st, Seq::empty(), (fuel - 1) as nat);
            (vals matches Some(vs) && st1.lookup_function(name) matches Some(f) && spec_bind_args(f.args, vs, 0, st1)
                matches Some(bound)) ==> {
                let run = spec_exec_from(
                    st1.lookup_function(name).unwrap().statements,
                    0,
                    spec_bind_args(st1.lookup_function(name).unwrap().args, vals.unwrap(), 0, st1).unwrap(),
                    (fuel - 2) as nat,
                );
                &&& spec_calc_value(v, st, fuel).0 == run.0
                &&& spec_calc_value(v, st, fuel).1.output == run.1.output
                &&& run.0 is Some ==> spec_calc_value(v, st, fuel).1 == (RunState { output: run.1.output, ..st1 })
            }
        }),
{
    let name = v.val_source->FunctionCall_name;
    let args = v.val_source->FunctionCall_args;
    let (vals, st1) = spec_calc_args(args, 0, st, Seq::empty(), (fuel - 1) as nat);
    if let Some(vs) = vals {
        if let Some(f) = st1.lookup_function(name) {
            if let Some(bound) = spec_bind_args(f.args, vs, 0, st1) {
                law_call_runs_callee(name, vs, st1, (fuel - 1) as nat);
            }
        }
    }
}

/// Whether `ts` are the types written one after another from `p`, each
/// followed by a `,` or directly by the `)` at `q` that ends the list.
pub open spec fn types_listed(s: Seq<SpecToken>, p: int, st: SpecState, ts: Seq<SpecType>, q: int) -> bool
    decreases ts.len(),
{
    if ts.len() == 0 {
        p == q && tok_at(s, p) == Some(SpecToken::RParens)
    } else {
        match spec_parse_type(s, p, st) {
            Some((t, r)) => t == ts[0] && p < r && ((tok_at(s, r) == Some(SpecToken::Comma) && types_listed(
                s,
                r + 1,
                st,
                ts.drop_first(),
                q,
            )) || (tok_at(s, r) == Some(SpecToken::RParens) && ts.len() == 1 && r == q)),
            None => false,
        }
    }
}

proof fn lemma_type_list_in_order(s: Seq<SpecToken>, p: int, st: SpecState, acc: Seq<SpecType>)
    ensures
        spec_parse_type_list(s, p, st, acc) matches Some((all, q)) ==> {
            &&& acc.len() <= all.len()
            &&& all.take(acc.len() as int) == acc
            &&& types_listed(s, p, st, all.skip(acc.len() as int), q)
        },
    decreases s.len() - p,
{
    match tok_at(s, p) {
        None => {},
        Some(SpecToken::RParens) => {
            assert(acc.take(acc.len() as int) =~= acc);
            assert(acc.skip(acc.len() as int) =~= Seq::<SpecType>::empty());
        },
        Some(_) => {
            law_type_advances(s, p, st);
            if let Some((t, r)) = advanced(spec_parse_type(s, p, st), p, s.len()) {
                let acc1 = acc.push(t);
                match tok_at(s, r) {
                    Some(SpecToken::Comma) => lemma_type_list_in_order(s, r + 1, st, acc1),
                    Some(SpecToken::RParens) => lemma_type_list_in_order(s, r, st, acc1),
                    _ => {},
                }
                if let Some((all, q)) = spec_parse_type_list(s, p, st, acc) {
                    let rest = all.skip(acc.len() as int);
                    assert(all.take(acc1.len() as int).take(acc.len() as int) =~= all.take(acc.len() as int));
                    assert(acc1.take(acc.len() as int) =~= acc);
                    assert(rest[0] == all.take(acc1.len() as int)[acc.len() as int]);
                    assert(rest.drop_first() =~= all.skip(acc1.len() as int));
                    if tok_at(s, r) == Some(SpecToken::RParens) {
                        assert(spec_parse_type_list(s, r, st, acc1) == Some((acc1, r)));
                        assert(all.skip(acc1.len() as int) =~= Seq::<SpecType>::empty());
                    }
                }
            }
        },
    }
}

/// A function type `(T1, .., Tn) -> R` has the argument types `T1, .., Tn`
/// in the order written, and the result type `R`.
pub proof fn law_function_type_in_order(s: Seq<SpecToken>, p: int, st: SpecState)
    ensures
        spec_parse_type(s, p, st) matches Some((SpecType::Function(sig), q)) ==> {
            &&& tok_at(s, p) == Some(SpecToken::LParens)
            &&& sig.type_names.len() == 0
            &&& exists|qa: int|
                #[trigger] types_listed(s, p + 1, st, sig.args, qa) && tok_at(s, qa + 1) == Some(SpecToken::Minus)
                    && tok_at(s, qa + 2) == Some(SpecToken::RAngle) && spec_parse_type(s, qa + 3, st) == Some(
                    (sig.ret_type, q),
                )
        },
{
    if 0 <= p < s.len() {
        if let SpecToken::LParens = s[p] {
            lemma_type_list_in_order(s, p + 1, st, Seq::empty());
            if let Some((args, qa)) = reached(spec_parse_type_list(s, p + 1, st, Seq::empty()), p + 1, s.len()) {
                assert(args.skip(0) =~= args);
                law_type_advances(s, qa + 3, st);
                if let Some((SpecType::Function(sig), q)) = spec_parse_type(s, p, st) {
                    assert(sig.args == args);
                    assert(types_listed(s, p + 1, st, sig.args, qa) && tok_at(s, qa + 1) == Some(SpecToken::Minus)
                        && tok_at(s, qa + 2) == Some(SpecToken::RAngle) && spec_parse_type(s, qa + 3, st) == Some(
                        (sig.ret_type, q),
                    ));
                }
            }
        }
        if let SpecToken::Name(n) = s[p] {
            if n != crate::parser::name_none() && n != crate::parser::name_int() {
                assert(!(st.name_to_type(n) matches Some(SpecType::Function(_))));
            }
        }
    }
}

/// Whether `ts` are the types written one after another from `p`, each
/// followed by an optional `,`, up to the `>` at `q`.
pub open spec fn types_filled(s: Seq<SpecToken>, p: int, st: SpecState, ts: Seq<SpecType>, q: int) -> bool
    decreases ts.len(),
{
    if ts.len() == 0 {
        p == q && tok_at(s, p) == Some(SpecToken::RAngle)
    } else {
        match spec_parse_type(s, p, st) {
            Some((t, r)) => t == ts[0] && p < r && tok_at(s, r) is Some && types_filled(
                s,
                if tok_at(s, r) == Some(SpecToken::Comma) {
                    r + 1
                } else {
                    r
                },
                st,
                ts.drop_first(),
                q,
            ),
            None => false,
        }
    }
}

proof fn lemma_filled_types_in_order(s: Seq<SpecToken>, p: int, st: SpecState, acc: Seq<SpecType>)
    ensures
        spec_parse_filled_types(s, p, st, acc) matches Some((all, q)) ==> {
            &&& acc.len() <= all.len()
            &&& all.take(acc.len() as int) == acc
            &&& types_filled(s, p, st, all.skip(acc.len() as int), q)
        },
    decreases s.len() - p,
{
    match tok_at(s, p) {
        None => {},
        Some(SpecToken::RAngle) => {
            assert(acc.take(acc.len() as int) =~= acc);
            assert(acc.skip(acc.len() as int) =~= Seq::<SpecType>::empty());
        },
        Some(_) => {
            law_type_advances(s, p, st);
            if let Some((t, r)) = advanced(spec_parse_type(s, p, st), p, s.len()) {
                let acc1 = acc.push(t);
                match tok_at(s, r) {
                    None => {},
                    Some(SpecToken::Comma) => lemma_filled_types_in_order(s, r + 1, st, acc1),
                    Some(_) => lemma_filled_types_in_order(s, r, st, acc1),
                }
                if let Some((all, q)) = spec_parse_filled_types(s, p, st, acc) {
                    let rest = all.skip(acc.len() as int);
                    assert(all.take(acc1.len() as int).take(acc.len() as int) =~= all.take(acc.len() as int));
                    assert(acc1.take(acc.len() as int) =~= acc);
                    assert(rest[0] == all.take(acc1.len() as int)[acc.len() as int]);
                    assert(rest.drop_first() =~= all.skip(acc1.len() as int));
                }
            }
        },
    }
}

/// A call `f<T1, .., Tn>(a1, .., am)` binds the k-th type parameter of `f`'s
/// signature to the k-th type argument as written: each argument has the
/// signature's argument type at its place with that binding, and there are
/// as many arguments as the signature has. The call's type is the
/// signature's result type.
pub proof fn law_generic_call_in_order(s: Seq<SpecToken>, p: int, st: SpecState, name: Seq<char>)
    ensures
        spec_parse_generic_call(s, p, st, name) matches Some((v, r)) ==> {
            &&& st.get_sig(name) is Some
            &&& v.val_type == st.get_sig(name).unwrap().ret_type
            &&& v.val_source matches SpecValueSource::FunctionCall { name: n, args } && n == name && exists|
                ts: Seq<SpecType>,
                q: int,
            |
                #[trigger] types_filled(s, p + 1, st, ts, q) && tok_at(s, q) == Some(SpecToken::RAngle) && args.len()
                    == st.get_sig(name).unwrap().args.len() && forall|i: int|
                    0 <= i < args.len() ==> st.get_sig(name).unwrap().args[i].instantiate(
                        st.get_sig(name).unwrap().type_names,
                        ts,
                    ) == Some(#[trigger] args[i].val_type)
        },
{
    lemma_filled_types_in_order(s, p + 1, st, Seq::empty());
    if let Some((filled, q)) = reached(spec_parse_filled_types(s, p + 1, st, Seq::empty()), p + 1, s.len()) {
        assert(filled.skip(0) =~= filled);
        if tok_at(s, q) == Some(SpecToken::RAngle) {
            if let Some(sig) = st.get_sig(name) {
                lemma_instantiate_all_elementwise(sig.args, sig.type_names, filled);
                if let Some(targets) = instantiate_all(sig.args, sig.type_names, filled) {
                    law_function_call_args(s, q + 1, st, targets);
                    if let Some((args, r)) = advanced(spec_parse_function_call(s, q + 1, st, targets), q + 1, s.len()) {
                        assert forall|i: int| 0 <= i < args.len() implies sig.args[i].instantiate(sig.type_names, filled)
                            == Some(#[trigger] args[i].val_type) by {
                            assert(sig.args[i].instantiate(sig.type_names, filled) is Some);
                        }
                        assert(types_filled(s, p + 1, st, filled, q));
                    }
                }
            }
        }
    }
}

/// Whether `ns` are the names written one after another from `p`, each
/// followed by an optional `,`, up to the `>` at `q`.
pub open spec fn names_listed(s: Seq<SpecToken>, p: int, ns: Seq<Seq<char>>, q: int) -> bool
    decreases ns.len(),
{
    if ns.len() == 0 {
        p == q && tok_at(s, p) == Some(SpecToken::RAngle)
    } else {
        &&& tok_at(s, p) == Some(SpecToken::Name(ns[0]))
        &&& tok_at(s, p + 1) is Some
        &&& names_listed(
            s,
            if tok_at(s, p + 1) == Some(SpecToken::Comma) {
                p + 2
            } else {
                p + 1
            },
            ns.drop_first(),
            q,
        )
    }
}

proof fn lemma_type_params_in_order(s: Seq<SpecToken>, p: int, acc: Seq<Seq<char>>)
    ensures
        spec_parse_type_params(s, p, acc) matches Some((all, q)) ==> {
            &&& acc.len() <= all.len()
            &&& all.take(acc.len() as int) == acc
            &&& names_listed(s, p, all.skip(acc.len() as int), q)
        },
    decreases s.len() - p,
{
    match tok_at(s, p) {
        None => {},
        Some(SpecToken::RAngle) => {
            assert(acc.take(acc.len() as int) =~= acc);
            assert(acc.skip(acc.len() as int) =~= Seq::<Seq<char>>::empty());
        },
        Some(SpecToken::Name(n)) => {
            let acc1 = acc.push(n);
            match tok_at(s, p + 1) {
                None => {},
                Some(SpecToken::Comma) => lemma_type_params_in_order(s, p + 2, acc1),
                Some(_) => lemma_type_params_in_order(s, p + 1, acc1),
            }
            if let Some((all, q)) = spec_parse_type_params(s, p, acc) {
                let rest = all.skip(acc.len() as int);
                assert(all.take(acc1.len() as int).take(acc.len() as int) =~= all.take(acc.len() as int));
                assert(acc1.take(acc.len() as int) =~= acc);
                assert(rest[0] == all.take(acc1.len() as int)[acc.len() as int]);
                assert(rest.drop_first() =~= all.skip(acc1.len() as int));
            }
        },
        Some(_) => {},
    }
}

/// A definition `fun<A1, .., An> R f(..) {..}` has the type parameters
/// `A1, .., An` in the order written, and declares `f` with a signature
/// whose type parameter names are that same sequence; without `<..>` there
/// are none.
pub proof fn law_fun_type_params_in_order(s: Seq<SpecToken>, p: int, st: SpecState)
    ensures
        spec_parse_fun(s, p, st) matches Some((stmt, q, st1)) ==> {
            &&& stmt matches SpecStatement::FunDefinition(name, def) && st1.get_sig(name) matches Some(sig)
                && sig.type_names == def.type_params && (if tok_at(s, p) == Some(SpecToken::LAngle) {
                exists|qa: int| #[trigger] names_listed(s, p + 1, def.type_params, qa)
            } else {
                def.type_params.len() == 0
            })
        },
{
    if let Some((params, p1)) = spec_parse_fun_type_params(s, p) {
        if tok_at(s, p) == Some(SpecToken::LAngle) {
            lemma_type_params_in_order(s, p + 1, Seq::empty());
            if let Some((ps, qa)) = reached(spec_parse_type_params(s, p + 1, Seq::empty()), p + 1, s.len()) {
                assert(ps.skip(0) =~= ps);
                assert(names_listed(s, p + 1, ps, qa));
            }
        }
        if let Some((stmt, q, st1)) = spec_parse_fun(s, p, st) {
            let st1a = declare_type_params(st.push(), params).unwrap();
            let (ret_type, q0) = advanced(spec_parse_type(s, p1, st1a), p1, s.len()).unwrap();
            if let Some(SpecToken::Name(nm)) = tok_at(s, q0) {
                let (args, q2, st2) = spec_parse_fun_args(s, q0 + 2, st1a, Seq::empty()).unwrap();
                let (body, q3, st3) = spec_parse_block(s, q2 + 2, st2, ret_type, Seq::empty()).unwrap();
                let sig = SpecSig { args: crate::ast::member_types(args), ret_type, type_names: params };
                assert(st3.pop().declare_function(nm, sig) is Some);
                law_declared_function_is_called(st3.pop(), nm, sig);
                assert(stmt == SpecStatement::FunDefinition(
                    nm,
                    crate::ast::SpecFunDefinition { args, statements: body, type_params: params },
                ));
                assert(st1 == st3.pop().declare_function(nm, sig).unwrap());
                if tok_at(s, p) == Some(SpecToken::LAngle) {
                    let (ps, qa) = reached(spec_parse_type_params(s, p + 1, Seq::empty()), p + 1, s.len()).unwrap();
                    assert(ps == params);
                    assert(names_listed(s, p + 1, params, qa));
                }
            }
        }
    }
}

/// The built-in `index` reads a stored list from the front: position `y`
/// gives the element at `y`, a position outside the list gives `Nothing`;
/// the state is unchanged.
pub proof fn law_index_from_front(l: Seq<RuntimeValue>, id: RuntimeID, y: isize, st: RunState, fuel: nat)
    requires
        st.object(id) == Some(SpecRuntimeObject::List(l)),
    ensures
        spec_apply(
            crate::parser::name_index(),
            seq![RuntimeValue::Object(id), RuntimeValue::Number(y)],
            st,
            fuel,
        ) == (Some(if 0 <= y < l.len() {
            l[y as int]
        } else {
            RuntimeValue::Nothing
        }), st),
{
    assert(crate::parser::name_index()[0] != crate::interpreter::name_print()[0]);
    assert(crate::parser::name_index().len() != crate::parser::name_add().len());
    assert(crate::parser::name_index().len() != crate::parser::name_subtract().len());
}

/// Arguments fit a signature exactly when their types are the signature's
/// argument types, in order, with its type parameters bound to `params`:
/// whatever the signature's type parameters, each argument must have the
/// instantiated type at its place.
pub proof fn law_matches_is_instantiation(sig: SpecSig, arg_types_: Seq<SpecType>, params: Seq<SpecType>)
    ensures
        sig.matches_types(arg_types_, params) <==> instantiate_all(sig.args, sig.type_names, params) == Some(
            arg_types_,
        ),
{
    lemma_instantiate_all_elementwise(sig.args, sig.type_names, params);
    if instantiate_all(sig.args, sig.type_names, params) == Some(arg_types_) {
        assert forall|i: int| 0 <= i < arg_types_.len() implies #[trigger] sig.args[i].instantiate(
            sig.type_names,
            params,
        ) == Some(arg_types_[i]) by {
            assert(sig.args[i].instantiate(sig.type_names, params) is Some);
        }
    }
    if sig.matches_types(arg_types_, params) {
        assert forall|i: int| 0 <= i < sig.args.len() implies (#[trigger] sig.args[i].instantiate(
            sig.type_names,
            params,
        )) is Some by {
            assert(sig.args[i].instantiate(sig.type_names, params) == Some(arg_types_[i]));
        }
        assert(Seq::new(sig.args.len(), |i: int| sig.args[i].instantiate(sig.type_names, params).unwrap()) =~= arg_types_);
    }
}

/// With no type parameters to bind, instantiating a type changes nothing.
pub proof fn law_instantiate_without_names(t: SpecType, types: Seq<SpecType>)
    ensures
        t.instantiate(Seq::empty(), types) == Some(t),
    decreases t,
{
    match t {
        SpecType::List(x) => {
            law_instantiate_without_names(*x, types);
            assert(SpecType::List(Box::new(*x)) == t);
        },
        SpecType::Function(sig) => {
            lemma_instantiate_all_without_names(sig.args, types);
            law_instantiate_without_names(sig.ret_type, types);
            let rebuilt = SpecSig { args: sig.args, ret_type: sig.ret_type, type_names: sig.type_names };
            assert(rebuilt == *sig);
            assert(sig.instantiate(Seq::empty(), types) == Some(rebuilt));
            assert(SpecType::Function(Box::new(rebuilt)) == t);
        },
        SpecType::TypeVar(x) => {
            assert(find_name(Seq::empty(), x) is None);
        },
        _ => {},
    }
}

proof fn lemma_instantiate_all_without_names(s: Seq<SpecType>, types: Seq<SpecType>)
    ensures
        instantiate_all(s, Seq::empty(), types) == Some(s),
    decreases s,
{
    if s.len() > 0 {
        assert(decreases_to!(s => s.subrange(0, s.len() - 1)));
        lemma_instantiate_all_without_names(s.drop_last(), types);
        law_instantiate_without_names(s.last(), types);
        assert(s.drop_last().push(s.last()) =~= s);
    }
}

/// A signature without type parameters accepts exactly arguments of its
/// own argument types.
pub proof fn law_plain_sig_matches_its_args(sig: SpecSig, arg_types: Seq<SpecType>, params: Seq<SpecType>)
    requires
        sig.type_names.len() == 0,
    ensures
        sig.matches_types(arg_types, params) <==> arg_types == sig.args,
{
    assert(sig.type_names =~= Seq::<Seq<char>>::empty());
    assert forall|i: int| 0 <= i < sig.args.len() implies #[trigger] sig.args[i].instantiate(sig.type_names, params)
        == Some(sig.args[i]) by {
        law_instantiate_without_names(sig.args[i], params);
    }
    if sig.matches_types(arg_types, params) {
        assert forall|i: int| 0 <= i < arg_types.len() implies arg_types[i] == sig.args[i] by {
            assert(sig.args[i].instantiate(sig.type_names, params) == Some(arg_types[i]));
        }
        assert(arg_types =~= sig.args);
    }
}

/// The store hands out a fresh identity: the new object is found under it,
/// and every object stored before is found as before.
pub proof fn law_add_object_is_fresh(st: RunState, o: SpecRuntimeObject, id: RuntimeID)
    requires
        st.values.len() < usize::MAX,
    ensures
        st.add_object(o).0 == Some(RuntimeValue::Object(RuntimeID(st.values.len() as usize))),
        st.add_object(o).1.object(RuntimeID(st.values.len() as usize)) == Some(o),
        id.0 < st.values.len() ==> st.add_object(o).1.object(id) == st.object(id),
        st.add_object(o).1.output == st.output,
        st.add_object(o).1.vars == st.vars,
{
}

/// A variable just set at run time reads back as the value it was set to.
pub proof fn law_run_var_reads_back(st: RunState, name: Seq<char>, v: RuntimeValue)
    requires
        st.declare_var(name, v) is Some,
    ensures
        assoc_get(st.declare_var(name, v).unwrap().vars, name) == Some(v),
{
    lemma_assoc_push(st.vars, name, v);
}

/// The lexer's state with the tokens `t` put before its tokens.
spec fn lex_shift(r: Option<(Seq<char>, Seq<SpecToken>)>, t: Seq<SpecToken>) -> Option<(Seq<char>, Seq<SpecToken>)> {
    match r {
        Some((w, ts)) => Some((w, t + ts)),
        None => None,
    }
}

proof fn lemma_flush_shift(w: Seq<char>, t: Seq<SpecToken>, ts: Seq<SpecToken>)
    ensures
        flush_word(w, t + ts) == (match flush_word(w, ts) {
            Some(x) => Some(t + x),
            None => None,
        }),
{
    if w.len() > 0 {
        if let Some(tok) = word_token(w) {
            assert((t + ts).push(tok) =~= t + ts.push(tok));
        }
    }
}

proof fn lemma_step_shift(w: Seq<char>, t: Seq<SpecToken>, ts: Seq<SpecToken>, c: char)
    ensures
        lex_step(w, t + ts, c) == lex_shift(lex_step(w, ts, c), t),
{
    lemma_flush_shift(w, t, ts);
    if !is_word_char(c) {
        if let Some(x) = flush_word(w, ts) {
            if !is_blank(c) {
                if let Some(tok) = crate::token::punct_token(c) {
                    assert((t + x).push(tok) =~= t + x.push(tok));
                }
            }
        }
    }
}

/// Lexing `b` after a text `a` that ends between tokens gives the tokens of
/// `a` followed by what lexing `b` alone gives.
proof fn lemma_lex_after(a: Seq<char>, b: Seq<char>, t: Seq<SpecToken>)
    requires
        lex(a) == Some((Seq::<char>::empty(), t)),
    ensures
        lex(a + b) == lex_shift(lex(b), t),
    decreases b.len(),
{
    if b.len() == 0 {
        assert(a + b =~= a);
        assert(t + Seq::<SpecToken>::empty() =~= t);
    } else {
        assert((a + b).drop_last() =~= a + b.drop_last());
        assert((a + b).last() == b.last());
        lemma_lex_after(a, b.drop_last(), t);
        if let Some((w, ts)) = lex(b.drop_last()) {
            lemma_step_shift(w, t, ts, b.last());
        }
    }
}

/// A blank between two texts separates their tokens: the tokens of the
/// whole are those of the first followed by those of the second, and the
/// whole is rejected where either part is.
pub proof fn law_blank_separates(a: Seq<char>, c: char, b: Seq<char>)
    requires
        is_blank(c),
    ensures
        spec_tokenize(a.push(c) + b) == (match (spec_tokenize(a), spec_tokenize(b)) {
            (Some(x), Some(y)) => Some(x + y),
            _ => None,
        }),
{
    let ac = a.push(c);
    assert(ac.drop_last() =~= a);
    assert(!is_word_char(c));
    let whole = ac + b;
    assert(whole.take(ac.len() as int) =~= ac);
    match lex(a) {
        None => {
            lemma_lex_rejects_extension(whole, ac.len() as int);
        },
        Some((w, ta)) => {
            match flush_word(w, ta) {
                None => {
                    lemma_lex_rejects_extension(whole, ac.len() as int);
                },
                Some(tt) => {
                    assert(lex(ac) == Some((Seq::<char>::empty(), tt)));
                    lemma_lex_after(ac, b, tt);
                    if let Some((wb, tb)) = lex(b) {
                        lemma_flush_shift(wb, tt, tb);
                    }
                },
            }
        },
    }
}

/// Whether `after` has printed all that `before` had, and maybe more.
pub open spec fn output_grows(before: RunState, after: RunState) -> bool {
    &&& before.output.len() <= after.output.len()
    &&& after.output.take(before.output.len() as int) == before.output
}

proof fn lemma_output_grows_refl(a: RunState)
    ensures
        output_grows(a, a),
{
    assert(a.output.take(a.output.len() as int) =~= a.output);
}

proof fn lemma_output_grows_trans(a: RunState, b: RunState, c: RunState)
    requires
        output_grows(a, b),
        output_grows(b, c),
    ensures
        output_grows(a, c),
{
    assert(c.output.take(a.output.len() as int) =~= b.output.take(a.output.len() as int));
}

/// What a run does to a state, in one predicate: nothing printed is taken
/// back, and where it succeeds nothing defined or stored is lost.
pub open spec fn run_grows<T>(before: RunState, r: (Option<T>, RunState)) -> bool {
    &&& output_grows(before, r.1)
    &&& r.0 is Some ==> r.1.extends(before)
}

proof fn lemma_print_grows(vals: Seq<RuntimeValue>, i: int, st: RunState)
    ensures
        output_grows(st, spec_print_from(vals, i, st).1),
        spec_print_from(vals, i, st).1.functions == st.functions,
        spec_print_from(vals, i, st).1.vars == st.vars,
        spec_print_from(vals, i, st).1.values == st.values,
    decreases vals.len() - i,
{
    if 0 <= i < vals.len() {
        match vals[i] {
            RuntimeValue::Number(n) => {
                let st1 = RunState { output: st.output.push(crate::interpreter::SpecPrinted::Number(n)), ..st };
                lemma_print_grows(vals, i + 1, st1);
                assert(st1.output.take(st.output.len() as int) =~= st.output);
                lemma_output_grows_trans(st, st1, spec_print_from(vals, i + 1, st1).1);
            },
            RuntimeValue::Object(id) => {
                if let Some(o) = st.object(id) {
                    let st1 = RunState { output: st.output.push(crate::interpreter::SpecPrinted::Object(o)), ..st };
                    lemma_print_grows(vals, i + 1, st1);
                    assert(st1.output.take(st.output.len() as int) =~= st.output);
                    lemma_output_grows_trans(st, st1, spec_print_from(vals, i + 1, st1).1);
                } else {
                    lemma_output_grows_refl(st);
                }
            },
            RuntimeValue::Nothing => {
                lemma_output_grows_refl(st);
            },
        }
    } else {
        lemma_output_grows_refl(st);
    }
}

proof fn lemma_declare_var_grows(st: RunState, name: Seq<char>, v: RuntimeValue)
    requires
        st.declare_var(name, v) is Some,
    ensures
        st.declare_var(name, v).unwrap().extends(st),
        st.declare_var(name, v).unwrap().output == st.output,
{
    let st1 = st.declare_var(name, v).unwrap();
    assert(st1.functions.take(st.functions.len() as int) =~= st.functions);
    assert(st1.vars.take(st.vars.len() as int) =~= st.vars);
    assert(st1.values.take(st.values.len() as int) =~= st.values);
}

proof fn lemma_bind_grows(params: Seq<(Seq<char>, SpecType)>, vals: Seq<RuntimeValue>, i: int, st: RunState)
    ensures
        spec_bind_args(params, vals, i, st) matches Some(st1) ==> st1.extends(st) && st1.output == st.output,
    decreases params.len() - i,
{
    if 0 <= i < params.len() && i < vals.len() {
        if let Some(st1) = st.declare_var(params[i].0, vals[i]) {
            lemma_declare_var_grows(st, params[i].0, vals[i]);
            lemma_bind_grows(params, vals, i + 1, st1);
            if let Some(st2) = spec_bind_args(params, vals, i + 1, st1) {
                lemma_extends_trans(st, st1, st2);
            }
        }
    } else {
        lemma_extends_refl(st);
    }
}

proof fn lemma_add_object_grows(st: RunState, o: SpecRuntimeObject)
    ensures
        run_grows(st, st.add_object(o)),
{
    let st1 = st.add_object(o).1;
    assert(st1.functions.take(st.functions.len() as int) =~= st.functions);
    assert(st1.vars.take(st.vars.len() as int) =~= st.vars);
    assert(st1.values.take(st.values.len() as int) =~= st.values);
    lemma_output_grows_refl(st);
}

proof fn lemma_same_grows<T>(st: RunState, r: Option<T>)
    ensures
        run_grows(st, (r, st)),
{
    lemma_extends_refl(st);
    lemma_output_grows_refl(st);
}

/// Running statements never takes back output, and where it succeeds it
/// loses no function, variable or object.
pub proof fn law_exec_grows(stmts: Seq<SpecStatement>, i: int, st: RunState, fuel: nat)
    ensures
        run_grows(st, spec_exec_from(stmts, i, st, fuel)),
    decreases fuel, stmts.len() - i,
{
    if i < 0 || i >= stmts.len() || fuel == 0 {
        lemma_same_grows(st, Some(RuntimeValue::Nothing));
        lemma_same_grows::<RuntimeValue>(st, None);
    } else {
        let f = (fuel - 1) as nat;
        match stmts[i] {
            SpecStatement::Value(v) => {
                law_calc_value_grows(v, st, f);
                let (r, st1) = spec_calc_value(v, st, f);
                if r == Some(RuntimeValue::Nothing) {
                    law_exec_grows(stmts, i + 1, st1, fuel);
                    chain(st, st1, spec_exec_from(stmts, i + 1, st1, fuel));
                }
            },
            SpecStatement::VarDefinition(name, v) => {
                law_calc_value_grows(v, st, f);
                let (r, st1) = spec_calc_value(v, st, f);
                if let Some(x) = r {
                    if let Some(st2) = st1.declare_var(name, x) {
                        lemma_declare_var_grows(st1, name, x);
                        law_exec_grows(stmts, i + 1, st2, fuel);
                        assert(output_grows(st1, st2)) by {
                            lemma_output_grows_refl(st1);
                        }
                        chain(st1, st2, spec_exec_from(stmts, i + 1, st2, fuel));
                        chain(st, st1, spec_exec_from(stmts, i + 1, st2, fuel));
                    }
                }
            },
            SpecStatement::FunDefinition(name, def) => {
                if let Some(st1) = st.declare_function(name, def) {
                    assert(st1.functions.take(st.functions.len() as int) =~= st.functions);
                    assert(st1.vars.take(st.vars.len() as int) =~= st.vars);
                    assert(st1.values.take(st.values.len() as int) =~= st.values);
                    lemma_output_grows_refl(st);
                    law_exec_grows(stmts, i + 1, st1, fuel);
                    chain(st, st1, spec_exec_from(stmts, i + 1, st1, fuel));
                } else {
                    lemma_same_grows::<RuntimeValue>(st, None);
                }
            },
            SpecStatement::Ret(v) => {
                law_calc_value_grows(v, st, f);
            },
            SpecStatement::StructDefinition(_, _) => {
                law_exec_grows(stmts, i + 1, st, fuel);
            },
        }
    }
}

/// Links a step that grows the state with a run that grows it further.
proof fn chain<T>(a: RunState, b: RunState, r: (Option<T>, RunState))
    requires
        output_grows(a, b),
        b.extends(a),
        run_grows(b, r),
    ensures
        run_grows(a, r),
{
    lemma_output_grows_trans(a, b, r.1);
    if r.0 is Some {
        lemma_extends_trans(a, b, r.1);
    }
}

/// Evaluating an expression never takes back output, and where it succeeds
/// it loses no function, variable or object.
pub proof fn law_calc_value_grows(v: SpecTypedValue, st: RunState, fuel: nat)
    ensures
        run_grows(st, spec_calc_value(v, st, fuel)),
    decreases fuel, 0int,
{
    if fuel == 0 {
        lemma_same_grows::<RuntimeValue>(st, None);
    } else {
        let f = (fuel - 1) as nat;
        match v.val_source {
            SpecValueSource::FunctionCall { name, args } => {
                law_calc_args_grows(args, 0, st, Seq::empty(), f);
                let (r, st1) = spec_calc_args(args, 0, st, Seq::empty(), f);
                if let Some(vals) = r {
                    law_apply_grows(name, vals, st1, f);
                    chain(st, st1, spec_apply(name, vals, st1, f));
                }
            },
            SpecValueSource::StructConstruction(items) => {
                law_calc_fields_grows(items, 0, st, Seq::empty(), f);
                let (r, st1) = spec_calc_fields(items, 0, st, Seq::empty(), f);
                if let Some(fields) = r {
                    lemma_add_object_grows(st1, SpecRuntimeObject::Struct(fields));
                    chain(st, st1, st1.add_object(SpecRuntimeObject::Struct(fields)));
                }
            },
            SpecValueSource::MemberAccess { name, item } => {
                law_calc_value_grows(*item, st, f);
            },
            SpecValueSource::ListLiteral(values) => {
                law_calc_args_grows(values, 0, st, Seq::empty(), f);
                let (r, st1) = spec_calc_args(values, 0, st, Seq::empty(), f);
                if let Some(vals) = r {
                    lemma_add_object_grows(st1, SpecRuntimeObject::List(vals));
                    chain(st, st1, st1.add_object(SpecRuntimeObject::List(vals)));
                }
            },
            SpecValueSource::Function(name) => {
                lemma_add_object_grows(st, SpecRuntimeObject::Function(name));
            },
            _ => {
                lemma_same_grows::<RuntimeValue>(st, None);
                lemma_same_grows(st, Some(RuntimeValue::Nothing));
            },
        }
    }
}

proof fn law_calc_args_grows(args: Seq<SpecTypedValue>, i: int, st: RunState, acc: Seq<RuntimeValue>, fuel: nat)
    ensures
        run_grows(st, spec_calc_args(args, i, st, acc, fuel)),
    decreases fuel, args.len() - i,
{
    if i < 0 || i >= args.len() {
        lemma_same_grows(st, Some(acc));
    } else {
        law_calc_value_grows(args[i], st, fuel);
        let (r, st1) = spec_calc_value(args[i], st, fuel);
        if let Some(v) = r {
            law_calc_args_grows(args, i + 1, st1, acc.push(v), fuel);
            chain(st, st1, spec_calc_args(args, i + 1, st1, acc.push(v), fuel));
        }
    }
}

proof fn law_calc_fields_grows(
    items: Seq<(Seq<char>, SpecTypedValue)>,
    i: int,
    st: RunState,
    acc: Seq<(Seq<char>, RuntimeValue)>,
    fuel: nat,
)
    ensures
        run_grows(st, spec_calc_fields(items, i, st, acc, fuel)),
    decreases fuel, items.len() - i,
{
    if i < 0 || i >= items.len() {
        lemma_same_grows(st, Some(acc));
    } else {
        law_calc_value_grows(items[i].1, st, fuel);
        let (r, st1) = spec_calc_value(items[i].1, st, fuel);
        if let Some(v) = r {
            law_calc_fields_grows(items, i + 1, st1, acc.push((items[i].0, v)), fuel);
            chain(st, st1, spec_calc_fields(items, i + 1, st1, acc.push((items[i].0, v)), fuel));
        }
    }
}

/// A call never takes back output, and where it succeeds it loses no
/// function, variable or object of the caller.
pub proof fn law_apply_grows(name: Seq<char>, vals: Seq<RuntimeValue>, st: RunState, fuel: nat)
    ensures
        run_grows(st, spec_apply(name, vals, st, fuel)),
    decreases fuel, 0int,
{
    lemma_same_grows::<RuntimeValue>(st, None);
    if name == crate::interpreter::name_print() {
        lemma_print_grows(vals, 0, st);
        let st1 = spec_print_from(vals, 0, st).1;
        assert(st1.functions.take(st.functions.len() as int) =~= st.functions);
        assert(st1.vars.take(st.vars.len() as int) =~= st.vars);
        assert(st1.values.take(st.values.len() as int) =~= st.values);
    } else if name == crate::parser::name_add() || name == crate::parser::name_subtract() || name
        == crate::parser::name_index() {
        let r = spec_apply(name, vals, st, fuel);
        assert(r.1 == st);
        lemma_same_grows(st, r.0);
    } else if fuel > 0 {
        if let Some(fdef) = st.lookup_function(name) {
            lemma_bind_grows(fdef.args, vals, 0, st);
            if let Some(st1) = spec_bind_args(fdef.args, vals, 0, st) {
                let f = (fuel - 1) as nat;
                law_exec_grows(fdef.statements, 0, st1, f);
                let st2 = spec_exec_from(fdef.statements, 0, st1, f).1;
                lemma_output_grows_refl(st);
                lemma_output_grows_trans(st, st1, st2);
                let kept = RunState { output: st2.output, ..st };
                assert(kept.functions.take(st.functions.len() as int) =~= st.functions);
                assert(kept.vars.take(st.vars.len() as int) =~= st.vars);
                assert(kept.values.take(st.values.len() as int) =~= st.values);
            }
        }
    }
}

/// A call of a defined function keeps the caller's functions, variables and
/// objects exactly as they were: only its output remains.
pub proof fn law_call_is_confined(name: Seq<char>, vals: Seq<RuntimeValue>, st: RunState, fuel: nat)
    requires
        name != crate::interpreter::name_print(),
        name != crate::parser::name_add(),
        name != crate::parser::name_subtract(),
        name != crate::parser::name_index(),
        spec_apply(name, vals, st, fuel).0 is Some,
    ensures
        spec_apply(name, vals, st, fuel).1 == (RunState { output: spec_apply(name, vals, st, fuel).1.output, ..st }),
{
}

/// The variables that a statement binds: a `let` its name with the type of
/// its value; other statements none.
pub open spec fn binding(stmt: SpecStatement) -> Seq<(Seq<char>, SpecType)> {
    match stmt {
        SpecStatement::VarDefinition(name, v) => seq![(name, v.val_type)],
        _ => Seq::empty(),
    }
}

/// The variables that statements bind, in order.
pub open spec fn let_bindings(stmts: Seq<SpecStatement>) -> Seq<(Seq<char>, SpecType)>
    decreases stmts.len(),
{
    if stmts.len() == 0 {
        Seq::empty()
    } else {
        binding(stmts[0]) + let_bindings(stmts.drop_first())
    }
}

/// Whether `st1` has the scopes of `st`, the outer ones unchanged and the
/// innermost one with the variables `added` after its own.
pub open spec fn adds_to_scope(st: SpecState, st1: SpecState, added: Seq<(Seq<char>, SpecType)>) -> bool {
    &&& st1.states.len() == st.states.len()
    &&& st1.states.drop_last() == st.states.drop_last()
    &&& st1.states.last().type_params == st.states.last().type_params
    &&& st1.states.last().var_to_id == st.states.last().var_to_id + added
    &&& st1.inprogress == st.inprogress
}

/// Whether `st1` has the scopes of `st` but the innermost, and as many.
spec fn same_outer_scopes(st: SpecState, st1: SpecState) -> bool {
    &&& st1.states.len() == st.states.len()
    &&& st1.states.drop_last() == st.states.drop_last()
    &&& st1.inprogress == st.inprogress
}

proof fn lemma_declare_type_params_keeps_scopes(st: SpecState, params: Seq<Seq<char>>)
    requires
        st.states.len() > 0,
    ensures
        declare_type_params(st, params) matches Some(st1) ==> same_outer_scopes(st, st1),
    decreases params.len(),
{
    if params.len() > 0 {
        lemma_declare_type_params_keeps_scopes(st, params.drop_last());
        if let Some(st1) = declare_type_params(st, params.drop_last()) {
            if let Some(st2) = st1.declare_type_param(params.last()) {
                assert(st2.states.drop_last() =~= st1.states.drop_last());
            }
        }
    }
}

proof fn lemma_fun_args_keep_scopes(s: Seq<SpecToken>, p: int, st: SpecState, acc: Seq<(Seq<char>, SpecType)>)
    requires
        st.states.len() > 0,
    ensures
        spec_parse_fun_args(s, p, st, acc) matches Some((_, _, st1)) ==> same_outer_scopes(st, st1),
    decreases s.len() - p,
{
    if let Some(tok) = tok_at(s, p) {
        if tok != SpecToken::RParens {
            if let Some((t, q)) = advanced(spec_parse_type(s, p, st), p, s.len()) {
                if let Some(SpecToken::Name(a)) = tok_at(s, q) {
                    if let Some(st1) = st.declare_var(a, t) {
                        assert(st1.states.drop_last() =~= st.states.drop_last());
                        match tok_at(s, q + 1) {
                            None => {},
                            Some(SpecToken::Comma) => lemma_fun_args_keep_scopes(s, q + 2, st1, acc.push((a, t))),
                            Some(_) => lemma_fun_args_keep_scopes(s, q + 1, st1, acc.push((a, t))),
                        }
                    }
                }
            }
        }
    }
}

/// Reading statements leaves the outer scopes as they were, and adds to the
/// innermost scope only the variables that the `let` statements read bind, in
/// order; every scope a function opens is closed again.
pub proof fn law_block_keeps_scopes(s: Seq<SpecToken>, p: int, st: SpecState, ret_type: SpecType, acc: Seq<crate::ast::SpecStatement>)
    requires
        st.states.len() > 0,
    ensures
        spec_parse_block(s, p, st, ret_type, acc) matches Some((stmts, _, st1)) ==> adds_to_scope(
            st,
            st1,
            let_bindings(stmts.skip(acc.len() as int)),
        ),
    decreases s.len() - p, 5int,
{
    law_block_types(s, p, st, ret_type, acc);
    match tok_at(s, p) {
        Some(tok) => {
            if tok != SpecToken::RBrace {
                law_statement_keeps_scopes(s, p, st, ret_type);
                if let Some((stmt, q, st1)) = advanced3(spec_parse_statement(s, p, st, ret_type), p, s.len()) {
                    if tok_at(s, q) == Some(SpecToken::SemiColon) {
                        let acc1 = acc.push(stmt);
                        law_block_keeps_scopes(s, q + 1, st1, ret_type, acc1);
                        law_block_types(s, q + 1, st1, ret_type, acc1);
                        if let Some((stmts, _, st2)) = spec_parse_block(s, q + 1, st1, ret_type, acc1) {
                            let new = stmts.skip(acc.len() as int);
                            assert(stmts.take(acc1.len() as int)[acc.len() as int] == stmt);
                            assert(new[0] == stmt);
                            assert(new.drop_first() =~= stmts.skip(acc1.len() as int));
                            assert(let_bindings(new) == binding(stmt) + let_bindings(stmts.skip(acc1.len() as int)));
                            assert(st2.states.last().var_to_id =~= st.states.last().var_to_id + let_bindings(new));
                        }
                    }
                }
            }
        },
        None => {},
    }
    if let Some((stmts, _, st1)) = spec_parse_block(s, p, st, ret_type, acc) {
        if stmts.len() == acc.len() {
            assert(stmts.skip(acc.len() as int) =~= Seq::<SpecStatement>::empty());
        }
        if st1 == st {
            assert(st.states.last().var_to_id + let_bindings(stmts.skip(acc.len() as int)) =~= st.states.last().var_to_id);
        }
    }
}

/// Reading one statement leaves the outer scopes as they were, and adds to
/// the innermost scope only the variable that a `let` binds.
pub proof fn law_statement_keeps_scopes(s: Seq<SpecToken>, p: int, st: SpecState, ret_type: SpecType)
    requires
        st.states.len() > 0,
    ensures
        spec_parse_statement(s, p, st, ret_type) matches Some((stmt, _, st1)) ==> adds_to_scope(st, st1, binding(stmt)),
    decreases s.len() - p, 4int,
{
    assert(st.states.last().var_to_id + Seq::<(Seq<char>, SpecType)>::empty() =~= st.states.last().var_to_id);
    match tok_at(s, p) {
        Some(SpecToken::Fun) => lemma_fun_keeps_scopes(s, p + 1, st),
        Some(SpecToken::Struct) => law_struct_definition(s, p + 1, st),
        Some(SpecToken::Let) => {
            if let Some((stmt, q, st1)) = spec_parse_statement(s, p, st, ret_type) {
                if let SpecStatement::VarDefinition(name, v) = stmt {
                    assert(st1.states.drop_last() =~= st.states.drop_last());
                    assert(st1.states.last().var_to_id =~= st.states.last().var_to_id + binding(stmt));
                }
            }
        },
        _ => {},
    }
}

proof fn lemma_fun_keeps_scopes(s: Seq<SpecToken>, p: int, st: SpecState)
    requires
        st.states.len() > 0,
    ensures
        spec_parse_fun(s, p, st) matches Some((_, _, st1)) ==> st1.states == st.states && st1.inprogress == st.inprogress,
    decreases s.len() - p, 4int,
{
    if let Some((params, p1)) = spec_parse_fun_type_params(s, p) {
        if p <= p1 <= s.len() {
            assert(st.push().states.drop_last() =~= st.states);
            lemma_declare_type_params_keeps_scopes(st.push(), params);
            if let Some(st1) = declare_type_params(st.push(), params) {
                if let Some((ret_type, q)) = advanced(spec_parse_type(s, p1, st1), p1, s.len()) {
                    if let Some(SpecToken::Name(name)) = tok_at(s, q) {
                        if tok_at(s, q + 1) == Some(SpecToken::LParens) {
                            lemma_fun_args_keep_scopes(s, q + 2, st1, Seq::empty());
                            if let Some((args, q2, st2)) = spec_parse_fun_args(s, q + 2, st1, Seq::empty()) {
                                if q + 2 <= q2 && tok_at(s, q2) == Some(SpecToken::RParens) && tok_at(s, q2 + 1) == Some(
                                    SpecToken::LBrace,
                                ) {
                                    law_block_keeps_scopes(s, q2 + 2, st2, ret_type, Seq::empty());
                                }
                            }
                        }
                    }
                }
            }
        }
    }
}

/// The type that a statement's value has: a value statement `none`, a
/// `ret` the result type of the function it is in.
pub open spec fn stmt_typed(stmt: SpecStatement, ret_type: SpecType) -> bool {
    match stmt {
        SpecStatement::Value(v) => v.val_type == SpecType::Nothing,
        SpecStatement::Ret(v) => v.val_type == ret_type,
        _ => true,
    }
}

/// Whether `t` is the type written in `let name: t` at `k`.
pub open spec fn declared_at(s: Seq<SpecToken>, k: int, st: SpecState, t: SpecType) -> bool {
    &&& tok_at(s, k) == Some(SpecToken::Let)
    &&& tok_at(s, k + 2) == Some(SpecToken::Colon)
    &&& spec_parse_type(s, k + 3, st) matches Some((t1, _)) && t1 == t
}

/// Whether a `let` statement has the type written in a `let` between `p`
/// and `q`.
pub open spec fn let_declared(s: Seq<SpecToken>, p: int, q: int, stmt: SpecStatement) -> bool {
    stmt matches SpecStatement::VarDefinition(_, v) ==> exists|k: int, st0: SpecState|
        p <= k < q && #[trigger] declared_at(s, k, st0, v.val_type)
}

proof fn lemma_let_declared_widen(s: Seq<SpecToken>, p: int, p2: int, q: int, stmt: SpecStatement)
    requires
        p <= p2,
        let_declared(s, p2, q, stmt),
    ensures
        let_declared(s, p, q, stmt),
{
    if let SpecStatement::VarDefinition(_, v) = stmt {
        let (k, st0) = choose|k: int, st0: SpecState| p2 <= k < q && #[trigger] declared_at(s, k, st0, v.val_type);
        assert(p <= k < q && declared_at(s, k, st0, v.val_type));
    }
}

/// Every statement read carries its type: a value statement `none`, a `ret`
/// the result type, and a `let` the type declared for it.
pub proof fn law_statement_types(s: Seq<SpecToken>, p: int, st: SpecState, ret_type: SpecType)
    ensures
        spec_parse_statement(s, p, st, ret_type) matches Some((stmt, _, _)) ==> {
            &&& stmt_typed(stmt, ret_type)
            &&& stmt matches SpecStatement::VarDefinition(_, v) ==> declared_at(s, p, st, v.val_type)
        },
{
    match tok_at(s, p) {
        Some(SpecToken::Let) => {
            if let Some((t, q)) = advanced(spec_parse_type(s, p + 3, st), p + 3, s.len()) {
                law_value_has_target_type(s, q + 1, st, t);
            }
        },
        Some(SpecToken::Fun) => {},
        Some(SpecToken::Struct) => {},
        Some(SpecToken::Ret) => law_value_has_target_type(s, p + 1, st, ret_type),
        Some(_) => law_value_has_target_type(s, p, st, SpecType::Nothing),
        None => {},
    }
}

/// Every statement of a block carries its type (see `stmt_typed`), and the
/// statements read come after those already gathered in `acc`.
pub proof fn law_block_types(s: Seq<SpecToken>, p: int, st: SpecState, ret_type: SpecType, acc: Seq<SpecStatement>)
    ensures
        spec_parse_block(s, p, st, ret_type, acc) matches Some((stmts, q, _)) ==> {
            &&& acc.len() <= stmts.len()
            &&& stmts.take(acc.len() as int) == acc
            &&& forall|j: int| acc.len() <= j < stmts.len() ==> stmt_typed(#[trigger] stmts[j], ret_type)
            &&& forall|j: int| acc.len() <= j < stmts.len() ==> let_declared(s, p, q, #[trigger] stmts[j])
        },
    decreases s.len() - p,
{
    match tok_at(s, p) {
        Some(tok) => {
            if tok != SpecToken::RBrace {
                law_statement_types(s, p, st, ret_type);
                law_statement_advances(s, p, st, ret_type);
                if let Some((stmt, q, st1)) = advanced3(spec_parse_statement(s, p, st, ret_type), p, s.len()) {
                    if tok_at(s, q) == Some(SpecToken::SemiColon) {
                        let acc1 = acc.push(stmt);
                        law_block_types(s, q + 1, st1, ret_type, acc1);
                        law_block_reaches(s, q + 1, st1, ret_type, acc1);
                        if let Some((stmts, qe, _)) = spec_parse_block(s, q + 1, st1, ret_type, acc1) {
                            assert(stmts.take(acc1.len() as int).take(acc.len() as int) =~= stmts.take(acc.len() as int));
                            assert(acc1.take(acc.len() as int) =~= acc);
                            assert(stmts[acc.len() as int] == stmts.take(acc1.len() as int)[acc.len() as int]);
                            assert forall|j: int| acc.len() <= j < stmts.len() implies let_declared(
                                s,
                                p,
                                qe,
                                #[trigger] stmts[j],
                            ) by {
                                if j > acc.len() {
                                    lemma_let_declared_widen(s, p, q + 1, qe, stmts[j]);
                                } else {
                                    if let SpecStatement::VarDefinition(_, v) = stmt {
                                        assert(p <= p < qe && declared_at(s, p, st, v.val_type));
                                    }
                                }
                            }
                        }
                    }
                }
            }
        },
        None => {},
    }
    if let Some((stmts, _, _)) = spec_parse_block(s, p, st, ret_type, acc) {
        if stmts == acc {
            assert(acc.take(acc.len() as int) =~= acc);
        }
    }
}

/// Reading statements (as a program or a function body): the statements
/// come in the order written; each value statement has type `none`, each
/// `ret` the result type, each `let` the type written after its `:`; the
/// reading stops at the end of the tokens or at a `}`, which it leaves; the
/// outer scopes, and the structs being defined, are as before; and the
/// innermost scope gains exactly the variables that the `let` statements
/// read bind, in order (those of the functions defined are gone again).
pub proof fn law_parse_block(s: Seq<SpecToken>, p: int, st: SpecState, ret_type: SpecType)
    requires
        0 <= p <= s.len(),
        st.states.len() > 0,
    ensures
        spec_parse_block(s, p, st, ret_type, Seq::empty()) matches Some((stmts, q, st1)) ==> {
            &&& forall|j: int| 0 <= j < stmts.len() ==> stmt_typed(#[trigger] stmts[j], ret_type)
            &&& forall|j: int| 0 <= j < stmts.len() ==> let_declared(s, p, q, #[trigger] stmts[j])
            &&& p <= q <= s.len()
            &&& q == s.len() || tok_at(s, q) == Some(SpecToken::RBrace)
            &&& adds_to_scope(st, st1, let_bindings(stmts))
        },
{
    law_block_types(s, p, st, ret_type, Seq::empty());
    law_block_reaches(s, p, st, ret_type, Seq::empty());
    law_block_keeps_scopes(s, p, st, ret_type, Seq::empty());
    if let Some((stmts, q, st1)) = spec_parse_block(s, p, st, ret_type, Seq::empty()) {
        assert(stmts.skip(0) =~= stmts);
    }
}

/// A type read from the tokens takes at least one token and no more than
/// there are.
pub proof fn law_type_advances(s: Seq<SpecToken>, p: int, st: SpecState)
    ensures
        spec_parse_type(s, p, st) matches Some((t, q)) ==> p < q <= s.len(),
        advanced(spec_parse_type(s, p, st), p, s.len()) == spec_parse_type(s, p, st),
{
}

proof fn lemma_postfix_reaches(s: Seq<SpecToken>, p: int, st: SpecState, target: SpecType, first: SpecTypedValue)
    ensures
        spec_parse_postfix(s, p, st, target, first) matches Some((v, q)) ==> p <= q < s.len(),
    decreases s.len() - p,
{
    match tok_at(s, p) {
        None => {},
        Some(SpecToken::Plus) | Some(SpecToken::Minus) => {
            if let Some((rhs, q)) = advanced(spec_parse_value(s, p + 1, st, SpecType::Int), p + 1, s.len()) {
                if first.val_type == SpecType::Int && rhs.val_type == SpecType::Int {
                    let name = if s[p] == SpecToken::Minus {
                        crate::parser::name_subtract()
                    } else {
                        crate::parser::name_add()
                    };
                    lemma_postfix_reaches(
                        s,
                        q,
                        st,
                        target,
                        SpecTypedValue {
                            val_type: SpecType::Int,
                            val_source: SpecValueSource::FunctionCall { name, args: seq![first, rhs] },
                        },
                    );
                }
            }
        },
        Some(SpecToken::LBracket) => {
            if let SpecType::List(sub_type) = first.val_type {
                if let Some((idx, q)) = advanced(spec_parse_value(s, p + 1, st, SpecType::Int), p + 1, s.len()) {
                    if tok_at(s, q) == Some(SpecToken::RBracket) {
                        lemma_postfix_reaches(
                            s,
                            q + 1,
                            st,
                            target,
                            SpecTypedValue {
                                val_type: *sub_type,
                                val_source: SpecValueSource::FunctionCall {
                                    name: crate::parser::name_index(),
                                    args: seq![first, idx],
                                },
                            },
                        );
                    }
                }
            }
        },
        Some(SpecToken::Dot) => {
            if let SpecType::StructName(struct_name) = first.val_type {
                if let Some(SpecToken::Name(member)) = tok_at(s, p + 1) {
                    if let Some(members) = st.struct_members(struct_name) {
                        if let Some(t) = assoc_get(members, member) {
                            lemma_postfix_reaches(
                                s,
                                p + 2,
                                st,
                                target,
                                SpecTypedValue {
                                    val_type: t,
                                    val_source: SpecValueSource::MemberAccess { name: member, item: Box::new(first) },
                                },
                            );
                        }
                    }
                }
            }
        },
        Some(_) => {},
    }
}

/// A value read from the tokens takes at least one token and no more than
/// there are.
pub proof fn law_value_advances(s: Seq<SpecToken>, p: int, st: SpecState, target: SpecType)
    ensures
        spec_parse_value(s, p, st, target) matches Some((v, q)) ==> p < q <= s.len(),
        advanced(spec_parse_value(s, p, st, target), p, s.len()) == spec_parse_value(s, p, st, target),
{
    if let Some((first, q)) = advanced(spec_parse_primary(s, p, st, target), p, s.len()) {
        lemma_postfix_reaches(s, q, st, target, first);
    }
}

/// A statement read from the tokens takes at least one token and no more
/// than there are.
pub proof fn law_statement_advances(s: Seq<SpecToken>, p: int, st: SpecState, ret_type: SpecType)
    ensures
        spec_parse_statement(s, p, st, ret_type) matches Some((x, q, st1)) ==> p < q <= s.len(),
        advanced3(spec_parse_statement(s, p, st, ret_type), p, s.len()) == spec_parse_statement(s, p, st, ret_type),
{
}

/// Statements read from the tokens end within them.
pub proof fn law_block_reaches(s: Seq<SpecToken>, p: int, st: SpecState, ret_type: SpecType, acc: Seq<crate::ast::SpecStatement>)
    requires
        0 <= p <= s.len(),
    ensures
        spec_parse_block(s, p, st, ret_type, acc) matches Some((x, q, st1)) ==> p <= q <= s.len() && (q == s.len()
            || tok_at(s, q) == Some(SpecToken::RBrace)),
    decreases s.len() - p,
{
    if let Some(tok) = tok_at(s, p) {
        if tok != SpecToken::RBrace {
            if let Some((stmt, q, st1)) = advanced3(spec_parse_statement(s, p, st, ret_type), p, s.len()) {
                if tok_at(s, q) == Some(SpecToken::SemiColon) {
                    law_block_reaches(s, q + 1, st1, ret_type, acc.push(stmt));
                }
            }
        }
    }
}

/// After a struct definition no struct is left marked as being defined
/// that was not so before, and the struct's name stands for its type.
pub proof fn law_struct_definition(s: Seq<SpecToken>, p: int, st: SpecState)
    requires
        st.states.len() > 0,
    ensures
        spec_parse_struct(s, p, st) matches Some((x, q, st1)) ==> {
            &&& st1.inprogress == st.inprogress
            &&& st1.states == st.states
            &&& st1.name_to_type(s[p]->Name_0) == Some(SpecType::StructName(s[p]->Name_0))
        },
{
    if let Some(SpecToken::Name(name)) = tok_at(s, p) {
        if let Some(st1) = st.begin_struct(name) {
            if tok_at(s, p + 1) == Some(SpecToken::LBrace) {
                if let Some((members, q)) = reached(spec_parse_members(s, p + 2, st1, Seq::empty()), p + 2, s.len()) {
                    if let Some(st2) = st1.end_struct(name, members) {
                        assert(st2.inprogress =~= st.inprogress);
                        lemma_assoc_push(st1.struct_def, name, members);
                    }
                }
            }
        }
    }
}

} // verus!
