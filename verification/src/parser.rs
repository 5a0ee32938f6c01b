//! Reading a program: a recursive-descent parser over tokens that checks
//! types as it goes.
use vstd::prelude::*;

use crate::ast::{arg_types, member_types, copy_names_vec, copy_sig, lemma_fun_def_view, member_types_of, statements_view, FunDefinition, Statement, copy_type, instantiate_args, lemma_call_view, lemma_list_view, lemma_struct_con_view, members_view, named_values_view, opt_view, type_eq, types_view, values_view, Sig, Type, TypedValue, ValueSource, instantiate_all, SpecFunDefinition, SpecSig, SpecStatement, SpecType, SpecTypedValue, SpecValueSource};
use crate::scope::{SpecState, State};
use crate::text::{assoc_get, find_key, keys_of, lemma_lookup, names_view, spec_keys, string_of};
use crate::token::{spec_tokenize, tokenize, try_tokenize, tokens_view, SpecToken, Token};

verus! {

/// The token at position `p`, if there is one.
pub open spec fn tok_at(s: Seq<SpecToken>, p: int) -> Option<SpecToken> {
    if 0 <= p < s.len() {
        Some(s[p])
    } else {
        None
    }
}

/// A parse result whose end lies after `p` and within the tokens.
pub open spec fn advanced<X>(r: Option<(X, int)>, p: int, len: nat) -> Option<(X, int)> {
    match r {
        Some((x, q)) => if p < q <= len {
            Some((x, q))
        } else {
            None
        },
        None => None,
    }
}

/// A parse result whose end lies at or after `p` and within the tokens.
pub open spec fn reached<X>(r: Option<(X, int)>, p: int, len: nat) -> Option<(X, int)> {
    match r {
        Some((x, q)) => if p <= q <= len {
            Some((x, q))
        } else {
            None
        },
        None => None,
    }
}

/// A statement parse result whose end lies after `p` and within the tokens.
pub open spec fn advanced3<X>(r: Option<(X, int, SpecState)>, p: int, len: nat) -> Option<(X, int, SpecState)> {
    match r {
        Some((x, q, st)) => if p < q <= len {
            Some((x, q, st))
        } else {
            None
        },
        None => None,
    }
}

pub open spec fn name_none() -> Seq<char> {
    seq!['n', 'o', 'n', 'e']
}

pub open spec fn name_int() -> Seq<char> {
    seq!['i', 'n', 't']
}

/// A type: `none`, `int`, a struct or type parameter name, `[T]`, or
/// `(T, ..) -> R`. Returns the type and the position after it.
pub open spec fn spec_parse_type(s: Seq<SpecToken>, p: int, st: SpecState) -> Option<(SpecType, int)>
    decreases s.len() - p, 0int,
{
    if p < 0 || p >= s.len() {
        None
    } else {
        match s[p] {
            SpecToken::Name(n) => if n == name_none() {
                Some((SpecType::Nothing, p + 1))
            } else if n == name_int() {
                Some((SpecType::Int, p + 1))
            } else {
                match st.name_to_type(n) {
                    Some(t) => Some((t, p + 1)),
                    None => None,
                }
            },
            SpecToken::LBracket => match advanced(spec_parse_type(s, p + 1, st), p + 1, s.len()) {
                Some((t, q)) => if tok_at(s, q) == Some(SpecToken::RBracket) {
                    Some((SpecType::List(Box::new(t)), q + 1))
                } else {
                    None
                },
                None => None,
            },
            SpecToken::LParens => match reached(spec_parse_type_list(s, p + 1, st, Seq::empty()), p + 1, s.len()) {
                Some((args, q)) => if tok_at(s, q) == Some(SpecToken::RParens) && tok_at(s, q + 1) == Some(
                    SpecToken::Minus,
                ) && tok_at(s, q + 2) == Some(SpecToken::RAngle) {
                    match advanced(spec_parse_type(s, q + 3, st), q + 3, s.len()) {
                        Some((ret_type, r)) => Some(
                            (
                                SpecType::Function(Box::new(SpecSig { args, ret_type, type_names: Seq::empty() })),
                                r,
                            ),
                        ),
                        None => None,
                    }
                } else {
                    None
                },
                None => None,
            },
            _ => None,
        }
    }
}

/// The argument types of a function type, up to its `)`, each followed by a
/// `,` or by the `)`.
pub open spec fn spec_parse_type_list(s: Seq<SpecToken>, p: int, st: SpecState, acc: Seq<SpecType>) -> Option<(Seq<SpecType>, int)>
    decreases s.len() - p, 1int,
{
    match tok_at(s, p) {
        None => None,
        Some(SpecToken::RParens) => Some((acc, p)),
        Some(_) => match advanced(spec_parse_type(s, p, st), p, s.len()) {
            Some((t, q)) => match tok_at(s, q) {
                Some(SpecToken::Comma) => spec_parse_type_list(s, q + 1, st, acc.push(t)),
                Some(SpecToken::RParens) => spec_parse_type_list(s, q, st, acc.push(t)),
                _ => None,
            },
            None => None,
        },
    }
}

pub open spec fn name_add() -> Seq<char> {
    seq!['a', 'd', 'd']
}

pub open spec fn name_subtract() -> Seq<char> {
    seq!['s', 'u', 'b', 't', 'r', 'a', 'c', 't']
}

pub open spec fn name_index() -> Seq<char> {
    seq!['i', 'n', 'd', 'e', 'x']
}

/// A value of type `target`: a first value and any `+`, `-`, `[..]` and
/// `.member` that follow it.
pub open spec fn spec_parse_value(s: Seq<SpecToken>, p: int, st: SpecState, target: SpecType) -> Option<(SpecTypedValue, int)>
    decreases s.len() - p, 2int,
{
    match advanced(spec_parse_primary(s, p, st, target), p, s.len()) {
        Some((first, q)) => spec_parse_postfix(s, q, st, target, first),
        None => None,
    }
}

/// The first value of a value: a call `f(..)` or `f<T, ..>(..)`, a
/// variable, a struct construction `S { m: v, .. }`, a function name, a
/// number, or a list `[v, ..]` (where `target` is a list type).
pub open spec fn spec_parse_primary(s: Seq<SpecToken>, p: int, st: SpecState, target: SpecType) -> Option<(SpecTypedValue, int)>
    decreases s.len() - p, 1int,
{
    match tok_at(s, p) {
        Some(SpecToken::Name(name)) => if tok_at(s, p + 1) == Some(SpecToken::LParens) {
            spec_parse_call(s, p + 1, st, name)
        } else if tok_at(s, p + 1) == Some(SpecToken::LAngle) {
            spec_parse_generic_call(s, p + 1, st, name)
        } else if st.var_type(name) is Some {
            Some(
                (
                    SpecTypedValue {
                        val_type: st.var_type(name).unwrap(),
                        val_source: SpecValueSource::Variable(name),
                    },
                    p + 1,
                ),
            )
        } else if st.struct_members(name) is Some {
            spec_parse_struct_value(s, p + 1, st, name, st.struct_members(name).unwrap())
        } else if assoc_get(st.function_to_sig, name) is Some {
            Some(
                (
                    SpecTypedValue {
                        val_type: SpecType::Function(Box::new(assoc_get(st.function_to_sig, name).unwrap())),
                        val_source: SpecValueSource::Function(name),
                    },
                    p + 1,
                ),
            )
        } else {
            None
        },
        Some(SpecToken::Number(x)) => Some(
            (SpecTypedValue { val_type: SpecType::Int, val_source: SpecValueSource::NumberLiteral(x) }, p + 1),
        ),
        Some(SpecToken::LBracket) => match target {
            SpecType::List(item) => spec_parse_list(s, p + 1, st, target, *item),
            _ => None,
        },
        _ => None,
    }
}

/// A call of `name` without type arguments, from its `(`: the arguments
/// are read against the signature's argument types and must match it.
pub open spec fn spec_parse_call(s: Seq<SpecToken>, p: int, st: SpecState, name: Seq<char>) -> Option<(SpecTypedValue, int)>
    decreases s.len() - p, 5int,
{
    match st.get_sig(name) {
        Some(sig) => match advanced(spec_parse_function_call(s, p, st, sig.args), p, s.len()) {
            Some((args, q)) => if sig.matches_types(arg_types(args), Seq::empty()) {
                Some(
                    (
                        SpecTypedValue {
                            val_type: sig.ret_type,
                            val_source: SpecValueSource::FunctionCall { name, args },
                        },
                        q,
                    ),
                )
            } else {
                None
            },
            None => None,
        },
        None => None,
    }
}

/// A call of `name` with type arguments, from its `<`: the arguments are
/// read against the signature's argument types with the type parameters
/// bound to the type arguments. The call's type is the signature's result
/// type as written.
pub open spec fn spec_parse_generic_call(s: Seq<SpecToken>, p: int, st: SpecState, name: Seq<char>) -> Option<(SpecTypedValue, int)>
    decreases s.len() - p, 5int,
{
    match reached(spec_parse_filled_types(s, p + 1, st, Seq::empty()), p + 1, s.len()) {
        Some((filled, q)) => if tok_at(s, q) == Some(SpecToken::RAngle) {
            match st.get_sig(name) {
                Some(sig) => match instantiate_all(sig.args, sig.type_names, filled) {
                    Some(targets) => match advanced(spec_parse_function_call(s, q + 1, st, targets), q + 1, s.len()) {
                        Some((args, r)) => if sig.matches_types(arg_types(args), filled) {
                            Some(
                                (
                                    SpecTypedValue {
                                        val_type: sig.ret_type,
                                        val_source: SpecValueSource::FunctionCall { name, args },
                                    },
                                    r,
                                ),
                            )
                        } else {
                            None
                        },
                        None => None,
                    },
                    None => None,
                },
                None => None,
            }
        } else {
            None
        },
        None => None,
    }
}

/// A construction of the struct `name` with the given members, from its `{`.
pub open spec fn spec_parse_struct_value(
    s: Seq<SpecToken>,
    p: int,
    st: SpecState,
    name: Seq<char>,
    members: Seq<(Seq<char>, SpecType)>,
) -> Option<(SpecTypedValue, int)>
    decreases s.len() - p, 5int,
{
    if tok_at(s, p) == Some(SpecToken::LBrace) {
        match reached(spec_parse_struct_con(s, p + 1, st, members, Seq::empty()), p + 1, s.len()) {
            Some((items, q)) => if items.len() == members.len() && tok_at(s, q) == Some(SpecToken::RBrace) {
                Some(
                    (
                        SpecTypedValue {
                            val_type: SpecType::StructName(name),
                            val_source: SpecValueSource::StructConstruction(items),
                        },
                        q + 1,
                    ),
                )
            } else {
                None
            },
            None => None,
        }
    } else {
        None
    }
}

/// A list literal of type `target` with items of type `item`, after its `[`.
pub open spec fn spec_parse_list(s: Seq<SpecToken>, p: int, st: SpecState, target: SpecType, item: SpecType) -> Option<(SpecTypedValue, int)>
    decreases s.len() - p, 5int,
{
    match reached(spec_parse_list_items(s, p, st, item, Seq::empty()), p, s.len()) {
        Some((values, q)) => if tok_at(s, q) == Some(SpecToken::RBracket) {
            Some((SpecTypedValue { val_type: target, val_source: SpecValueSource::ListLiteral(values) }, q + 1))
        } else {
            None
        },
        None => None,
    }
}

/// What follows a value `first`: `+ v` or `- v` (an `add` or `subtract`
/// call, the right operand read as a whole value), `[i]` (an `index` call),
/// `.member`; anything else ends the value, which must then be of type
/// `target`.
pub open spec fn spec_parse_postfix(
    s: Seq<SpecToken>,
    p: int,
    st: SpecState,
    target: SpecType,
    first: SpecTypedValue,
) -> Option<(SpecTypedValue, int)>
    decreases s.len() - p, 3int,
{
    match tok_at(s, p) {
        None => None,
        Some(SpecToken::Plus) | Some(SpecToken::Minus) => match advanced(
            spec_parse_value(s, p + 1, st, SpecType::Int),
            p + 1,
            s.len(),
        ) {
            Some((rhs, q)) => if first.val_type == SpecType::Int && rhs.val_type == SpecType::Int {
                let name = if s[p] == SpecToken::Minus {
                    name_subtract()
                } else {
                    name_add()
                };
                spec_parse_postfix(
                    s,
                    q,
                    st,
                    target,
                    SpecTypedValue {
                        val_type: SpecType::Int,
                        val_source: SpecValueSource::FunctionCall { name, args: seq![first, rhs] },
                    },
                )
            } else {
                None
            },
            None => None,
        },
        Some(SpecToken::LBracket) => match first.val_type {
            SpecType::List(sub_type) => match advanced(spec_parse_value(s, p + 1, st, SpecType::Int), p + 1, s.len()) {
                Some((idx, q)) => if tok_at(s, q) == Some(SpecToken::RBracket) {
                    spec_parse_postfix(
                        s,
                        q + 1,
                        st,
                        target,
                        SpecTypedValue {
                            val_type: *sub_type,
                            val_source: SpecValueSource::FunctionCall { name: name_index(), args: seq![first, idx] },
                        },
                    )
                } else {
                    None
                },
                None => None,
            },
            _ => None,
        },
        Some(SpecToken::Dot) => match first.val_type {
            SpecType::StructName(struct_name) => match tok_at(s, p + 1) {
                Some(SpecToken::Name(member)) => match st.struct_members(struct_name) {
                    Some(members) => match assoc_get(members, member) {
                        Some(t) => spec_parse_postfix(
                            s,
                            p + 2,
                            st,
                            target,
                            SpecTypedValue {
                                val_type: t,
                                val_source: SpecValueSource::MemberAccess { name: member, item: Box::new(first) },
                            },
                        ),
                        None => None,
                    },
                    None => None,
                },
                _ => None,
            },
            _ => None,
        },
        Some(_) => if first.val_type == target {
            Some((first, p))
        } else {
            None
        },
    }
}

/// The items of a list literal, up to its `]`, separated by `,`.
pub open spec fn spec_parse_list_items(
    s: Seq<SpecToken>,
    p: int,
    st: SpecState,
    item: SpecType,
    acc: Seq<SpecTypedValue>,
) -> Option<(Seq<SpecTypedValue>, int)>
    decreases s.len() - p, 3int,
{
    match tok_at(s, p) {
        None => None,
        Some(SpecToken::RBracket) => Some((acc, p)),
        Some(_) => match advanced(spec_parse_value(s, p, st, item), p, s.len()) {
            Some((v, q)) => match tok_at(s, q) {
                Some(SpecToken::RBracket) => spec_parse_list_items(s, q, st, item, acc.push(v)),
                Some(SpecToken::Comma) => spec_parse_list_items(s, q + 1, st, item, acc.push(v)),
                _ => None,
            },
            None => None,
        },
    }
}

/// The explicit type arguments of a call, up to its `>`, each followed by an
/// optional `,`.
pub open spec fn spec_parse_filled_types(s: Seq<SpecToken>, p: int, st: SpecState, acc: Seq<SpecType>) -> Option<(Seq<SpecType>, int)>
    decreases s.len() - p, 1int,
{
    match tok_at(s, p) {
        None => None,
        Some(SpecToken::RAngle) => Some((acc, p)),
        Some(_) => match advanced(spec_parse_type(s, p, st), p, s.len()) {
            Some((t, q)) => match tok_at(s, q) {
                None => None,
                Some(SpecToken::Comma) => spec_parse_filled_types(s, q + 1, st, acc.push(t)),
                Some(_) => spec_parse_filled_types(s, q, st, acc.push(t)),
            },
            None => None,
        },
    }
}

/// The arguments of a call, `(v, ..)`, one for each type of `targets` and of
/// that type.
pub open spec fn spec_parse_function_call(s: Seq<SpecToken>, p: int, st: SpecState, targets: Seq<SpecType>) -> Option<(Seq<SpecTypedValue>, int)>
    decreases s.len() - p, 4int,
{
    if tok_at(s, p) == Some(SpecToken::LParens) {
        match reached(spec_parse_call_args(s, p + 1, st, targets, Seq::empty()), p + 1, s.len()) {
            Some((args, q)) => if args.len() == targets.len() && tok_at(s, q) == Some(SpecToken::RParens) {
                Some((args, q + 1))
            } else {
                None
            },
            None => None,
        }
    } else {
        None
    }
}

/// The arguments of a call, up to its `)`, each followed by a `,` or by the
/// `)`.
pub open spec fn spec_parse_call_args(
    s: Seq<SpecToken>,
    p: int,
    st: SpecState,
    targets: Seq<SpecType>,
    acc: Seq<SpecTypedValue>,
) -> Option<(Seq<SpecTypedValue>, int)>
    decreases s.len() - p, 3int,
{
    match tok_at(s, p) {
        None => None,
        Some(SpecToken::RParens) => Some((acc, p)),
        Some(_) => if acc.len() < targets.len() {
            match advanced(spec_parse_value(s, p, st, targets[acc.len() as int]), p, s.len()) {
                Some((v, q)) => match tok_at(s, q) {
                    Some(SpecToken::Comma) => spec_parse_call_args(s, q + 1, st, targets, acc.push(v)),
                    Some(SpecToken::RParens) => spec_parse_call_args(s, q, st, targets, acc.push(v)),
                    _ => None,
                },
                None => None,
            }
        } else {
            None
        },
    }
}

/// The members of a struct construction, up to its `}`, in the order of the
/// struct's definition, each `name: value` followed by an optional `,`.
pub open spec fn spec_parse_struct_con(
    s: Seq<SpecToken>,
    p: int,
    st: SpecState,
    members: Seq<(Seq<char>, SpecType)>,
    acc: Seq<(Seq<char>, SpecTypedValue)>,
) -> Option<(Seq<(Seq<char>, SpecTypedValue)>, int)>
    decreases s.len() - p, 3int,
{
    match tok_at(s, p) {
        None => None,
        Some(SpecToken::RBrace) => Some((acc, p)),
        Some(SpecToken::Name(m)) => if acc.len() < members.len() && members[acc.len() as int].0 == m && tok_at(s, p + 1)
            == Some(SpecToken::Colon) {
            match advanced(spec_parse_value(s, p + 2, st, members[acc.len() as int].1), p + 2, s.len()) {
                Some((v, q)) => match tok_at(s, q) {
                    None => None,
                    Some(SpecToken::Comma) => spec_parse_struct_con(s, q + 1, st, members, acc.push((m, v))),
                    Some(_) => spec_parse_struct_con(s, q, st, members, acc.push((m, v))),
                },
                None => None,
            }
        } else {
            None
        },
        Some(_) => None,
    }
}

/// The type parameters of a function, up to its `>`, each name followed by an
/// optional `,`.
pub open spec fn spec_parse_type_params(s: Seq<SpecToken>, p: int, acc: Seq<Seq<char>>) -> Option<(Seq<Seq<char>>, int)>
    decreases s.len() - p,
{
    match tok_at(s, p) {
        None => None,
        Some(SpecToken::RAngle) => Some((acc, p)),
        Some(SpecToken::Name(n)) => match tok_at(s, p + 1) {
            None => None,
            Some(SpecToken::Comma) => spec_parse_type_params(s, p + 2, acc.push(n)),
            Some(_) => spec_parse_type_params(s, p + 1, acc.push(n)),
        },
        Some(_) => None,
    }
}

/// The state with the type parameters `params` added in order to the
/// innermost scope; `None` where one of them is there already.
pub open spec fn declare_type_params(st: SpecState, params: Seq<Seq<char>>) -> Option<SpecState>
    decreases params.len(),
{
    if params.len() == 0 {
        Some(st)
    } else {
        match declare_type_params(st, params.drop_last()) {
            Some(st1) => st1.declare_type_param(params.last()),
            None => None,
        }
    }
}

/// The optional type parameters of a function, `<A, ..>`: the names and the
/// position after the `>`, or none and `p` where no `<` follows.
pub open spec fn spec_parse_fun_type_params(s: Seq<SpecToken>, p: int) -> Option<(Seq<Seq<char>>, int)> {
    match tok_at(s, p) {
        None => None,
        Some(SpecToken::LAngle) => match reached(spec_parse_type_params(s, p + 1, Seq::empty()), p + 1, s.len()) {
            Some((params, q)) => if tok_at(s, q) == Some(SpecToken::RAngle) {
                Some((params, q + 1))
            } else {
                None
            },
            None => None,
        },
        Some(_) => Some((Seq::empty(), p)),
    }
}

/// The arguments of a function definition, up to its `)`, each `type name`
/// followed by an optional `,`; each is declared in the innermost scope.
pub open spec fn spec_parse_fun_args(
    s: Seq<SpecToken>,
    p: int,
    st: SpecState,
    acc: Seq<(Seq<char>, SpecType)>,
) -> Option<(Seq<(Seq<char>, SpecType)>, int, SpecState)>
    decreases s.len() - p, 1int,
{
    match tok_at(s, p) {
        None => None,
        Some(SpecToken::RParens) => Some((acc, p, st)),
        Some(_) => match advanced(spec_parse_type(s, p, st), p, s.len()) {
            Some((t, q)) => match tok_at(s, q) {
                Some(SpecToken::Name(a)) => match st.declare_var(a, t) {
                    Some(st1) => match tok_at(s, q + 1) {
                        None => None,
                        Some(SpecToken::Comma) => spec_parse_fun_args(s, q + 2, st1, acc.push((a, t))),
                        Some(_) => spec_parse_fun_args(s, q + 1, st1, acc.push((a, t))),
                    },
                    None => None,
                },
                _ => None,
            },
            None => None,
        },
    }
}

/// A function definition after `fun`: `<A, ..> R name(T a, ..) { body }`. The
/// type parameters and arguments belong to a scope of their own, closed after
/// the body; the function is then declared.
pub open spec fn spec_parse_fun(s: Seq<SpecToken>, p: int, st: SpecState) -> Option<(SpecStatement, int, SpecState)>
    decreases s.len() - p, 4int,
{
    match spec_parse_fun_type_params(s, p) {
        Some((params, p1)) => if p <= p1 <= s.len() {
            match declare_type_params(st.push(), params) {
                Some(st1) => match advanced(spec_parse_type(s, p1, st1), p1, s.len()) {
                    Some((ret_type, q)) => match tok_at(s, q) {
                        Some(SpecToken::Name(name)) => if tok_at(s, q + 1) == Some(SpecToken::LParens) {
                            match spec_parse_fun_args(s, q + 2, st1, Seq::empty()) {
                                Some((args, q2, st2)) => if q + 2 <= q2 && tok_at(s, q2) == Some(SpecToken::RParens)
                                    && tok_at(s, q2 + 1) == Some(SpecToken::LBrace) {
                                    match spec_parse_block(s, q2 + 2, st2, ret_type, Seq::empty()) {
                                        Some((body, q3, st3)) => if q2 + 2 <= q3 && tok_at(s, q3) == Some(
                                            SpecToken::RBrace,
                                        ) {
                                            let sig = SpecSig { args: member_types(args), ret_type, type_names: params };
                                            match st3.pop().declare_function(name, sig) {
                                                Some(st4) => Some(
                                                    (
                                                        SpecStatement::FunDefinition(
                                                            name,
                                                            SpecFunDefinition { args, statements: body, type_params: params },
                                                        ),
                                                        q3 + 1,
                                                        st4,
                                                    ),
                                                ),
                                                None => None,
                                            }
                                        } else {
                                            None
                                        },
                                        None => None,
                                    }
                                } else {
                                    None
                                },
                                None => None,
                            }
                        } else {
                            None
                        },
                        _ => None,
                    },
                    None => None,
                },
                None => None,
            }
        } else {
            None
        },
        None => None,
    }
}

/// The members of a struct definition, up to its `}`, each `type name`
/// followed by an optional `,`.
pub open spec fn spec_parse_members(
    s: Seq<SpecToken>,
    p: int,
    st: SpecState,
    acc: Seq<(Seq<char>, SpecType)>,
) -> Option<(Seq<(Seq<char>, SpecType)>, int)>
    decreases s.len() - p, 1int,
{
    match tok_at(s, p) {
        None => None,
        Some(SpecToken::RBrace) => Some((acc, p)),
        Some(_) => match advanced(spec_parse_type(s, p, st), p, s.len()) {
            Some((t, q)) => match tok_at(s, q) {
                Some(SpecToken::Name(m)) => match tok_at(s, q + 1) {
                    None => None,
                    Some(SpecToken::Comma) => spec_parse_members(s, q + 2, st, acc.push((m, t))),
                    Some(_) => spec_parse_members(s, q + 1, st, acc.push((m, t))),
                },
                _ => None,
            },
            None => None,
        },
    }
}

/// A struct definition after `struct`: `Name { type member, .. }`. While its
/// members are read the struct's own name stands for its type.
pub open spec fn spec_parse_struct(s: Seq<SpecToken>, p: int, st: SpecState) -> Option<(SpecStatement, int, SpecState)>
    decreases s.len() - p, 4int,
{
    match tok_at(s, p) {
        Some(SpecToken::Name(name)) => match st.begin_struct(name) {
            Some(st1) => if tok_at(s, p + 1) == Some(SpecToken::LBrace) {
                match reached(spec_parse_members(s, p + 2, st1, Seq::empty()), p + 2, s.len()) {
                    Some((members, q)) => match st1.end_struct(name, members) {
                        Some(st2) => if tok_at(s, q) == Some(SpecToken::RBrace) {
                            Some((SpecStatement::StructDefinition(name, members), q + 1, st2))
                        } else {
                            None
                        },
                        None => None,
                    },
                    None => None,
                }
            } else {
                None
            },
            None => None,
        },
        _ => None,
    }
}

/// One statement (without its `;`): `let name: T = v`, a function or struct
/// definition, `ret v` (a value of the enclosing function's result type), or a
/// value of type `none`.
pub open spec fn spec_parse_statement(s: Seq<SpecToken>, p: int, st: SpecState, ret_type: SpecType) -> Option<(SpecStatement, int, SpecState)>
    decreases s.len() - p, 4int,
{
    match tok_at(s, p) {
        None => None,
        Some(SpecToken::Let) => match tok_at(s, p + 1) {
            Some(SpecToken::Name(name)) => if tok_at(s, p + 2) == Some(SpecToken::Colon) {
                match advanced(spec_parse_type(s, p + 3, st), p + 3, s.len()) {
                    Some((val_type, q)) => if tok_at(s, q) == Some(SpecToken::Equals) {
                        match advanced(spec_parse_value(s, q + 1, st, val_type), q + 1, s.len()) {
                            Some((value, r)) => match st.declare_var(name, value.val_type) {
                                Some(st1) => Some((SpecStatement::VarDefinition(name, value), r, st1)),
                                None => None,
                            },
                            None => None,
                        }
                    } else {
                        None
                    },
                    None => None,
                }
            } else {
                None
            },
            _ => None,
        },
        Some(SpecToken::Fun) => spec_parse_fun(s, p + 1, st),
        Some(SpecToken::Struct) => spec_parse_struct(s, p + 1, st),
        Some(SpecToken::Ret) => match advanced(spec_parse_value(s, p + 1, st, ret_type), p + 1, s.len()) {
            Some((value, q)) => Some((SpecStatement::Ret(value), q, st)),
            None => None,
        },
        Some(_) => match advanced(spec_parse_value(s, p, st, SpecType::Nothing), p, s.len()) {
            Some((value, q)) => if value.val_type == SpecType::Nothing {
                Some((SpecStatement::Value(value), q, st))
            } else {
                None
            },
            None => None,
        },
    }
}

/// Statements, each ended by `;`, up to a `}` or the end of the tokens (which
/// are left unread). Returns the statements, where they end, and the state.
pub open spec fn spec_parse_block(
    s: Seq<SpecToken>,
    p: int,
    st: SpecState,
    ret_type: SpecType,
    acc: Seq<SpecStatement>,
) -> Option<(Seq<SpecStatement>, int, SpecState)>
    decreases s.len() - p, 5int,
{
    match tok_at(s, p) {
        None => Some((acc, p, st)),
        Some(SpecToken::RBrace) => Some((acc, p, st)),
        Some(_) => match advanced3(spec_parse_statement(s, p, st, ret_type), p, s.len()) {
            Some((stmt, q, st1)) => if tok_at(s, q) == Some(SpecToken::SemiColon) {
                spec_parse_block(s, q + 1, st1, ret_type, acc.push(stmt))
            } else {
                None
            },
            None => None,
        },
    }
}

/// The program that a source text holds: its tokens read as statements from
/// the initial state, with `none` as result type.
pub open spec fn spec_dew_it(src: Seq<char>) -> Option<Seq<SpecStatement>> {
    match spec_tokenize(src) {
        Some(toks) => match spec_parse_block(toks, 0, SpecState::initial(), SpecType::Nothing, Seq::empty()) {
            Some((statements, _, _)) => Some(statements),
            None => None,
        },
        None => None,
    }
}

/// The token at position `pos`, if there is one.
fn at(tokens: &Vec<Token>, pos: usize) -> (r: Option<&Token>)
    ensures
        opt_view(r) == tok_at(tokens_view(tokens@), pos as int),
        r is Some <==> pos < tokens.len(),
{
    if pos < tokens.len() {
        Some(&tokens[pos])
    } else {
        None
    }
}

/// A type (see `spec_parse_type`) at `pos`, and the position after it.
fn try_parse_type(tokens: &Vec<Token>, pos: usize, state: &State) -> (r: Option<(Type, usize)>)
    requires
        state.wf(),
    ensures
        match r {
            Some((t, q)) => pos < q <= tokens.len() && spec_parse_type(tokens_view(tokens@), pos as int, state@) == Some(
                (t@, q as int),
            ),
            None => spec_parse_type(tokens_view(tokens@), pos as int, state@) is None,
        },
    decreases tokens.len() - pos,
{
    let ghost s = tokens_view(tokens@);
    if pos >= tokens.len() {
        return None;
    }
    assert(s[pos as int] == tokens@[pos as int]@);
    match &tokens[pos] {
        Token::Name(name) => {
            if *name == string_of(&['n', 'o', 'n', 'e']) {
                Some((Type::Nothing, pos + 1))
            } else if *name == string_of(&['i', 'n', 't']) {
                Some((Type::Int, pos + 1))
            } else {
                match state.name_to_type(name) {
                    Some(t) => Some((t, pos + 1)),
                    None => None,
                }
            }
        },
        Token::LBracket => {
            match try_parse_type(tokens, pos + 1, state) {
                Some((t, q)) => {
                    if let Some(Token::RBracket) = at(tokens, q) {
                        Some((Type::List(Box::new(t)), q + 1))
                    } else {
                        None
                    }
                },
                None => None,
            }
        },
        Token::LParens => {
            let ghost st = state@;
            let mut args: Vec<Type> = Vec::new();
            let mut cur: usize = pos + 1;
            assert(types_view(args@) =~= Seq::<SpecType>::empty());
            loop
                invariant
                    pos + 1 <= cur <= tokens.len(),
                    pos < tokens.len(),
                    s[pos as int] == SpecToken::LParens,
                    s == tokens_view(tokens@),
                    st == state@,
                    state.wf(),
                    spec_parse_type_list(s, pos + 1, st, Seq::empty()) == spec_parse_type_list(
                        s,
                        cur as int,
                        st,
                        types_view(args@),
                    ),
                ensures
                    pos + 1 <= cur < tokens.len(),
                    tokens@[cur as int] is RParens,
                    spec_parse_type_list(s, pos + 1, st, Seq::empty()) == Some((types_view(args@), cur as int)),
                decreases tokens.len() - cur,
            {
                match at(tokens, cur) {
                    None => {
                        return None;
                    },
                    Some(Token::RParens) => {
                        break;
                    },
                    Some(_) => {},
                }
                match try_parse_type(tokens, cur, state) {
                    Some((t, q)) => {
                        let ghost old_args = args@;
                        match at(tokens, q) {
                            Some(Token::Comma) => {
                                args.push(t);
                                assert(types_view(args@) =~= types_view(old_args).push(t@));
                                cur = q + 1;
                            },
                            Some(Token::RParens) => {
                                args.push(t);
                                assert(types_view(args@) =~= types_view(old_args).push(t@));
                                cur = q;
                            },
                            _ => {
                                return None;
                            },
                        }
                    },
                    None => {
                        return None;
                    },
                }
            }
            if let Some(Token::Minus) = at(tokens, cur + 1) {
            } else {
                return None;
            }
            if let Some(Token::RAngle) = at(tokens, cur + 2) {
            } else {
                return None;
            }
            match try_parse_type(tokens, cur + 3, state) {
                Some((ret_type, r)) => {
                    let sig = Sig { args, ret_type, type_names: Vec::new() };
                    assert(sig@.args =~= types_view(sig.args@));
                    assert(sig@.type_names =~= Seq::<Seq<char>>::empty());
                    Some((Type::Function(Box::new(sig)), r))
                },
                None => None,
            }
        },
        _ => None,
    }
}

/// A value of type `target` (see `spec_parse_value`) at `pos`, and the
/// position after it.
#[verifier::loop_isolation(false)]
fn try_parse_value(tokens: &Vec<Token>, pos: usize, state: &State, target: &Type) -> (r: Option<(TypedValue, usize)>)
    requires
        state.wf(),
    ensures
        match r {
            Some((v, q)) => pos < q <= tokens.len() && spec_parse_value(tokens_view(tokens@), pos as int, state@, target@)
                == Some((v@, q as int)),
            None => spec_parse_value(tokens_view(tokens@), pos as int, state@, target@) is None,
        },
    decreases tokens.len() - pos, 2int,
{
    let ghost s = tokens_view(tokens@);
    let ghost st = state@;
    let (mut first, mut cur) = match parse_primary(tokens, pos, state, target) {
        Some(x) => x,
        None => {
            return None;
        },
    };
    loop
        invariant
            pos < cur <= tokens.len(),
            spec_parse_value(s, pos as int, st, target@) == spec_parse_postfix(s, cur as int, st, target@, first@),
        decreases tokens.len() - cur,
    {
        let ghost old_first = first@;
        match at(tokens, cur) {
            None => {
                return None;
            },
            Some(Token::Plus) | Some(Token::Minus) => {
                assert(s[cur as int] == tokens@[cur as int]@);
                let is_minus = matches!(tokens[cur], Token::Minus);
                let (rhs, q) = match try_parse_value(tokens, cur + 1, state, &Type::Int) {
                    Some(x) => x,
                    None => {
                        return None;
                    },
                };
                if !(matches!(first.val_type, Type::Int) && matches!(rhs.val_type, Type::Int)) {
                    return None;
                }
                let name = if is_minus {
                    string_of(&['s', 'u', 'b', 't', 'r', 'a', 'c', 't'])
                } else {
                    string_of(&['a', 'd', 'd'])
                };
                let ghost rhs_view = rhs@;
                let ghost name_view = name@;
                let args = vec![first, rhs];
                assert(values_view(args@) =~= seq![old_first, rhs_view]);
                proof {
                    lemma_call_view(name, args);
                }
                first = TypedValue { val_type: Type::Int, val_source: ValueSource::FunctionCall { name, args } };
                cur = q;
            },
            Some(Token::LBracket) => {
                let sub = match &first.val_type {
                    Type::List(sub) => copy_type(sub),
                    _ => {
                        return None;
                    },
                };
                let (idx, q) = match try_parse_value(tokens, cur + 1, state, &Type::Int) {
                    Some(x) => x,
                    None => {
                        return None;
                    },
                };
                if let Some(Token::RBracket) = at(tokens, q) {
                } else {
                    return None;
                }
                let name = string_of(&['i', 'n', 'd', 'e', 'x']);
                let ghost idx_view = idx@;
                let args = vec![first, idx];
                assert(values_view(args@) =~= seq![old_first, idx_view]);
                proof {
                    lemma_call_view(name, args);
                }
                first = TypedValue { val_type: sub, val_source: ValueSource::FunctionCall { name, args } };
                cur = q + 1;
            },
            Some(Token::Dot) => {
                let struct_name = match &first.val_type {
                    Type::StructName(n) => n.clone(),
                    _ => {
                        return None;
                    },
                };
                let member = match at(tokens, cur + 1) {
                    Some(Token::Name(m)) => m.clone(),
                    _ => {
                        return None;
                    },
                };
                let members = match state.id_to_struct(&struct_name) {
                    Some(m) => m,
                    None => {
                        return None;
                    },
                };
                assert(keys_of(members@) =~= spec_keys(members_view(members@)));
                proof {
                    lemma_lookup(keys_of(members@), members_view(members@), member@);
                }
                let k = match find_key(members, &member) {
                    Some(k) => k,
                    None => {
                        return None;
                    },
                };
                let t = copy_type(&members[k].1);
                first = TypedValue { val_type: t, val_source: ValueSource::MemberAccess { name: member, item: Box::new(first) } };
                cur = cur + 2;
            },
            Some(_) => {
                if type_eq(&first.val_type, target) {
                    return Some((first, cur));
                } else {
                    return None;
                }
            },
        }
    }
}

/// The first value of a value (see `spec_parse_primary`).
fn parse_primary(tokens: &Vec<Token>, pos: usize, state: &State, target: &Type) -> (r: Option<(TypedValue, usize)>)
    requires
        state.wf(),
    ensures
        match r {
            Some((v, q)) => pos < q <= tokens.len() && spec_parse_primary(tokens_view(tokens@), pos as int, state@, target@)
                == Some((v@, q as int)),
            None => spec_parse_primary(tokens_view(tokens@), pos as int, state@, target@) is None,
        },
    decreases tokens.len() - pos, 1int,
{
    let ghost s = tokens_view(tokens@);
    if pos >= tokens.len() {
        return None;
    }
    assert(s[pos as int] == tokens@[pos as int]@);
    match &tokens[pos] {
        Token::Name(name) => {
            if let Some(Token::LParens) = at(tokens, pos + 1) {
                parse_call(tokens, pos + 1, state, name)
            } else if let Some(Token::LAngle) = at(tokens, pos + 1) {
                parse_generic_call(tokens, pos + 1, state, name)
            } else if let Some(t) = state.var_to_id(name) {
                Some((TypedValue { val_type: copy_type(t), val_source: ValueSource::Variable(name.clone()) }, pos + 1))
            } else if let Some(members) = state.id_to_struct(name) {
                parse_struct_value(tokens, pos + 1, state, name, members)
            } else if let Some(sig) = state.function_sig(name) {
                Some(
                    (
                        TypedValue {
                            val_type: Type::Function(Box::new(copy_sig(sig))),
                            val_source: ValueSource::Function(name.clone()),
                        },
                        pos + 1,
                    ),
                )
            } else {
                None
            }
        },
        Token::Number(x) => Some(
            (TypedValue { val_type: Type::Int, val_source: ValueSource::NumberLiteral(*x) }, pos + 1),
        ),
        Token::LBracket => {
            match target {
                Type::List(item) => parse_list(tokens, pos + 1, state, target, item),
                _ => None,
            }
        },
        _ => None,
    }
}

/// A call of `name` from its `(` (see `spec_parse_call`).
fn parse_call(tokens: &Vec<Token>, pos: usize, state: &State, name: &String) -> (r: Option<(TypedValue, usize)>)
    requires
        state.wf(),
    ensures
        match r {
            Some((v, q)) => pos < q <= tokens.len() && spec_parse_call(tokens_view(tokens@), pos as int, state@, name@)
                == Some((v@, q as int)),
            None => spec_parse_call(tokens_view(tokens@), pos as int, state@, name@) is None,
        },
    decreases tokens.len() - pos, 5int,
{
    let sig = match state.get_sig(name) {
        Some(sig) => copy_sig(sig),
        None => {
            return None;
        },
    };
    assert(sig@.args =~= types_view(sig.args@));
    let (args, q) = match try_parse_function_call(tokens, pos, state, &sig.args) {
        Some(x) => x,
        None => {
            return None;
        },
    };
    let no_params: Vec<Type> = Vec::new();
    assert(types_view(no_params@) =~= Seq::<SpecType>::empty());
    if !sig.check_matches(args.as_slice(), no_params.as_slice()) {
        return None;
    }
    let name = name.clone();
    proof {
        lemma_call_view(name, args);
    }
    Some((TypedValue { val_type: sig.ret_type, val_source: ValueSource::FunctionCall { name, args } }, q))
}

/// A call of `name` with type arguments, from its `<` (see
/// `spec_parse_generic_call`).
#[verifier::loop_isolation(false)]
fn parse_generic_call(tokens: &Vec<Token>, pos: usize, state: &State, name: &String) -> (r: Option<(TypedValue, usize)>)
    requires
        state.wf(),
        pos < tokens.len(),
    ensures
        match r {
            Some((v, q)) => pos < q <= tokens.len() && spec_parse_generic_call(tokens_view(tokens@), pos as int, state@, name@)
                == Some((v@, q as int)),
            None => spec_parse_generic_call(tokens_view(tokens@), pos as int, state@, name@) is None,
        },
    decreases tokens.len() - pos, 5int,
{
    let ghost s = tokens_view(tokens@);
    let ghost st = state@;
    let mut filled: Vec<Type> = Vec::new();
    let mut cur: usize = pos + 1;
    assert(types_view(filled@) =~= Seq::<SpecType>::empty());
    loop
        invariant
            pos + 1 <= cur <= tokens.len(),
            spec_parse_filled_types(s, pos + 1, st, Seq::empty()) == spec_parse_filled_types(
                s,
                cur as int,
                st,
                types_view(filled@),
            ),
        decreases tokens.len() - cur,
    {
        match at(tokens, cur) {
            None => {
                return None;
            },
            Some(Token::RAngle) => {
                break;
            },
            Some(_) => {},
        }
        let (t, q) = match try_parse_type(tokens, cur, state) {
            Some(x) => x,
            None => {
                return None;
            },
        };
        let ghost old_filled = filled@;
        filled.push(t);
        assert(types_view(filled@) =~= types_view(old_filled).push(t@));
        match at(tokens, q) {
            None => {
                return None;
            },
            Some(Token::Comma) => {
                cur = q + 1;
            },
            Some(_) => {
                cur = q;
            },
        }
    }
    let sig = match state.get_sig(name) {
        Some(sig) => sig,
        None => {
            return None;
        },
    };
    let targets = match instantiate_args(sig, &sig.type_names, filled.as_slice()) {
        Some(t) => t,
        None => {
            return None;
        },
    };
    let (args, r) = match try_parse_function_call(tokens, cur + 1, state, &targets) {
        Some(x) => x,
        None => {
            return None;
        },
    };
    if !sig.check_matches(args.as_slice(), filled.as_slice()) {
        return None;
    }
    let name = name.clone();
    proof {
        lemma_call_view(name, args);
    }
    Some((TypedValue { val_type: copy_type(&sig.ret_type), val_source: ValueSource::FunctionCall { name, args } }, r))
}

/// A construction of the struct `name` from its `{` (see
/// `spec_parse_struct_value`).
#[verifier::loop_isolation(false)]
fn parse_struct_value(tokens: &Vec<Token>, pos: usize, state: &State, name: &String, members: &[(String, Type)]) -> (r: Option<(TypedValue, usize)>)
    requires
        state.wf(),
    ensures
        match r {
            Some((v, q)) => pos < q <= tokens.len() && spec_parse_struct_value(
                tokens_view(tokens@),
                pos as int,
                state@,
                name@,
                members_view(members@),
            ) == Some((v@, q as int)),
            None => spec_parse_struct_value(tokens_view(tokens@), pos as int, state@, name@, members_view(members@)) is None,
        },
    decreases tokens.len() - pos, 5int,
{
    let ghost s = tokens_view(tokens@);
    let ghost st = state@;
    if let Some(Token::LBrace) = at(tokens, pos) {
    } else {
        return None;
    }
    let ghost mv = members_view(members@);
    let mut items: Vec<(String, TypedValue)> = Vec::new();
    let mut cur: usize = pos + 1;
    assert(named_values_view(items@) =~= Seq::<(Seq<char>, SpecTypedValue)>::empty());
    loop
        invariant
            pos + 1 <= cur <= tokens.len(),
            spec_parse_struct_con(s, pos + 1, st, mv, Seq::empty()) == spec_parse_struct_con(
                s,
                cur as int,
                st,
                mv,
                named_values_view(items@),
            ),
        decreases tokens.len() - cur,
    {
        assert(cur < tokens.len() ==> s[cur as int] == tokens@[cur as int]@);
        let member = match at(tokens, cur) {
            None => {
                return None;
            },
            Some(Token::RBrace) => {
                break;
            },
            Some(Token::Name(m)) => m,
            Some(_) => {
                return None;
            },
        };
        let k = items.len();
        if !(k < members.len() && members[k].0 == *member) {
            return None;
        }
        if let Some(Token::Colon) = at(tokens, cur + 1) {
        } else {
            return None;
        }
        let (v, q) = match try_parse_value(tokens, cur + 2, state, &members[k].1) {
            Some(x) => x,
            None => {
                return None;
            },
        };
        let ghost old_items = items@;
        let item = (member.clone(), v);
        items.push(item);
        assert(named_values_view(items@) =~= named_values_view(old_items).push((item.0@, item.1@)));
        match at(tokens, q) {
            None => {
                return None;
            },
            Some(Token::Comma) => {
                cur = q + 1;
            },
            Some(_) => {
                cur = q;
            },
        }
    }
    if items.len() != members.len() {
        return None;
    }
    proof {
        lemma_struct_con_view(items);
    }
    Some(
        (
            TypedValue { val_type: Type::StructName(name.clone()), val_source: ValueSource::StructConstruction(items) },
            cur + 1,
        ),
    )
}

/// A list literal of type `target` after its `[` (see `spec_parse_list`).
#[verifier::loop_isolation(false)]
fn parse_list(tokens: &Vec<Token>, pos: usize, state: &State, target: &Type, item: &Type) -> (r: Option<(TypedValue, usize)>)
    requires
        state.wf(),
        pos <= tokens.len(),
    ensures
        match r {
            Some((v, q)) => pos < q <= tokens.len() && spec_parse_list(tokens_view(tokens@), pos as int, state@, target@, item@)
                == Some((v@, q as int)),
            None => spec_parse_list(tokens_view(tokens@), pos as int, state@, target@, item@) is None,
        },
    decreases tokens.len() - pos, 5int,
{
    let ghost s = tokens_view(tokens@);
    let ghost st = state@;
    let mut values: Vec<TypedValue> = Vec::new();
    let mut cur: usize = pos;
    assert(values_view(values@) =~= Seq::<SpecTypedValue>::empty());
    loop
        invariant
            pos <= cur <= tokens.len(),
            spec_parse_list_items(s, pos as int, st, item@, Seq::empty()) == spec_parse_list_items(
                s,
                cur as int,
                st,
                item@,
                values_view(values@),
            ),
        decreases tokens.len() - cur,
    {
        match at(tokens, cur) {
            None => {
                return None;
            },
            Some(Token::RBracket) => {
                break;
            },
            Some(_) => {},
        }
        let (v, q) = match try_parse_value(tokens, cur, state, item) {
            Some(x) => x,
            None => {
                return None;
            },
        };
        let ghost old_values = values@;
        values.push(v);
        assert(values_view(values@) =~= values_view(old_values).push(v@));
        match at(tokens, q) {
            Some(Token::RBracket) => {
                cur = q;
            },
            Some(Token::Comma) => {
                cur = q + 1;
            },
            _ => {
                return None;
            },
        }
    }
    proof {
        lemma_list_view(values);
    }
    Some((TypedValue { val_type: copy_type(target), val_source: ValueSource::ListLiteral(values) }, cur + 1))
}

/// The arguments of a call at `pos`, one of each type of `targets` (see
/// `spec_parse_function_call`), and the position after the `)`.
#[verifier::loop_isolation(false)]
fn try_parse_function_call(tokens: &Vec<Token>, pos: usize, state: &State, targets: &Vec<Type>) -> (r: Option<(Vec<TypedValue>, usize)>)
    requires
        state.wf(),
    ensures
        match r {
            Some((args, q)) => pos < q <= tokens.len() && spec_parse_function_call(
                tokens_view(tokens@),
                pos as int,
                state@,
                types_view(targets@),
            ) == Some((values_view(args@), q as int)),
            None => spec_parse_function_call(tokens_view(tokens@), pos as int, state@, types_view(targets@)) is None,
        },
    decreases tokens.len() - pos, 4int,
{
    let ghost s = tokens_view(tokens@);
    let ghost st = state@;
    let ghost tv = types_view(targets@);
    if let Some(Token::LParens) = at(tokens, pos) {
    } else {
        return None;
    }
    let mut args: Vec<TypedValue> = Vec::new();
    let mut cur: usize = pos + 1;
    assert(values_view(args@) =~= Seq::<SpecTypedValue>::empty());
    loop
        invariant
            pos + 1 <= cur <= tokens.len(),
            spec_parse_call_args(s, pos + 1, st, tv, Seq::empty()) == spec_parse_call_args(
                s,
                cur as int,
                st,
                tv,
                values_view(args@),
            ),
        decreases tokens.len() - cur,
    {
        match at(tokens, cur) {
            None => {
                return None;
            },
            Some(Token::RParens) => {
                break;
            },
            Some(_) => {},
        }
        if args.len() >= targets.len() {
            return None;
        }
        let (v, q) = match try_parse_value(tokens, cur, state, &targets[args.len()]) {
            Some(x) => x,
            None => {
                return None;
            },
        };
        let ghost old_args = args@;
        match at(tokens, q) {
            Some(Token::Comma) => {
                args.push(v);
                assert(values_view(args@) =~= values_view(old_args).push(v@));
                cur = q + 1;
            },
            Some(Token::RParens) => {
                args.push(v);
                assert(values_view(args@) =~= values_view(old_args).push(v@));
                cur = q;
            },
            _ => {
                return None;
            },
        }
    }
    if args.len() != targets.len() {
        return None;
    }
    Some((args, cur + 1))
}

/// Statements up to a `}` or the end of the tokens (see `spec_parse_block`),
/// and where they end; `state` ends as the model says.
#[verifier::loop_isolation(false)]
fn try_parse(tokens: &Vec<Token>, pos: usize, state: &mut State, ret_type: &Type) -> (r: Option<(Vec<Statement>, usize)>)
    requires
        old(state).wf(),
        pos <= tokens.len(),
    ensures
        match r {
            Some((stmts, q)) => pos <= q <= tokens.len() && spec_parse_block(
                tokens_view(tokens@),
                pos as int,
                old(state)@,
                ret_type@,
                Seq::empty(),
            ) == Some((statements_view(stmts@), q as int, final(state)@)),
            None => spec_parse_block(tokens_view(tokens@), pos as int, old(state)@, ret_type@, Seq::empty()) is None,
        },
        r is Some ==> final(state)@.states.len() == old(state)@.states.len(),
    decreases tokens.len() - pos, 5int,
{
    let ghost s = tokens_view(tokens@);
    let ghost st0 = state@;
    let mut stmts: Vec<Statement> = Vec::new();
    let mut cur: usize = pos;
    assert(statements_view(stmts@) =~= Seq::<SpecStatement>::empty());
    loop
        invariant
            pos <= cur <= tokens.len(),
            state.wf(),
            state@.states.len() == st0.states.len(),
            spec_parse_block(s, pos as int, st0, ret_type@, Seq::empty()) == spec_parse_block(
                s,
                cur as int,
                state@,
                ret_type@,
                statements_view(stmts@),
            ),
        decreases tokens.len() - cur,
    {
        match at(tokens, cur) {
            None => {
                break;
            },
            Some(Token::RBrace) => {
                break;
            },
            Some(_) => {},
        }
        let (stmt, q) = match parse_statement(tokens, cur, state, ret_type) {
            Some(x) => x,
            None => {
                return None;
            },
        };
        if let Some(Token::SemiColon) = at(tokens, q) {
        } else {
            return None;
        }
        let ghost old_stmts = stmts@;
        let ghost stmt_view = stmt@;
        stmts.push(stmt);
        assert(statements_view(stmts@) =~= statements_view(old_stmts).push(stmt_view));
        cur = q + 1;
    }
    Some((stmts, cur))
}

/// One statement, without its `;` (see `spec_parse_statement`).
fn parse_statement(tokens: &Vec<Token>, pos: usize, state: &mut State, ret_type: &Type) -> (r: Option<(Statement, usize)>)
    requires
        old(state).wf(),
    ensures
        match r {
            Some((stmt, q)) => pos < q <= tokens.len() && spec_parse_statement(
                tokens_view(tokens@),
                pos as int,
                old(state)@,
                ret_type@,
            ) == Some((stmt@, q as int, final(state)@)),
            None => spec_parse_statement(tokens_view(tokens@), pos as int, old(state)@, ret_type@) is None,
        },
        r is Some ==> final(state)@.states.len() == old(state)@.states.len(),
        r is Some ==> final(state).wf(),
    decreases tokens.len() - pos, 4int,
{
    let ghost s = tokens_view(tokens@);
    if pos >= tokens.len() {
        return None;
    }
    assert(s[pos as int] == tokens@[pos as int]@);
    match &tokens[pos] {
        Token::Let => {
            let name = match at(tokens, pos + 1) {
                Some(Token::Name(n)) => n.clone(),
                _ => {
                    return None;
                },
            };
            if let Some(Token::Colon) = at(tokens, pos + 2) {
            } else {
                return None;
            }
            let (val_type, q) = match try_parse_type(tokens, pos + 3, state) {
                Some(x) => x,
                None => {
                    return None;
                },
            };
            if let Some(Token::Equals) = at(tokens, q) {
            } else {
                return None;
            }
            let (value, r) = match try_parse_value(tokens, q + 1, state, &val_type) {
                Some(x) => x,
                None => {
                    return None;
                },
            };
            if !state.declare_var(name.clone(), copy_type(&value.val_type)) {
                return None;
            }
            Some((Statement::VarDefinition(name, value), r))
        },
        Token::Fun => parse_fun(tokens, pos + 1, state),
        Token::Struct => parse_struct(tokens, pos + 1, state),
        Token::Ret => {
            match try_parse_value(tokens, pos + 1, state, ret_type) {
                Some((value, q)) => Some((Statement::Ret(value), q)),
                None => None,
            }
        },
        _ => {
            match try_parse_value(tokens, pos, state, &Type::Nothing) {
                Some((value, q)) => {
                    if matches!(value.val_type, Type::Nothing) {
                        Some((Statement::Value(value), q))
                    } else {
                        None
                    }
                },
                None => None,
            }
        },
    }
}

/// The optional type parameters of a function (see
/// `spec_parse_fun_type_params`).
#[verifier::loop_isolation(false)]
fn parse_fun_type_params(tokens: &Vec<Token>, pos: usize) -> (r: Option<(Vec<String>, usize)>)
    ensures
        match r {
            Some((params, p1)) => pos <= p1 <= tokens.len() && spec_parse_fun_type_params(tokens_view(tokens@), pos as int)
                == Some((names_view(params@), p1 as int)),
            None => spec_parse_fun_type_params(tokens_view(tokens@), pos as int) is None,
        },
{
    let ghost s = tokens_view(tokens@);
    let mut params: Vec<String> = Vec::new();
    assert(names_view(params@) =~= Seq::<Seq<char>>::empty());
    match at(tokens, pos) {
        None => None,
        Some(Token::LAngle) => {
            let mut cur: usize = pos + 1;
            loop
                invariant
                    pos + 1 <= cur <= tokens.len(),
                    spec_parse_type_params(s, pos + 1, Seq::empty()) == spec_parse_type_params(
                        s,
                        cur as int,
                        names_view(params@),
                    ),
                decreases tokens.len() - cur,
            {
                assert(cur < tokens.len() ==> s[cur as int] == tokens@[cur as int]@);
                match at(tokens, cur) {
                    None => {
                        return None;
                    },
                    Some(Token::RAngle) => {
                        break;
                    },
                    Some(Token::Name(n)) => {
                        let ghost old_params = params@;
                        params.push(n.clone());
                        assert(names_view(params@) =~= names_view(old_params).push(n@));
                        match at(tokens, cur + 1) {
                            None => {
                                return None;
                            },
                            Some(Token::Comma) => {
                                cur = cur + 2;
                            },
                            Some(_) => {
                                cur = cur + 1;
                            },
                        }
                    },
                    Some(_) => {
                        return None;
                    },
                }
            }
            Some((params, cur + 1))
        },
        Some(_) => Some((params, pos)),
    }
}

/// Declares the type parameters `params` in order in the innermost scope
/// (see `declare_type_params`).
#[verifier::loop_isolation(false)]
fn declare_params(state: &mut State, params: &Vec<String>) -> (ok: bool)
    requires
        old(state).wf(),
    ensures
        ok == declare_type_params(old(state)@, names_view(params@)) is Some,
        ok ==> declare_type_params(old(state)@, names_view(params@)) == Some(final(state)@),
        ok ==> final(state).wf(),
        ok ==> final(state)@.states.len() == old(state)@.states.len(),
{
    let ghost st0 = state@;
    let mut i: usize = 0;
    assert(names_view(params@).take(0) =~= Seq::<Seq<char>>::empty());
    while i < params.len()
        invariant
            0 <= i <= params.len(),
            state.wf(),
            state@.states.len() == st0.states.len(),
            declare_type_params(st0, names_view(params@).take(i as int)) == Some(state@),
        decreases params.len() - i,
    {
        assert(names_view(params@).take(i as int + 1).drop_last() =~= names_view(params@).take(i as int));
        assert(names_view(params@).take(i as int + 1).last() == params@[i as int]@);
        if !state.declare_type_param(params[i].clone()) {
            proof {
                lemma_declare_type_params_prefix(st0, names_view(params@), i as int + 1);
            }
            return false;
        }
        i = i + 1;
    }
    assert(names_view(params@).take(i as int) =~= names_view(params@));
    true
}

/// The arguments of a function definition, declared in the innermost scope
/// (see `spec_parse_fun_args`).
#[verifier::loop_isolation(false)]
fn parse_fun_args(tokens: &Vec<Token>, pos: usize, state: &mut State) -> (r: Option<(Vec<(String, Type)>, usize)>)
    requires
        old(state).wf(),
        pos <= tokens.len(),
    ensures
        match r {
            Some((args, q)) => pos <= q < tokens.len() && tok_at(tokens_view(tokens@), q as int) == Some(SpecToken::RParens) && spec_parse_fun_args(
                tokens_view(tokens@),
                pos as int,
                old(state)@,
                Seq::empty(),
            ) == Some((members_view(args@), q as int, final(state)@)),
            None => spec_parse_fun_args(tokens_view(tokens@), pos as int, old(state)@, Seq::empty()) is None,
        },
        r is Some ==> final(state).wf(),
        r is Some ==> final(state)@.states.len() == old(state)@.states.len(),
{
    let ghost s = tokens_view(tokens@);
    let ghost st0 = state@;
    let mut args: Vec<(String, Type)> = Vec::new();
    let mut cur: usize = pos;
    assert(members_view(args@) =~= Seq::<(Seq<char>, SpecType)>::empty());
    loop
        invariant
            pos <= cur <= tokens.len(),
            state.wf(),
            state@.states.len() == st0.states.len(),
            spec_parse_fun_args(s, pos as int, st0, Seq::empty()) == spec_parse_fun_args(
                s,
                cur as int,
                state@,
                members_view(args@),
            ),
        decreases tokens.len() - cur,
    {
        match at(tokens, cur) {
            None => {
                return None;
            },
            Some(Token::RParens) => {
                break;
            },
            Some(_) => {},
        }
        let (t, q1) = match try_parse_type(tokens, cur, state) {
            Some(x) => x,
            None => {
                return None;
            },
        };
        assert(q1 < tokens.len() ==> s[q1 as int] == tokens@[q1 as int]@);
        let arg = match at(tokens, q1) {
            Some(Token::Name(a)) => a.clone(),
            _ => {
                return None;
            },
        };
        if !state.declare_var(arg.clone(), copy_type(&t)) {
            return None;
        }
        let ghost old_args = args@;
        let ghost item = (arg@, t@);
        args.push((arg, t));
        assert(members_view(args@) =~= members_view(old_args).push(item));
        match at(tokens, q1 + 1) {
            None => {
                return None;
            },
            Some(Token::Comma) => {
                cur = q1 + 2;
            },
            Some(_) => {
                cur = q1 + 1;
            },
        }
    }
    Some((args, cur))
}

/// A function definition after `fun` (see `spec_parse_fun`).
fn parse_fun(tokens: &Vec<Token>, pos: usize, state: &mut State) -> (r: Option<(Statement, usize)>)
    requires
        old(state).wf(),
    ensures
        match r {
            Some((stmt, q)) => pos < q <= tokens.len() && spec_parse_fun(tokens_view(tokens@), pos as int, old(state)@) == Some(
                (stmt@, q as int, final(state)@),
            ),
            None => spec_parse_fun(tokens_view(tokens@), pos as int, old(state)@) is None,
        },
        r is Some ==> final(state)@.states.len() == old(state)@.states.len(),
        r is Some ==> final(state).wf(),
    decreases tokens.len() - pos, 4int,
{
    let ghost s = tokens_view(tokens@);
    let ghost st0 = state@;
    let (params, p1) = match parse_fun_type_params(tokens, pos) {
        Some(x) => x,
        None => {
            return None;
        },
    };
    // a scope of their own for the type parameters and the arguments
    state.push();
    if !declare_params(state, &params) {
        return None;
    }
    let ghost st1 = state@;
    let (ret_type, q) = match try_parse_type(tokens, p1, state) {
        Some(x) => x,
        None => {
            return None;
        },
    };
    assert(q < tokens.len() ==> s[q as int] == tokens@[q as int]@);
    let name = match at(tokens, q) {
        Some(Token::Name(n)) => n.clone(),
        _ => {
            return None;
        },
    };
    if let Some(Token::LParens) = at(tokens, q + 1) {
    } else {
        return None;
    }
    let (args, q2) = match parse_fun_args(tokens, q + 2, state) {
        Some(x) => x,
        None => {
            return None;
        },
    };
    if let Some(Token::LBrace) = at(tokens, q2 + 1) {
    } else {
        return None;
    }
    let ghost st2 = state@;
    let (body, q3) = match try_parse(tokens, q2 + 2, state, &ret_type) {
        Some(x) => x,
        None => {
            return None;
        },
    };
    if let Some(Token::RBrace) = at(tokens, q3) {
    } else {
        return None;
    }
    let ghost st3 = state@;
    state.pop();
    let sig = Sig { args: member_types_of(&args), ret_type: copy_type(&ret_type), type_names: copy_names_vec(&params) };
    assert(sig@.args =~= member_types(members_view(args@)));
    if !state.declare_function(name.clone(), sig) {
        return None;
    }
    let def = FunDefinition { args, statements: body, type_params: params };
    proof {
        lemma_fun_def_view(def);
    }
    Some((Statement::FunDefinition(name, def), q3 + 1))
}

/// If declaring some first type parameters fails, so does declaring them all.
proof fn lemma_declare_type_params_prefix(st: SpecState, params: Seq<Seq<char>>, k: int)
    requires
        0 <= k <= params.len(),
        declare_type_params(st, params.take(k)) is None,
    ensures
        declare_type_params(st, params) is None,
    decreases params.len(),
{
    if k < params.len() {
        assert(params.drop_last().take(k) =~= params.take(k));
        lemma_declare_type_params_prefix(st, params.drop_last(), k);
    } else {
        assert(params.take(k) =~= params);
    }
}

/// A struct definition after `struct` (see `spec_parse_struct`).
#[verifier::loop_isolation(false)]
fn parse_struct(tokens: &Vec<Token>, pos: usize, state: &mut State) -> (r: Option<(Statement, usize)>)
    requires
        old(state).wf(),
    ensures
        match r {
            Some((stmt, q)) => pos < q <= tokens.len() && spec_parse_struct(tokens_view(tokens@), pos as int, old(state)@)
                == Some((stmt@, q as int, final(state)@)),
            None => spec_parse_struct(tokens_view(tokens@), pos as int, old(state)@) is None,
        },
        r is Some ==> final(state)@.states.len() == old(state)@.states.len(),
        r is Some ==> final(state).wf(),
    decreases tokens.len() - pos, 4int,
{
    let ghost s = tokens_view(tokens@);
    let name = match at(tokens, pos) {
        Some(Token::Name(n)) => n.clone(),
        _ => {
            return None;
        },
    };
    if !state.begin_struct(name.clone()) {
        return None;
    }
    let ghost st1 = state@;
    if let Some(Token::LBrace) = at(tokens, pos + 1) {
    } else {
        return None;
    }
    let mut members: Vec<(String, Type)> = Vec::new();
    let mut cur: usize = pos + 2;
    assert(members_view(members@) =~= Seq::<(Seq<char>, SpecType)>::empty());
    loop
        invariant
            pos + 2 <= cur <= tokens.len(),
            state@ == st1,
            spec_parse_members(s, pos + 2, st1, Seq::empty()) == spec_parse_members(
                s,
                cur as int,
                st1,
                members_view(members@),
            ),
        decreases tokens.len() - cur,
    {
        match at(tokens, cur) {
            None => {
                return None;
            },
            Some(Token::RBrace) => {
                break;
            },
            Some(_) => {},
        }
        let (t, q) = match try_parse_type(tokens, cur, state) {
            Some(x) => x,
            None => {
                return None;
            },
        };
        assert(q < tokens.len() ==> s[q as int] == tokens@[q as int]@);
        let m = match at(tokens, q) {
            Some(Token::Name(m)) => m.clone(),
            _ => {
                return None;
            },
        };
        let ghost old_members = members@;
        let ghost item = (m@, t@);
        members.push((m, t));
        assert(members_view(members@) =~= members_view(old_members).push(item));
        match at(tokens, q + 1) {
            None => {
                return None;
            },
            Some(Token::Comma) => {
                cur = q + 2;
            },
            Some(_) => {
                cur = q + 1;
            },
        }
    }
    if !state.end_struct(name.clone(), &members) {
        return None;
    }
    Some((Statement::StructDefinition(name, members), cur + 1))
}

/// The program that a source text holds (see `spec_dew_it`): `None` where
/// the text is no well-formed, well-typed program. This is the checking
/// form of `dew_it`.
pub fn try_dew_it(file: &str) -> (r: Option<Vec<Statement>>)
    ensures
        match r {
            Some(v) => spec_dew_it(file@) == Some(statements_view(v@)),
            None => spec_dew_it(file@) is None,
        },
{
    let tokens = match try_tokenize(file) {
        Some(t) => t,
        None => {
            return None;
        },
    };
    let mut state = State::new();
    match try_parse(&tokens, 0, &mut state, &Type::Nothing) {
        Some((statements, _)) => Some(statements),
        None => None,
    }
}

/// A type at `pos` (see `spec_parse_type`), and the position after it. The
/// tokens there must hold a type that `state` knows.
pub fn parse_type(tokens: &Vec<Token>, pos: usize, state: &State) -> (r: (Type, usize))
    requires
        state.wf(),
        spec_parse_type(tokens_view(tokens@), pos as int, state@) is Some,
    ensures
        spec_parse_type(tokens_view(tokens@), pos as int, state@) == Some((r.0@, r.1 as int)),
        pos < r.1 <= tokens.len(),
{
    match try_parse_type(tokens, pos, state) {
        Some(x) => x,
        None => (Type::Int, pos + 1),
    }
}

/// A value of type `target` at `pos` (see `spec_parse_value`), and the
/// position after it. The tokens there must hold such a value, with a token
/// after it.
pub fn parse_value(tokens: &Vec<Token>, pos: usize, state: &State, target: &Type) -> (r: (TypedValue, usize))
    requires
        state.wf(),
        spec_parse_value(tokens_view(tokens@), pos as int, state@, target@) is Some,
    ensures
        spec_parse_value(tokens_view(tokens@), pos as int, state@, target@) == Some((r.0@, r.1 as int)),
        pos < r.1 <= tokens.len(),
{
    match try_parse_value(tokens, pos, state, target) {
        Some(x) => x,
        None => (TypedValue { val_type: Type::Int, val_source: ValueSource::Nothing }, pos + 1),
    }
}

/// The arguments of a call at `pos`, one of each type of `targets` (see
/// `spec_parse_function_call`), and the position after the `)`. The tokens
/// there must hold exactly that many arguments of those types.
pub fn parse_function_call(tokens: &Vec<Token>, pos: usize, state: &State, targets: &Vec<Type>) -> (r: (
    Vec<TypedValue>,
    usize,
))
    requires
        state.wf(),
        spec_parse_function_call(tokens_view(tokens@), pos as int, state@, types_view(targets@)) is Some,
    ensures
        spec_parse_function_call(tokens_view(tokens@), pos as int, state@, types_view(targets@)) == Some(
            (values_view(r.0@), r.1 as int),
        ),
        pos < r.1 <= tokens.len(),
{
    match try_parse_function_call(tokens, pos, state, targets) {
        Some(x) => x,
        None => (Vec::new(), pos + 1),
    }
}

/// Statements from `pos` up to a `}` or the end of the tokens (see
/// `spec_parse_block`), and where they end; `state` ends as the model says.
/// The tokens there must hold well-formed, well-typed statements.
pub fn parse(tokens: &Vec<Token>, pos: usize, state: &mut State, ret_type: &Type) -> (r: (Vec<Statement>, usize))
    requires
        old(state).wf(),
        pos <= tokens.len(),
        spec_parse_block(tokens_view(tokens@), pos as int, old(state)@, ret_type@, Seq::empty()) is Some,
    ensures
        spec_parse_block(tokens_view(tokens@), pos as int, old(state)@, ret_type@, Seq::empty()) == Some(
            (statements_view(r.0@), r.1 as int, final(state)@),
        ),
        pos <= r.1 <= tokens.len(),
        final(state)@.states.len() == old(state)@.states.len(),
{
    match try_parse(tokens, pos, state, ret_type) {
        Some(x) => x,
        None => (Vec::new(), pos),
    }
}

/// The program that a source text holds (see `spec_dew_it`). The text must
/// hold a well-formed, well-typed program; `try_dew_it` answers `None` on
/// any other.
pub fn dew_it(file: &str) -> (r: Vec<Statement>)
    requires
        spec_dew_it(file@) is Some,
    ensures
        spec_dew_it(file@) == Some(statements_view(r@)),
{
    let tokens = tokenize(file);
    let mut state = State::new();
    parse(&tokens, 0, &mut state, &Type::Nothing).0
}

} // verus!
