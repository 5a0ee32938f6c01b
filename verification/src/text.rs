//! Character-sequence helpers shared by the tokenizer, the parser and the
//! interpreter.
use vstd::prelude::*;

verus! {

/// Wraps `String::push`, which appends one character to a string.
#[verifier::external_body]
pub(crate) fn push_char(s: &mut String, c: char)
    ensures
        final(s)@ == old(s)@.push(c),
{
    s.push(c);
}

/// A string holding the given characters.
pub fn string_from_chars(w: &Vec<char>) -> (r: String)
    ensures
        r@ == w@,
{
    let mut s = String::new();
    let mut i: usize = 0;
    while i < w.len()
        invariant
            0 <= i <= w.len(),
            s@ == w@.take(i as int),
        decreases w.len() - i,
    {
        push_char(&mut s, w[i]);
        assert(w@.take(i as int + 1) =~= w@.take(i as int).push(w@[i as int]));
        i = i + 1;
    }
    assert(w@.take(i as int) =~= w@);
    s
}

/// Whether two character vectors hold the same characters.
pub fn chars_eq(a: &Vec<char>, b: &Vec<char>) -> (r: bool)
    ensures
        r == (a@ == b@),
{
    if a.len() != b.len() {
        return false;
    }
    let mut i: usize = 0;
    while i < a.len()
        invariant
            a.len() == b.len(),
            0 <= i <= a.len(),
            forall|j: int| 0 <= j < i ==> a@[j] == b@[j],
        decreases a.len() - i,
    {
        if a[i] != b[i] {
            return false;
        }
        i = i + 1;
    }
    assert(a@ =~= b@);
    true
}

/// The models of a sequence of strings.
pub open spec fn names_view(s: Seq<String>) -> Seq<Seq<char>> {
    Seq::new(s.len(), |i: int| s[i]@)
}

/// The names of an association list.
pub open spec fn keys_of<V>(s: Seq<(String, V)>) -> Seq<Seq<char>> {
    Seq::new(s.len(), |i: int| s[i].0@)
}

/// The first index at or after `i` where `s` holds `x`.
pub open spec fn find_name_from(s: Seq<Seq<char>>, x: Seq<char>, i: int) -> Option<int>
    decreases s.len() - i,
{
    if i < 0 || i >= s.len() {
        None
    } else if s[i] == x {
        Some(i)
    } else {
        find_name_from(s, x, i + 1)
    }
}

/// The first index where `s` holds `x`.
pub open spec fn find_name(s: Seq<Seq<char>>, x: Seq<char>) -> Option<int> {
    find_name_from(s, x, 0)
}

pub proof fn lemma_find_name_from(s: Seq<Seq<char>>, x: Seq<char>, i: int)
    requires
        0 <= i,
    ensures
        match find_name_from(s, x, i) {
            Some(k) => i <= k < s.len() && s[k] == x && forall|j: int| i <= j < k ==> s[j] != x,
            None => forall|j: int| i <= j < s.len() ==> s[j] != x,
        },
    decreases s.len() - i,
{
    if i < s.len() && s[i] != x {
        lemma_find_name_from(s, x, i + 1);
    }
}

/// What `find_name` returns: the first index that holds `x`, or `None` where
/// `s` does not hold it.
pub proof fn lemma_find_name(s: Seq<Seq<char>>, x: Seq<char>)
    ensures
        match find_name(s, x) {
            Some(k) => 0 <= k < s.len() && s[k] == x && forall|j: int| 0 <= j < k ==> s[j] != x,
            None => !s.contains(x),
        },
{
    lemma_find_name_from(s, x, 0);
    if find_name(s, x) is None {
        if s.contains(x) {
            let j = choose|j: int| 0 <= j < s.len() && s[j] == x;
            assert(s[j] != x);
        }
    }
}

/// The first index of `x` in `names`.
pub fn position(names: &[String], x: &String) -> (r: Option<usize>)
    ensures
        match r {
            Some(k) => find_name(names_view(names@), x@) == Some(k as int) && k < names@.len() && names@[k as int]@ == x@,
            None => find_name(names_view(names@), x@) is None,
        },
{
    let ghost v = names_view(names@);
    let mut i: usize = 0;
    while i < names.len()
        invariant
            0 <= i <= names.len(),
            v == names_view(names@),
            find_name(v, x@) == find_name_from(v, x@, i as int),
        decreases names.len() - i,
    {
        if names[i] == *x {
            return Some(i);
        }
        i = i + 1;
    }
    None
}

/// The index of the entry named `key` in an association list.
pub fn find_key<V>(entries: &[(String, V)], key: &String) -> (r: Option<usize>)
    ensures
        match r {
            Some(k) => find_name(keys_of(entries@), key@) == Some(k as int) && k < entries@.len() && entries@[k as int].0@ == key@,
            None => find_name(keys_of(entries@), key@) is None,
        },
{
    let ghost v = keys_of(entries@);
    let mut i: usize = 0;
    while i < entries.len()
        invariant
            0 <= i <= entries.len(),
            v == keys_of(entries@),
            find_name(v, key@) == find_name_from(v, key@, i as int),
        decreases entries.len() - i,
    {
        if entries[i].0 == *key {
            return Some(i);
        }
        i = i + 1;
    }
    None
}

/// A copy of a sequence of strings.
pub fn copy_names(names: &[String]) -> (r: Vec<String>)
    ensures
        names_view(r@) == names_view(names@),
{
    let mut r: Vec<String> = Vec::new();
    let mut i: usize = 0;
    while i < names.len()
        invariant
            0 <= i <= names.len(),
            names_view(r@) =~= names_view(names@).take(i as int),
        decreases names.len() - i,
    {
        let n = names[i].clone();
        let ghost old_r = r@;
        assert(old_r.len() == i) by {
            assert(names_view(old_r).len() == old_r.len());
        }
        r.push(n);
        assert(names_view(r@) =~= names_view(names@).take(i as int + 1)) by {
            assert forall|j: int| 0 <= j <= i implies #[trigger] names_view(r@)[j] == names_view(names@).take(i as int + 1)[j] by {
                if j < i {
                    assert(names_view(old_r)[j] == old_r[j]@);
                }
            }
        }
        i = i + 1;
    }
    assert(names_view(names@).take(i as int) =~= names_view(names@));
    r
}

/// The names of an association list of the model.
pub open spec fn spec_keys<V>(s: Seq<(Seq<char>, V)>) -> Seq<Seq<char>> {
    Seq::new(s.len(), |i: int| s[i].0)
}

/// The value that an association list of the model holds under `k` (its
/// first entry with that name).
pub open spec fn assoc_get<V>(s: Seq<(Seq<char>, V)>, k: Seq<char>) -> Option<V> {
    match find_name(spec_keys(s), k) {
        Some(i) => Some(s[i].1),
        None => None,
    }
}

/// A string holding the given characters.
pub fn string_of(chars: &[char]) -> (r: String)
    ensures
        r@ == chars@,
{
    let mut s = String::new();
    let mut i: usize = 0;
    while i < chars.len()
        invariant
            0 <= i <= chars.len(),
            s@ == chars@.take(i as int),
        decreases chars.len() - i,
    {
        push_char(&mut s, chars[i]);
        assert(chars@.take(i as int + 1) =~= chars@.take(i as int).push(chars@[i as int]));
        i = i + 1;
    }
    assert(chars@.take(i as int) =~= chars@);
    s
}

/// Where an association list holds `key`, and what the model's lookup gives.
pub proof fn lemma_lookup<V>(exec_keys: Seq<Seq<char>>, model: Seq<(Seq<char>, V)>, key: Seq<char>)
    requires
        exec_keys == spec_keys(model),
    ensures
        find_name(exec_keys, key) is None ==> assoc_get(model, key) is None,
        find_name(exec_keys, key) matches Some(k) ==> assoc_get(model, key) == Some(model[k].1),
{
}

} // verus!
