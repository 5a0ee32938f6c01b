//! The text that `print` writes: numbers in decimal, and objects in the form
//! `List([Number(1), None])`, `Struct([("a", Number(1))])`, `Function("f")`.
use vstd::prelude::*;

use crate::interpreter::{fields_view, printed_view, Printed, RuntimeObject, RuntimeValue, SpecPrinted, SpecRuntimeObject};
use crate::text::push_char;
use crate::token::is_word_char;

verus! {

/// The text that `Debug` writes for a string: its characters between double
/// quotes, with quotes, backslashes and characters that do not print escaped.
pub uninterp spec fn debug_text(s: Seq<char>) -> Seq<char>;

/// Wraps the `Debug` formatting of a string, `format!("{:?}", s)`. What it
/// writes depends on the string alone and is named `debug_text`. A string of
/// ASCII letters, digits and `_` needs no escape and is written between
/// double quotes as it is; which other characters are escaped, and how, is
/// not stated here.
#[verifier::external_body]
fn debug_string(s: &str) -> (r: String)
    ensures
        r@ == debug_text(s@),
        (forall|i: int| 0 <= i < s@.len() ==> is_word_char(#[trigger] s@[i])) ==> r@ == seq!['"'] + s@ + seq!['"'],
{
    format!("{:?}", s)
}

/// The character for the decimal digit `d`.
pub open spec fn digit_char(d: int) -> char {
    if d == 0 {
        '0'
    } else if d == 1 {
        '1'
    } else if d == 2 {
        '2'
    } else if d == 3 {
        '3'
    } else if d == 4 {
        '4'
    } else if d == 5 {
        '5'
    } else if d == 6 {
        '6'
    } else if d == 7 {
        '7'
    } else if d == 8 {
        '8'
    } else {
        '9'
    }
}

/// The decimal digits of `n`, most significant first, without leading zeros.
pub open spec fn decimal(n: nat) -> Seq<char>
    decreases n,
{
    if n < 10 {
        seq![digit_char(n as int)]
    } else {
        decimal(n / 10).push(digit_char((n % 10) as int))
    }
}

/// A number in decimal, with a minus sign in front where it is negative.
pub open spec fn number_text(n: int) -> Seq<char> {
    if n < 0 {
        seq!['-'] + decimal((-n) as nat)
    } else {
        decimal(n as nat)
    }
}

/// The parts, with `", "` between each two of them.
pub open spec fn joined(parts: Seq<Seq<char>>) -> Seq<char>
    decreases parts.len(),
{
    if parts.len() == 0 {
        Seq::empty()
    } else if parts.len() == 1 {
        parts[0]
    } else {
        joined(parts.drop_last()) + ", "@ + parts.last()
    }
}

/// How a value is written inside an object.
pub open spec fn value_text(v: RuntimeValue) -> Seq<char> {
    match v {
        RuntimeValue::Number(n) => "Number("@ + number_text(n as int) + ")"@,
        RuntimeValue::Object(id) => "Object(RuntimeID("@ + decimal(id.0 as nat) + "))"@,
        RuntimeValue::Nothing => "None"@,
    }
}

/// How a named field of a struct is written.
pub open spec fn field_text(f: (Seq<char>, RuntimeValue)) -> Seq<char> {
    "("@ + debug_text(f.0) + ", "@ + value_text(f.1) + ")"@
}

/// How an object is written.
pub open spec fn object_text(o: SpecRuntimeObject) -> Seq<char> {
    match o {
        SpecRuntimeObject::List(items) => "List(["@ + joined(
            Seq::new(items.len(), |i: int| value_text(items[i])),
        ) + "])"@,
        SpecRuntimeObject::Struct(fields) => "Struct(["@ + joined(
            Seq::new(fields.len(), |i: int| field_text(fields[i])),
        ) + "])"@,
        SpecRuntimeObject::Function(name) => "Function("@ + debug_text(name) + ")"@,
    }
}

/// How one printed item is written.
pub open spec fn item_text(p: SpecPrinted) -> Seq<char> {
    match p {
        SpecPrinted::Number(n) => number_text(n as int),
        SpecPrinted::Object(o) => object_text(o),
    }
}

/// The printed items written one after another, with nothing between them.
pub open spec fn printed_text(s: Seq<SpecPrinted>) -> Seq<char>
    decreases s.len(),
{
    if s.len() == 0 {
        Seq::empty()
    } else {
        printed_text(s.drop_last()) + item_text(s.last())
    }
}

/// Appends the characters of `s`.
fn push_str(out: &mut String, s: &str)
    ensures
        final(out)@ == old(out)@ + s@,
{
    let ghost start = out@;
    for c in iter: s.chars()
        invariant
            iter.seq() == s@,
            out@ == start + s@.take(iter.index() as int),
    {
        let ghost i = iter.index() as int;
        push_char(out, c);
        assert(s@.take(i + 1) =~= s@.take(i).push(c));
        assert(out@ =~= start + s@.take(i + 1));
    }
    assert(s@.take(s@.len() as int) =~= s@);
}

/// The character for a decimal digit.
fn digit(d: usize) -> (c: char)
    requires
        d < 10,
    ensures
        c == digit_char(d as int),
{
    if d == 0 {
        '0'
    } else if d == 1 {
        '1'
    } else if d == 2 {
        '2'
    } else if d == 3 {
        '3'
    } else if d == 4 {
        '4'
    } else if d == 5 {
        '5'
    } else if d == 6 {
        '6'
    } else if d == 7 {
        '7'
    } else if d == 8 {
        '8'
    } else {
        '9'
    }
}

/// Appends the decimal digits of `n`.
fn push_decimal(out: &mut String, n: usize)
    ensures
        final(out)@ == old(out)@ + decimal(n as nat),
    decreases n,
{
    if n < 10 {
        push_char(out, digit(n));
        assert(old(out)@.push(digit_char(n as int)) =~= old(out)@ + decimal(n as nat));
    } else {
        push_decimal(out, n / 10);
        push_char(out, digit(n % 10));
        assert(old(out)@ + decimal((n / 10) as nat) + seq![digit_char((n % 10) as int)]
            =~= old(out)@ + decimal(n as nat));
    }
}

/// Appends a number in decimal.
fn push_number(out: &mut String, n: isize)
    ensures
        final(out)@ == old(out)@ + number_text(n as int),
{
    if n < 0 {
        push_char(out, '-');
        let m: usize = (-(n + 1)) as usize + 1;
        assert(m == -n);
        push_decimal(out, m);
        assert(old(out)@.push('-') + decimal(m as nat) =~= old(out)@ + number_text(n as int));
    } else {
        push_decimal(out, n as usize);
    }
}

/// Appends the `Debug` text of a string.
fn push_debug(out: &mut String, s: &String)
    ensures
        final(out)@ == old(out)@ + debug_text(s@),
{
    let d = debug_string(s.as_str());
    push_str(out, d.as_str());
}

/// Appends how a value is written.
fn push_value(out: &mut String, v: RuntimeValue)
    ensures
        final(out)@ == old(out)@ + value_text(v),
{
    let ghost start = out@;
    match v {
        RuntimeValue::Number(n) => {
            push_str(out, "Number(");
            push_number(out, n);
            push_str(out, ")");
        },
        RuntimeValue::Object(id) => {
            push_str(out, "Object(RuntimeID(");
            push_decimal(out, id.0);
            push_str(out, "))");
        },
        RuntimeValue::Nothing => {
            push_str(out, "None");
        },
    }
    assert(out@ =~= start + value_text(v));
}

/// The text of the first `i + 1` parts, from that of the first `i`.
proof fn lemma_joined_step(parts: Seq<Seq<char>>, i: int)
    requires
        0 <= i < parts.len(),
    ensures
        joined(parts.take(i + 1)) == if i == 0 {
            parts[0]
        } else {
            joined(parts.take(i)) + ", "@ + parts[i]
        },
{
    let t = parts.take(i + 1);
    if i > 0 {
        assert(t.drop_last() =~= parts.take(i));
    }
}

/// Appends how an object is written.
fn push_object(out: &mut String, o: &RuntimeObject)
    ensures
        final(out)@ == old(out)@ + object_text(o@),
{
    let ghost start = out@;
    match o {
        RuntimeObject::List(items) => {
            let ghost parts = Seq::new(items@.len(), |k: int| value_text(items@[k]));
            push_str(out, "List([");
            let ghost head = out@;
            let mut i: usize = 0;
            assert(parts.take(0) =~= Seq::<Seq<char>>::empty());
            while i < items.len()
                invariant
                    i <= items.len(),
                    parts == Seq::new(items@.len(), |k: int| value_text(items@[k])),
                    out@ == head + joined(parts.take(i as int)),
                decreases items.len() - i,
            {
                if i > 0 {
                    push_str(out, ", ");
                }
                push_value(out, items[i]);
                proof {
                    lemma_joined_step(parts, i as int);
                    if i > 0 {
                        assert(out@ =~= head + (joined(parts.take(i as int)) + ", "@ + parts[i as int]));
                    } else {
                        assert(out@ =~= head + parts[0]);
                    }
                }
                i = i + 1;
            }
            assert(parts.take(items@.len() as int) =~= parts);
            push_str(out, "])");
            assert(out@ =~= start + object_text(o@));
        },
        RuntimeObject::Struct(fields) => {
            let ghost fs = fields_view(fields@);
            let ghost parts = Seq::new(fs.len(), |k: int| field_text(fs[k]));
            push_str(out, "Struct([");
            let ghost head = out@;
            let mut i: usize = 0;
            assert(parts.take(0) =~= Seq::<Seq<char>>::empty());
            while i < fields.len()
                invariant
                    i <= fields.len(),
                    fs == fields_view(fields@),
                    parts == Seq::new(fs.len(), |k: int| field_text(fs[k])),
                    out@ == head + joined(parts.take(i as int)),
                decreases fields.len() - i,
            {
                if i > 0 {
                    push_str(out, ", ");
                }
                let ghost mid = out@;
                push_str(out, "(");
                push_debug(out, &fields[i].0);
                push_str(out, ", ");
                push_value(out, fields[i].1);
                push_str(out, ")");
                proof {
                    assert(out@ =~= mid + field_text(fs[i as int]));
                    lemma_joined_step(parts, i as int);
                    if i > 0 {
                        assert(out@ =~= head + (joined(parts.take(i as int)) + ", "@ + parts[i as int]));
                    } else {
                        assert(out@ =~= head + parts[0]);
                    }
                }
                i = i + 1;
            }
            assert(parts.take(fields@.len() as int) =~= parts);
            push_str(out, "])");
            assert(out@ =~= start + object_text(o@));
        },
        RuntimeObject::Function(name) => {
            push_str(out, "Function(");
            push_debug(out, name);
            push_str(out, ")");
            assert(out@ =~= start + object_text(o@));
        },
    }
}

/// The text that the printed items make, written one after another: a
/// number in decimal, an object as `object_text` writes it.
pub fn output_text(printed: &[Printed]) -> (r: String)
    ensures
        r@ == printed_text(printed_view(printed@)),
{
    let mut out = String::new();
    let ghost items = printed_view(printed@);
    let mut i: usize = 0;
    assert(items.take(0) =~= Seq::<SpecPrinted>::empty());
    while i < printed.len()
        invariant
            i <= printed.len(),
            items == printed_view(printed@),
            out@ == printed_text(items.take(i as int)),
        decreases printed.len() - i,
    {
        match &printed[i] {
            Printed::Number(n) => push_number(&mut out, *n),
            Printed::Object(o) => push_object(&mut out, o),
        }
        assert(items.take(i as int + 1).drop_last() =~= items.take(i as int));
        i = i + 1;
    }
    assert(items.take(printed@.len() as int) =~= items);
    out
}

} // verus!
