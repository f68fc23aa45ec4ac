//! The text of JSON objects whose members stand in a given order, and of lists of them.
//!
//! The values of the members come as text. Two such texts that stand at the same place and
//! agree from there on hold the same values: nothing of one value can be read as part of the
//! next.

use vstd::prelude::*;

use crate::json::{
    is_number, json_of, json_parsed, json_text, plain_within, print, Json, PARSE_DEPTH,
};
use crate::text::{decimal_of, digit_of};

verus! {

/// A member: its name, which needs no escapes, and its value.
pub open spec fn member_text(field: (Seq<char>, Seq<char>)) -> Seq<char> {
    seq!['"'] + field.0 + seq!['"', ':'] + field.1
}

/// What follows a member: the other members, and the end of the object.
pub open spec fn object_end(fields: Seq<(Seq<char>, Seq<char>)>) -> Seq<char>
    decreases fields.len(),
{
    if fields.len() == 0 {
        seq!['}']
    } else {
        seq![','] + member_text(fields[0]) + object_end(fields.skip(1))
    }
}

/// An object, from the names and the values of its members.
pub open spec fn object_text(fields: Seq<(Seq<char>, Seq<char>)>) -> Seq<char> {
    if fields.len() == 0 {
        seq!['{', '}']
    } else {
        seq!['{'] + member_text(fields[0]) + object_end(fields.skip(1))
    }
}

/// What follows an item: the other items, and the end of the list.
pub open spec fn list_end(items: Seq<Seq<char>>) -> Seq<char>
    decreases items.len(),
{
    if items.len() == 0 {
        seq![']']
    } else {
        seq![','] + items[0] + list_end(items.skip(1))
    }
}

/// A list, from its items.
pub open spec fn list_text(items: Seq<Seq<char>>) -> Seq<char> {
    if items.len() == 0 {
        seq!['[', ']']
    } else {
        seq!['['] + items[0] + list_end(items.skip(1))
    }
}

/// The names and the values of members.
pub open spec fn members_view(fields: Seq<(&'static str, String)>) -> Seq<(Seq<char>, Seq<char>)> {
    fields.map_values(|f: (&'static str, String)| (f.0@, f.1@))
}

fn push_member(out: &mut String, name: &str, value: &str)
    ensures
        final(out)@ == old(out)@ + member_text((name@, value@)),
{
    out.push('"');
    out.append(name);
    out.push('"');
    out.push(':');
    out.append(value);
    proof {
        assert(out@ =~= old(out)@ + member_text((name@, value@)));
    }
}

/// The text of an object.
pub(crate) fn print_object(fields: &Vec<(&'static str, String)>) -> (r: String)
    ensures
        r@ == object_text(members_view(fields@)),
{
    let ghost all = members_view(fields@);
    let mut out = String::new();
    out.push('{');
    if fields.len() == 0 {
        out.push('}');
        proof {
            assert(out@ =~= object_text(all));
        }
        return out;
    }
    push_member(&mut out, fields[0].0, fields[0].1.as_str());
    let mut i: usize = 1;
    proof {
        assert(all[0] == (fields@[0].0@, fields@[0].1@));
        assert(out@ + object_end(all.skip(1)) =~= object_text(all));
    }
    while i < fields.len()
        invariant
            1 <= i <= fields.len(),
            all == members_view(fields@),
            out@ + object_end(all.skip(i as int)) == object_text(all),
        decreases fields.len() - i,
    {
        let ghost before = out@;
        out.push(',');
        push_member(&mut out, fields[i].0, fields[i].1.as_str());
        proof {
            let rest = all.skip(i as int);
            assert(rest[0] == (fields@[i as int].0@, fields@[i as int].1@));
            assert(rest.skip(1) =~= all.skip(i + 1));
            assert(out@ + object_end(all.skip(i + 1)) =~= before + object_end(rest));
        }
        i += 1;
    }
    out.push('}');
    proof {
        assert(all.skip(i as int).len() == 0);
        assert(out@ =~= object_text(all));
    }
    out
}

/// The texts of a list of texts.
pub open spec fn items_view(items: Seq<String>) -> Seq<Seq<char>> {
    items.map_values(|s: String| s@)
}

/// The text of a list.
pub(crate) fn print_list(items: &Vec<String>) -> (r: String)
    ensures
        r@ == list_text(items_view(items@)),
{
    let ghost all = items_view(items@);
    let mut out = String::new();
    out.push('[');
    if items.len() == 0 {
        out.push(']');
        proof {
            assert(out@ =~= list_text(all));
        }
        return out;
    }
    out.append(items[0].as_str());
    let mut i: usize = 1;
    proof {
        assert(out@ + list_end(all.skip(1)) =~= list_text(all));
    }
    while i < items.len()
        invariant
            1 <= i <= items.len(),
            all == items_view(items@),
            out@ + list_end(all.skip(i as int)) == list_text(all),
        decreases items.len() - i,
    {
        let ghost before = out@;
        out.push(',');
        out.append(items[i].as_str());
        proof {
            let rest = all.skip(i as int);
            assert(rest[0] == items@[i as int]@);
            assert(rest.skip(1) =~= all.skip(i + 1));
            assert(out@ + list_end(all.skip(i + 1)) =~= before + list_end(rest));
        }
        i += 1;
    }
    out.push(']');
    proof {
        assert(all.skip(i as int).len() == 0);
        assert(out@ =~= list_text(all));
    }
    out
}

/// Whether the text of `t` reads back as `t`, and as nothing before it ends.
pub open spec fn reads_back(t: Json) -> bool {
    &&& json_parsed(json_text(t)) == Ok::<Json, Seq<char>>(t)
    &&& forall|n: int|
        0 <= n < json_text(t).len() ==> json_parsed(#[trigger] json_text(t).take(n)) is Err
}

/// The text of a value that is no number.
pub(crate) fn print_leaf(value: &serde_json::Value) -> (r: Result<String, String>)
    requires
        plain_within(json_of(*value), PARSE_DEPTH as nat),
        !is_number(json_of(*value)),
    ensures
        match r {
            Ok(s) => s@ == json_text(json_of(*value)) && reads_back(json_of(*value)),
            Err(_) => false,
        },
{
    print(value)
}

/// Whether a value can end before this: at a separator, at the end of an object or a list, or
/// at the end of the text.
pub open spec fn stops(x: Seq<char>) -> bool {
    x.len() == 0 || x[0] == ',' || x[0] == '}' || x[0] == ']'
}

/// Whether, of two texts that begin with these values, the values are the same.
pub open spec fn apart(v: Seq<char>, w: Seq<char>) -> bool {
    forall|x: Seq<char>, y: Seq<char>|
        #![trigger v + x, w + y]
        v + x == w + y && stops(x) && stops(y) ==> v == w
}

proof fn lemma_cancel(v: Seq<char>, x: Seq<char>, y: Seq<char>)
    requires
        v + x == v + y,
    ensures
        x == y,
{
    let n = v.len() as int;
    assert((v + x).skip(n) =~= x);
    assert((v + y).skip(n) =~= y);
}

proof fn lemma_shorter(v: Seq<char>, w: Seq<char>, x: Seq<char>, y: Seq<char>)
    requires
        v + x == w + y,
        v.len() <= w.len(),
    ensures
        w.take(v.len() as int) == v,
        v.len() == w.len() ==> v == w,
        v.len() < w.len() ==> x.len() > 0 && x[0] == w[v.len() as int],
{
    let n = v.len() as int;
    assert((v + x).take(n) =~= v);
    assert((w + y).take(n) =~= w.take(n));
    if v.len() == w.len() {
        assert(w.take(n) =~= w);
    } else {
        assert((v + x).len() == (w + y).len());
        assert((v + x)[n] == x[0]);
        assert((w + y)[n] == w[n]);
    }
}

/// The texts of values that read back are told apart, and tell their values.
pub(crate) proof fn lemma_leaf_apart(t: Json, u: Json)
    requires
        reads_back(t),
        reads_back(u),
    ensures
        apart(json_text(t), json_text(u)),
        json_text(t) == json_text(u) ==> t == u,
{
    let v = json_text(t);
    let w = json_text(u);
    assert forall|x: Seq<char>, y: Seq<char>|
        #![trigger v + x, w + y]
        v + x == w + y && stops(x) && stops(y) implies v == w by {
        if v.len() <= w.len() {
            lemma_shorter(v, w, x, y);
        } else {
            lemma_shorter(w, v, y, x);
        }
    }
}

proof fn lemma_digits(n: nat)
    ensures
        decimal_of(n).len() > 0,
        forall|i: int|
            0 <= i < decimal_of(n).len() ==> (#[trigger] decimal_of(n)[i]) != ',' && decimal_of(
                n,
            )[i] != '}' && decimal_of(n)[i] != ']',
    decreases n,
{
    if n >= 10 {
        lemma_digits(n / 10);
    }
}

proof fn lemma_decimal_injective(m: nat, n: nat)
    requires
        decimal_of(m) == decimal_of(n),
    ensures
        m == n,
    decreases m,
{
    lemma_digits(m / 10);
    lemma_digits(n / 10);
    let a = decimal_of(m);
    assert(a.last() == digit_of((m % 10) as int));
    assert(a.last() == digit_of((n % 10) as int));
    assert(m % 10 == n % 10);
    if m >= 10 {
        assert(a.drop_last() =~= decimal_of(m / 10));
        assert(a.len() > 1);
        assert(n >= 10);
        assert(a.drop_last() =~= decimal_of(n / 10));
        lemma_decimal_injective(m / 10, n / 10);
    } else {
        assert(a.len() == 1);
        assert(n < 10);
    }
}

/// The digits of numbers are told apart, and tell their numbers.
pub(crate) proof fn lemma_number_apart(m: nat, n: nat)
    ensures
        apart(decimal_of(m), decimal_of(n)),
        decimal_of(m) == decimal_of(n) ==> m == n,
{
    let v = decimal_of(m);
    let w = decimal_of(n);
    lemma_digits(m);
    lemma_digits(n);
    assert forall|x: Seq<char>, y: Seq<char>|
        #![trigger v + x, w + y]
        v + x == w + y && stops(x) && stops(y) implies v == w by {
        if v.len() <= w.len() {
            lemma_shorter(v, w, x, y);
        } else {
            lemma_shorter(w, v, y, x);
        }
    }
    if v == w {
        lemma_decimal_injective(m, n);
    }
}

/// Whether two objects have the same names, and values that are told apart.
pub open spec fn comparable(
    a: Seq<(Seq<char>, Seq<char>)>,
    b: Seq<(Seq<char>, Seq<char>)>,
) -> bool {
    &&& a.len() == b.len()
    &&& forall|i: int|
        0 <= i < a.len() ==> (#[trigger] a[i]).0 == b[i].0 && apart(a[i].1, b[i].1)
}

proof fn lemma_member(
    head: Seq<char>,
    f: (Seq<char>, Seq<char>),
    g: (Seq<char>, Seq<char>),
    x: Seq<char>,
    y: Seq<char>,
)
    requires
        f.0 == g.0,
        apart(f.1, g.1),
        stops(x),
        stops(y),
        head + member_text(f) + x == head + member_text(g) + y,
    ensures
        f == g,
        x == y,
{
    let start = head + (seq!['"'] + f.0 + seq!['"', ':']);
    assert(head + member_text(f) + x =~= start + (f.1 + x));
    assert(head + member_text(g) + y =~= start + (g.1 + y));
    lemma_cancel(start, f.1 + x, g.1 + y);
    lemma_cancel(f.1, x, y);
}

proof fn lemma_object_end(
    a: Seq<(Seq<char>, Seq<char>)>,
    b: Seq<(Seq<char>, Seq<char>)>,
    x: Seq<char>,
    y: Seq<char>,
)
    requires
        comparable(a, b),
        object_end(a) + x == object_end(b) + y,
    ensures
        a == b,
    decreases a.len(),
{
    if a.len() > 0 {
        let s = a.skip(1);
        let t = b.skip(1);
        assert(object_end(a) + x =~= seq![','] + member_text(a[0]) + (object_end(s) + x));
        assert(object_end(b) + y =~= seq![','] + member_text(b[0]) + (object_end(t) + y));
        lemma_member(seq![','], a[0], b[0], object_end(s) + x, object_end(t) + y);
        lemma_object_end(s, t, x, y);
        assert(a =~= seq![a[0]] + s);
        assert(b =~= seq![b[0]] + t);
    } else {
        assert(a =~= b);
    }
}

/// Of two texts that begin with objects of the same names, the objects are the same.
pub(crate) proof fn lemma_object_same(
    a: Seq<(Seq<char>, Seq<char>)>,
    b: Seq<(Seq<char>, Seq<char>)>,
    x: Seq<char>,
    y: Seq<char>,
)
    requires
        comparable(a, b),
        object_text(a) + x == object_text(b) + y,
    ensures
        a == b,
{
    if a.len() > 0 {
        let s = a.skip(1);
        let t = b.skip(1);
        assert(object_text(a) + x =~= seq!['{'] + member_text(a[0]) + (object_end(s) + x));
        assert(object_text(b) + y =~= seq!['{'] + member_text(b[0]) + (object_end(t) + y));
        lemma_member(seq!['{'], a[0], b[0], object_end(s) + x, object_end(t) + y);
        lemma_object_end(s, t, x, y);
        assert(a =~= seq![a[0]] + s);
        assert(b =~= seq![b[0]] + t);
    } else {
        assert(a =~= b);
    }
}

/// Of two texts that begin with objects, the first members are the same.
pub(crate) proof fn lemma_first_member_same(
    a: Seq<(Seq<char>, Seq<char>)>,
    b: Seq<(Seq<char>, Seq<char>)>,
    x: Seq<char>,
    y: Seq<char>,
)
    requires
        a.len() > 0,
        b.len() > 0,
        a[0].0 == b[0].0,
        apart(a[0].1, b[0].1),
        object_text(a) + x == object_text(b) + y,
    ensures
        a[0] == b[0],
{
    let s = a.skip(1);
    let t = b.skip(1);
    assert(object_text(a) + x =~= seq!['{'] + member_text(a[0]) + (object_end(s) + x));
    assert(object_text(b) + y =~= seq!['{'] + member_text(b[0]) + (object_end(t) + y));
    lemma_member(seq!['{'], a[0], b[0], object_end(s) + x, object_end(t) + y);
}

/// Whether the items of two lists are told apart, and none looks like the end of a list.
pub open spec fn lists_comparable(a: Seq<Seq<char>>, b: Seq<Seq<char>>) -> bool {
    &&& forall|i: int| 0 <= i < a.len() ==> (#[trigger] a[i]).len() > 0 && a[i][0] != ']'
    &&& forall|i: int| 0 <= i < b.len() ==> (#[trigger] b[i]).len() > 0 && b[i][0] != ']'
    &&& forall|i: int|
        0 <= i < a.len() && i < b.len() ==> apart(#[trigger] a[i], #[trigger] b[i])
}

proof fn lemma_list_end(
    a: Seq<Seq<char>>,
    b: Seq<Seq<char>>,
    x: Seq<char>,
    y: Seq<char>,
)
    requires
        lists_comparable(a, b),
        list_end(a) + x == list_end(b) + y,
    ensures
        a == b,
    decreases a.len(),
{
    assert((list_end(a) + x)[0] == (list_end(b) + y)[0]);
    if a.len() > 0 && b.len() > 0 {
        let s = a.skip(1);
        let t = b.skip(1);
        assert(list_end(a) + x =~= seq![','] + (a[0] + (list_end(s) + x)));
        assert(list_end(b) + y =~= seq![','] + (b[0] + (list_end(t) + y)));
        lemma_cancel(seq![','], a[0] + (list_end(s) + x), b[0] + (list_end(t) + y));
        assert(apart(a[0], b[0]));
        lemma_cancel(a[0], list_end(s) + x, list_end(t) + y);
        lemma_lists_rest(a, b);
        lemma_list_end(s, t, x, y);
        assert(a =~= seq![a[0]] + s);
        assert(b =~= seq![b[0]] + t);
    } else {
        if a.len() > 0 {
            assert((list_end(a) + x)[0] == ',');
        }
        if b.len() > 0 {
            assert((list_end(b) + y)[0] == ',');
        }
        assert(a =~= b);
    }
}

proof fn lemma_lists_rest(a: Seq<Seq<char>>, b: Seq<Seq<char>>)
    requires
        lists_comparable(a, b),
        a.len() > 0,
        b.len() > 0,
    ensures
        lists_comparable(a.skip(1), b.skip(1)),
{
    let s = a.skip(1);
    let t = b.skip(1);
    assert forall|i: int| 0 <= i < s.len() implies (#[trigger] s[i]).len() > 0 && s[i][0] != ']' by {
        assert(s[i] == a[i + 1]);
    }
    assert forall|i: int| 0 <= i < t.len() implies (#[trigger] t[i]).len() > 0 && t[i][0] != ']' by {
        assert(t[i] == b[i + 1]);
    }
    assert forall|i: int| 0 <= i < s.len() && i < t.len() implies apart(
        #[trigger] s[i],
        #[trigger] t[i],
    ) by {
        assert(s[i] == a[i + 1] && t[i] == b[i + 1]);
    }
}

/// Of two texts that begin with lists, the lists are the same.
pub(crate) proof fn lemma_list_same(
    a: Seq<Seq<char>>,
    b: Seq<Seq<char>>,
    x: Seq<char>,
    y: Seq<char>,
)
    requires
        lists_comparable(a, b),
        list_text(a) + x == list_text(b) + y,
    ensures
        a == b,
{
    assert((list_text(a) + x)[1] == (list_text(b) + y)[1]);
    if a.len() > 0 && b.len() > 0 {
        let s = a.skip(1);
        let t = b.skip(1);
        assert(list_text(a) + x =~= seq!['['] + (a[0] + (list_end(s) + x)));
        assert(list_text(b) + y =~= seq!['['] + (b[0] + (list_end(t) + y)));
        lemma_cancel(seq!['['], a[0] + (list_end(s) + x), b[0] + (list_end(t) + y));
        assert(apart(a[0], b[0]));
        lemma_cancel(a[0], list_end(s) + x, list_end(t) + y);
        lemma_lists_rest(a, b);
        lemma_list_end(s, t, x, y);
        assert(a =~= seq![a[0]] + s);
        assert(b =~= seq![b[0]] + t);
    } else {
        assert(a =~= b) by {
            if a.len() > 0 {
                assert(a[0].len() > 0);
                assert((list_text(a) + x)[1] == a[0][0]);
            }
            if b.len() > 0 {
                assert(b[0].len() > 0);
                assert((list_text(b) + y)[1] == b[0][0]);
            }
        }
    }
}

} // verus!
