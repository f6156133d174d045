use vstd::prelude::*;
use crate::text::{push_char, push_str};

verus! {

/// The character of a decimal digit.
pub open spec fn digit_char(d: nat) -> char {
    if d == 0 {
        '0'
    } else if d == 1 {
        '1'
    } else if d == 2 {
        '2'
    } else if d == 3 {
        '3'
    } else if d == 4 {
        '4'
    } else if d == 5 {
        '5'
    } else if d == 6 {
        '6'
    } else if d == 7 {
        '7'
    } else if d == 8 {
        '8'
    } else {
        '9'
    }
}

/// `n` in decimal, without leading zeros.
pub open spec fn decimal(n: nat) -> Seq<char>
    decreases n,
{
    if n < 10 {
        seq![digit_char(n)]
    } else {
        decimal(n / 10).push(digit_char(n % 10))
    }
}

/// `k="v"`
pub open spec fn label_text(l: (Seq<char>, Seq<char>)) -> Seq<char> {
    l.0 + seq!['=', '"'] + l.1 + seq!['"']
}

/// The labels, comma separated, in order.
pub open spec fn labels_text(ls: Seq<(Seq<char>, Seq<char>)>) -> Seq<char>
    decreases ls.len(),
{
    if ls.len() == 0 {
        Seq::<char>::empty()
    } else if ls.len() == 1 {
        label_text(ls[0])
    } else {
        labels_text(ls.drop_last()) + seq![','] + label_text(ls.last())
    }
}

/// One exposition line: `name{k1="v1",...} value` and a line feed.
pub open spec fn metric_line(name: Seq<char>, value: nat, ls: Seq<(Seq<char>, Seq<char>)>) -> Seq<
    char,
> {
    name + seq!['{'] + labels_text(ls) + seq!['}', ' '] + decimal(value) + seq!['\n']
}

/// The contents of borrowed label pairs.
pub open spec fn label_views(ls: Seq<(&str, &str)>) -> Seq<(Seq<char>, Seq<char>)> {
    ls.map_values(|p: (&str, &str)| (p.0@, p.1@))
}

fn digit(d: usize) -> (c: char)
    requires
        d < 10,
    ensures
        c == digit_char(d as nat),
{
    if d == 0 {
        '0'
    } else if d == 1 {
        '1'
    } else if d == 2 {
        '2'
    } else if d == 3 {
        '3'
    } else if d == 4 {
        '4'
    } else if d == 5 {
        '5'
    } else if d == 6 {
        '6'
    } else if d == 7 {
        '7'
    } else if d == 8 {
        '8'
    } else {
        '9'
    }
}

/// Appends `n` in decimal.
pub fn write_decimal(w: &mut String, n: usize)
    ensures
        final(w)@ == old(w)@ + decimal(n as nat),
    decreases n,
{
    if n >= 10 {
        write_decimal(w, n / 10);
    }
    push_char(w, digit(n % 10));
    assert(final(w)@ =~= old(w)@ + decimal(n as nat));
}

/// Appends one exposition line for metric `name` with `value` and `labels`.
/// Label values are written as they are, without escaping.
pub fn write_metric(w: &mut String, name: &str, value: usize, labels: &[(&str, &str)])
    ensures
        final(w)@ == old(w)@ + metric_line(name@, value as nat, label_views(labels@)),
{
    let ghost ls = label_views(labels@);
    let ghost start = w@;
    push_str(w, name);
    push_char(w, '{');
    let ghost head = w@;
    let mut i: usize = 0;
    assert(ls.subrange(0, 0) =~= Seq::<(Seq<char>, Seq<char>)>::empty());
    assert(w@ =~= head + labels_text(ls.subrange(0, 0)));
    while i < labels.len()
        invariant
            i <= labels@.len(),
            ls == label_views(labels@),
            ls.len() == labels@.len(),
            w@ == head + labels_text(ls.subrange(0, i as int)),
        decreases labels.len() - i,
    {
        let (k, v) = labels[i];
        let ghost next = ls.subrange(0, i + 1);
        assert(next.drop_last() =~= ls.subrange(0, i as int));
        assert(next.last() == (k@, v@));
        if i > 0 {
            push_char(w, ',');
        }
        push_str(w, k);
        push_char(w, '=');
        push_char(w, '"');
        push_str(w, v);
        push_char(w, '"');
        assert(w@ =~= head + labels_text(next));
        i = i + 1;
    }
    assert(ls.subrange(0, ls.len() as int) =~= ls);
    push_char(w, '}');
    push_char(w, ' ');
    write_decimal(w, value);
    push_char(w, '\n');
    assert(w@ =~= start + metric_line(name@, value as nat, ls));
}

} // verus!
