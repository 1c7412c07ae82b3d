//! Decimal rendering of integers and joining of labels.

use vstd::prelude::*;

verus! {

/// The character of a single decimal digit.
pub open spec fn digit_char(d: nat) -> char {
    if d == 0 { '0' }
    else if d == 1 { '1' }
    else if d == 2 { '2' }
    else if d == 3 { '3' }
    else if d == 4 { '4' }
    else if d == 5 { '5' }
    else if d == 6 { '6' }
    else if d == 7 { '7' }
    else if d == 8 { '8' }
    else { '9' }
}

/// The decimal representation of a natural number, most significant digit first,
/// without leading zeros (zero itself is written `0`).
pub open spec fn decimal(n: nat) -> Seq<char>
    decreases n,
{
    if n < 10 {
        seq![digit_char(n)]
    } else {
        decimal(n / 10) + seq![digit_char(n % 10)]
    }
}

/// The decimal representation of an integer, with a leading `-` when negative.
pub open spec fn signed_decimal(i: int) -> Seq<char> {
    if i < 0 {
        seq!['-'] + decimal((-i) as nat)
    } else {
        decimal(i as nat)
    }
}

fn digit_str(d: u64) -> (s: &'static str)
    requires
        d < 10,
    ensures
        s@ == seq![digit_char(d as nat)],
{
    proof {
        reveal_strlit("0");
        reveal_strlit("1");
        reveal_strlit("2");
        reveal_strlit("3");
        reveal_strlit("4");
        reveal_strlit("5");
        reveal_strlit("6");
        reveal_strlit("7");
        reveal_strlit("8");
        reveal_strlit("9");
    }
    if d == 0 { "0" }
    else if d == 1 { "1" }
    else if d == 2 { "2" }
    else if d == 3 { "3" }
    else if d == 4 { "4" }
    else if d == 5 { "5" }
    else if d == 6 { "6" }
    else if d == 7 { "7" }
    else if d == 8 { "8" }
    else { "9" }
}

/// Appends the decimal representation of `n` to `out`.
pub fn push_decimal(out: &mut String, n: u64)
    ensures
        final(out)@ == old(out)@ + decimal(n as nat),
    decreases n,
{
    if n >= 10 {
        push_decimal(out, n / 10);
    }
    out.append(digit_str(n % 10));
}

/// The decimal representation of `n`.
pub fn decimal_string(n: u64) -> (s: String)
    ensures
        s@ == decimal(n as nat),
{
    let mut s = String::new();
    push_decimal(&mut s, n);
    proof {
        assert(s@ =~= decimal(n as nat));
    }
    s
}

/// Appends the decimal representation of `i` to `out`, with a leading `-` when negative.
pub fn push_signed_decimal(out: &mut String, i: i32)
    ensures
        final(out)@ == old(out)@ + signed_decimal(i as int),
{
    proof {
        reveal_strlit("-");
    }
    if i < 0 {
        out.append("-");
        let magnitude: i64 = -(i as i64);
        push_decimal(out, magnitude as u64);
        proof {
            assert(final(out)@ =~= old(out)@ + signed_decimal(i as int));
        }
    } else {
        push_decimal(out, i as u64);
    }
}

/// The labels joined in order, with `sep` between two neighbours.
pub open spec fn join(labels: Seq<Seq<char>>, sep: Seq<char>) -> Seq<char>
    decreases labels.len(),
{
    if labels.len() == 0 {
        Seq::empty()
    } else if labels.len() == 1 {
        labels[0]
    } else {
        join(labels.drop_last(), sep) + sep + labels.last()
    }
}

/// The views of a sequence of strings.
pub open spec fn views(strings: Seq<String>) -> Seq<Seq<char>> {
    strings.map_values(|s: String| s@)
}

/// Joins the labels in order with `sep` between neighbours.
pub fn join_strings(labels: &[String], sep: &str) -> (s: String)
    ensures
        s@ == join(views(labels@), sep@),
{
    let mut s = String::new();
    let ghost all = views(labels@);
    let mut i: usize = 0;
    while i < labels.len()
        invariant
            0 <= i <= labels@.len(),
            all == views(labels@),
            s@ == join(all.take(i as int), sep@),
        decreases labels@.len() - i,
    {
        proof {
            assert(all.take(i + 1).drop_last() =~= all.take(i as int));
        }
        if i > 0 {
            s.append(sep);
        }
        s.append(labels[i].as_str());
        i = i + 1;
    }
    proof {
        assert(all.take(labels@.len() as int) =~= all);
    }
    s
}

/// Where the `i`-th label starts when labels are written one after the other with a
/// separator of length `sep_len` after each: the lengths of the earlier labels and
/// separators added up.
pub open spec fn label_offset(labels: Seq<Seq<char>>, sep_len: nat, i: nat) -> nat
    decreases i,
{
    if i == 0 {
        0
    } else {
        label_offset(labels, sep_len, (i - 1) as nat) + labels[i - 1].len() + sep_len
    }
}

proof fn lemma_offset_prefix(labels: Seq<Seq<char>>, sep_len: nat, m: nat, i: nat)
    requires
        i <= m <= labels.len(),
    ensures
        label_offset(labels.take(m as int), sep_len, i) == label_offset(labels, sep_len, i),
    decreases i,
{
    if i > 0 {
        lemma_offset_prefix(labels, sep_len, m, (i - 1) as nat);
    }
}

proof fn lemma_offset_monotone(labels: Seq<Seq<char>>, sep_len: nat, i: nat, j: nat)
    requires
        i <= j,
    ensures
        label_offset(labels, sep_len, i) <= label_offset(labels, sep_len, j),
    decreases j,
{
    if i < j {
        lemma_offset_monotone(labels, sep_len, i, (j - 1) as nat);
    }
}

/// Labels joined with a separator: the result holds every label, in order, each at the
/// place where the earlier labels and separators end, with the separator between two
/// neighbours and nothing else; its length is the sum of the label lengths and of one
/// separator less than there are labels.
pub proof fn lemma_join_layout(labels: Seq<Seq<char>>, sep: Seq<char>)
    requires
        labels.len() > 0,
    ensures
        join(labels, sep).len() + sep.len() == label_offset(labels, sep.len(), labels.len()),
        forall|i: int|
            0 <= i < labels.len() ==> join(labels, sep).subrange(
                label_offset(labels, sep.len(), i as nat) as int,
                label_offset(labels, sep.len(), i as nat) as int + labels[i].len(),
            ) == #[trigger] labels[i],
        forall|i: int|
            0 <= i < labels.len() - 1 ==> join(labels, sep).subrange(
                label_offset(labels, sep.len(), i as nat) as int + #[trigger] labels[i].len(),
                label_offset(labels, sep.len(), (i + 1) as nat) as int,
            ) == sep,
    decreases labels.len(), 2int,
{
    let n = labels.len();
    if n == 1 {
        assert(label_offset(labels, sep.len(), 0) == 0);
        assert(label_offset(labels, sep.len(), 1) == labels[0].len() + sep.len());
        assert(join(labels, sep).subrange(0, labels[0].len() as int) =~= labels[0]);
    } else {
        lemma_join_length_step(labels, sep);
        assert forall|i: int| 0 <= i < n implies join(labels, sep).subrange(
            label_offset(labels, sep.len(), i as nat) as int,
            label_offset(labels, sep.len(), i as nat) as int + labels[i].len(),
        ) == #[trigger] labels[i] by {
            lemma_join_label_step(labels, sep, i);
        }
        assert forall|i: int| 0 <= i < n - 1 implies join(labels, sep).subrange(
            label_offset(labels, sep.len(), i as nat) as int + #[trigger] labels[i].len(),
            label_offset(labels, sep.len(), (i + 1) as nat) as int,
        ) == sep by {
            lemma_join_sep_step(labels, sep, i);
        }
    }
}

proof fn lemma_join_length_step(labels: Seq<Seq<char>>, sep: Seq<char>)
    requires
        labels.len() > 1,
    ensures
        join(labels, sep).len() + sep.len() == label_offset(labels, sep.len(), labels.len()),
        join(labels, sep) == join(labels.drop_last(), sep) + sep + labels.last(),
        join(labels.drop_last(), sep).len() + sep.len() == label_offset(
            labels,
            sep.len(),
            (labels.len() - 1) as nat,
        ),
    decreases labels.len(), 0int,
{
    let n = labels.len();
    let front = labels.drop_last();
    lemma_join_layout(front, sep);
    assert(front =~= labels.take(n - 1));
    lemma_offset_prefix(labels, sep.len(), (n - 1) as nat, (n - 1) as nat);
}

proof fn lemma_join_label_step(labels: Seq<Seq<char>>, sep: Seq<char>, i: int)
    requires
        labels.len() > 1,
        0 <= i < labels.len(),
    ensures
        join(labels, sep).subrange(
            label_offset(labels, sep.len(), i as nat) as int,
            label_offset(labels, sep.len(), i as nat) as int + labels[i].len(),
        ) == labels[i],
    decreases labels.len(), 1int,
{
    let n = labels.len();
    let sl = sep.len();
    let front = labels.drop_last();
    let head = join(front, sep);
    let t = join(labels, sep);
    lemma_join_length_step(labels, sep);
    let a = label_offset(labels, sl, i as nat) as int;
    if i < n - 1 {
        lemma_join_layout(front, sep);
        assert(front =~= labels.take(n - 1));
        lemma_offset_prefix(labels, sl, (n - 1) as nat, i as nat);
        assert(front[i] == labels[i]);
        assert(head.subrange(a, a + front[i].len()) == front[i]);
        lemma_offset_monotone(labels, sl, (i + 1) as nat, (n - 1) as nat);
        assert(t.subrange(a, a + labels[i].len()) =~= head.subrange(a, a + labels[i].len()));
    } else {
        assert(t.subrange(a, a + labels[i].len()) =~= labels.last());
    }
}

proof fn lemma_join_sep_step(labels: Seq<Seq<char>>, sep: Seq<char>, i: int)
    requires
        labels.len() > 1,
        0 <= i < labels.len() - 1,
    ensures
        join(labels, sep).subrange(
            label_offset(labels, sep.len(), i as nat) as int + labels[i].len(),
            label_offset(labels, sep.len(), (i + 1) as nat) as int,
        ) == sep,
    decreases labels.len(), 1int,
{
    let n = labels.len();
    let sl = sep.len();
    let front = labels.drop_last();
    let head = join(front, sep);
    let t = join(labels, sep);
    lemma_join_length_step(labels, sep);
    let a = label_offset(labels, sl, i as nat) as int + labels[i].len();
    let b = label_offset(labels, sl, (i + 1) as nat) as int;
    assert(b == a + sl);
    if i < n - 2 {
        lemma_join_layout(front, sep);
        assert(front =~= labels.take(n - 1));
        lemma_offset_prefix(labels, sl, (n - 1) as nat, i as nat);
        lemma_offset_prefix(labels, sl, (n - 1) as nat, (i + 1) as nat);
        assert(front[i] == labels[i]);
        assert(head.subrange(a, b) == sep);
        lemma_offset_monotone(labels, sl, (i + 2) as nat, (n - 1) as nat);
        assert(t.subrange(a, b) =~= head.subrange(a, b));
    } else {
        assert(a == head.len());
        assert(t.subrange(a, b) =~= sep);
    }
}
} // verus!
