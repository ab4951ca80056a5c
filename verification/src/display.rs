//! Text pieces of the state printout.
use vstd::prelude::*;

use crate::snapshot::base64::push_char;

verus! {

/// The width the padding of a section heading counts towards.
pub const HEADING_WIDTH: usize = 50;

/// `n` copies of the box-drawing dash.
pub open spec fn dashes(n: nat) -> Seq<char>
    decreases n,
{
    if n == 0 {
        Seq::empty()
    } else {
        dashes((n - 1) as nat) + "─"@
    }
}

/// How many dashes pad a heading whose label has `n` characters: the width
/// less `n + 4`, or none when the label is longer than that allows.
pub open spec fn heading_padding(n: nat) -> nat {
    if n + 4 <= HEADING_WIDTH {
        (HEADING_WIDTH - (n + 4)) as nat
    } else {
        0
    }
}

/// The heading of a section: two spaces, two dashes, the label between
/// spaces, then the padding dashes.
pub open spec fn heading(label: Seq<char>) -> Seq<char> {
    "  ──"@ + " "@ + label + " "@ + dashes(heading_padding(label.len()))
}

/// The section heading for `label`.
pub fn sec(label: &str) -> (r: String)
    ensures
        r@ == heading(label@),
{
    let n = label.unicode_len();
    let padding: usize = if n <= HEADING_WIDTH - 4 {
        HEADING_WIDTH - 4 - n
    } else {
        0
    };
    let mut out = String::from_str("  ──");
    out.append(" ");
    out.append(label);
    out.append(" ");
    let ghost head = out@;
    for i in 0..padding
        invariant
            out@ == head + dashes(i as nat),
    {
        out.append("─");
    }
    out
}

/// The decimal digit `d` as a character.
pub open spec fn digit_char(d: nat) -> char {
    (48 + d) as char
}

/// `n` in decimal.
pub open spec fn decimal(n: nat) -> Seq<char>
    decreases n,
{
    if n < 10 {
        seq![digit_char(n)]
    } else {
        decimal(n / 10).push(digit_char(n % 10))
    }
}

pub(crate) fn push_decimal(out: &mut String, n: usize)
    ensures
        final(out)@ == old(out)@ + decimal(n as nat),
    decreases n,
{
    if n >= 10 {
        push_decimal(out, n / 10);
    }
    let d = (n % 10) as u8;
    push_char(out, (48u8 + d) as char);
    proof {
        assert(decimal(n as nat) == if n < 10 {
            seq![digit_char(n as nat)]
        } else {
            decimal((n / 10) as nat).push(digit_char((n % 10) as nat))
        });
    }
}

/// The distinct items of `s`, in the order they first occur.
pub open spec fn first_seen(s: Seq<Seq<char>>) -> Seq<Seq<char>>
    decreases s.len(),
{
    if s.len() == 0 {
        Seq::empty()
    } else {
        let f = first_seen(s.drop_last());
        if f.contains(s.last()) {
            f
        } else {
            f.push(s.last())
        }
    }
}

/// How often `x` occurs in `s`.
pub open spec fn occurrences(s: Seq<Seq<char>>, x: Seq<char>) -> nat
    decreases s.len(),
{
    if s.len() == 0 {
        0
    } else {
        occurrences(s.drop_last(), x) + if s.last() == x {
            1nat
        } else {
            0nat
        }
    }
}

/// An item, followed by ` ×` and its count when it occurs more than once.
pub open spec fn counted(x: Seq<char>, n: nat) -> Seq<char> {
    if n > 1 {
        x + " ×"@ + decimal(n)
    } else {
        x
    }
}

/// The entries of a collapsed list: each distinct item once, in first-seen
/// order, with its count.
pub open spec fn collapsed(s: Seq<Seq<char>>) -> Seq<Seq<char>> {
    first_seen(s).map_values(|x: Seq<char>| counted(x, occurrences(s, x)))
}

proof fn lemma_first_seen(s: Seq<Seq<char>>)
    ensures
        forall|i: int, j: int|
            0 <= i < j < first_seen(s).len() ==> first_seen(s)[i] != first_seen(s)[j],
        forall|x: Seq<char>| #[trigger] first_seen(s).contains(x) <==> s.contains(x),
    decreases s.len(),
{
    if s.len() > 0 {
        let init = s.drop_last();
        lemma_first_seen(init);
        assert(s =~= init.push(s.last()));
        let f = first_seen(init);
        assert forall|x: Seq<char>| #[trigger] first_seen(s).contains(x) <==> s.contains(x) by {
            if s.contains(x) {
                let k = choose|k: int| 0 <= k < s.len() && s[k] == x;
                if k < init.len() {
                    assert(init[k] == x);
                } else if !f.contains(s.last()) {
                    assert(f.push(s.last())[f.len() as int] == x);
                }
            }
            if first_seen(s).contains(x) {
                let k = choose|k: int| 0 <= k < first_seen(s).len() && first_seen(s)[k] == x;
                if k < f.len() {
                    assert(f[k] == x);
                    assert(f.contains(x));
                    assert(init.contains(x));
                    let m = choose|m: int| 0 <= m < init.len() && init[m] == x;
                    assert(s[m] == x);
                } else {
                    assert(s[s.len() - 1] == x);
                }
            }
            if f.contains(x) {
                let k = choose|k: int| 0 <= k < f.len() && f[k] == x;
                if !f.contains(s.last()) {
                    assert(f.push(s.last())[k] == x);
                }
            }
        }
    }
}

/// Collapse a list of display strings into entries `"name ×n"` for the
/// strings that occur `n > 1` times, each string once, in the order in which
/// the strings first occur.
pub fn collapse_counts(items: Vec<String>) -> (r: Vec<String>)
    ensures
        r@.map_values(|x: String| x@) == collapsed(items@.map_values(|x: String| x@)),
{
    let ghost all = items@.map_values(|x: String| x@);
    let mut names: Vec<String> = Vec::new();
    let mut counts: Vec<usize> = Vec::new();
    let n = items.len();
    for i in 0..n
        invariant
            n == items@.len(),
            all == items@.map_values(|x: String| x@),
            names@.len() == counts@.len(),
            names@.map_values(|x: String| x@) == first_seen(all.take(i as int)),
            forall|k: int|
                0 <= k < counts@.len() ==> #[trigger] counts@[k] == occurrences(
                    all.take(i as int),
                    names@[k]@,
                ) && counts@[k] <= i,
    {
        let ghost pre = all.take(i as int);
        let ghost post = all.take(i + 1);
        proof {
            assert(post.drop_last() =~= pre);
            assert(post.last() == items@[i as int]@);
            lemma_first_seen(pre);
        }
        let mut found: Option<usize> = None;
        let m = names.len();
        for k in 0..m
            invariant
                m == names@.len(),
                names@.len() == counts@.len(),
                i < n,
                n == items@.len(),
                match found {
                    Some(q) => q < k && names@[q as int]@ == items@[i as int]@,
                    None => forall|q: int| 0 <= q < k ==> names@[q]@ != items@[i as int]@,
                },
        {
            if found.is_none() && names[k] == items[i] {
                found = Some(k);
            }
        }
        let ghost fs = first_seen(pre);
        match found {
            Some(q) => {
                proof {
                    assert(fs[q as int] == items@[i as int]@);
                    assert(fs.contains(items@[i as int]@));
                }
                let c = counts[q];
                counts.set(q, c + 1);
                proof {
                    assert forall|k: int| 0 <= k < counts@.len() implies #[trigger] counts@[k]
                        == occurrences(post, names@[k]@) && counts@[k] <= i + 1 by {
                        assert(names@.map_values(|x: String| x@)[k] == names@[k]@);
                        assert(names@.map_values(|x: String| x@)[q as int] == names@[q as int]@);
                        if k != q {
                            assert(fs[k] != fs[q as int]);
                        }
                    }
                }
            },
            None => {
                proof {
                    if fs.contains(items@[i as int]@) {
                        let q = choose|q: int| 0 <= q < fs.len() && fs[q] == items@[i as int]@;
                        assert(names@.map_values(|x: String| x@)[q] == names@[q]@);
                    }
                    assert(!pre.contains(items@[i as int]@));
                    assert(occurrences(pre, items@[i as int]@) == 0) by {
                        lemma_occurrences_absent(pre, items@[i as int]@);
                    }
                }
                let name = items[i].clone();
                let ghost old_names = names@;
                names.push(name);
                counts.push(1);
                proof {
                    assert(names@.map_values(|x: String| x@) =~= old_names.map_values(
                        |x: String| x@,
                    ).push(items@[i as int]@));
                    assert forall|k: int| 0 <= k < counts@.len() implies #[trigger] counts@[k]
                        == occurrences(post, names@[k]@) && counts@[k] <= i + 1 by {
                        if k < old_names.len() {
                            assert(names@[k] == old_names[k]);
                            assert(old_names.map_values(|x: String| x@)[k] == old_names[k]@);
                        }
                    }
                }
            },
        }
    }
    let ghost fs = first_seen(all);
    proof {
        assert(all.take(n as int) =~= all);
    }
    let mut out: Vec<String> = Vec::new();
    let m = names.len();
    for k in 0..m
        invariant
            m == names@.len(),
            names@.len() == counts@.len(),
            names@.map_values(|x: String| x@) == fs,
            forall|q: int| 0 <= q < counts@.len() ==> #[trigger] counts@[q] == occurrences(all, names@[q]@),
            out@.map_values(|x: String| x@) == collapsed(all).take(k as int),
            fs == first_seen(all),
    {
        let mut entry = names[k].clone();
        let c = counts[k];
        if c > 1 {
            entry.append(" ×");
            push_decimal(&mut entry, c);
        }
        let ghost old_out = out@;
        out.push(entry);
        proof {
            assert(fs[k as int] == names@[k as int]@);
            assert(out@.map_values(|x: String| x@) =~= old_out.map_values(|x: String| x@).push(
                entry@,
            ));
            assert(collapsed(all).take(k + 1) =~= collapsed(all).take(k as int).push(
                collapsed(all)[k as int],
            ));
        }
    }
    proof {
        assert(collapsed(all).take(m as int) =~= collapsed(all));
    }
    out
}

proof fn lemma_occurrences_absent(s: Seq<Seq<char>>, x: Seq<char>)
    requires
        !s.contains(x),
    ensures
        occurrences(s, x) == 0,
    decreases s.len(),
{
    if s.len() > 0 {
        let init = s.drop_last();
        if init.contains(x) {
            let k = choose|k: int| 0 <= k < init.len() && init[k] == x;
            assert(s[k] == x);
        }
        lemma_occurrences_absent(init, x);
        assert(s[s.len() - 1] != x);
    }
}

} // verus!
