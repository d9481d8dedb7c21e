//! The choice of playlists that a user types: indices and ranges of indices.
use vstd::prelude::*;
use crate::model::text_seq;
use crate::instances::{split_on, is_space, split_text, is_space_char};

verus! {

/// The pieces of `t` between white space characters; pieces may be empty.
pub open spec fn split_ws(t: Seq<char>) -> Seq<Seq<char>>
    decreases t.len(),
{
    if t.len() == 0 {
        seq![Seq::<char>::empty()]
    } else {
        let parts = split_ws(t.drop_last());
        if is_space(t.last()) {
            parts.push(Seq::<char>::empty())
        } else {
            parts.update(parts.len() - 1, parts.last().push(t.last()))
        }
    }
}

pub open spec fn non_empty() -> spec_fn(Seq<char>) -> bool {
    |w: Seq<char>| w.len() > 0
}

/// The words of `t`: its maximal runs without white space.
pub open spec fn words_of(t: Seq<char>) -> Seq<Seq<char>> {
    split_ws(t).filter(non_empty())
}

pub open spec fn is_digit(c: char) -> bool {
    '0' <= c <= '9'
}

/// Whether `s` is a decimal number: one or more digits.
pub open spec fn is_number(s: Seq<char>) -> bool {
    s.len() > 0 && forall|i: int| 0 <= i < s.len() ==> is_digit(#[trigger] s[i])
}

/// The value of the decimal digits `s`.
pub open spec fn digits_value(s: Seq<char>) -> int
    decreases s.len(),
{
    if s.len() == 0 {
        0
    } else {
        digits_value(s.drop_last()) * 10 + (s.last() as int - '0' as int)
    }
}

/// Whether the word `w` selects the index `i`: `w` is `i` itself, or a range `a-b` with
/// `a <= i <= b`.
pub open spec fn selects(w: Seq<char>, i: int) -> bool {
    if is_number(w) {
        digits_value(w) == i
    } else {
        let p = split_on(w, '-');
        &&& p.len() == 2
        &&& is_number(p[0])
        &&& is_number(p[1])
        &&& digits_value(p[0]) <= i <= digits_value(p[1])
    }
}

/// Whether the typed text `t` selects the index `i` of a list of `count` items.
pub open spec fn is_selected(t: Seq<char>, count: int, i: int) -> bool {
    0 <= i < count && exists|k: int| 0 <= k < words_of(t).len() && #[trigger] selects(words_of(t)[k], i)
}

fn min_value(a: u128, b: usize) -> (r: usize)
    ensures
        r == if a < b { a as int } else { b as int },
{
    if a < b as u128 {
        a as usize
    } else {
        b
    }
}

/// The value of `s` as a decimal number, capped at `cap`; `None` when `s` is no number.
pub fn number_capped(s: &str, cap: usize) -> (r: Option<usize>)
    ensures
        match r {
            Some(v) => is_number(s@) && v == if digits_value(s@) < cap { digits_value(s@) } else { cap as int },
            None => !is_number(s@),
        },
{
    let n = s.unicode_len();
    if n == 0 {
        return None;
    }
    let mut v: u128 = 0;
    let mut i: usize = 0;
    assert(s@.take(0) =~= Seq::<char>::empty());
    while i < n
        invariant
            n == s@.len(),
            i <= n,
            v <= cap,
            forall|j: int| 0 <= j < i ==> is_digit(#[trigger] s@[j]),
            v == if digits_value(s@.take(i as int)) < cap {
                digits_value(s@.take(i as int))
            } else {
                cap as int
            },
            digits_value(s@.take(i as int)) >= 0,
        decreases n - i,
    {
        let c = s.get_char(i);
        if !('0' <= c && c <= '9') {
            return None;
        }
        let d = (c as u32 - '0' as u32) as u128;
        proof {
            assert(s@.take(i + 1).drop_last() =~= s@.take(i as int));
            assert(s@.take(i + 1).last() == c);
        }
        v = min_value(v * 10 + d, cap) as u128;
        i += 1;
    }
    proof {
        assert(s@.take(n as int) =~= s@);
    }
    Some(v as usize)
}

/// The words of `s`: its maximal runs without white space, in order.
pub fn words(s: &str) -> (r: Vec<String>)
    ensures
        text_seq(r@) == words_of(s@),
{
    let n = s.unicode_len();
    let mut out: Vec<String> = Vec::new();
    let mut start: usize = 0;
    let mut i: usize = 0;
    let ghost mut pieces: Seq<Seq<char>> = Seq::empty();
    proof {
        assert(s@.take(0) =~= Seq::<char>::empty());
        assert(pieces.push(s@.subrange(0, 0)) =~= split_ws(s@.take(0)));
        assert(pieces.filter(non_empty()) =~= Seq::<Seq<char>>::empty()) by {
            pieces.lemma_filter_len(non_empty());
        }
    }
    while i < n
        invariant
            n == s@.len(),
            start <= i <= n,
            pieces.push(s@.subrange(start as int, i as int)) == split_ws(s@.take(i as int)),
            text_seq(out@) == pieces.filter(non_empty()),
        decreases n - i,
    {
        let c = s.get_char(i);
        proof {
            assert(s@.take(i + 1).drop_last() =~= s@.take(i as int));
            assert(s@.take(i + 1).last() == c);
        }
        if is_space_char(c) {
            let ghost piece = s@.subrange(start as int, i as int);
            let ghost before = out@;
            if start < i {
                out.push(s.substring_char(start, i).to_owned());
                proof {
                    assert(text_seq(out@) =~= text_seq(before).push(piece));
                }
            }
            proof {
                pieces.lemma_filter_push(piece, non_empty());
                pieces = pieces.push(piece);
                assert(s@.subrange(i + 1, i + 1) =~= Seq::<char>::empty());
            }
            start = i + 1;
        } else {
            proof {
                assert(s@.subrange(start as int, i as int).push(c) =~= s@.subrange(start as int, i + 1));
                let parts = pieces.push(s@.subrange(start as int, i as int));
                assert(parts.update(parts.len() - 1, parts.last().push(c)) =~= pieces.push(
                    s@.subrange(start as int, i + 1),
                ));
            }
        }
        i += 1;
    }
    let ghost last = s@.subrange(start as int, n as int);
    let ghost before = out@;
    if start < n {
        out.push(s.substring_char(start, n).to_owned());
        proof {
            assert(text_seq(out@) =~= text_seq(before).push(last));
        }
    }
    proof {
        assert(s@.take(n as int) =~= s@);
        pieces.lemma_filter_push(last, non_empty());
    }
    out
}

/// Marks in `mask` every index that the word `w` selects.
fn mark_word(w: &str, mask: &mut Vec<bool>)
    ensures
        final(mask)@.len() == old(mask)@.len(),
        forall|i: int|
            0 <= i < old(mask)@.len() ==> (#[trigger] final(mask)@[i] <==> (old(mask)@[i] || selects(w@, i))),
{
    let count = mask.len();
    match number_capped(w, count) {
        Some(v) => {
            if v < count {
                mask[v] = true;
            }
        },
        None => {
            let parts = split_text(w, '-');
            if parts.len() == 2 {
                proof {
                    assert(parts@[0]@ == split_on(w@, '-')[0]);
                    assert(parts@[1]@ == split_on(w@, '-')[1]);
                }
                let first = number_capped(parts[0].as_str(), count);
                let last = number_capped(parts[1].as_str(), count);
                if let (Some(a), Some(b)) = (first, last) {
                    let mut j: usize = a;
                    while j <= b && j < count
                        invariant
                            mask@.len() == count,
                            a <= j <= count,
                            j <= b + 1 || j == a,
                            forall|i: int|
                                0 <= i < count ==> (#[trigger] mask@[i] <==> (old(mask)@[i] || (a <= i < j))),
                        decreases count - j,
                    {
                        mask[j] = true;
                        j += 1;
                    }
                    proof {
                        assert forall|i: int| 0 <= i < count implies (#[trigger] mask@[i] <==> (old(mask)@[i]
                            || selects(w@, i))) by {
                            assert(selects(w@, i) <==> (a <= i < j));
                        }
                    }
                }
            }
        },
    }
}

/// The indices, below `count`, that the typed text `input` selects, in increasing order
/// and each once. Each word of `input` is an index or a range `a-b` of indices; a word of
/// another form, or an index not below `count`, selects nothing.
pub fn parse_selection(input: &str, count: usize) -> (r: Vec<usize>)
    ensures
        forall|k: int| 0 <= k < r@.len() ==> is_selected(input@, count as int, #[trigger] r@[k] as int),
        forall|i: int| #[trigger] is_selected(input@, count as int, i) ==> r@.contains(i as usize),
        forall|a: int, b: int| 0 <= a < b < r@.len() ==> r@[a] < r@[b],
{
    let ws = words(input);
    let ghost wv = words_of(input@);
    let mut mask: Vec<bool> = Vec::new();
    let mut j: usize = 0;
    while j < count
        invariant
            j <= count,
            mask@.len() == j,
            forall|i: int| 0 <= i < j ==> !(#[trigger] mask@[i]),
        decreases count - j,
    {
        mask.push(false);
        j += 1;
    }
    let mut k: usize = 0;
    while k < ws.len()
        invariant
            k <= ws@.len(),
            text_seq(ws@) == wv,
            mask@.len() == count,
            forall|i: int|
                0 <= i < count ==> (#[trigger] mask@[i] <==> exists|m: int| 0 <= m < k && #[trigger] selects(wv[m], i)),
        decreases ws.len() - k,
    {
        let ghost before = mask@;
        mark_word(ws[k].as_str(), &mut mask);
        proof {
            assert(ws@[k as int]@ == wv[k as int]);
            assert forall|i: int| 0 <= i < count implies (#[trigger] mask@[i] <==> exists|m: int|
                0 <= m < k + 1 && #[trigger] selects(wv[m], i)) by {
                if mask@[i] && !before[i] {
                    assert(selects(wv[k as int], i));
                }
            }
        }
        k += 1;
    }
    let mut out: Vec<usize> = Vec::new();
    let mut i: usize = 0;
    while i < count
        invariant
            i <= count,
            mask@.len() == count,
            forall|x: int|
                0 <= x < count ==> (#[trigger] mask@[x] <==> exists|m: int| 0 <= m < ws@.len() && #[trigger] selects(wv[m], x)),
            ws@.len() == wv.len(),
            forall|q: int| 0 <= q < out@.len() ==> (#[trigger] out@[q] < i && mask@[out@[q] as int]),
            forall|x: int| 0 <= x < i && mask@[x] ==> out@.contains(x as usize),
            forall|a: int, b: int| 0 <= a < b < out@.len() ==> out@[a] < out@[b],
        decreases count - i,
    {
        let ghost before = out@;
        if mask[i] {
            out.push(i);
            proof {
                assert(out@[out@.len() - 1] == i);
            }
        }
        proof {
            assert forall|x: int| 0 <= x < i + 1 && mask@[x] implies out@.contains(x as usize) by {
                if x < i {
                    let q = choose|q: int| 0 <= q < before.len() && before[q] == x as usize;
                    assert(out@[q] == x as usize);
                } else {
                    assert(out@[out@.len() - 1] == x as usize);
                }
            }
        }
        i += 1;
    }
    proof {
        assert forall|x: int| #[trigger] is_selected(input@, count as int, x) implies out@.contains(x as usize) by {
            let m = choose|m: int| 0 <= m < wv.len() && #[trigger] selects(wv[m], x);
            assert(mask@[x]);
        }
    }
    out
}

} // verus!
