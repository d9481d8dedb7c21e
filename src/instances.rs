//! The list of public service instances, read from the markdown table that publishes it.
use vstd::prelude::*;
use crate::model::text_seq;

verus! {

/// The header lines of the published table, before its first instance row.
pub const HEADER_LINES: usize = 8;

/// The pieces of `t` between occurrences of `sep`, in order. There is always one piece
/// more than there are separators; pieces may be empty.
pub open spec fn split_on(t: Seq<char>, sep: char) -> Seq<Seq<char>>
    decreases t.len(),
{
    if t.len() == 0 {
        seq![Seq::<char>::empty()]
    } else {
        let parts = split_on(t.drop_last(), sep);
        if t.last() == sep {
            parts.push(Seq::<char>::empty())
        } else {
            parts.update(parts.len() - 1, parts.last().push(t.last()))
        }
    }
}

/// `s` without one trailing carriage return.
pub open spec fn strip_cr(s: Seq<char>) -> Seq<char> {
    if s.len() > 0 && s.last() == '\r' {
        s.drop_last()
    } else {
        s
    }
}

/// The lines of `t`: the pieces between line feeds, each ended by a line feed losing a
/// carriage return before it; a last piece that is empty is no line.
pub open spec fn lines_of(t: Seq<char>) -> Seq<Seq<char>> {
    let parts = split_on(t, '\n');
    let ended = parts.take(parts.len() - 1).map_values(|p: Seq<char>| strip_cr(p));
    if parts.last().len() == 0 {
        ended
    } else {
        ended.push(parts.last())
    }
}

/// Whether `c` is white space in Unicode's sense.
pub open spec fn is_space(c: char) -> bool {
    let u = c as u32;
    (0x9 <= u <= 0xd) || u == 0x20 || u == 0x85 || u == 0xa0 || u == 0x1680 || (0x2000 <= u
        <= 0x200a) || u == 0x2028 || u == 0x2029 || u == 0x202f || u == 0x205f || u == 0x3000
}

pub open spec fn trim_start(s: Seq<char>) -> Seq<char>
    decreases s.len(),
{
    if s.len() > 0 && is_space(s[0]) {
        trim_start(s.drop_first())
    } else {
        s
    }
}

pub open spec fn trim_end(s: Seq<char>) -> Seq<char>
    decreases s.len(),
{
    if s.len() > 0 && is_space(s.last()) {
        trim_end(s.drop_last())
    } else {
        s
    }
}

/// `s` without white space at either end.
pub open spec fn trimmed(s: Seq<char>) -> Seq<char> {
    trim_end(trim_start(s))
}

/// The cells of a table row: the pieces between `|`, trimmed.
pub open spec fn row_cells(line: Seq<char>) -> Seq<Seq<char>> {
    split_on(line, '|').map_values(|c: Seq<char>| trimmed(c))
}

/// The rows of the instance table in `t`: every line after the header, as cells.
pub open spec fn instance_rows(t: Seq<char>) -> Seq<Seq<Seq<char>>> {
    let lines = lines_of(t);
    if lines.len() <= HEADER_LINES {
        Seq::empty()
    } else {
        lines.skip(HEADER_LINES as int).map_values(|l: Seq<char>| row_cells(l))
    }
}

/// The text of a table of strings.
pub open spec fn table_text(rows: Seq<Vec<String>>) -> Seq<Seq<Seq<char>>> {
    rows.map_values(|r: Vec<String>| text_seq(r@))
}

proof fn lemma_split_on_nonempty(t: Seq<char>, sep: char)
    ensures
        split_on(t, sep).len() >= 1,
    decreases t.len(),
{
    if t.len() > 0 {
        lemma_split_on_nonempty(t.drop_last(), sep);
    }
}

pub(crate) fn is_space_char(c: char) -> (r: bool)
    ensures
        r == is_space(c),
{
    let u = c as u32;
    (0x9 <= u && u <= 0xd) || u == 0x20 || u == 0x85 || u == 0xa0 || u == 0x1680 || (0x2000 <= u
        && u <= 0x200a) || u == 0x2028 || u == 0x2029 || u == 0x202f || u == 0x205f || u == 0x3000
}

/// The pieces of `s` between occurrences of `sep`.
pub fn split_text(s: &str, sep: char) -> (r: Vec<String>)
    ensures
        text_seq(r@) == split_on(s@, sep),
{
    let n = s.unicode_len();
    let mut out: Vec<String> = Vec::new();
    let mut start: usize = 0;
    let mut i: usize = 0;
    proof {
        assert(s@.take(0) =~= Seq::<char>::empty());
        assert(text_seq(out@).push(s@.subrange(0, 0)) =~= split_on(s@.take(0), sep));
    }
    while i < n
        invariant
            n == s@.len(),
            start <= i <= n,
            text_seq(out@).push(s@.subrange(start as int, i as int)) == split_on(s@.take(i as int), sep),
        decreases n - i,
    {
        let c = s.get_char(i);
        let ghost before = out@;
        proof {
            assert(s@.take(i + 1).drop_last() =~= s@.take(i as int));
            assert(s@.take(i + 1).last() == c);
        }
        if c == sep {
            let ghost from = start;
            out.push(s.substring_char(start, i).to_owned());
            start = i + 1;
            proof {
                assert(text_seq(out@) =~= text_seq(before).push(s@.subrange(from as int, i as int)));
                assert(text_seq(out@) == split_on(s@.take(i as int), sep));
                assert(split_on(s@.take(i + 1), sep) == split_on(s@.take(i as int), sep).push(Seq::<char>::empty()));
                assert(s@.subrange(start as int, i + 1) =~= Seq::<char>::empty());
            }
        } else {
            proof {
                let parts = text_seq(before).push(s@.subrange(start as int, i as int));
                assert(s@.subrange(start as int, i as int).push(c) =~= s@.subrange(start as int, i + 1));
                assert(split_on(s@.take(i + 1), sep) == parts.update(parts.len() - 1, parts.last().push(c)));
                assert(parts.update(parts.len() - 1, parts.last().push(c))
                    =~= text_seq(out@).push(s@.subrange(start as int, i + 1)));
            }
        }
        i += 1;
    }
    out.push(s.substring_char(start, n).to_owned());
    proof {
        assert(s@.take(n as int) =~= s@);
        assert(text_seq(out@) =~= split_on(s@, sep));
    }
    out
}

/// `s` without white space at either end.
pub fn trim_text(s: &str) -> (r: String)
    ensures
        r@ == trimmed(s@),
{
    let n = s.unicode_len();
    let mut lo: usize = 0;
    assert(s@.subrange(0, n as int) =~= s@);
    while lo < n && is_space_char(s.get_char(lo))
        invariant
            n == s@.len(),
            lo <= n,
            trim_start(s@) == trim_start(s@.subrange(lo as int, n as int)),
        decreases n - lo,
    {
        proof {
            assert(s@.subrange(lo + 1, n as int) =~= s@.subrange(lo as int, n as int).drop_first());
        }
        lo += 1;
    }
    let ghost rest = s@.subrange(lo as int, n as int);
    assert(trim_start(s@) == rest);
    let mut hi: usize = n;
    while hi > lo && is_space_char(s.get_char(hi - 1))
        invariant
            n == s@.len(),
            lo <= hi <= n,
            rest == s@.subrange(lo as int, n as int),
            trim_end(rest) == trim_end(s@.subrange(lo as int, hi as int)),
        decreases hi,
    {
        proof {
            assert(s@.subrange(lo as int, hi - 1) =~= s@.subrange(lo as int, hi as int).drop_last());
        }
        hi -= 1;
    }
    s.substring_char(lo, hi).to_owned()
}

/// `s` without one trailing carriage return.
fn strip_cr_text(s: &String) -> (r: String)
    ensures
        r@ == strip_cr(s@),
{
    let t = s.as_str();
    let n = t.unicode_len();
    if n > 0 && t.get_char(n - 1) == '\r' {
        proof {
            assert(t@.subrange(0, n - 1) =~= s@.drop_last());
        }
        t.substring_char(0, n - 1).to_owned()
    } else {
        s.clone()
    }
}

/// The lines of `s`, each without its line ending.
pub fn text_lines(s: &str) -> (r: Vec<String>)
    ensures
        text_seq(r@) == lines_of(s@),
{
    let parts = split_text(s, '\n');
    proof {
        lemma_split_on_nonempty(s@, '\n');
    }
    let k = parts.len();
    let ghost ps = split_on(s@, '\n');
    let mut out: Vec<String> = Vec::new();
    let mut i: usize = 0;
    while i + 1 < k
        invariant
            k == parts@.len(),
            k >= 1,
            i + 1 <= k,
            text_seq(parts@) == ps,
            text_seq(out@) == ps.take(i as int).map_values(|p: Seq<char>| strip_cr(p)),
        decreases k - i,
    {
        let ghost before = out@;
        out.push(strip_cr_text(&parts[i]));
        proof {
            assert(ps[i as int] == parts@[i as int]@);
            assert(ps.take(i + 1) =~= ps.take(i as int).push(ps[i as int]));
            assert(text_seq(out@) =~= text_seq(before).push(strip_cr(ps[i as int])));
            assert(ps.take(i + 1).map_values(|p: Seq<char>| strip_cr(p)) =~= ps.take(i as int).map_values(
                |p: Seq<char>| strip_cr(p),
            ).push(strip_cr(ps[i as int])));
        }
        i += 1;
    }
    assert(ps.last() == parts@[k - 1]@);
    if parts[k - 1].as_str().unicode_len() != 0 {
        let ghost before = out@;
        out.push(parts[k - 1].clone());
        proof {
            assert(text_seq(out@) =~= text_seq(before).push(ps.last()));
        }
    }
    out
}

/// The cells of a table row: the pieces of `line` between `|`, trimmed.
pub fn row_cells_of(line: &str) -> (r: Vec<String>)
    ensures
        text_seq(r@) == row_cells(line@),
{
    let pieces = split_text(line, '|');
    let ghost ps = split_on(line@, '|');
    let mut out: Vec<String> = Vec::new();
    let mut i: usize = 0;
    while i < pieces.len()
        invariant
            i <= pieces@.len(),
            text_seq(pieces@) == ps,
            text_seq(out@) == ps.take(i as int).map_values(|c: Seq<char>| trimmed(c)),
        decreases pieces.len() - i,
    {
        let ghost before = out@;
        out.push(trim_text(pieces[i].as_str()));
        proof {
            assert(ps[i as int] == pieces@[i as int]@);
            assert(ps.take(i + 1) =~= ps.take(i as int).push(ps[i as int]));
            assert(text_seq(out@) =~= text_seq(before).push(trimmed(ps[i as int])));
            assert(ps.take(i + 1).map_values(|c: Seq<char>| trimmed(c)) =~= ps.take(i as int).map_values(
                |c: Seq<char>| trimmed(c),
            ).push(trimmed(ps[i as int])));
        }
        i += 1;
    }
    proof {
        assert(ps.take(ps.len() as int) =~= ps);
    }
    out
}

/// The instance rows of the published table `text`: each line after the header, split
/// into trimmed cells.
pub fn parse_instances(text: &str) -> (r: Vec<Vec<String>>)
    ensures
        table_text(r@) == instance_rows(text@),
{
    let lines = text_lines(text);
    let ghost ls = lines_of(text@);
    let mut rows: Vec<Vec<String>> = Vec::new();
    if lines.len() <= HEADER_LINES {
        proof {
            assert(table_text(rows@) =~= Seq::<Seq<Seq<char>>>::empty());
        }
        return rows;
    }
    let mut i: usize = HEADER_LINES;
    while i < lines.len()
        invariant
            HEADER_LINES <= i <= lines@.len(),
            text_seq(lines@) == ls,
            table_text(rows@) == ls.subrange(HEADER_LINES as int, i as int).map_values(
                |l: Seq<char>| row_cells(l),
            ),
        decreases lines.len() - i,
    {
        let ghost before = rows@;
        rows.push(row_cells_of(lines[i].as_str()));
        proof {
            assert(ls[i as int] == lines@[i as int]@);
            assert(table_text(rows@) =~= table_text(before).push(row_cells(ls[i as int])));
            assert(ls.subrange(HEADER_LINES as int, i + 1).map_values(|l: Seq<char>| row_cells(l))
                =~= ls.subrange(HEADER_LINES as int, i as int).map_values(|l: Seq<char>| row_cells(l)).push(
                row_cells(ls[i as int]),
            ));
        }
        i += 1;
    }
    proof {
        assert(ls.subrange(HEADER_LINES as int, ls.len() as int) =~= ls.skip(HEADER_LINES as int));
    }
    rows
}

} // verus!
