//! Packing of names into rows bounded by the terminal width.
use crate::bytes::{lit, push_all};
use vstd::prelude::*;

verus! {

/// The narrowest column the packing assumes.
pub const MIN_COLUMN_WIDTH: u16 = 3;

/// Names per row for `n` names on a terminal `width` columns wide:
/// `max(1, min(n, floor(floor(width / 3) / 3) - 1))`.
pub open spec fn column_count(width: u16, n: nat) -> nat {
    let limit = (width as int / 3) / 3 - 1;
    let c = if (n as int) < limit {
        n as int
    } else {
        limit
    };
    if c < 1 {
        1
    } else {
        c as nat
    }
}

/// `names` split, in order, into rows of `c` names; the last row may be shorter.
pub open spec fn chunks(names: Seq<Seq<u8>>, c: nat) -> Seq<Seq<Seq<u8>>>
    decreases names.len(),
{
    if names.len() == 0 || c == 0 {
        Seq::empty()
    } else {
        let k = if c < names.len() {
            c
        } else {
            names.len()
        };
        seq![names.subrange(0, k as int)] + chunks(names.subrange(k as int, names.len() as int), c)
    }
}

/// The names of a row with two spaces between neighbours.
pub open spec fn join(row: Seq<Seq<u8>>) -> Seq<u8>
    decreases row.len(),
{
    if row.len() == 0 {
        Seq::empty()
    } else if row.len() == 1 {
        row[0]
    } else {
        join(row.drop_last()) + lit("  ") + row.last()
    }
}

/// Each row followed by a newline.
pub open spec fn render_rows(rows: Seq<Seq<Seq<u8>>>) -> Seq<u8>
    decreases rows.len(),
{
    if rows.len() == 0 {
        Seq::empty()
    } else {
        join(rows[0]) + lit("\n") + render_rows(rows.drop_first())
    }
}

/// The packed output: the rows of `c` names, or a lone newline when there are no names.
pub open spec fn columns_output(names: Seq<Seq<u8>>, c: nat) -> Seq<u8> {
    if names.len() == 0 {
        lit("\n")
    } else {
        render_rows(chunks(names, c))
    }
}

pub open spec fn views(names: Seq<Vec<u8>>) -> Seq<Seq<u8>> {
    names.map_values(|n: Vec<u8>| n@)
}

/// How many names go in a row.
pub fn columns_for(width: u16, n: usize) -> (r: usize)
    ensures
        r == column_count(width, n as nat),
{
    let limit: i64 = ((width / 3) / MIN_COLUMN_WIDTH) as i64 - 1;
    if limit < 1 {
        1
    } else if n < limit as usize {
        if n < 1 {
            1
        } else {
            n
        }
    } else {
        limit as usize
    }
}

/// Packs `names`, in order, `columns` to a row.
pub fn print_into_columns(names: &Vec<Vec<u8>>, columns: usize) -> (r: Vec<u8>)
    requires
        columns >= 1,
    ensures
        r@ == columns_output(views(names@), columns as nat),
{
    let ghost all = views(names@);
    let mut out: Vec<u8> = Vec::new();
    if names.len() == 0 {
        crate::bytes::push_str(&mut out, "\n");
        return out;
    }
    let n = names.len();
    let mut i: usize = 0;
    assert(all.subrange(0, n as int) == all);
    while i < n
        invariant
            n == names@.len(),
            all == views(names@),
            columns >= 1,
            i <= n,
            out@ + render_rows(chunks(all.subrange(i as int, n as int), columns as nat))
                == render_rows(chunks(all, columns as nat)),
        decreases n - i,
    {
        let ghost rest = all.subrange(i as int, n as int);
        let k: usize = if columns < n - i {
            columns
        } else {
            n - i
        };
        let ghost row = rest.subrange(0, k as int);
        assert(chunks(rest, columns as nat) == seq![row] + chunks(
            rest.subrange(k as int, rest.len() as int),
            columns as nat,
        ));
        assert(rest.subrange(k as int, rest.len() as int) == all.subrange(i + k, n as int));
        let ghost base = out@;
        let mut m: usize = 0;
        while m < k
            invariant
                n == names@.len(),
                all == views(names@),
                i + k <= n,
                m <= k,
                row == all.subrange(i as int, i + k),
                out@ == base + join(row.subrange(0, m as int)),
            decreases k - m,
        {
            if m > 0 {
                crate::bytes::push_str(&mut out, "  ");
            }
            push_all(&mut out, names[i + m].as_slice());
            proof {
                let part = row.subrange(0, m + 1);
                assert(part.drop_last() == row.subrange(0, m as int));
                assert(part.last() == names@[i + m]@);
                if m == 0 {
                    assert(join(part) == part[0]);
                }
            }
            m = m + 1;
        }
        assert(row.subrange(0, k as int) == row);
        crate::bytes::push_str(&mut out, "\n");
        proof {
            let tail = chunks(rest.subrange(k as int, rest.len() as int), columns as nat);
            assert((seq![row] + tail).drop_first() == tail);
            assert((seq![row] + tail)[0] == row);
        }
        i = i + k;
    }
    assert(all.subrange(0, n as int) == all);
    out
}

/// Packs `names` into rows for a terminal `width` columns wide.
pub fn print_all(names: &Vec<Vec<u8>>, width: u16) -> (r: Vec<u8>)
    ensures
        r@ == columns_output(views(names@), column_count(width, names@.len())),
{
    let columns = columns_for(width, names.len());
    print_into_columns(names, columns)
}

/// Every row holds between one and `c` names, and every row but the last holds exactly `c`.
pub proof fn lemma_chunk_sizes(names: Seq<Seq<u8>>, c: nat)
    requires
        c >= 1,
    ensures
        forall|r: int|
            0 <= r < chunks(names, c).len() ==> 1 <= (#[trigger] chunks(names, c)[r]).len() <= c,
        forall|r: int|
            0 <= r < chunks(names, c).len() - 1 ==> (#[trigger] chunks(names, c)[r]).len() == c,
    decreases names.len(),
{
    if names.len() > 0 {
        let k = if c < names.len() {
            c
        } else {
            names.len()
        };
        let tail = names.subrange(k as int, names.len() as int);
        lemma_chunk_sizes(tail, c);
        let rows = chunks(names, c);
        assert(rows == seq![names.subrange(0, k as int)] + chunks(tail, c));
        if k < c {
            assert(tail.len() == 0);
            assert(chunks(tail, c).len() == 0);
        }
        assert forall|r: int| 0 <= r < rows.len() implies 1 <= (#[trigger] rows[r]).len() <= c by {
            if r > 0 {
                assert(rows[r] == chunks(tail, c)[r - 1]);
            }
        }
        assert forall|r: int| 0 <= r < rows.len() - 1 implies (#[trigger] rows[r]).len() == c by {
            if r > 0 {
                assert(rows[r] == chunks(tail, c)[r - 1]);
            }
        }
    }
}

/// Column packing on a terminal `width` columns wide: no row holds more than
/// `floor(floor(width / 3) / 3) - 1` names (when that bound is at least one),
/// and with at least that many names every row but the last holds exactly that many.
pub proof fn lemma_column_layout(width: u16, names: Seq<Seq<u8>>)
    ensures
        ({
            let limit = (width as int / 3) / 3 - 1;
            let c = column_count(width, names.len());
            let rows = chunks(names, c);
            &&& c >= 1
            &&& limit >= 1 ==> c <= limit
            &&& forall|r: int| 0 <= r < rows.len() ==> 1 <= (#[trigger] rows[r]).len() <= c
            &&& names.len() >= limit >= 1 ==> forall|r: int|
                0 <= r < rows.len() - 1 ==> (#[trigger] rows[r]).len() == limit
            &&& names.len() < limit ==> rows.len() <= 1
        }),
{
    let c = column_count(width, names.len());
    lemma_chunk_sizes(names, c);
    if names.len() > 0 && names.len() <= c {
        let tail = names.subrange(names.len() as int, names.len() as int);
        assert(tail.len() == 0);
        assert(chunks(names, c) == seq![names.subrange(0, names.len() as int)] + chunks(tail, c));
    }
}

} // verus!
