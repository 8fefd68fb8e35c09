//! Wire codec for the pixel grid value: a row count, then each row as an
//! element count followed by its color records, row-major. Decoding reads
//! the rows into a temporary row list, rejects rows of unequal length as a
//! shape violation, and flattens a rectangular row list into one contiguous
//! grid. Zero rows decode to the empty grid.

use vstd::prelude::*;
use crate::wire::{
    DecodeError, DecodeErrorKind, spec_err, spec_enc_u64, spec_dec_u64, enc_u64, dec_u64,
    spec_enc_seq, spec_dec_seq, dec_inverts_enc_on, lemma_dec_enc_seq, lemma_enc_seq_push,
    lemma_concat_split, lemma_dec_enc_u64, seq_cont, seq_cont1,
    lemma_seq_cont_shift, lemma_seq_cont_done, lemma_flatten_rect_len,
};
use crate::sensors::image::{
    ColorRemote, GridView, PixelGrid, spec_enc_color, spec_dec_color, enc_color, dec_color,
    lemma_dec_enc_color, spec_grid_of_rows, spec_rows_rect, rows_view,
};

verus! {

/// The color encoder as a function value, for element runs.
pub open spec fn color_enc_fn() -> spec_fn(ColorRemote) -> Seq<u8> {
    |c: ColorRemote| spec_enc_color(c)
}

/// The color decoder as a function value, for element runs.
pub open spec fn color_dec_fn() -> spec_fn(Seq<u8>, int) -> Result<(ColorRemote, int), DecodeError> {
    |s: Seq<u8>, i: int| spec_dec_color(s, i)
}

/// Encoding of one row: its element count, then each color record.
pub open spec fn spec_enc_row(row: Seq<ColorRemote>) -> Seq<u8> {
    spec_enc_u64(row.len() as u64) + spec_enc_seq(row, color_enc_fn())
}

/// Decoding of one row at offset `i`.
pub open spec fn spec_dec_row(s: Seq<u8>, i: int) -> Result<(Seq<ColorRemote>, int), DecodeError> {
    match spec_dec_u64(s, i) {
        Ok((n, j)) => spec_dec_seq(s, j, n as int, color_dec_fn()),
        Err(e) => Err(e),
    }
}

/// The row encoder as a function value.
pub open spec fn row_enc_fn() -> spec_fn(Seq<ColorRemote>) -> Seq<u8> {
    |row: Seq<ColorRemote>| spec_enc_row(row)
}

/// The row decoder as a function value.
pub open spec fn row_dec_fn() -> spec_fn(Seq<u8>, int) -> Result<
    (Seq<ColorRemote>, int),
    DecodeError,
> {
    |s: Seq<u8>, i: int| spec_dec_row(s, i)
}

/// Encoding of an arbitrary row list, rectangular or not: the row count,
/// then each row.
pub open spec fn spec_enc_rows(rows: Seq<Seq<ColorRemote>>) -> Seq<u8> {
    spec_enc_u64(rows.len() as u64) + spec_enc_seq(rows, row_enc_fn())
}

/// Encoding of a grid value: its rows, as [`spec_enc_rows`].
pub open spec fn spec_enc_grid(gv: GridView) -> Seq<u8> {
    spec_enc_rows(gv.rows())
}

/// Decoding of a grid value at offset `i`: reads the declared number of
/// rows, rejects a ragged row list with a shape-violation error placed at the
/// value's start, and flattens a rectangular row list.
pub open spec fn spec_dec_grid(s: Seq<u8>, i: int) -> Result<(GridView, int), DecodeError> {
    match spec_dec_u64(s, i) {
        Ok((h, j)) => match spec_dec_seq(s, j, h as int, row_dec_fn()) {
            Ok((rows, k)) => match spec_grid_of_rows(rows) {
                Some(gv) => Ok((gv, k)),
                None => Err(spec_err(DecodeErrorKind::Ragged, i)),
            },
            Err(e) => Err(e),
        },
        Err(e) => Err(e),
    }
}

/// Serializes a grid value: the row count, then each row as its element
/// count followed by its color records, row-major.
pub fn serialize(grid: &PixelGrid, out: &mut Vec<u8>)
    requires
        grid.wf(),
    ensures
        final(out)@ == old(out)@ + spec_enc_grid(grid@),
{
    let h = grid.height;
    let w = grid.width;
    let ghost gv = grid@;
    let ghost rows = gv.rows();
    enc_u64(h as u64, out);
    let mut r: usize = 0;
    while r < h
        invariant
            grid.wf(),
            h == grid.height,
            w == grid.width,
            gv == grid@,
            rows == gv.rows(),
            r <= h,
            out@ == old(out)@ + spec_enc_u64(h as u64) + spec_enc_seq(
                rows.subrange(0, r as int),
                row_enc_fn(),
            ),
        decreases h - r,
    {
        proof {
            assert(0 <= r as int * w as int && (r as int + 1) * w as int <= h as int * w as int
                && (r as int + 1) * w as int == r as int * w as int + w as int) by (
            nonlinear_arith)
                requires
                    0 <= r < h,
                    0 <= w,
            ;
            assert(rows[r as int] == gv.cells.subrange(
                r as int * w as int,
                (r as int + 1) * w as int,
            ));
        }
        let ghost rowr = rows[r as int];
        let ghost base = out@;
        enc_u64(w as u64, out);
        let mut c: usize = 0;
        while c < w
            invariant
                grid.wf(),
                h == grid.height,
                w == grid.width,
                gv == grid@,
                rows == gv.rows(),
                r < h,
                c <= w,
                rowr == rows[r as int],
                rowr.len() == w,
                rowr == grid.cells@.subrange(r as int * w as int, (r as int + 1) * w as int),
                0 <= r as int * w as int,
                r as int * w as int + w as int == (r as int + 1) * w as int,
                (r as int + 1) * w as int <= grid.cells@.len(),
                out@ == base + spec_enc_u64(w as u64) + spec_enc_seq(
                    rowr.subrange(0, c as int),
                    color_enc_fn(),
                ),
            decreases w - c,
        {
            let cl = grid.cells.len();
            proof {
                assert(0 <= r as int * w as int && r as int * w as int + c < grid.cells@.len())
                    by (nonlinear_arith)
                    requires
                        0 <= r < h,
                        0 <= c < w,
                        grid.cells@.len() == h as int * w as int,
                ;
                assert(cl == grid.cells@.len());
            }
            let idx = r * w + c;
            let ghost pre = rowr.subrange(0, c as int);
            proof {
                assert(rowr[c as int] == grid.cells@[r as int * w as int + c as int]);
                lemma_enc_seq_push(pre, rowr[c as int], color_enc_fn());
                assert(rowr.subrange(0, c as int + 1) =~= pre.push(rowr[c as int]));
            }
            enc_color(&grid.cells[idx], out);
            assert(out@ =~= base + spec_enc_u64(w as u64) + spec_enc_seq(
                rowr.subrange(0, c as int + 1),
                color_enc_fn(),
            ));
            c = c + 1;
        }
        proof {
            assert(rowr.subrange(0, w as int) =~= rowr);
            assert(out@ =~= base + spec_enc_row(rowr));
            lemma_enc_seq_push(rows.subrange(0, r as int), rowr, row_enc_fn());
            assert(rows.subrange(0, r as int + 1) =~= rows.subrange(0, r as int).push(rowr));
            assert(out@ =~= old(out)@ + spec_enc_u64(h as u64) + spec_enc_seq(
                rows.subrange(0, r as int + 1),
                row_enc_fn(),
            ));
        }
        r = r + 1;
    }
    proof {
        assert(rows.subrange(0, h as int) =~= rows);
        assert(out@ =~= old(out)@ + spec_enc_grid(gv));
    }
}

/// Decodes one row; behaves exactly as [`spec_dec_row`].
pub fn dec_row(s: &[u8], pos: usize) -> (r: Result<(Vec<ColorRemote>, usize), DecodeError>)
    ensures
        match r {
            Ok(p) => spec_dec_row(s@, pos as int) == Ok::<(Seq<ColorRemote>, int), DecodeError>(
                (p.0@, p.1 as int),
            ) && pos < p.1 <= s@.len(),
            Err(e) => spec_dec_row(s@, pos as int) == Err::<(Seq<ColorRemote>, int), DecodeError>(
                e,
            ),
        },
{
    let (n, start) = match dec_u64(s, pos) {
        Ok(p) => p,
        Err(e) => {
            return Err(e);
        },
    };
    let mut acc: Vec<ColorRemote> = Vec::new();
    let mut cur: usize = start;
    let mut k: u64 = 0;
    while k < n
        invariant
            k <= n,
            pos < start <= cur <= s@.len(),
            spec_dec_u64(s@, pos as int) == Ok::<(u64, int), DecodeError>((n, start as int)),
            spec_dec_seq(s@, start as int, n as int, color_dec_fn()) == seq_cont(
                acc@,
                spec_dec_seq(s@, cur as int, n - k, color_dec_fn()),
            ),
        decreases n - k,
    {
        proof {
            assert(color_dec_fn()(s@, cur as int) == spec_dec_color(s@, cur as int));
        }
        match dec_color(s, cur) {
            Ok(p) => {
                proof {
                    assert(spec_dec_seq(s@, cur as int, n - k, color_dec_fn()) == seq_cont1(
                        p.0,
                        spec_dec_seq(s@, p.1 as int, n - k - 1, color_dec_fn()),
                    ));
                    lemma_seq_cont_shift(
                        acc@,
                        p.0,
                        spec_dec_seq(s@, p.1 as int, n - k - 1, color_dec_fn()),
                    );
                }
                acc.push(p.0);
                cur = p.1;
            },
            Err(e) => {
                assert(spec_dec_seq(s@, cur as int, n - k, color_dec_fn()) == Err::<
                    (Seq<ColorRemote>, int),
                    DecodeError,
                >(e));
                return Err(e);
            },
        }
        k = k + 1;
    }
    proof {
        lemma_seq_cont_done(acc@, cur as int);
    }
    Ok((acc, cur))
}

/// Deserializes a grid value; behaves exactly as [`spec_dec_grid`] and
/// returns a well-formed grid.
pub fn deserialize(s: &[u8], pos: usize) -> (r: Result<(PixelGrid, usize), DecodeError>)
    ensures
        match r {
            Ok(p) => spec_dec_grid(s@, pos as int) == Ok::<(GridView, int), DecodeError>(
                (p.0@, p.1 as int),
            ) && p.0.wf() && pos < p.1 <= s@.len(),
            Err(e) => spec_dec_grid(s@, pos as int) == Err::<(GridView, int), DecodeError>(e),
        },
{
    let (h, start) = match dec_u64(s, pos) {
        Ok(p) => p,
        Err(e) => {
            return Err(e);
        },
    };
    let mut rvec: Vec<Vec<ColorRemote>> = Vec::new();
    let mut cur: usize = start;
    let mut k: u64 = 0;
    while k < h
        invariant
            k <= h,
            pos < start <= cur <= s@.len(),
            rows_view(rvec@).len() == k as int,
            spec_dec_u64(s@, pos as int) == Ok::<(u64, int), DecodeError>((h, start as int)),
            spec_dec_seq(s@, start as int, h as int, row_dec_fn()) == seq_cont(
                rows_view(rvec@),
                spec_dec_seq(s@, cur as int, h - k, row_dec_fn()),
            ),
        decreases h - k,
    {
        proof {
            assert(row_dec_fn()(s@, cur as int) == spec_dec_row(s@, cur as int));
        }
        let ghost before = rows_view(rvec@);
        match dec_row(s, cur) {
            Ok(p) => {
                proof {
                    assert(spec_dec_seq(s@, cur as int, h - k, row_dec_fn()) == seq_cont1(
                        p.0@,
                        spec_dec_seq(s@, p.1 as int, h - k - 1, row_dec_fn()),
                    ));
                    lemma_seq_cont_shift(
                        before,
                        p.0@,
                        spec_dec_seq(s@, p.1 as int, h - k - 1, row_dec_fn()),
                    );
                }
                rvec.push(p.0);
                cur = p.1;
                assert(rows_view(rvec@) =~= before.push(rvec@[k as int]@));
            },
            Err(e) => {
                assert(spec_dec_seq(s@, cur as int, h - k, row_dec_fn()) == Err::<
                    (Seq<Seq<ColorRemote>>, int),
                    DecodeError,
                >(e));
                return Err(e);
            },
        }
        k = k + 1;
    }
    proof {
        lemma_seq_cont_done(rows_view(rvec@), cur as int);
    }
    match PixelGrid::from_rows(rvec) {
        Some(g) => Ok((g, cur)),
        None => Err(DecodeError { kind: DecodeErrorKind::Ragged, at: pos }),
    }
}

// ---------------------------------------------------------------------------
// Round-trip lemmas
// ---------------------------------------------------------------------------

/// Decoding a row from its own encoding yields the row back.
pub proof fn lemma_dec_enc_row(s: Seq<u8>, i: int, row: Seq<ColorRemote>)
    requires
        0 <= i,
        row.len() < 0x1_0000_0000_0000_0000,
        i + spec_enc_row(row).len() <= s.len(),
        s.subrange(i, i + spec_enc_row(row).len()) == spec_enc_row(row),
    ensures
        spec_dec_row(s, i) == Ok::<(Seq<ColorRemote>, int), DecodeError>(
            (row, i + spec_enc_row(row).len()),
        ),
{
    let cnt = spec_enc_u64(row.len() as u64);
    let body = spec_enc_seq(row, color_enc_fn());
    lemma_concat_split(s, i, cnt, body);
    lemma_dec_enc_u64(s, i, row.len() as u64);
    assert(dec_inverts_enc_on(s, row, color_enc_fn(), color_dec_fn())) by {
        assert forall|j: int, k: int|
            #![trigger color_dec_fn()(s, j), color_enc_fn()(row[k])]
            (0 <= k < row.len() && 0 <= j && j + color_enc_fn()(row[k]).len() <= s.len()
                && s.subrange(j, j + color_enc_fn()(row[k]).len()) == color_enc_fn()(
                row[k],
            )) implies color_dec_fn()(s, j) == Ok::<(ColorRemote, int), DecodeError>(
            (row[k], j + color_enc_fn()(row[k]).len()),
        ) by {
            assert(color_enc_fn()(row[k]) == spec_enc_color(row[k]));
            lemma_dec_enc_color(s, j, row[k]);
            assert(color_dec_fn()(s, j) == spec_dec_color(s, j));
        }
    }
    lemma_dec_enc_seq(s, i + cnt.len(), row, color_enc_fn(), color_dec_fn());
}

/// Decoding a row list from its own encoding yields the rows back, ragged or
/// not: the shape check happens after the rows are read.
pub proof fn lemma_dec_enc_rows(s: Seq<u8>, i: int, rows: Seq<Seq<ColorRemote>>)
    requires
        0 <= i,
        rows.len() < 0x1_0000_0000_0000_0000,
        forall|r: int|
            0 <= r < rows.len() ==> (#[trigger] rows[r]).len() < 0x1_0000_0000_0000_0000,
        i + spec_enc_rows(rows).len() <= s.len(),
        s.subrange(i, i + spec_enc_rows(rows).len()) == spec_enc_rows(rows),
    ensures
        spec_dec_u64(s, i) == Ok::<(u64, int), DecodeError>(
            (rows.len() as u64, i + spec_enc_u64(rows.len() as u64).len()),
        ),
        spec_dec_seq(
            s,
            i + spec_enc_u64(rows.len() as u64).len(),
            rows.len() as int,
            row_dec_fn(),
        ) == Ok::<(Seq<Seq<ColorRemote>>, int), DecodeError>(
            (rows, i + spec_enc_rows(rows).len()),
        ),
{
    let cnt = spec_enc_u64(rows.len() as u64);
    let body = spec_enc_seq(rows, row_enc_fn());
    lemma_concat_split(s, i, cnt, body);
    lemma_dec_enc_u64(s, i, rows.len() as u64);
    assert(dec_inverts_enc_on(s, rows, row_enc_fn(), row_dec_fn())) by {
        assert forall|j: int, k: int|
            #![trigger row_dec_fn()(s, j), row_enc_fn()(rows[k])]
            (0 <= k < rows.len() && 0 <= j && j + row_enc_fn()(rows[k]).len() <= s.len()
                && s.subrange(j, j + row_enc_fn()(rows[k]).len()) == row_enc_fn()(
                rows[k],
            )) implies row_dec_fn()(s, j) == Ok::<(Seq<ColorRemote>, int), DecodeError>(
            (rows[k], j + row_enc_fn()(rows[k]).len()),
        ) by {
            assert(row_enc_fn()(rows[k]) == spec_enc_row(rows[k]));
            lemma_dec_enc_row(s, j, rows[k]);
            assert(row_dec_fn()(s, j) == spec_dec_row(s, j));
        }
    }
    lemma_dec_enc_seq(s, i + cnt.len(), rows, row_enc_fn(), row_dec_fn());
}

/// The rows of a well-formed grid flatten back to its cell buffer.
pub proof fn lemma_subrange_rows_flatten(cells: Seq<ColorRemote>, h: nat, w: nat)
    requires
        cells.len() == h * w,
    ensures
        Seq::new(h, |r: int| cells.subrange(r * w, (r + 1) * w)).flatten() =~= cells,
    decreases h,
{
    let rows = Seq::new(h, |r: int| cells.subrange(r * w, (r + 1) * w));
    if h == 0 {
        assert(rows.flatten() =~= cells);
    } else {
        assert(0 <= w <= h * w && (h - 1) * w == h * w - w) by (nonlinear_arith)
            requires
                h >= 1,
                w >= 0,
        ;
        let head = cells.subrange(0, w as int);
        let tail = cells.subrange(w as int, cells.len() as int);
        assert(tail.len() == (h - 1) * w);
        lemma_subrange_rows_flatten(tail, (h - 1) as nat, w);
        let trows = Seq::new((h - 1) as nat, |r: int| tail.subrange(r * w, (r + 1) * w));
        assert(rows.drop_first() =~= trows) by {
            assert forall|k: int| 0 <= k < h - 1 implies rows.drop_first()[k] == trows[k] by {
                assert((k + 1) * w == k * w + w && (k + 2) * w == (k + 1) * w + w && 0 <= k * w && (
                k + 2) * w <= h * w) by (nonlinear_arith)
                    requires
                        0 <= k < h - 1,
                        w >= 0,
                ;
                assert(rows.drop_first()[k] == cells.subrange((k + 1) * w, (k + 2) * w));
                cells.lemma_slice_of_slice(w as int, cells.len() as int, k * w, (k + 1) * w);
                assert(trows[k] == tail.subrange(k * w, (k + 1) * w));
            }
        }
        assert(rows[0] == head);
        assert(rows.flatten() == rows.first() + rows.drop_first().flatten());
        assert(head + tail =~= cells);
    }
}

/// Decoding a grid value from its own encoding yields the grid back. A grid
/// of height zero must have width zero: the wire carries no rows for it, so
/// no other width could be recovered.
pub proof fn lemma_dec_enc_grid(s: Seq<u8>, i: int, gv: GridView)
    requires
        0 <= i,
        gv.wf(),
        gv.height > 0 || gv.width == 0,
        gv.height < 0x1_0000_0000_0000_0000,
        gv.width < 0x1_0000_0000_0000_0000,
        i + spec_enc_grid(gv).len() <= s.len(),
        s.subrange(i, i + spec_enc_grid(gv).len()) == spec_enc_grid(gv),
    ensures
        spec_dec_grid(s, i) == Ok::<(GridView, int), DecodeError>((gv, i + spec_enc_grid(gv).len())),
{
    let rows = gv.rows();
    let h = gv.height;
    let w = gv.width;
    assert forall|r: int| 0 <= r < rows.len() implies (#[trigger] rows[r]).len() == w by {
        assert(0 <= r * w && (r + 1) * w <= h * w && (r + 1) * w == r * w + w) by (nonlinear_arith)
            requires
                0 <= r < h,
                w >= 0,
        ;
        assert(rows[r] == gv.cells.subrange(r * w, (r + 1) * w));
    }
    lemma_dec_enc_rows(s, i, rows);
    if h == 0 {
        assert(0 * w == 0) by (nonlinear_arith);
        assert(gv =~= GridView { height: 0, width: 0, cells: Seq::empty() });
        assert(spec_grid_of_rows(rows) == Some(gv));
    } else {
        assert(spec_rows_rect(rows));
        lemma_subrange_rows_flatten(gv.cells, h, w);
        assert(rows[0].len() == w);
        assert(spec_grid_of_rows(rows) == Some(
            GridView { height: rows.len(), width: rows[0].len(), cells: rows.flatten() },
        ));
        assert(GridView { height: rows.len(), width: rows[0].len(), cells: rows.flatten() } =~= gv);
    }
}

// ---------------------------------------------------------------------------
// Laws
// ---------------------------------------------------------------------------

/// For every well-formed rectangular grid, encoding and then decoding yields
/// a grid with the same height, the same width and the same cells in
/// row-major order. A grid of height zero is covered with width zero; the
/// wire format carries no rows for it, so a positive width could not come
/// back.
pub proof fn lemma_grid_round_trip(gv: GridView)
    requires
        gv.wf(),
        gv.height > 0 || gv.width == 0,
        gv.height < 0x1_0000_0000_0000_0000,
        gv.width < 0x1_0000_0000_0000_0000,
    ensures
        spec_dec_grid(spec_enc_grid(gv), 0) == Ok::<(GridView, int), DecodeError>(
            (gv, spec_enc_grid(gv).len() as int),
        ),
{
    let s = spec_enc_grid(gv);
    assert(s.subrange(0, s.len() as int) =~= s);
    lemma_dec_enc_grid(s, 0, gv);
}

/// For every ragged row list of two or more rows, decoding its encoding
/// fails with the shape-violation error, placed at the value's start: rows
/// of unequal length are rejected, never padded.
pub proof fn lemma_ragged_rows_rejected(rows: Seq<Seq<ColorRemote>>)
    requires
        rows.len() >= 2,
        rows.len() < 0x1_0000_0000_0000_0000,
        forall|r: int|
            0 <= r < rows.len() ==> (#[trigger] rows[r]).len() < 0x1_0000_0000_0000_0000,
        !spec_rows_rect(rows),
    ensures
        spec_dec_grid(spec_enc_rows(rows), 0) == Err::<(GridView, int), DecodeError>(
            DecodeError { kind: DecodeErrorKind::Ragged, at: 0 },
        ),
{
    let s = spec_enc_rows(rows);
    assert(s.subrange(0, s.len() as int) =~= s);
    lemma_dec_enc_rows(s, 0, rows);
    assert(spec_grid_of_rows(rows) is None);
}

/// The two degenerate empty shapes round-trip: the grid of no rows comes
/// back as the zero-by-zero grid, and a single row of zero columns comes
/// back as a one-by-zero grid, both without cells and without touching the
/// ragged-row check.
pub proof fn lemma_empty_grid_round_trip()
    ensures
        spec_dec_grid(
            spec_enc_grid(GridView { height: 0, width: 0, cells: Seq::empty() }),
            0,
        ) == Ok::<(GridView, int), DecodeError>(
            (
                GridView { height: 0, width: 0, cells: Seq::empty() },
                spec_enc_grid(GridView { height: 0, width: 0, cells: Seq::empty() }).len() as int,
            ),
        ),
        spec_dec_grid(
            spec_enc_grid(GridView { height: 1, width: 0, cells: Seq::empty() }),
            0,
        ) == Ok::<(GridView, int), DecodeError>(
            (
                GridView { height: 1, width: 0, cells: Seq::empty() },
                spec_enc_grid(GridView { height: 1, width: 0, cells: Seq::empty() }).len() as int,
            ),
        ),
{
    let zero = GridView { height: 0, width: 0, cells: Seq::empty() };
    let one = GridView { height: 1, width: 0, cells: Seq::empty() };
    assert(zero.wf() && one.wf()) by {
        assert(0 * 0 == 0 && 1 * 0 == 0) by (nonlinear_arith);
    }
    lemma_grid_round_trip(zero);
    lemma_grid_round_trip(one);
}

} // verus!
