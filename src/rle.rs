use vstd::prelude::*;

verus! {

/// Decompresses `need` bytes from the run-length data starting at `p` and
/// ending before `end`: the bytes produced and the position just past the
/// last control or data byte read. `None` when the data ends first or a run
/// would go past `need`.
///
/// A control byte `c` below 128 copies the next `c + 1` bytes; 128 is skipped;
/// above 128 it repeats the next byte `257 - c` times.
pub open spec fn unpack(s: Seq<u8>, p: int, end: int, need: nat) -> Option<(Seq<u8>, int)>
    decreases end - p, need,
{
    if need == 0 {
        Some((Seq::<u8>::empty(), p))
    } else if p < 0 || p >= end || end > s.len() {
        None
    } else {
        let c = s[p] as int;
        if c == 128 {
            unpack(s, p + 1, end, need)
        } else if c < 128 {
            let n = c + 1;
            if n > need || p + 1 + n > end {
                None
            } else {
                match unpack(s, p + 1 + n, end, (need - n) as nat) {
                    Some((rest, e)) => Some((s.subrange(p + 1, p + 1 + n) + rest, e)),
                    None => None,
                }
            }
        } else {
            let n = 257 - c;
            if n > need || p + 2 > end {
                None
            } else {
                match unpack(s, p + 2, end, (need - n) as nat) {
                    Some((rest, e)) => Some((Seq::new(n as nat, |i: int| s[p + 1]) + rest, e)),
                    None => None,
                }
            }
        }
    }
}

/// Decompresses `rows` rows of `width` bytes each, one after the other.
pub open spec fn unpack_rows(s: Seq<u8>, p: int, end: int, width: nat, rows: nat) -> Option<(Seq<u8>, int)>
    decreases rows,
{
    if rows == 0 {
        Some((Seq::<u8>::empty(), p))
    } else {
        match unpack(s, p, end, width) {
            Some((row, e)) => match unpack_rows(s, e, end, width, (rows - 1) as nat) {
                Some((rest, e2)) => Some((row + rest, e2)),
                None => None,
            },
            None => None,
        }
    }
}

/// What a successful decompression produces: exactly `need` bytes, and an
/// end position within the data.
pub proof fn lemma_unpack_len(s: Seq<u8>, p: int, end: int, need: nat)
    requires
        unpack(s, p, end, need) is Some,
    ensures
        unpack(s, p, end, need).unwrap().0.len() == need,
        need > 0 ==> p < unpack(s, p, end, need).unwrap().1 <= end,
        need == 0 ==> unpack(s, p, end, need).unwrap().1 == p,
    decreases end - p, need,
{
    if need > 0 {
        let c = s[p] as int;
        if c == 128 {
            lemma_unpack_len(s, p + 1, end, need);
        } else if c < 128 {
            let n = c + 1;
            lemma_unpack_len(s, p + 1 + n, end, (need - n) as nat);
        } else {
            let n = 257 - c;
            lemma_unpack_len(s, p + 2, end, (need - n) as nat);
        }
    }
}

/// Decompressed rows come to exactly `width * rows` bytes.
pub proof fn lemma_unpack_rows_len(s: Seq<u8>, p: int, end: int, width: nat, rows: nat)
    requires
        unpack_rows(s, p, end, width, rows) is Some,
    ensures
        unpack_rows(s, p, end, width, rows).unwrap().0.len() == width * rows,
        p <= end ==> p <= unpack_rows(s, p, end, width, rows).unwrap().1 <= end,
    decreases rows,
{
    if rows > 0 {
        let e = unpack(s, p, end, width).unwrap().1;
        lemma_unpack_len(s, p, end, width);
        lemma_unpack_rows_len(s, e, end, width, (rows - 1) as nat);
        let r1 = (rows - 1) as nat;
        assert(width * rows == width + width * r1) by (nonlinear_arith)
            requires
                r1 + 1 == rows,
        ;
        let row = unpack(s, p, end, width).unwrap().0;
        let rest = unpack_rows(s, e, end, width, r1).unwrap().0;
        assert(unpack_rows(s, p, end, width, rows).unwrap().0 == row + rest);
    } else {
        assert(width * rows == 0) by (nonlinear_arith)
            requires
                rows == 0,
        ;
    }
}

/// Decompresses one row of `need` bytes from `s[p .. end]`, returning the row
/// and the position after the bytes used; bytes after that are left for the
/// next row.
pub fn unpack_row(s: &[u8], p: usize, end: usize, need: usize) -> (r: Option<(Vec<u8>, usize)>)
    requires
        end <= s@.len(),
    ensures
        match unpack(s@, p as int, end as int, need as nat) {
            Some((row, e)) => r is Some && r.unwrap().0@ == row && r.unwrap().1 == e,
            None => r is None,
        },
{
    let mut out: Vec<u8> = Vec::new();
    let mut q: usize = p;
    while out.len() < need
        invariant
            end <= s@.len(),
            out@.len() <= need,
            unpack(s@, p as int, end as int, need as nat) == (match unpack(
                s@,
                q as int,
                end as int,
                (need - out@.len()) as nat,
            ) {
                Some((rest, e)) => Some((out@ + rest, e)),
                None => None,
            }),
        decreases end - q, need - out@.len(),
    {
        let left: usize = need - out.len();
        if q >= end {
            return None;
        }
        let c: u8 = s[q];
        if c == 128 {
            q = q + 1;
        } else if c < 128 {
            let n: usize = c as usize + 1;
            if n > left || end - q - 1 < n {
                return None;
            }
            let ghost before = out@;
            let mut i: usize = q + 1;
            while i < q + 1 + n
                invariant
                    q + 1 <= i <= q + 1 + n,
                    q + 1 + n <= end <= s@.len(),
                    out@ == before + s@.subrange(q + 1, i as int),
                decreases q + 1 + n - i,
            {
                out.push(s[i]);
                i = i + 1;
                assert(out@ =~= before + s@.subrange(q + 1, i as int));
            }
            proof {
                let rest = unpack(s@, q + 1 + n, end as int, (need - out@.len()) as nat);
                if rest is Some {
                    assert(before + (s@.subrange(q + 1, q + 1 + n) + rest.unwrap().0) =~= out@ + rest.unwrap().0);
                }
            }
            q = q + 1 + n;
        } else {
            let n: usize = 257 - c as usize;
            if n > left || end - q < 2 {
                return None;
            }
            let b: u8 = s[q + 1];
            let ghost before = out@;
            let mut i: usize = 0;
            while i < n
                invariant
                    i <= n,
                    out@ == before + Seq::new(i as nat, |k: int| b),
                decreases n - i,
            {
                out.push(b);
                i = i + 1;
                assert(out@ =~= before + Seq::new(i as nat, |k: int| b));
            }
            proof {
                let rest = unpack(s@, q + 2, end as int, (need - out@.len()) as nat);
                if rest is Some {
                    assert(before + (Seq::new(n as nat, |k: int| s@[q + 1]) + rest.unwrap().0) =~= out@ + rest.unwrap().0);
                }
            }
            q = q + 2;
        }
    }
    proof {
        assert(out@ + Seq::<u8>::empty() =~= out@);
    }
    Some((out, q))
}

/// Decompresses `rows` rows of `width` bytes each from `s[p .. end]`.
pub fn unpack_rows_exec(s: &[u8], p: usize, end: usize, width: usize, rows: usize) -> (r: Option<(Vec<u8>, usize)>)
    requires
        end <= s@.len(),
    ensures
        match unpack_rows(s@, p as int, end as int, width as nat, rows as nat) {
            Some((data, e)) => r is Some && r.unwrap().0@ == data && r.unwrap().1 == e,
            None => r is None,
        },
{
    let mut out: Vec<u8> = Vec::new();
    let mut q: usize = p;
    let mut i: usize = 0;
    while i < rows
        invariant
            end <= s@.len(),
            i <= rows,
            unpack_rows(s@, p as int, end as int, width as nat, rows as nat) == (match unpack_rows(
                s@,
                q as int,
                end as int,
                width as nat,
                (rows - i) as nat,
            ) {
                Some((rest, e)) => Some((out@ + rest, e)),
                None => None,
            }),
        decreases rows - i,
    {
        match unpack_row(s, q, end, width) {
            Some((row, e)) => {
                let ghost before = out@;
                let mut row = row;
                out.append(&mut row);
                proof {
                    let rest = unpack_rows(s@, e as int, end as int, width as nat, (rows - i - 1) as nat);
                    if rest is Some {
                        assert(before + (unpack(s@, q as int, end as int, width as nat).unwrap().0 + rest.unwrap().0)
                            =~= out@ + rest.unwrap().0);
                    }
                }
                q = e;
            },
            None => {
                return None;
            },
        }
        i = i + 1;
    }
    proof {
        assert(out@ + Seq::<u8>::empty() =~= out@);
    }
    Some((out, q))
}

/// The number of leading bytes of `row` equal to its first, at most `cap`.
pub open spec fn run_len(row: Seq<u8>, cap: nat) -> nat
    decreases cap,
{
    if cap <= 1 || row.len() < 2 || row[0] != row[1] {
        1
    } else {
        1 + run_len(row.drop_first(), (cap - 1) as nat)
    }
}

/// A reference encoder: a run of two or more equal bytes (at most 128)
/// becomes a repeat run, any other byte a one-byte literal run.
pub open spec fn pack(row: Seq<u8>) -> Seq<u8>
    decreases row.len(),
{
    if row.len() == 0 {
        Seq::<u8>::empty()
    } else {
        let k = run_len(row, 128);
        if 2 <= k <= row.len() {
            seq![(257 - k) as u8, row[0]] + pack(row.skip(k as int))
        } else {
            seq![0u8, row[0]] + pack(row.drop_first())
        }
    }
}

proof fn lemma_run_len(row: Seq<u8>, cap: nat)
    requires
        row.len() >= 1,
        cap >= 1,
    ensures
        1 <= run_len(row, cap) <= cap,
        run_len(row, cap) <= row.len(),
        forall|i: int| 0 <= i < run_len(row, cap) ==> #[trigger] row[i] == row[0],
    decreases cap,
{
    if !(cap <= 1 || row.len() < 2 || row[0] != row[1]) {
        lemma_run_len(row.drop_first(), (cap - 1) as nat);
        assert forall|i: int| 0 <= i < run_len(row, cap) implies #[trigger] row[i] == row[0] by {
            if i > 0 {
                assert(row[i] == row.drop_first()[i - 1]);
            }
        }
    }
}

proof fn lemma_unpack_packed(row: Seq<u8>, s: Seq<u8>, p: int, end: int)
    requires
        0 <= p,
        p + pack(row).len() <= end <= s.len(),
        s.subrange(p, p + pack(row).len()) == pack(row),
    ensures
        unpack(s, p, end, row.len()) == Some((row, p + pack(row).len())),
    decreases row.len(),
{
    if row.len() > 0 {
        let k = run_len(row, 128);
        lemma_run_len(row, 128);
        let packed = pack(row);
        if 2 <= k <= row.len() {
            let rest = row.skip(k as int);
            assert(s[p] == packed[0]);
            assert(s[p + 1] == packed[1]);
            assert(s.subrange(p + 2, p + 2 + pack(rest).len()) =~= pack(rest)) by {
                assert forall|i: int| 0 <= i < pack(rest).len() implies s.subrange(p + 2, p + 2 + pack(rest).len())[i]
                    == pack(rest)[i] by {
                    assert(s[p + 2 + i] == s.subrange(p, p + packed.len())[2 + i]);
                }
            }
            lemma_unpack_packed(rest, s, p + 2, end);
            assert(Seq::new(k, |i: int| s[p + 1]) + rest =~= row);
        } else {
            let rest = row.drop_first();
            assert(s[p] == packed[0]);
            assert(s.subrange(p + 2, p + 2 + pack(rest).len()) =~= pack(rest)) by {
                assert forall|i: int| 0 <= i < pack(rest).len() implies s.subrange(p + 2, p + 2 + pack(rest).len())[i]
                    == pack(rest)[i] by {
                    assert(s[p + 2 + i] == s.subrange(p, p + packed.len())[2 + i]);
                }
            }
            lemma_unpack_packed(rest, s, p + 2, end);
            assert(s[p + 1] == packed[1]);
            assert(s.subrange(p + 1, p + 2) + rest =~= row);
        }
    }
}

/// Decompressing what the reference encoder made of a row gives the row back,
/// using exactly the encoded bytes, whatever follows them.
pub proof fn lemma_round_trip(row: Seq<u8>, tail: Seq<u8>)
    ensures
        unpack(pack(row) + tail, 0, (pack(row).len() + tail.len()) as int, row.len()) == Some((row, pack(row).len() as int)),
{
    let s = pack(row) + tail;
    assert(s.subrange(0, pack(row).len() as int) =~= pack(row));
    lemma_unpack_packed(row, s, 0, s.len() as int);
}

} // verus!
