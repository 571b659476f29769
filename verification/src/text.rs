use vstd::prelude::*;

verus! {

/// The decimal digit string of a nonnegative integer, most significant
/// digit first, as ASCII bytes.
pub open spec fn decimal_of(n: nat) -> Seq<u8>
    decreases n,
{
    if n < 10 {
        seq![(48 + n) as u8]
    } else {
        decimal_of(n / 10) + seq![(48 + n % 10) as u8]
    }
}

/// Appends the decimal digits of `n` to `out`.
pub fn push_decimal(n: usize, out: &mut Vec<u8>)
    ensures
        final(out)@ == old(out)@ + decimal_of(n as nat),
    decreases n,
{
    if n < 10 {
        out.push(48 + n as u8);
    } else {
        push_decimal(n / 10, out);
        out.push(48 + (n % 10) as u8);
    }
}

/// Copies the byte range `[from, to)` of `src` into a fresh vector.
pub fn sub_bytes(src: &Vec<u8>, from: usize, to: usize) -> (r: Vec<u8>)
    requires
        from <= to <= src@.len(),
    ensures
        r@ == src@.subrange(from as int, to as int),
{
    let mut r: Vec<u8> = Vec::new();
    let mut i: usize = from;
    while i < to
        invariant
            from <= i <= to <= src@.len(),
            r@ == src@.subrange(from as int, i as int),
        decreases to - i,
    {
        r.push(src[i]);
        i = i + 1;
    }
    r
}

/// True when the byte range `[from, to)` of `a` equals the whole of `b`.
pub fn range_eq(a: &Vec<u8>, from: usize, to: usize, b: &Vec<u8>) -> (r: bool)
    requires
        from <= to <= a@.len(),
    ensures
        r <==> a@.subrange(from as int, to as int) == b@,
{
    if to - from != b.len() {
        return false;
    }
    let mut i: usize = 0;
    while i < b.len()
        invariant
            from <= to <= a@.len(),
            to - from == b@.len(),
            i <= b@.len(),
            forall|k: int| 0 <= k < i ==> a@[from + k] == b@[k],
        decreases b@.len() - i,
    {
        if a[from + i] != b[i] {
            assert(a@.subrange(from as int, to as int)[i as int] != b@[i as int]);
            return false;
        }
        i = i + 1;
    }
    assert(a@.subrange(from as int, to as int) =~= b@);
    true
}

/// The lines joined with a single newline byte between consecutive lines,
/// starting from index `i`.
pub open spec fn join_from(lines: Seq<Vec<u8>>, i: int) -> Seq<u8>
    decreases lines.len() - i,
{
    if i < 0 || i >= lines.len() {
        Seq::empty()
    } else if i == lines.len() - 1 {
        lines[i]@
    } else {
        lines[i]@ + seq![10u8] + join_from(lines, i + 1)
    }
}

/// A multi-line text assembled from its lines: the body text a caller
/// builds from an ordered sequence of text lines.
pub open spec fn join_model(lines: Seq<Vec<u8>>) -> Seq<u8> {
    join_from(lines, 0)
}

/// Joins `lines` with a newline byte between consecutive lines.
pub fn join_lines(lines: &Vec<Vec<u8>>) -> (r: Vec<u8>)
    ensures
        r@ == join_model(lines@),
{
    let mut r: Vec<u8> = Vec::new();
    if lines.len() == 0 {
        return r;
    }
    let mut i: usize = 0;
    while i < lines.len()
        invariant
            0 < lines@.len(),
            i <= lines@.len(),
            join_model(lines@) == r@ + join_from(lines@, i as int),
        decreases lines@.len() - i,
    {
        let line = &lines[i];
        let mut j: usize = 0;
        while j < line.len()
            invariant
                j <= line@.len(),
                line@ == lines@[i as int]@,
                i < lines@.len(),
                join_model(lines@) == r@ + line@.subrange(j as int, line@.len() as int)
                    + (if i + 1 < lines@.len() { seq![10u8] + join_from(lines@, i + 1) } else { Seq::<u8>::empty() }),
            decreases line@.len() - j,
        {
            r.push(line[j]);
            j = j + 1;
            assert(join_model(lines@) == r@ + line@.subrange(j as int, line@.len() as int)
                + (if i + 1 < lines@.len() { seq![10u8] + join_from(lines@, i + 1) } else { Seq::<u8>::empty() }));
        }
        if i + 1 < lines.len() {
            r.push(10u8);
        }
        i = i + 1;
    }
    r
}

} // verus!
